//! Byte-oriented string primitives: a shared view over raw bytes, an exclusive
//! view, an owned growable byte string, and literal search, split and match
//! iteration over them. No text encoding is assumed anywhere.

pub mod byte_str;
pub mod byte_string;
pub mod escape;
pub mod iterators;
pub mod search;
pub mod segments;
pub mod theorems;

pub use byte_str::ByteStr;
pub use byte_str::ByteStrMut;
pub use byte_string::ByteString;
pub use search::ByteMatcher;
pub use search::DoubleEndedSearcher;
pub use search::ForwardSearcher;
pub use search::FullMatcher;
pub use search::IntoMatcher;
pub use search::Matcher;
pub use search::PrefixMatcher;
pub use search::ReverseSearcher;
pub use search::StrMatcher;
pub use search::SufixMatcher;
