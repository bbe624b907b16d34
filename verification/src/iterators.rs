//! The iterators over a byte view: each is a small state machine whose steps
//! are specified over the states of `crate::segments`.

pub mod matches;
pub mod split;
pub mod windows;

pub use matches::MatchIndices;
pub use matches::MatchIndicesMut;
pub use matches::Matches;
pub use matches::MatchesBase;
pub use matches::MatchesBaseMut;
pub use matches::MatchesMut;
pub use matches::RMatchIndices;
pub use matches::RMatchIndicesMut;
pub use matches::RMatches;
pub use matches::RMatchesMut;
pub use split::RSplit;
pub use split::RSplitMut;
pub use split::RSplitN;
pub use split::RSplitNMut;
pub use split::Split;
pub use split::SplitBase;
pub use split::SplitBaseMut;
pub use split::SplitMut;
pub use split::SplitN;
pub use split::SplitNMut;
pub use windows::Chunks;
pub use windows::ChunksMut;
pub use windows::Windows;
