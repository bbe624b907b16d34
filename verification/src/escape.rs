//! The quoted, escaped rendering of a run of bytes: `b"` and `"` around it,
//! a backslash before a quote and a backslash, `\t`, `\r` and `\n` for tab,
//! carriage return and line feed, printable ASCII as it is, and `\x` with two
//! lower-case hex digits for every other byte.

use vstd::prelude::*;
use crate::byte_str::ByteStr;
use crate::byte_string::ByteString;

verus! {

/// ASCII code of the horizontal tab.
pub const TAB: u8 = 9;

/// ASCII code of the line feed.
pub const LINE_FEED: u8 = 10;

/// ASCII code of the carriage return.
pub const CARRIAGE_RETURN: u8 = 13;

/// ASCII code of the double quote.
pub const QUOTE: u8 = 34;

/// ASCII code of the backslash.
pub const BACKSLASH: u8 = 92;

/// ASCII code of the digit `0`.
pub const DIGIT_0: u8 = 48;

/// ASCII code of the letter `a`.
pub const LOWER_A: u8 = 97;

/// ASCII code of the letter `b`.
pub const LOWER_B: u8 = 98;

/// ASCII code of the letter `n`.
pub const LOWER_N: u8 = 110;

/// ASCII code of the letter `r`.
pub const LOWER_R: u8 = 114;

/// ASCII code of the letter `t`.
pub const LOWER_T: u8 = 116;

/// ASCII code of the letter `x`.
pub const LOWER_X: u8 = 120;

/// The hex digit of a value below 16, as an ASCII byte.
pub open spec fn hex_digit(nibble: u8) -> u8 {
    if nibble < 10 {
        (DIGIT_0 + nibble) as u8
    } else {
        (LOWER_A + nibble - 10) as u8
    }
}

/// The rendering of one byte.
pub open spec fn escape_byte(byte: u8) -> Seq<u8> {
    if byte == TAB {
        seq![BACKSLASH, LOWER_T]
    } else if byte == CARRIAGE_RETURN {
        seq![BACKSLASH, LOWER_R]
    } else if byte == LINE_FEED {
        seq![BACKSLASH, LOWER_N]
    } else if byte == BACKSLASH {
        seq![BACKSLASH, BACKSLASH]
    } else if byte == QUOTE {
        seq![BACKSLASH, QUOTE]
    } else if 0x20 <= byte <= 0x7E {
        seq![byte]
    } else {
        seq![BACKSLASH, LOWER_X, hex_digit(byte / 16), hex_digit(byte % 16)]
    }
}

/// The renderings of the bytes of `s`, one behind the other.
pub open spec fn escape_bytes(s: Seq<u8>) -> Seq<u8>
    decreases s.len(),
{
    if s.len() == 0 {
        Seq::empty()
    } else {
        escape_bytes(s.drop_last()) + escape_byte(s.last())
    }
}

/// The rendering of `s`, with `b"` before it and `"` behind.
pub open spec fn debug_bytes(s: Seq<u8>) -> Seq<u8> {
    seq![LOWER_B, QUOTE] + escape_bytes(s) + seq![QUOTE]
}

/// The characters that ASCII bytes stand for.
pub open spec fn ascii_chars(bytes: Seq<u8>) -> Seq<char> {
    bytes.map_values(|b: u8| b as char)
}

/// The rendering holds ASCII only.
pub proof fn lemma_debug_bytes_ascii(s: Seq<u8>)
    ensures
        forall|i: int| 0 <= i < debug_bytes(s).len() ==> #[trigger] debug_bytes(s)[i] < 128,
{
    lemma_escape_bytes_ascii(s);
}

proof fn lemma_escape_bytes_ascii(s: Seq<u8>)
    ensures
        forall|i: int| 0 <= i < escape_bytes(s).len() ==> #[trigger] escape_bytes(s)[i] < 128,
    decreases s.len(),
{
    if s.len() > 0 {
        lemma_escape_bytes_ascii(s.drop_last());
        let head = escape_bytes(s.drop_last());
        let tail = escape_byte(s.last());
        assert forall|k: int| 0 <= k < tail.len() implies #[trigger] tail[k] < 128 by {
            let byte = s.last();
            assert(byte / 16 < 16 && byte % 16 < 16);
        }
        assert forall|i: int| 0 <= i < escape_bytes(s).len() implies #[trigger] escape_bytes(s)[i]
            < 128 by {
            if i >= head.len() {
                assert(escape_bytes(s)[i] == tail[i - head.len()]);
            } else {
                assert(escape_bytes(s)[i] == head[i]);
            }
        }
    }
}

/// `String::from_utf8_lossy`: the text that the bytes spell. Of bytes that
/// are all ASCII it is the characters with those codes, one for each byte.
#[verifier::external_body]
fn string_from_ascii(bytes: &[u8]) -> (r: String)
    requires
        forall|i: int| 0 <= i < bytes@.len() ==> bytes@[i] < 128,
    ensures
        r@ == ascii_chars(bytes@),
{
    String::from_utf8_lossy(bytes).into_owned()
}

/// The hex digit of a value below 16, as an ASCII byte.
pub fn to_hex(nibble: u8) -> (r: u8)
    requires
        nibble < 16,
    ensures
        r == hex_digit(nibble),
{
    if nibble < 10 {
        DIGIT_0 + nibble
    } else {
        LOWER_A + nibble - 10
    }
}

impl<'a> ByteStr<'a> {
    /// The quoted, escaped rendering of the bytes, as ASCII bytes.
    pub fn debug_bytes(&self) -> (r: Vec<u8>)
        ensures
            r@ == debug_bytes(self@),
    {
        let n = self.len();
        let mut out: Vec<u8> = Vec::new();
        out.push(LOWER_B);
        out.push(QUOTE);
        let mut i: usize = 0;
        while i < n
            invariant
                n == self@.len(),
                i <= n,
                out@ == seq![LOWER_B, QUOTE] + escape_bytes(self@.subrange(0, i as int)),
            decreases n - i,
        {
            let byte = self.index(i);
            let ghost done = out@;
            proof {
                assert(self@.subrange(0, i + 1).drop_last() =~= self@.subrange(0, i as int));
            }
            if byte == TAB {
                out.push(BACKSLASH);
                out.push(LOWER_T);
            } else if byte == CARRIAGE_RETURN {
                out.push(BACKSLASH);
                out.push(LOWER_R);
            } else if byte == LINE_FEED {
                out.push(BACKSLASH);
                out.push(LOWER_N);
            } else if byte == BACKSLASH {
                out.push(BACKSLASH);
                out.push(BACKSLASH);
            } else if byte == QUOTE {
                out.push(BACKSLASH);
                out.push(QUOTE);
            } else if 0x20 <= byte && byte <= 0x7E {
                out.push(byte);
            } else {
                assert(byte >> 4 == byte / 16 && byte & 0xF == byte % 16) by (bit_vector);
                out.push(BACKSLASH);
                out.push(LOWER_X);
                out.push(to_hex(byte >> 4));
                out.push(to_hex(byte & 0xF));
            }
            assert(out@ =~= done + escape_byte(byte));
            assert(out@ =~= seq![LOWER_B, QUOTE] + escape_bytes(self@.subrange(0, i + 1)));
            i += 1;
        }
        assert(self@.subrange(0, n as int) =~= self@);
        out.push(QUOTE);
        out
    }

    /// The quoted, escaped rendering of the bytes, as text.
    pub fn to_debug_string(&self) -> (r: String)
        ensures
            r@ == ascii_chars(debug_bytes(self@)),
    {
        let bytes = self.debug_bytes();
        proof {
            lemma_debug_bytes_ascii(self@);
        }
        string_from_ascii(bytes.as_slice())
    }
}

impl ByteString {
    /// The quoted, escaped rendering of the bytes, as text.
    pub fn to_debug_string(&self) -> (r: String)
        ensures
            r@ == ascii_chars(debug_bytes(self@)),
    {
        self.as_byte_str().to_debug_string()
    }
}

} // verus!
