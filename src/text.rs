//! Decoding of ASCII-tagged payloads: lossy UTF-8, then trimming of white
//! space and NUL padding at both ends.
use vstd::prelude::*;

verus! {

/// The text that lossy UTF-8 decoding makes of `b`.
pub uninterp spec fn utf8_lossy(b: Seq<u8>) -> Seq<char>;

/// Unicode's White_Space property.
pub open spec fn is_white_space(c: char) -> bool {
    ||| '\u{9}' <= c <= '\u{d}'
    ||| c == ' '
    ||| c == '\u{85}'
    ||| c == '\u{a0}'
    ||| c == '\u{1680}'
    ||| '\u{2000}' <= c <= '\u{200a}'
    ||| c == '\u{2028}'
    ||| c == '\u{2029}'
    ||| c == '\u{202f}'
    ||| c == '\u{205f}'
    ||| c == '\u{3000}'
}

/// A character that trimming removes from the ends of a field.
pub open spec fn is_padding(c: char) -> bool {
    is_white_space(c) || c == '\0'
}

/// `s` without its leading padding.
pub open spec fn trim_start(s: Seq<char>) -> Seq<char>
    decreases s.len(),
{
    if s.len() > 0 && is_padding(s[0]) {
        trim_start(s.drop_first())
    } else {
        s
    }
}

/// `s` without its trailing padding.
pub open spec fn trim_end(s: Seq<char>) -> Seq<char>
    decreases s.len(),
{
    if s.len() > 0 && is_padding(s.last()) {
        trim_end(s.drop_last())
    } else {
        s
    }
}

/// `s` without padding at either end.
pub open spec fn trim_padding(s: Seq<char>) -> Seq<char> {
    trim_end(trim_start(s))
}

/// The text of an ASCII-tagged payload.
pub open spec fn field_text(b: Seq<u8>) -> Seq<char> {
    trim_padding(utf8_lossy(b))
}

/// Tells whether `c` is padding.
pub fn is_padding_char(c: char) -> (r: bool)
    ensures
        r == is_padding(c),
{
    ('\u{9}' <= c && c <= '\u{d}') || c == ' ' || c == '\u{85}' || c == '\u{a0}' || c
        == '\u{1680}' || ('\u{2000}' <= c && c <= '\u{200a}') || c == '\u{2028}' || c
        == '\u{2029}' || c == '\u{202f}' || c == '\u{205f}' || c == '\u{3000}' || c == '\0'
}

/// Relies on `String::from_utf8_lossy`: the decoded text depends on the bytes
/// alone.
#[verifier::external_body]
fn decode_lossy(b: &[u8]) -> (r: String)
    ensures
        r@ == utf8_lossy(b@),
{
    String::from_utf8_lossy(b).into_owned()
}

/// Relies on `str::trim_matches`: every leading and every trailing character
/// for which the predicate holds is removed, and nothing else.
#[verifier::external_body]
fn trim_text(s: &str) -> (r: String)
    ensures
        r@ == trim_padding(s@),
{
    s.trim_matches(|c: char| is_padding_char(c)).to_string()
}

/// The text of an ASCII-tagged payload: invalid UTF-8 is replaced, padding is
/// trimmed.
pub fn decode_field(payload: &[u8]) -> (r: String)
    ensures
        r@ == field_text(payload@),
{
    let decoded = decode_lossy(payload);
    trim_text(decoded.as_str())
}

} // verus!
