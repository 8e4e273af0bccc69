//! `file://` addresses and the paths that they stand for.
use vstd::prelude::*;
use vstd::string::*;
use crate::file_paths::strip_path_prefix;
use crate::text::{replace_char, without_prefix};
use crate::{file_paths, text};

verus! {

/// The value of a hexadecimal digit, in either case.
pub open spec fn hex_value(b: u8) -> Option<u8> {
    if 0x30 <= b <= 0x39 {
        Some((b - 0x30) as u8)
    } else if 0x41 <= b <= 0x46 {
        Some((b - 0x41 + 10) as u8)
    } else if 0x61 <= b <= 0x66 {
        Some((b - 0x61 + 10) as u8)
    } else {
        None
    }
}

/// The byte that two characters behind a `%` stand for: two hexadecimal digits, or a `+` and one.
pub open spec fn escaped_byte(a: u8, b: u8) -> Option<u8> {
    match (hex_value(a), hex_value(b)) {
        (Some(x), Some(y)) => Some((x * 16 + y) as u8),
        (None, Some(y)) => if a == 0x2b {
            Some(y)
        } else {
            None
        },
        _ => None,
    }
}

/// Bytes with each `%` and two characters that stand for a byte replaced by it.
pub open spec fn unescaped(s: Seq<u8>) -> Seq<u8>
    decreases s.len(),
{
    if s.len() == 0 {
        Seq::empty()
    } else if s[0] == 0x25 && s.len() > 2 && escaped_byte(s[1], s[2]) is Some {
        seq![escaped_byte(s[1], s[2])->0] + unescaped(s.skip(3))
    } else {
        seq![s[0]] + unescaped(s.skip(1))
    }
}

/// What `String::from_utf8_lossy` makes of bytes.
pub uninterp spec fn lossy_text(bytes: Seq<u8>) -> Seq<char>;

/// Calls `String::from_utf8_lossy`. Claimed of it is that the text depends on the bytes alone, and
/// that bytes in UTF-8 give the text that they encode.
#[verifier::external_body]
pub(crate) fn text_from_utf8_lossy(bytes: &[u8]) -> (r: String)
    ensures
        r@ == lossy_text(bytes@),
        vstd::utf8::valid_utf8(bytes@) ==> r@ == vstd::utf8::decode_utf8(bytes@),
{
    String::from_utf8_lossy(bytes).to_string()
}

/// The value of a hexadecimal digit.
fn hex_digit(b: u8) -> (r: Option<u8>)
    ensures
        r == hex_value(b),
        r matches Some(x) ==> x < 16,
{
    if 0x30 <= b && b <= 0x39 {
        Some(b - 0x30)
    } else if 0x41 <= b && b <= 0x46 {
        Some(b - 0x41 + 10)
    } else if 0x61 <= b && b <= 0x66 {
        Some(b - 0x61 + 10)
    } else {
        None
    }
}

/// The byte that two characters behind a `%` stand for.
fn read_escape(a: u8, b: u8) -> (r: Option<u8>)
    ensures
        r == escaped_byte(a, b),
{
    match (hex_digit(a), hex_digit(b)) {
        (Some(x), Some(y)) => Some(x * 16 + y),
        (None, Some(y)) => if a == 0x2b {
            Some(y)
        } else {
            None
        },
        _ => None,
    }
}

/// Bytes with their escapes replaced.
fn unescape(bytes: &[u8]) -> (r: Vec<u8>)
    ensures
        r@ == unescaped(bytes@),
{
    let mut r: Vec<u8> = Vec::new();
    let mut i: usize = 0;
    assert(bytes@.skip(0) =~= bytes@);
    assert(r@ + unescaped(bytes@) =~= unescaped(bytes@));
    while i < bytes.len()
        invariant
            i <= bytes.len(),
            r@ + unescaped(bytes@.skip(i as int)) == unescaped(bytes@),
        decreases bytes.len() - i,
    {
        let ghost rest = bytes@.skip(i as int);
        let ghost before = r@;
        let escape: Option<u8> = if bytes[i] == 0x25 && bytes.len() - i > 2 {
            read_escape(bytes[i + 1], bytes[i + 2])
        } else {
            None
        };
        proof {
            assert(rest[0] == bytes@[i as int]);
            if rest.len() > 2 {
                assert(rest[1] == bytes@[i + 1]);
                assert(rest[2] == bytes@[i + 2]);
            }
        }
        match escape {
            Some(byte) => {
                assert(rest.skip(3) =~= bytes@.skip(i + 3));
                r.push(byte);
                assert(before.push(byte) + unescaped(rest.skip(3)) =~= before + (seq![byte]
                    + unescaped(rest.skip(3))));
                i += 3;
            },
            None => {
                assert(rest.skip(1) =~= bytes@.skip(i + 1));
                r.push(bytes[i]);
                assert(before.push(rest[0]) + unescaped(rest.skip(1)) =~= before + (seq![rest[0]]
                    + unescaped(rest.skip(1))));
                i += 1;
            },
        }
    }
    assert(bytes@.skip(i as int) =~= Seq::<u8>::empty());
    assert(r@ + Seq::<u8>::empty() =~= r@);
    r
}

/// A text with its `%` escapes replaced by the bytes that they stand for.
pub open spec fn percent_decoded(value: Seq<char>) -> Seq<char> {
    lossy_text(unescaped(vstd::utf8::encode_utf8(value)))
}

/// Replaces the `%` escapes of a text by the bytes that they stand for. Where the bytes are UTF-8,
/// the text is the one that they encode.
pub fn percent_decode(value: &str) -> (r: String)
    ensures
        r@ == percent_decoded(value@),
        vstd::utf8::valid_utf8(unescaped(vstd::utf8::encode_utf8(value@))) ==> r@
            == vstd::utf8::decode_utf8(unescaped(vstd::utf8::encode_utf8(value@))),
{
    let bytes = unescape(value.as_bytes());
    text_from_utf8_lossy(bytes.as_slice())
}

/// The path below a root that a `file://` address stands for, where it lies there.
pub open spec fn relative_path_of(uri: Seq<char>, root: Seq<char>) -> Option<Seq<char>> {
    match text::after_prefix(uri, "file://"@) {
        None => None,
        Some(path) => match file_paths::path_below(percent_decoded(path), root, true) {
            None => None,
            Some(relative) => Some(text::with_char_replaced(relative, '\\', '/')),
        },
    }
}

/// The path below a root that a `file://` address stands for, where it lies there.
pub fn uri_to_relative_path(uri: &str, root_path: &str) -> (r: Option<String>)
    ensures
        text::opt_text(r) == relative_path_of(uri@, root_path@),
{
    match without_prefix(uri, "file://") {
        None => None,
        Some(path) => {
            let decoded = percent_decode(path.as_str());
            match strip_path_prefix(decoded.as_str(), root_path) {
                None => None,
                Some(relative) => Some(replace_char(relative.as_str(), '\\', '/')),
            }
        },
    }
}

/// Bytes without a `%` stand for themselves.
pub proof fn plain_bytes_stay(s: Seq<u8>)
    requires
        !s.contains(0x25u8),
    ensures
        unescaped(s) == s,
    decreases s.len(),
{
    if s.len() > 0 {
        assert(s[0] != 0x25);
        assert forall|i: int| 0 <= i < s.skip(1).len() implies s.skip(1)[i] != 0x25 by {
            assert(s.skip(1)[i] == s[i + 1]);
        }
        plain_bytes_stay(s.skip(1));
        assert(s =~= seq![s[0]] + s.skip(1));
    }
}

} // verus!
