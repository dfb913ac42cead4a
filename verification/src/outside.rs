//! The calls into the outside world: substring search from the `subslice`
//! crate, and the pieces of `std` that vstd gives no specification for.

use vstd::prelude::*;

verus! {

use vstd::utf8::decode_utf8;
use vstd::utf8::valid_utf8;

/// What `char::to_lowercase` yields for a character. The Unicode lowercase
/// mapping is a fixed function of the character alone; its full table is not
/// restated here.
pub uninterp spec fn lower_of(c: char) -> Seq<char>;

/// Whether a character is whitespace: the characters with the Unicode
/// `White_Space` property, which is what `char::is_whitespace` tests.
pub open spec fn is_space(c: char) -> bool {
    ||| c == ' '
    ||| c == '\t'
    ||| c == '\n'
    ||| c == '\u{B}'
    ||| c == '\u{C}'
    ||| c == '\r'
    ||| c == '\u{85}'
    ||| c == '\u{A0}'
    ||| c == '\u{1680}'
    ||| (0x2000 <= (c as u32) && (c as u32) <= 0x200A)
    ||| c == '\u{2028}'
    ||| c == '\u{2029}'
    ||| c == '\u{202F}'
    ||| c == '\u{205F}'
    ||| c == '\u{3000}'
}

/// True when `needle` occurs as a contiguous run of bytes inside `hay`.
pub open spec fn contains_bytes(hay: Seq<u8>, needle: Seq<u8>) -> bool {
    exists|i: int|
        0 <= i && i + needle.len() <= hay.len() && #[trigger] hay.subrange(i, i + needle.len())
            == needle
}

/// Relies on `subslice::bmh::find`: Boyer-Moore-Horspool search that returns
/// the position of an occurrence of `needle` inside `hay`, and `None` exactly
/// when there is no occurrence. Its skip-table setup slices off the pattern's
/// last byte before guarding against an empty pattern, so an empty needle is
/// excluded here.
#[verifier::external_body]
pub(crate) fn find_sub(hay: &Vec<u8>, needle: &Vec<u8>) -> (r: Option<usize>)
    requires
        needle@.len() >= 1,
    ensures
        r is Some <==> contains_bytes(hay@, needle@),
        r matches Some(i) ==> i + needle@.len() <= hay@.len() && hay@.subrange(
            i as int,
            i + needle@.len(),
        ) == needle@,
{
    subslice::bmh::find(hay.as_slice(), needle.as_slice())
}

/// Relies on `char::to_lowercase`: yields the Unicode lowercase mapping of
/// the character, which is one or more characters and depends on the
/// character alone.
#[verifier::external_body]
pub(crate) fn char_lowercase(c: char) -> (r: Vec<char>)
    ensures
        r@ == lower_of(c),
        r@.len() >= 1,
{
    c.to_lowercase().collect()
}

/// Relies on `char::is_whitespace`: true exactly for characters with the
/// Unicode `White_Space` property, the set that `is_space` lists.
#[verifier::external_body]
pub(crate) fn char_is_space(c: char) -> (r: bool)
    ensures
        r == is_space(c),
{
    c.is_whitespace()
}

/// Relies on `str::chars`: yields the characters of the string in order.
#[verifier::external_body]
pub(crate) fn str_chars(s: &str) -> (r: Vec<char>)
    ensures
        r@ == s@,
{
    s.chars().collect()
}

/// Relies on `String::from_utf8`: on bytes that are valid UTF-8 it returns
/// the string those bytes spell.
#[verifier::external_body]
pub(crate) fn string_from_utf8(bytes: Vec<u8>) -> (r: String)
    requires
        valid_utf8(bytes@),
    ensures
        r@ == decode_utf8(bytes@),
{
    match String::from_utf8(bytes) {
        Ok(s) => s,
        Err(_) => String::new(),
    }
}

} // verus!
