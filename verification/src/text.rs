//! Text on the wire: UTF-8 validation and ASCII case folding.

use vstd::prelude::*;
use vstd::utf8::*;

verus! {

/// `core::str::Utf8Error`, what `core::str::from_utf8` gives for bytes that
/// are not valid UTF-8. Nothing inside it is looked at.
#[verifier::external_type_specification]
#[verifier::external_body]
pub struct ExUtf8Error(core::str::Utf8Error);

/// `core::str::from_utf8` accepts exactly the byte sequences that are valid
/// UTF-8, and the string slice it returns is made of the bytes it was given.
pub assume_specification<'a>[ core::str::from_utf8 ](v: &'a [u8]) -> (r: Result<
    &'a str,
    core::str::Utf8Error,
>)
    ensures
        r is Ok <==> valid_utf8(v@),
        r matches Ok(s) ==> encode_utf8(s@) == v@,
;

/// The text that `bytes` encode, where they are valid UTF-8.
pub open spec fn decode_text(bytes: Seq<u8>) -> Option<Seq<char>> {
    if valid_utf8(bytes) {
        Some(decode_utf8(bytes))
    } else {
        None
    }
}

/// Turns `bytes` into an owned string if they are valid UTF-8.
pub fn text_from_bytes(bytes: &[u8]) -> (r: Option<String>)
    ensures
        r.deep_view() == decode_text(bytes@),
{
    match core::str::from_utf8(bytes) {
        Ok(s) => {
            proof {
                encode_utf8_decode_utf8(s@);
            }
            Some(s.to_owned())
        },
        Err(_) => None,
    }
}

/// The lower-case form of an ASCII letter; every other byte stays as it is.
pub open spec fn ascii_lower(b: u8) -> u8 {
    if 65 <= b <= 90 {
        (b + 32) as u8
    } else {
        b
    }
}

/// Whether `a` and `b` are the same bytes once ASCII letters are folded to
/// one case.
pub open spec fn eq_ignore_ascii_case(a: Seq<u8>, b: Seq<u8>) -> bool {
    &&& a.len() == b.len()
    &&& forall|i: int| 0 <= i < a.len() ==> ascii_lower(#[trigger] a[i]) == ascii_lower(b[i])
}

fn lower(b: u8) -> (r: u8)
    ensures
        r == ascii_lower(b),
{
    if 65 <= b && b <= 90 {
        b + 32
    } else {
        b
    }
}

/// Compares two byte strings without regard to the case of ASCII letters.
pub fn same_ignoring_ascii_case(a: &[u8], b: &[u8]) -> (r: bool)
    ensures
        r == eq_ignore_ascii_case(a@, b@),
{
    if a.len() != b.len() {
        return false;
    }
    let mut i: usize = 0;
    while i < a.len()
        invariant
            a.len() == b.len(),
            i <= a.len(),
            forall|j: int| 0 <= j < i ==> ascii_lower(#[trigger] a@[j]) == ascii_lower(b@[j]),
        decreases a.len() - i,
    {
        if lower(a[i]) != lower(b[i]) {
            return false;
        }
        i = i + 1;
    }
    true
}

/// Whether `text` is `word`, without regard to the case of ASCII letters.
/// Both are compared byte by byte in their UTF-8 encoding.
pub open spec fn names(text: Seq<char>, word: Seq<char>) -> bool {
    eq_ignore_ascii_case(encode_utf8(text), encode_utf8(word))
}

/// Tells whether `text` is `word`, without regard to the case of ASCII
/// letters.
pub fn is_word(text: &str, word: &str) -> (r: bool)
    ensures
        r == names(text@, word@),
{
    same_ignoring_ascii_case(text.as_bytes(), word.as_bytes())
}

} // verus!
