//! Byte-to-text sanitization: strict UTF-8 decoding with a Latin-1
//! fallback, so that raw bytes of unknown encoding always become text.

use vstd::prelude::*;
use vstd::utf8::char_u32_cast;
use vstd::utf8::decode_utf8;
use vstd::utf8::is_scalar;
use vstd::utf8::valid_utf8;

verus! {

/// The text obtained by reading every byte as one Latin-1 code point
/// (byte value 0..=255 becomes the Unicode scalar of the same value).
pub open spec fn latin1_chars(bytes: Seq<u8>) -> Seq<char> {
    Seq::new(bytes.len(), |i: int| ((bytes[i] as u32) as char))
}

/// The text that sanitization yields for the given bytes: their UTF-8
/// decoding when they are valid UTF-8, else their Latin-1 reading.
pub open spec fn sanitized(bytes: Seq<u8>) -> Seq<char> {
    if valid_utf8(bytes) {
        decode_utf8(bytes)
    } else {
        latin1_chars(bytes)
    }
}

/// Relies on std::str::from_utf8: it returns Ok exactly when the bytes
/// are a valid UTF-8 encoding, and the returned text is their decoding.
#[verifier::external_body]
pub(crate) fn utf8_str(bytes: &[u8]) -> (r: Option<&str>)
    ensures
        match r {
            Some(s) => valid_utf8(bytes@) && s@ == decode_utf8(bytes@),
            None => !valid_utf8(bytes@),
        },
{
    std::str::from_utf8(bytes).ok()
}

/// Relies on String::push: it appends exactly the given character.
#[verifier::external_body]
pub(crate) fn push_char(s: &mut String, c: char)
    ensures
        final(s)@ == old(s)@.push(c),
{
    s.push(c);
}

/// Relies on char::from_u32: it returns Some exactly for Unicode scalar
/// values, and then the character with that value.
#[verifier::external_body]
pub(crate) fn char_from_u32(v: u32) -> (r: Option<char>)
    ensures
        match r {
            Some(c) => is_scalar(v) && c as u32 == v,
            None => !is_scalar(v),
        },
{
    char::from_u32(v)
}

/// Reads every byte as one Latin-1 code point.
fn latin1_string(bytes: &Vec<u8>) -> (r: String)
    ensures
        r@ == latin1_chars(bytes@),
{
    let mut s = String::new();
    let mut i: usize = 0;
    while i < bytes.len()
        invariant
            i <= bytes.len(),
            s@ =~= latin1_chars(bytes@).subrange(0, i as int),
        decreases bytes.len() - i,
    {
        let b = bytes[i];
        let co = char_from_u32(b as u32);
        let c = co.unwrap();
        proof {
            char_u32_cast(c, b as u32);
        }
        push_char(&mut s, c);
        i = i + 1;
        proof {
            assert(s@ =~= latin1_chars(bytes@).subrange(0, i as int));
        }
    }
    proof {
        assert(s@ =~= latin1_chars(bytes@));
    }
    s
}

/// Takes raw byte content and re-encodes it as text: strict UTF-8 when
/// the bytes are valid UTF-8, else a best-effort Latin-1 reading.
/// Total: sanitization never fails.
pub fn sanitize_string(csv_data: Vec<u8>) -> (r: String)
    ensures
        r@ == sanitized(csv_data@),
{
    match utf8_str(csv_data.as_slice()) {
        Some(s) => s.to_owned(),
        None => latin1_string(&csv_data),
    }
}

} // verus!
