use vstd::prelude::*;
use vstd::utf8::{decode_utf8, encode_utf8, valid_utf8};
use vstd::utf8::{encode_utf8_decode_utf8, encode_utf8_valid_utf8, is_ascii_chars};
use vstd::utf8::{is_ascii_chars_encode_utf8, char_u32_cast, char_is_scalar};

verus! {

/// True when every byte is plain ASCII.
pub open spec fn all_ascii(s: Seq<u8>) -> bool {
    forall|i: int| 0 <= i < s.len() ==> s[i] < 0x80
}

/// The characters spelled by a sequence of ASCII bytes.
pub open spec fn ascii_chars_of(s: Seq<u8>) -> Seq<char> {
    Seq::new(s.len(), |i: int| s[i] as char)
}

/// The characters a byte string decodes to, or the empty sequence where the
/// bytes are not well-formed UTF-8.
pub open spec fn utf8_or_empty(s: Seq<u8>) -> Seq<char> {
    if valid_utf8(s) {
        decode_utf8(s)
    } else {
        Seq::empty()
    }
}

/// ASCII bytes are well-formed UTF-8 and decode character by character.
pub proof fn lemma_ascii_bytes_utf8(s: Seq<u8>)
    requires
        all_ascii(s),
    ensures
        valid_utf8(s),
        decode_utf8(s) == ascii_chars_of(s),
        encode_utf8(ascii_chars_of(s)) == s,
{
    broadcast use char_u32_cast;
    broadcast use char_is_scalar;

    let c = ascii_chars_of(s);
    assert(is_ascii_chars(c));
    is_ascii_chars_encode_utf8(c);
    assert(encode_utf8(c) =~= s);
    encode_utf8_valid_utf8(c);
    encode_utf8_decode_utf8(c);
}

/// Relies on `String::from_utf8` from std: it succeeds exactly on
/// well-formed UTF-8 input, and the returned string spells the characters
/// those bytes encode.
#[verifier::external_body]
pub fn string_from_utf8(v: Vec<u8>) -> (r: Option<String>)
    ensures
        r is Some <==> valid_utf8(v@),
        r is Some ==> r.unwrap()@ == decode_utf8(v@),
{
    String::from_utf8(v).ok()
}

/// Build a string out of ASCII bytes.
pub fn ascii_bytes_to_string(v: Vec<u8>) -> (r: String)
    requires
        all_ascii(v@),
    ensures
        r@ == ascii_chars_of(v@),
{
    proof {
        lemma_ascii_bytes_utf8(v@);
    }
    match string_from_utf8(v) {
        Some(s) => s,
        None => vstd::pervasive::unreached(),
    }
}

/// Build a string out of arbitrary bytes, falling back to the empty string
/// on ill-formed UTF-8.
pub fn bytes_to_string_or_empty(v: Vec<u8>) -> (r: String)
    ensures
        r@ == utf8_or_empty(v@),
{
    match string_from_utf8(v) {
        Some(s) => s,
        None => String::new(),
    }
}

} // verus!
