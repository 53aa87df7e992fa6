//! Encoding of atom values and minting of ids, through outside crates.
use vstd::prelude::*;
use vstd::utf8::encode_utf8;

verus! {

/// The varint form of `n`: seven bits per byte, least significant first,
/// the high bit set on every byte but the last.
pub open spec fn varint(n: nat) -> Seq<u8>
    decreases n,
{
    if n < 128 {
        seq![n as u8]
    } else {
        seq![(n % 128 + 128) as u8] + varint(n / 128)
    }
}

/// The postcard encoding of a string with characters `s`: the length of its
/// UTF-8 bytes as a varint, then those bytes.
pub open spec fn text_bytes(s: Seq<char>) -> Seq<u8> {
    varint(encode_utf8(s).len()) + encode_utf8(s)
}

/// The string that postcard decodes from `b`, where `b` holds one.
pub uninterp spec fn text_of(b: Seq<u8>) -> Option<Seq<char>>;

/// Relies on postcard::to_allocvec: on a `str` it writes the length as a
/// varint and then the UTF-8 bytes, into a vector, which cannot fail; and
/// postcard::from_bytes for `String` reads that string back.
#[verifier::external_body]
pub(crate) fn encode_text(s: &str) -> (r: Vec<u8>)
    ensures
        r@ == text_bytes(s@),
        text_of(r@) == Some(s@),
{
    postcard::to_allocvec(s).unwrap()
}

/// Relies on postcard::from_bytes for `String`: whether it succeeds, and the
/// string it gives, depend on the bytes alone.
#[verifier::external_body]
pub(crate) fn decode_text(b: &Vec<u8>) -> (r: Option<String>)
    ensures
        r is Some == text_of(b@) is Some,
        r matches Some(t) ==> t@ == text_of(b@)->0,
{
    postcard::from_bytes::<String>(b.as_slice()).ok()
}

/// Relies on rand::random for `u128`: a uniformly drawn id. Nothing is known
/// of its value.
#[verifier::external_body]
pub(crate) fn mint_id() -> (r: u128) {
    rand::random::<u128>()
}

} // verus!
