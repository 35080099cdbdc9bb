//! The record tag: a nested keyed-hash construction over a 64-byte key.
use crate::crypto::{hmac_raw_key, sha3_512, sha3_512_of};
use openssl::error::ErrorStack;
use vstd::prelude::*;

verus! {

/// Length of a MAC key and of a tag.
pub const MAC_KEY_LEN: usize = 64;

/// Inner pad byte.
pub const IPAD: u8 = 0x36;

/// Outer pad byte.
pub const OPAD: u8 = 0x5c;

/// Every byte of `key` xor `pad`.
pub open spec fn xor_pad(key: Seq<u8>, pad: u8) -> Seq<u8> {
    Seq::new(key.len(), |i: int| key[i] ^ pad)
}

/// The tag of `msg` under `key`:
/// `H((key ^ opad) || H((key ^ ipad) || msg))` with `H` SHA3-512.
pub open spec fn mac_of(key: Seq<u8>, msg: Seq<u8>) -> Seq<u8> {
    sha3_512_of(xor_pad(key, OPAD) + sha3_512_of(xor_pad(key, IPAD) + msg))
}

fn xor_with(key: &[u8], pad: u8) -> (r: Vec<u8>)
    ensures
        r@ == xor_pad(key@, pad),
{
    let mut out: Vec<u8> = Vec::new();
    let mut i: usize = 0;
    while i < key.len()
        invariant
            0 <= i <= key@.len(),
            out@ == xor_pad(key@.subrange(0, i as int), pad),
        decreases key@.len() - i,
    {
        out.push(key[i] ^ pad);
        i = i + 1;
        assert(out@ =~= xor_pad(key@.subrange(0, i as int), pad));
    }
    assert(key@.subrange(0, i as int) =~= key@);
    out
}

/// Computes the 64-byte tag `mac_of(key, message)`. The outer digest is
/// turned into an HMAC key and read back as raw bytes, which gives the
/// digest itself.
pub fn hmac(key: &[u8], message: &[u8]) -> (r: Result<Vec<u8>, ErrorStack>)
    requires
        key@.len() == MAC_KEY_LEN,
    ensures
        r is Ok ==> r->Ok_0@ == mac_of(key@, message@) && r->Ok_0@.len() == MAC_KEY_LEN,
{
    let mut inner_input = xor_with(key, IPAD);
    inner_input.extend_from_slice(message);
    assert(inner_input@ =~= xor_pad(key@, IPAD) + message@);
    let inner = sha3_512(inner_input.as_slice())?;
    let mut outer_input = xor_with(key, OPAD);
    outer_input.extend_from_slice(inner.as_slice());
    assert(outer_input@ =~= xor_pad(key@, OPAD) + inner@);
    let outer = sha3_512(outer_input.as_slice())?;
    hmac_raw_key(outer.as_slice())
}

} // verus!
