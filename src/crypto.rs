//! The cryptographic primitives, taken from OpenSSL. Each function marked
//! `external_body` here is trusted: its contract states what the OpenSSL
//! call computes, and Verus takes that contract as given. The spec
//! functions without a body name results that only OpenSSL computes.
use openssl::bn::BigNum;
use openssl::dh::Dh;
use openssl::error::ErrorStack;
use openssl::hash::{hash, MessageDigest};
use openssl::pkey::{PKey, Private, Public};
use openssl::sign::{Signer, Verifier};
use openssl::symm::{decrypt, encrypt, Cipher};
use crate::wire::be_value;
use vstd::arithmetic::power::{lemma_pow_mod_noop, lemma_pow_multiplies, pow};
use vstd::prelude::*;

verus! {

#[verifier::external_type_specification]
#[verifier::external_body]
pub struct ExErrorStack(ErrorStack);

#[verifier::external_type_specification]
#[verifier::external_body]
#[verifier::reject_recursive_types(T)]
pub struct ExPKey<T>(PKey<T>);

#[verifier::external_type_specification]
#[verifier::external_body]
pub struct ExPrivate(Private);

#[verifier::external_type_specification]
#[verifier::external_body]
pub struct ExPublic(Public);

/// Largest input that OpenSSL's length type admits for keys and numbers.
pub const OPENSSL_MAX_LEN: usize = 0x7fff_ffff;

/// SHA3-256 digest of a byte string.
pub uninterp spec fn sha3_256_of(data: Seq<u8>) -> Seq<u8>;

/// SHA3-512 digest of a byte string.
pub uninterp spec fn sha3_512_of(data: Seq<u8>) -> Seq<u8>;

/// The first `len` bytes of the AES-256 counter-mode keystream for `key`
/// and initial counter block `iv`.
pub uninterp spec fn aes_256_ctr_keystream(key: Seq<u8>, iv: Seq<u8>, len: nat) -> Seq<u8>;

/// The bytes that OpenSSL's `DH_compute_key` writes, into a buffer of the
/// group's size, for the shared value `z`.
pub uninterp spec fn dh_secret_bytes(z: nat) -> Seq<u8>;

/// The prime of the 4096-bit MODP group of RFC 3526
/// (2^4096 - 2^4032 - 1 + 2^64 * (floor(2^3966 * pi) + 240904)).
pub open spec fn modp_4096_prime() -> nat {
    0xFFFFFFFFFFFFFFFFC90FDAA22168C234C4C6628B80DC1CD129024E088A67CC74020BBEA63B139B22514A08798E3404DDEF9519B3CD3A431B302B0A6DF25F14374FE1356D6D51C245E485B576625E7EC6F44C42E9A637ED6B0BFF5CB6F406B7EDEE386BFB5A899FA5AE9F24117C4B1FE649286651ECE45B3DC2007CB8A163BF0598DA48361C55D39A69163FA8FD24CF5F83655D23DCA3AD961C62F356208552BB9ED529077096966D670C354E4ABC9804F1746C08CA18217C32905E462E36CE3BE39E772C180E86039B2783A2EC07A28FB5C55DF06F4C52C9DE2BCBF6955817183995497CEA956AE515D2261898FA051015728E5A8AAAC42DAD33170D04507A33A85521ABDF1CBA64ECFB850458DBEF0A8AEA71575D060C7DB3970F85A6E1E4C7ABF5AE8CDB0933D71E8C94E04A25619DCEE3D2261AD2EE6BF12FFA06D98A0864D87602733EC86A64521F2B18177B200CBBE117577A615D6C770988C0BAD946E208E24FA074E5AB3143DB5BFCE0FD108E4B82D120A92108011A723C12A787E6D788719A10BDBA5B2699C327186AF4E23C1A946834B6150BDA2583E9CA2AD44CE8DBBBC2DB04DE8EF92E8EFC141FBECAA6287C59474E6BC05D99B2964FA090C3A2233BA186515BE7ED1F612970CEE2D7AFB81BDD762170481CD0069127D5B05AA993B4EA988D8FDDC186FFB7DC90A6C08F4DF435C934063199FFFFFFFFFFFFFFFFnat
}

/// The generator of the group.
pub open spec fn modp_generator() -> int {
    2
}

/// `public` is the public value of the private exponent `private`:
/// g^private mod p, as big-endian bytes.
pub open spec fn dh_public_matches(private: Seq<u8>, public: Seq<u8>) -> bool {
    be_value(public) == pow(modp_generator(), be_value(private)) % (modp_4096_prime() as int)
}

/// The shared value of a private exponent and a peer's public value:
/// peer^private mod p.
pub open spec fn dh_shared_value(private: Seq<u8>, peer: Seq<u8>) -> nat {
    (pow(be_value(peer) as int, be_value(private)) % (modp_4096_prime() as int)) as nat
}

/// Byte-wise exclusive or of `a` with the first `a.len()` bytes of `b`.
pub open spec fn xor_bytes(a: Seq<u8>, b: Seq<u8>) -> Seq<u8> {
    Seq::new(a.len(), |i: int| a[i] ^ b[i])
}

/// AES-256 in counter mode applied to `data`: the data xor the keystream.
/// Encryption and decryption are the same operation.
pub open spec fn ctr_apply(key: Seq<u8>, iv: Seq<u8>, data: Seq<u8>) -> Seq<u8> {
    xor_bytes(data, aes_256_ctr_keystream(key, iv, data.len()))
}

/// Relies on `openssl::hash::hash` with SHA3-256: the digest of `data`,
/// 32 bytes long.
#[verifier::external_body]
pub(crate) fn sha3_256(data: &[u8]) -> (r: Result<Vec<u8>, ErrorStack>)
    ensures
        r is Ok ==> r->Ok_0@ == sha3_256_of(data@) && r->Ok_0@.len() == 32,
{
    hash(MessageDigest::sha3_256(), data).map(|d| d.to_vec())
}

/// Relies on `openssl::hash::hash` with SHA3-512: the digest of `data`,
/// 64 bytes long.
#[verifier::external_body]
pub(crate) fn sha3_512(data: &[u8]) -> (r: Result<Vec<u8>, ErrorStack>)
    ensures
        r is Ok ==> r->Ok_0@ == sha3_512_of(data@) && r->Ok_0@.len() == 64,
{
    hash(MessageDigest::sha3_512(), data).map(|d| d.to_vec())
}

/// Relies on `PKey::hmac` and `PKey::raw_private_key`: the raw private key
/// of an HMAC key is the key's own bytes. `PKey::hmac` asserts that the key
/// length fits OpenSSL's length type.
#[verifier::external_body]
pub(crate) fn hmac_raw_key(key: &[u8]) -> (r: Result<Vec<u8>, ErrorStack>)
    requires
        key@.len() <= OPENSSL_MAX_LEN,
    ensures
        r is Ok ==> r->Ok_0@ == key@,
{
    PKey::hmac(key)?.raw_private_key()
}

/// Relies on `openssl::symm::encrypt` with AES-256-CTR: counter mode xors
/// the data with the keystream, so the output is as long as the input.
/// `Crypter` converts the key, IV and data lengths to C ints with `unwrap`
/// and asserts the IV length, so those are bounded here.
#[verifier::external_body]
pub(crate) fn aes_256_ctr_encrypt(key: &[u8], iv: &[u8], data: &[u8]) -> (r: Result<Vec<u8>, ErrorStack>)
    requires
        key@.len() == 32,
        iv@.len() == 16,
        data@.len() <= OPENSSL_MAX_LEN,
    ensures
        r is Ok ==> r->Ok_0@ == xor_bytes(data@, aes_256_ctr_keystream(key@, iv@, data@.len())),
{
    encrypt(Cipher::aes_256_ctr(), key, Some(iv), data)
}

/// Relies on `openssl::symm::decrypt` with AES-256-CTR: counter mode xors
/// the data with the same keystream as encryption. Lengths are bounded as
/// for `aes_256_ctr_encrypt`.
#[verifier::external_body]
pub(crate) fn aes_256_ctr_decrypt(key: &[u8], iv: &[u8], data: &[u8]) -> (r: Result<Vec<u8>, ErrorStack>)
    requires
        key@.len() == 32,
        iv@.len() == 16,
        data@.len() <= OPENSSL_MAX_LEN,
    ensures
        r is Ok ==> r->Ok_0@ == xor_bytes(data@, aes_256_ctr_keystream(key@, iv@, data@.len())),
{
    decrypt(Cipher::aes_256_ctr(), key, Some(iv), data)
}

/// Relies on `Dh::from_pqg` with the RFC 3526 4096-bit prime and generator
/// 2, then `generate_key`: a fresh random key pair, as big-endian bytes of
/// the private exponent and of the public value g^private mod p.
#[verifier::external_body]
pub(crate) fn dh_generate() -> (r: Result<(Vec<u8>, Vec<u8>), ErrorStack>)
    ensures
        r is Ok ==> dh_public_matches((r->Ok_0).0@, (r->Ok_0).1@),
{
    let group = Dh::from_pqg(BigNum::get_rfc3526_prime_4096()?, None, BigNum::from_u32(2)?)?;
    let key = group.generate_key()?;
    Ok((key.private_key().to_vec(), key.public_key().to_vec()))
}

/// Relies on `Dh::set_key` in the RFC 3526 4096-bit group and
/// `compute_key`: the shared secret peer^private mod p of `private` with
/// the peer's `peer`.
/// `BigNum::from_slice` asserts that each input fits OpenSSL's length type.
#[verifier::external_body]
pub(crate) fn dh_compute(private: &[u8], public: &[u8], peer: &[u8]) -> (r: Result<Vec<u8>, ErrorStack>)
    requires
        private@.len() <= OPENSSL_MAX_LEN,
        public@.len() <= OPENSSL_MAX_LEN,
        peer@.len() <= OPENSSL_MAX_LEN,
    ensures
        r is Ok ==> r->Ok_0@ == dh_secret_bytes(dh_shared_value(private@, peer@)),
{
    let group = Dh::from_pqg(BigNum::get_rfc3526_prime_4096()?, None, BigNum::from_u32(2)?)?;
    let key = group.set_key(BigNum::from_slice(public)?, BigNum::from_slice(private)?)?;
    let peer_value = BigNum::from_slice(peer)?;
    key.compute_key(&peer_value)
}

/// Relies on a `Signer` with SHA-512 over `key`: a signature of `data`.
/// Signatures may be randomised, so nothing is stated of the bytes.
#[verifier::external_body]
pub(crate) fn sign_sha512(key: &PKey<Private>, data: &[u8]) -> (r: Result<Vec<u8>, ErrorStack>) {
    let mut signer = Signer::new(MessageDigest::sha512(), key)?;
    signer.update(data)?;
    signer.sign_to_vec()
}

/// Relies on a `Verifier` with SHA-512 over `key`: whether `signature` is a
/// valid signature of `data`.
#[verifier::external_body]
pub(crate) fn verify_sha512(key: &PKey<Public>, data: &[u8], signature: &[u8]) -> (r: Result<bool, ErrorStack>) {
    let mut verifier = Verifier::new(MessageDigest::sha512(), key)?;
    verifier.update(data)?;
    verifier.verify(signature)
}

/// Counter mode undoes itself: applying it twice with the same key and
/// counter gives the data back.
pub proof fn lemma_ctr_involution(key: Seq<u8>, iv: Seq<u8>, data: Seq<u8>)
    ensures
        ctr_apply(key, iv, ctr_apply(key, iv, data)) == data,
{
    let ks = aes_256_ctr_keystream(key, iv, data.len());
    let once = ctr_apply(key, iv, data);
    assert forall|i: int| 0 <= i < data.len() implies #[trigger] xor_bytes(once, ks)[i] == data[i] by {
        let a = data[i];
        let b = ks[i];
        assert((a ^ b) ^ b == a) by (bit_vector);
    }
    assert(ctr_apply(key, iv, once) =~= data);
}

/// Both sides of a Diffie–Hellman exchange reach the same shared value:
/// (g^b)^a = (g^a)^b mod p.
pub proof fn lemma_dh_shared_value_symmetric(a: Seq<u8>, pub_a: Seq<u8>, b: Seq<u8>, pub_b: Seq<u8>)
    requires
        dh_public_matches(a, pub_a),
        dh_public_matches(b, pub_b),
    ensures
        dh_shared_value(a, pub_b) == dh_shared_value(b, pub_a),
{
    let p = modp_4096_prime() as int;
    let g = modp_generator();
    let ea = be_value(a);
    let eb = be_value(b);
    lemma_pow_mod_noop(pow(g, eb), ea, p);
    lemma_pow_mod_noop(pow(g, ea), eb, p);
    lemma_pow_multiplies(g, eb, ea);
    lemma_pow_multiplies(g, ea, eb);
    assert(eb * ea == ea * eb) by (nonlinear_arith);
}

} // verus!
