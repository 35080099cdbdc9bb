//! Diffie–Hellman key pairs, the signed handshake and the derivation of a
//! session key from a shared secret.
use crate::crypto::{
    dh_compute, dh_generate, dh_public_matches, dh_secret_bytes, dh_shared_value,
    lemma_dh_shared_value_symmetric, sha3_256, sha3_256_of, sign_sha512, verify_sha512,
    OPENSSL_MAX_LEN,
};
use crate::wire::DiffieHellmanSend;
use openssl::error::ErrorStack;
use openssl::pkey::{PKey, Private, Public};
use vstd::prelude::*;

verus! {

/// Length of a session key.
pub const SESSION_KEY_LEN: usize = 32;

/// Which side of the connection this peer is: the one that accepted
/// (`Server`, the responder) or the one that connected (`Client`, the
/// initiator).
#[derive(Debug, Clone, Copy, PartialEq, Eq, Structural)]
pub enum ServerClientModell {
    /// Accepted the connection.
    Server,
    /// Made the connection.
    Client,
}

/// Why a Diffie–Hellman step failed.
#[derive(Debug)]
pub enum ErrorDiffieHellman {
    /// The group parameters could not be set up.
    DHGeneration,
    /// No key pair could be generated.
    DHKeyGeneration,
    /// No signing key was supplied.
    SigningKeyNotThere,
    /// The signer could not be set up.
    SignerCreationFailed,
    /// Signing failed.
    FinalSignFailed,
    /// The offer could not be encoded.
    SerializationFailed,
    /// The offer could not be sent.
    SendingPayloadFailed,
    /// The announced length does not fit in memory.
    U64ToUsizeFailed,
    /// The peer's offer is not a well-formed offer.
    AnswerFormatWrong,
    /// The verifier could not run.
    VerfifierError,
    /// The peer's signature does not verify.
    ErrorDHSignedWrong,
    /// OpenSSL reported an error.
    OpenSSL(ErrorStack),
    /// The derived key has the wrong length.
    AesKeyToArray,
}

/// An ephemeral Diffie–Hellman key pair, as big-endian bytes.
#[derive(Debug, Clone)]
pub struct DhKeyPair {
    /// Private exponent.
    pub private_key: Vec<u8>,
    /// Public value.
    pub public_key: Vec<u8>,
}

impl DhKeyPair {
    /// The public value belongs to the private exponent.
    pub open spec fn wf(&self) -> bool {
        dh_public_matches(self.private_key@, self.public_key@)
    }
}

/// The session key that a private exponent and a peer's public value give:
/// the SHA3-256 digest of the shared secret.
pub open spec fn derive_key(private: Seq<u8>, peer: Seq<u8>) -> Seq<u8> {
    sha3_256_of(dh_secret_bytes(dh_shared_value(private, peer)))
}

/// Both sides of the handshake arrive at the same session key: each
/// combines its own private exponent with the other's public value.
pub proof fn lemma_handshake_keys_agree(own: DhKeyPair, peer: DhKeyPair)
    requires
        own.wf(),
        peer.wf(),
    ensures
        derive_key(own.private_key@, peer.public_key@) == derive_key(
            peer.private_key@,
            own.public_key@,
        ),
{
    lemma_dh_shared_value_symmetric(
        own.private_key@,
        own.public_key@,
        peer.private_key@,
        peer.public_key@,
    );
}

/// The unsigned message that carries a public value.
pub open spec fn unsigned_offer(d: DiffieHellmanSend, public: Seq<u8>) -> bool {
    d.open_key@ == public && d.signed@.len() == 0
}

/// Generates a fresh key pair and the unsigned message that carries its
/// public value (used for key rotation).
pub fn generate_db_to_send() -> (r: Result<(DhKeyPair, DiffieHellmanSend), ErrorDiffieHellman>)
    ensures
        r is Ok ==> unsigned_offer((r->Ok_0).1, (r->Ok_0).0.public_key@) && (r->Ok_0).0.wf(),
        r is Err ==> r->Err_0 is DHKeyGeneration,
{
    match dh_generate() {
        Ok((private_key, public_key)) => {
            let pair = DhKeyPair { private_key, public_key };
            let message = give_pub_key_back(&pair);
            Ok((pair, message))
        },
        Err(_) => Err(ErrorDiffieHellman::DHKeyGeneration),
    }
}

/// The unsigned message that carries the public value of `key`.
pub fn give_pub_key_back(key: &DhKeyPair) -> (r: DiffieHellmanSend)
    ensures
        unsigned_offer(r, key.public_key@),
{
    DiffieHellmanSend { open_key: key.public_key.clone(), signed: Vec::new() }
}

/// Some number of a key pair or of a peer's message is too long for
/// OpenSSL's length type.
pub open spec fn too_long_for_openssl(key: DhKeyPair, message: DiffieHellmanSend) -> bool {
    key.private_key@.len() > OPENSSL_MAX_LEN || key.public_key@.len() > OPENSSL_MAX_LEN
        || message.open_key@.len() > OPENSSL_MAX_LEN
}

/// Combines `key` with the peer's public value in `message` and derives the
/// 32-byte session key `derive_key`. Numbers too long for OpenSSL are
/// refused as `AnswerFormatWrong`; a failure inside OpenSSL is `OpenSSL`.
pub fn reading_keying(key: &DhKeyPair, message: &DiffieHellmanSend) -> (r: Result<Vec<u8>, ErrorDiffieHellman>)
    ensures
        r is Ok ==> r->Ok_0@ == derive_key(key.private_key@, message.open_key@) && r->Ok_0@.len()
            == SESSION_KEY_LEN,
        (r is Err && r->Err_0 is AnswerFormatWrong) <==> too_long_for_openssl(*key, *message),
        r is Err ==> r->Err_0 is AnswerFormatWrong || r->Err_0 is OpenSSL,
{
    if key.private_key.len() > OPENSSL_MAX_LEN || key.public_key.len() > OPENSSL_MAX_LEN
        || message.open_key.len() > OPENSSL_MAX_LEN {
        return Err(ErrorDiffieHellman::AnswerFormatWrong);
    }
    let shared = match dh_compute(
        key.private_key.as_slice(),
        key.public_key.as_slice(),
        message.open_key.as_slice(),
    ) {
        Ok(s) => s,
        Err(e) => return Err(ErrorDiffieHellman::OpenSSL(e)),
    };
    match sha3_256(shared.as_slice()) {
        Ok(k) => Ok(k),
        Err(e) => Err(ErrorDiffieHellman::OpenSSL(e)),
    }
}

/// Whether this side sends its handshake offer before reading the peer's:
/// the responder writes first, the initiator reads first, so that the two
/// never wait on a read at the same time.
pub fn sends_offer_first(role: ServerClientModell) -> (r: bool)
    ensures
        r == (role == ServerClientModell::Server),
{
    match role {
        ServerClientModell::Server => true,
        ServerClientModell::Client => false,
    }
}

/// Generates a fresh key pair and the offer that carries its public value
/// signed with the long-term `key_for_signing`.
pub fn signed_offer(key_for_signing: Option<&PKey<Private>>) -> (r: Result<(DhKeyPair, DiffieHellmanSend), ErrorDiffieHellman>)
    ensures
        key_for_signing is None ==> r is Err && r->Err_0 is SigningKeyNotThere,
        r is Err && r->Err_0 is SigningKeyNotThere ==> key_for_signing is None,
        r is Ok ==> (r->Ok_0).1.open_key@ == (r->Ok_0).0.public_key@ && (r->Ok_0).0.wf(),
{
    let signing_key = match key_for_signing {
        Some(k) => k,
        None => return Err(ErrorDiffieHellman::SigningKeyNotThere),
    };
    let (pair, mut offer) = match generate_db_to_send() {
        Ok(p) => p,
        Err(e) => return Err(e),
    };
    match sign_sha512(signing_key, pair.public_key.as_slice()) {
        Ok(signature) => {
            offer.signed = signature;
            Ok((pair, offer))
        },
        Err(_) => Err(ErrorDiffieHellman::FinalSignFailed),
    }
}

/// What the outcome of checking the peer's signature means for the
/// handshake: a valid signature lets it go on, an invalid one is an
/// authentication failure, and a verifier that could not run is an error of
/// its own.
pub fn signature_verdict(outcome: Result<bool, ErrorStack>) -> (r: Result<(), ErrorDiffieHellman>)
    ensures
        match outcome {
            Ok(true) => r is Ok,
            Ok(false) => r is Err && r->Err_0 is ErrorDHSignedWrong,
            Err(_) => r is Err && r->Err_0 is VerfifierError,
        },
{
    match outcome {
        Ok(true) => Ok(()),
        Ok(false) => Err(ErrorDiffieHellman::ErrorDHSignedWrong),
        Err(_) => Err(ErrorDiffieHellman::VerfifierError),
    }
}

/// Checks the peer's signed offer against its long-term public key and, if
/// it verifies, derives the session key from `own` and the offered value
/// (see `signature_verdict` and `reading_keying` for the errors).
pub fn accept_signed_offer(
    own: &DhKeyPair,
    offer: &DiffieHellmanSend,
    pub_key_for_checking: &PKey<Public>,
) -> (r: Result<Vec<u8>, ErrorDiffieHellman>)
    ensures
        r is Ok ==> r->Ok_0@ == derive_key(own.private_key@, offer.open_key@) && r->Ok_0@.len()
            == SESSION_KEY_LEN,
        r is Err && r->Err_0 is AnswerFormatWrong ==> too_long_for_openssl(*own, *offer),
        r is Err ==> r->Err_0 is ErrorDHSignedWrong || r->Err_0 is VerfifierError || r->Err_0
            is AnswerFormatWrong || r->Err_0 is OpenSSL,
{
    let outcome = verify_sha512(
        pub_key_for_checking,
        offer.open_key.as_slice(),
        offer.signed.as_slice(),
    );
    match signature_verdict(outcome) {
        Ok(()) => reading_keying(own, offer),
        Err(e) => Err(e),
    }
}

} // verus!
