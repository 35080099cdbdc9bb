//! The state of one live session and the key rotation state machine.
use crate::connection::{
    after_received, after_sent, decrypt_data_for_transend, encrpyt_data_for_transend, opened,
    sealed_record, tag_matches,
};
use crate::crypto::{ctr_apply, dh_public_matches, sha3_512, sha3_512_of};
use crate::iv::{iv_wants_rekey, iv_zero, Iv};
use crate::mac::{mac_of, MAC_KEY_LEN};
use crate::net::{
    derive_key, generate_db_to_send, give_pub_key_back, lemma_handshake_keys_agree,
    reading_keying, DhKeyPair, ServerClientModell, SESSION_KEY_LEN,
};
use crate::wire::{
    decode_message, encode_message, encode_record, parse_record, DhView, DiffieHellmanSend,
    MessageSend, RecordView, lemma_record_round_trip,
};
pub use crate::error::SessionError;
use vstd::prelude::*;

verus! {

/// What the host is to do with a received record.
#[derive(Debug)]
pub enum Inbound {
    /// Hand this plaintext to the host; it came from the peer.
    Deliver(Vec<u8>),
    /// Send this encoded record back to the peer.
    Reply(Vec<u8>),
    /// A key rotation completed.
    RekeyCompleted,
    /// Nothing to do (an answer that no rotation of ours waits for).
    Ignored,
}

/// The state of one session with a peer.
#[derive(Debug)]
pub struct Session {
    /// Which side of the connection this peer is.
    pub role: ServerClientModell,
    /// The 32-byte session key; `None` before the handshake.
    pub symmetric_key: Option<Vec<u8>>,
    /// The 64-byte MAC key derived from the session key.
    pub hmac_key: Option<Vec<u8>>,
    /// MAC key of the last outbound record under the current key.
    pub old_mac: Option<Vec<u8>>,
    /// The record counter.
    pub iv: Iv,
    /// Our key pair while a key rotation that we started is in flight.
    pub diffie_hellman_key: Option<DhKeyPair>,
    /// Whether the handshake has succeeded and records flow.
    pub online: bool,
}

/// The MAC key that belongs to a session key.
pub open spec fn mac_key_for(key: Seq<u8>) -> Seq<u8> {
    sha3_512_of(key)
}

/// Sixty-four zero bytes: the revealed key of the first record under a key.
pub open spec fn zero_mac_key() -> Seq<u8> {
    Seq::new(MAC_KEY_LEN as nat, |i: int| 0u8)
}

impl Session {
    /// The session's invariant: a session key always comes with its MAC key
    /// and a counter, a revealed key is the current MAC key (so it is only
    /// present once a record went out under that key), an online session
    /// has a key, and a pending key pair's public value belongs to its
    /// private exponent.
    pub open spec fn wf(&self) -> bool {
        &&& self.iv@.len() == 16
        &&& (self.symmetric_key is Some <==> self.hmac_key is Some)
        &&& self.symmetric_key is Some ==> {
            &&& self.key()@.len() == SESSION_KEY_LEN
            &&& self.mac_key()@ == mac_key_for(self.key()@)
            &&& self.mac_key()@.len() == MAC_KEY_LEN
        }
        &&& self.old_mac is Some ==> self.hmac_key is Some && self.old_mac->Some_0@
            == self.mac_key()@
        &&& self.online ==> self.symmetric_key is Some
        &&& self.diffie_hellman_key is Some ==> self.diffie_hellman_key->Some_0.wf()
    }

    /// The session key, when there is one.
    pub open spec fn key(&self) -> Vec<u8> {
        self.symmetric_key->Some_0
    }

    /// The MAC key, when there is one.
    pub open spec fn mac_key(&self) -> Vec<u8> {
        self.hmac_key->Some_0
    }

    /// The revealed key that the next outbound record carries.
    pub open spec fn revealed_key(&self) -> Seq<u8> {
        match self.old_mac {
            Some(k) => k@,
            None => zero_mac_key(),
        }
    }

    /// `self` with a new session key in place: its MAC key, a zero counter,
    /// no revealed key and no rotation in flight; role and online flag kept.
    pub open spec fn rekeyed(&self, other: &Session, key: Seq<u8>) -> bool {
        &&& self.symmetric_key is Some
        &&& self.key()@ == key
        &&& self.hmac_key is Some
        &&& self.mac_key()@ == mac_key_for(key)
        &&& self.iv@ == iv_zero()
        &&& self.old_mac is None
        &&& self.diffie_hellman_key is None
        &&& self.role == other.role
        &&& self.online == other.online
    }

    /// A session that has not completed its handshake.
    pub fn new(role: ServerClientModell) -> (r: Session)
        ensures
            r.wf(),
            r.role == role,
            r.symmetric_key is None,
            r.hmac_key is None,
            r.old_mac is None,
            r.diffie_hellman_key is None,
            !r.online,
            r.iv@ == iv_zero(),
    {
        Session {
            role,
            symmetric_key: None,
            hmac_key: None,
            old_mac: None,
            iv: Iv::default(),
            diffie_hellman_key: None,
            online: false,
        }
    }

    /// Puts a new session key in place together with its MAC key, resets
    /// the counter and ends any rotation in flight. Either all of these
    /// change or, when the MAC key cannot be computed, none does.
    pub fn install_key(&mut self, key: Vec<u8>) -> (r: Result<(), SessionError>)
        requires
            old(self).wf(),
            key@.len() == SESSION_KEY_LEN,
        ensures
            final(self).wf(),
            r is Ok ==> final(self).rekeyed(old(self), key@),
            r is Err ==> r->Err_0 == SessionError::CryptoInternal && *final(self) == *old(self),
    {
        let mac_key = match sha3_512(key.as_slice()) {
            Ok(m) => m,
            Err(_) => return Err(SessionError::CryptoInternal),
        };
        self.set_session_keys(key, mac_key);
        Ok(())
    }

    /// Puts `key` and its MAC key `mac_key` in place in one step: the
    /// counter goes back to zero, no key is revealed yet and any rotation
    /// in flight ends.
    pub fn set_session_keys(&mut self, key: Vec<u8>, mac_key: Vec<u8>)
        requires
            old(self).wf(),
            key@.len() == SESSION_KEY_LEN,
            mac_key@ == mac_key_for(key@),
            mac_key@.len() == MAC_KEY_LEN,
        ensures
            final(self).wf(),
            final(self).rekeyed(old(self), key@),
    {
        self.symmetric_key = Some(key);
        self.hmac_key = Some(mac_key);
        self.iv = Iv::default();
        self.old_mac = None;
        self.diffie_hellman_key = None;
    }

    /// Completes the handshake with the session key it derived: the key is
    /// installed as by `install_key` and the session goes online.
    pub fn go_online(&mut self, key: Vec<u8>) -> (r: Result<(), SessionError>)
        requires
            old(self).wf(),
            key@.len() == SESSION_KEY_LEN,
        ensures
            final(self).wf(),
            r is Ok ==> final(self).symmetric_key is Some && final(self).key()@ == key@
                && final(self).mac_key()@ == mac_key_for(key@) && final(self).iv@ == iv_zero()
                && final(self).old_mac is None && final(self).diffie_hellman_key is None
                && final(self).online && final(self).role == old(self).role,
            r is Err ==> r->Err_0 == SessionError::CryptoInternal && *final(self) == *old(self),
    {
        self.install_key(key)?;
        self.online = true;
        Ok(())
    }

    /// `self` is `other` with nothing changed but the rotation key pair.
    pub open spec fn same_keys(&self, other: &Session) -> bool {
        &&& self.symmetric_key == other.symmetric_key
        &&& self.hmac_key == other.hmac_key
        &&& self.old_mac == other.old_mac
        &&& self.iv == other.iv
        &&& self.role == other.role
        &&& self.online == other.online
    }

    /// Starts a key rotation with the key pair `pair` (idle or waiting, to
    /// waiting): the pair is kept until the answer comes, and the unsigned
    /// offer of its public value is what goes to the peer.
    pub fn start_rekey_with(&mut self, pair: DhKeyPair) -> (r: MessageSend)
        requires
            old(self).wf(),
            pair.wf(),
        ensures
            final(self).wf(),
            r@ == RecordView::Dh(DhView { open_key: pair.public_key@, signed: Seq::empty() }),
            final(self).diffie_hellman_key == Some(pair),
            final(self).same_keys(old(self)),
    {
        let offer = give_pub_key_back(&pair);
        assert(offer@.signed =~= Seq::<u8>::empty());
        self.diffie_hellman_key = Some(pair);
        MessageSend::Dh(offer)
    }

    /// Starts a key rotation with a freshly generated key pair. Only an
    /// online session rotates its key.
    pub fn start_rekey(&mut self) -> (r: Result<MessageSend, SessionError>)
        requires
            old(self).wf(),
        ensures
            final(self).wf(),
            match r {
                Ok(m) => old(self).online && final(self).diffie_hellman_key is Some && m@
                    == RecordView::Dh(
                    DhView {
                        open_key: final(self).diffie_hellman_key->Some_0.public_key@,
                        signed: Seq::empty(),
                    },
                ) && final(self).same_keys(old(self)),
                Err(e) => *final(self) == *old(self) && (e == SessionError::SessionClosed
                    <==> !old(self).online) && (e == SessionError::SessionClosed || e
                    == SessionError::CryptoInternal),
            },
    {
        if !self.online {
            return Err(SessionError::SessionClosed);
        }
        match generate_db_to_send() {
            Ok((pair, _)) => Ok(self.start_rekey_with(pair)),
            Err(_) => Err(SessionError::CryptoInternal),
        }
    }

    /// Answers the peer's offer with the key pair `pair`, whatever rotation
    /// of ours is in flight: the new session key comes from `pair` and the
    /// offered value and is installed at once (counter reset, our pending
    /// pair dropped), and the unsigned answer carries `pair`'s public
    /// value. When a primitive fails nothing changes.
    pub fn respond_with(&mut self, pair: DhKeyPair, offer: &DiffieHellmanSend) -> (r: Result<MessageSend, SessionError>)
        requires
            old(self).wf(),
        ensures
            final(self).wf(),
            match r {
                Ok(m) => m@ == RecordView::DhBack(
                    DhView { open_key: pair.public_key@, signed: Seq::empty() },
                ) && final(self).rekeyed(old(self), derive_key(pair.private_key@, offer.open_key@)),
                Err(e) => e == SessionError::CryptoInternal && *final(self) == *old(self),
            },
    {
        let key = match reading_keying(&pair, offer) {
            Ok(k) => k,
            Err(_) => return Err(SessionError::CryptoInternal),
        };
        self.install_key(key)?;
        let answer = give_pub_key_back(&pair);
        assert(answer@.signed =~= Seq::<u8>::empty());
        Ok(MessageSend::DhBack(answer))
    }

    /// Answers the peer's offer with a freshly generated key pair (see
    /// `respond_with`); the answer carries the public value of the private
    /// exponent the new key comes from. An offer that arrives while our own
    /// offer waits is handled the same way: our offer is abandoned, and the
    /// peer's late answer to it is discarded by `finish_rekey`. When both
    /// sides start a rotation at the same moment, each thus keys from its
    /// fresh pair and the other's abandoned offer, so the two keys differ
    /// until the next rotation that only one side starts.
    pub fn respond_to_offer(&mut self, offer: &DiffieHellmanSend) -> (r: Result<MessageSend, SessionError>)
        requires
            old(self).wf(),
        ensures
            final(self).wf(),
            match r {
                Ok(m) => old(self).online && m@ is DhBack && m@->DhBack_0.signed.len() == 0 && exists|
                    private: Seq<u8>,
                |
                    dh_public_matches(private, m@->DhBack_0.open_key) && final(self).rekeyed(
                        old(self),
                        #[trigger] derive_key(private, offer.open_key@),
                    ),
                Err(e) => *final(self) == *old(self) && (e == SessionError::SessionClosed
                    <==> !old(self).online) && (e == SessionError::SessionClosed || e
                    == SessionError::CryptoInternal),
            },
    {
        if !self.online {
            return Err(SessionError::SessionClosed);
        }
        match generate_db_to_send() {
            Ok((pair, _)) => {
                let ghost private = pair.private_key@;
                let r = self.respond_with(pair, offer);
                assert(r is Ok ==> dh_public_matches(private, r->Ok_0@->DhBack_0.open_key)
                    && final(self).rekeyed(old(self), derive_key(private, offer.open_key@)));
                r
            },
            Err(_) => Err(SessionError::CryptoInternal),
        }
    }

    /// Completes the rotation that we started, with the peer's answer: the
    /// new session key comes from our pending pair and the answered value,
    /// and key, MAC key and counter change together. An answer that no
    /// rotation of ours waits for is discarded (`Ok(false)`).
    pub fn finish_rekey(&mut self, answer: &DiffieHellmanSend) -> (r: Result<bool, SessionError>)
        requires
            old(self).wf(),
        ensures
            final(self).wf(),
            old(self).diffie_hellman_key is None <==> r == Ok::<bool, SessionError>(false),
            old(self).diffie_hellman_key is None ==> *final(self) == *old(self),
            r == Ok::<bool, SessionError>(true) ==> old(self).diffie_hellman_key is Some
                && final(self).rekeyed(
                old(self),
                derive_key(old(self).diffie_hellman_key->Some_0.private_key@, answer.open_key@),
            ),
            r is Err ==> r->Err_0 == SessionError::CryptoInternal && *final(self) == *old(self),
    {
        let key = match &self.diffie_hellman_key {
            None => return Ok(false),
            Some(pair) => match reading_keying(pair, answer) {
                Ok(k) => k,
                Err(_) => return Err(SessionError::CryptoInternal),
            },
        };
        self.install_key(key)?;
        Ok(true)
    }

    /// Encrypts a plaintext from the host into an encoded record, and says
    /// whether the counter now asks for a key rotation.
    pub fn send_plaintext(&mut self, plaintext: Vec<u8>) -> (r: Result<(Vec<u8>, bool), SessionError>)
        requires
            old(self).wf(),
        ensures
            final(self).wf(),
            match r {
                Ok((bytes, due)) => old(self).symmetric_key is Some && bytes@ == encode_record(
                    sealed_record(*old(self), plaintext@),
                ) && after_sent(*final(self), *old(self)) && due == iv_wants_rekey(final(self).iv@),
                Err(e) => *final(self) == *old(self) && (e == SessionError::SessionClosed
                    <==> old(self).symmetric_key is None) && (e == SessionError::SessionClosed || e
                    == SessionError::CryptoInternal),
            },
    {
        let record = encrpyt_data_for_transend(self, plaintext)?;
        let bytes = encode_message(&record);
        Ok((bytes, self.iv.check_rekying_should_be_done()))
    }

    /// Handles one received record payload. A malformed payload fails with
    /// `Deserialize`; an encrypted record is opened (see
    /// `decrypt_data_for_transend`) and its plaintext delivered; an offer
    /// is answered (see `respond_to_offer`); an answer completes our
    /// rotation (see `finish_rekey`). Whatever fails leaves the session as
    /// it was.
    pub fn handle_record(&mut self, payload: &[u8]) -> (r: Result<Inbound, SessionError>)
        requires
            old(self).wf(),
        ensures
            final(self).wf(),
            r is Err ==> *final(self) == *old(self),
            match parse_record(payload@) {
                None => r == Err::<Inbound, SessionError>(SessionError::Deserialize),
                Some(RecordView::Encrypted { content, mac, .. }) => match r {
                    Ok(Inbound::Deliver(p)) => old(self).symmetric_key is Some && p@ == opened(
                        *old(self),
                        content,
                    ) && tag_matches(*old(self), content, mac) && after_received(
                        *final(self),
                        *old(self),
                    ),
                    Ok(_) => false,
                    Err(e) => (e == SessionError::SessionClosed <==> old(self).symmetric_key is None)
                        && (e == SessionError::SessionClosed || e == SessionError::MacMismatch || e
                        == SessionError::CryptoInternal) && (e == SessionError::MacMismatch
                        ==> !tag_matches(*old(self), content, mac)),
                },
                Some(RecordView::Dh(d)) => match r {
                    Ok(Inbound::Reply(bytes)) => old(self).online && parse_record(bytes@) is Some
                        && parse_record(bytes@)->Some_0 is DhBack && exists|private: Seq<u8>|
                        dh_public_matches(
                            private,
                            parse_record(bytes@)->Some_0->DhBack_0.open_key,
                        ) && final(self).rekeyed(old(self), #[trigger] derive_key(private, d.open_key)),
                    Ok(_) => false,
                    Err(e) => (e == SessionError::SessionClosed <==> !old(self).online) && (e
                        == SessionError::SessionClosed || e == SessionError::CryptoInternal),
                },
                Some(RecordView::DhBack(d)) => match r {
                    Ok(Inbound::RekeyCompleted) => old(self).diffie_hellman_key is Some
                        && final(self).rekeyed(
                        old(self),
                        derive_key(old(self).diffie_hellman_key->Some_0.private_key@, d.open_key),
                    ),
                    Ok(Inbound::Ignored) => old(self).diffie_hellman_key is None && *final(self)
                        == *old(self),
                    Ok(_) => false,
                    Err(e) => e == SessionError::CryptoInternal && old(self).diffie_hellman_key is Some,
                },
            },
    {
        let record = match decode_message(payload) {
            Ok(m) => m,
            Err(_) => return Err(SessionError::Deserialize),
        };
        match record {
            MessageSend::Encrypted { content, mac, .. } => {
                match decrypt_data_for_transend(self, content.as_slice(), mac.as_slice()) {
                    Ok(p) => Ok(Inbound::Deliver(p)),
                    Err(e) => Err(e),
                }
            },
            MessageSend::Dh(offer) => {
                match self.respond_to_offer(&offer) {
                    Ok(answer) => {
                        let bytes = encode_message(&answer);
                        proof {
                            lemma_record_round_trip(answer@);
                        }
                        Ok(Inbound::Reply(bytes))
                    },
                    Err(e) => Err(e),
                }
            },
            MessageSend::DhBack(answer) => {
                match self.finish_rekey(&answer) {
                    Ok(true) => Ok(Inbound::RekeyCompleted),
                    Ok(false) => Ok(Inbound::Ignored),
                    Err(e) => Err(e),
                }
            },
        }
    }
}

/// After a key rotation, the first record sent is sealed with the new key,
/// the new key's MAC key and a zero counter, and reveals no earlier key:
/// the three changed together before any record went out.
pub proof fn lemma_first_record_after_rekey(before: Session, after: Session, key: Seq<u8>, plaintext: Seq<u8>)
    requires
        after.rekeyed(&before, key),
    ensures
        sealed_record(after, plaintext) == (RecordView::Encrypted {
            content: ctr_apply(key, iv_zero(), plaintext),
            mac: mac_of(mac_key_for(key), plaintext),
            old_mac_key: zero_mac_key(),
        }),
{
}

/// A rotation that one side starts with the pair `a` and the other answers
/// with the pair `b` leaves both sides with the same key, MAC key and
/// counter.
pub proof fn lemma_rotation_agrees(
    starter: Session,
    starter_before: Session,
    answerer: Session,
    answerer_before: Session,
    a: DhKeyPair,
    b: DhKeyPair,
)
    requires
        a.wf(),
        b.wf(),
        starter.rekeyed(&starter_before, derive_key(a.private_key@, b.public_key@)),
        answerer.rekeyed(&answerer_before, derive_key(b.private_key@, a.public_key@)),
    ensures
        starter.key()@ == answerer.key()@,
        starter.mac_key()@ == answerer.mac_key()@,
        starter.iv@ == answerer.iv@,
{
    lemma_handshake_keys_agree(a, b);
}

} // verus!
