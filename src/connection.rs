//! The record cipher: sealing a plaintext into an encrypted record and
//! opening one. The tag is computed over the plaintext.
use crate::crypto::{
    aes_256_ctr_decrypt, aes_256_ctr_encrypt, ctr_apply, lemma_ctr_involution, OPENSSL_MAX_LEN,
};
use crate::iv::{iv_next, lemma_step_strictly_increases, le_value, saturated_from};
use crate::mac::{hmac, mac_of, MAC_KEY_LEN};
use crate::error::SessionError;
use crate::session::Session;
use crate::wire::{MessageSend, RecordView};
use vstd::prelude::*;

verus! {

/// The record that sealing `msg` in state `s` gives: the plaintext under
/// the stream cipher at the current counter, its tag under the MAC key, and
/// the revealed key.
pub open spec fn sealed_record(s: Session, msg: Seq<u8>) -> RecordView {
    RecordView::Encrypted {
        content: ctr_apply(s.key()@, s.iv@, msg),
        mac: mac_of(s.mac_key()@, msg),
        old_mac_key: s.revealed_key(),
    }
}

/// `new` is `old` after one outbound record: the counter stepped and the
/// current MAC key is the one to reveal next; nothing else changed.
pub open spec fn after_sent(new: Session, old: Session) -> bool {
    &&& new.iv@ == iv_next(old.iv@)
    &&& new.old_mac is Some
    &&& new.old_mac->Some_0@ == old.mac_key()@
    &&& new.symmetric_key == old.symmetric_key
    &&& new.hmac_key == old.hmac_key
    &&& new.diffie_hellman_key == old.diffie_hellman_key
    &&& new.role == old.role
    &&& new.online == old.online
}

/// `new` is `old` after one accepted inbound record: only the counter
/// stepped.
pub open spec fn after_received(new: Session, old: Session) -> bool {
    &&& new.iv@ == iv_next(old.iv@)
    &&& new.old_mac == old.old_mac
    &&& new.symmetric_key == old.symmetric_key
    &&& new.hmac_key == old.hmac_key
    &&& new.diffie_hellman_key == old.diffie_hellman_key
    &&& new.role == old.role
    &&& new.online == old.online
}

/// The plaintext that `content` opens to in state `s`.
pub open spec fn opened(s: Session, content: Seq<u8>) -> Seq<u8> {
    ctr_apply(s.key()@, s.iv@, content)
}

/// Whether `mac` is the tag of what `content` opens to in state `s`.
pub open spec fn tag_matches(s: Session, content: Seq<u8>, mac: Seq<u8>) -> bool {
    mac == mac_of(s.mac_key()@, opened(s, content))
}

fn zero_bytes(n: usize) -> (r: Vec<u8>)
    ensures
        r@ == Seq::new(n as nat, |i: int| 0u8),
{
    let mut out: Vec<u8> = Vec::new();
    while out.len() < n
        invariant
            out@.len() <= n,
            forall|i: int| 0 <= i < out@.len() ==> out@[i] == 0u8,
        decreases n - out@.len(),
    {
        out.push(0u8);
    }
    assert(out@ =~= Seq::new(n as nat, |i: int| 0u8));
    out
}

/// Whether two byte strings are equal.
pub fn bytes_equal(a: &[u8], b: &[u8]) -> (r: bool)
    ensures
        r == (a@ == b@),
{
    if a.len() != b.len() {
        return false;
    }
    let mut i: usize = 0;
    while i < a.len()
        invariant
            0 <= i <= a@.len(),
            a@.len() == b@.len(),
            forall|j: int| 0 <= j < i ==> a@[j] == b@[j],
        decreases a@.len() - i,
    {
        if a[i] != b[i] {
            return false;
        }
        i = i + 1;
    }
    assert(a@ =~= b@);
    true
}

/// Assembles the encrypted record from the ciphertext and the tag, and
/// records that one more record went out: the counter steps and the current
/// MAC key becomes the key to reveal next.
pub fn seal_record(app: &mut Session, content: Vec<u8>, mac: Vec<u8>) -> (r: MessageSend)
    requires
        old(app).wf(),
        old(app).symmetric_key is Some,
    ensures
        final(app).wf(),
        r@ == (RecordView::Encrypted {
            content: content@,
            mac: mac@,
            old_mac_key: old(app).revealed_key(),
        }),
        after_sent(*final(app), *old(app)),
{
    let old_mac_key = match &app.old_mac {
        Some(k) => k.clone(),
        None => zero_bytes(MAC_KEY_LEN),
    };
    let current = match &app.hmac_key {
        Some(k) => k.clone(),
        None => zero_bytes(MAC_KEY_LEN),
    };
    app.old_mac = Some(current);
    app.iv.add_one();
    MessageSend::Encrypted { content, mac, old_mac_key }
}

/// Encrypts `message` into a record (see `sealed_record`) and advances the
/// session as `after_sent` says. Without a session key it fails with
/// `SessionClosed`; with a message longer than OpenSSL takes, or when a
/// primitive fails, with `CryptoInternal`; on failure the session is
/// unchanged.
pub fn encrpyt_data_for_transend(app: &mut Session, message: Vec<u8>) -> (r: Result<MessageSend, SessionError>)
    requires
        old(app).wf(),
    ensures
        final(app).wf(),
        match r {
            Ok(rec) => old(app).symmetric_key is Some && rec@ == sealed_record(*old(app), message@)
                && after_sent(*final(app), *old(app)),
            Err(e) => *final(app) == *old(app) && (e == SessionError::SessionClosed
                <==> old(app).symmetric_key is None) && (e == SessionError::SessionClosed || e
                == SessionError::CryptoInternal),
        },
        old(app).symmetric_key is Some && message@.len() > OPENSSL_MAX_LEN ==> r
            == Err::<MessageSend, SessionError>(SessionError::CryptoInternal),
{
    let (content, tag) = match (&app.symmetric_key, &app.hmac_key) {
        (Some(key), Some(mac_key)) => {
            if message.len() > OPENSSL_MAX_LEN {
                return Err(SessionError::CryptoInternal);
            }
            let content = match aes_256_ctr_encrypt(key.as_slice(), app.iv.0.as_slice(), message.as_slice()) {
                Ok(c) => c,
                Err(_) => return Err(SessionError::CryptoInternal),
            };
            let tag = match hmac(mac_key.as_slice(), message.as_slice()) {
                Ok(t) => t,
                Err(_) => return Err(SessionError::CryptoInternal),
            };
            (content, tag)
        },
        _ => return Err(SessionError::SessionClosed),
    };
    Ok(seal_record(app, content, tag))
}

/// Accepts the opened plaintext when the received tag equals the expected
/// one, stepping the counter; otherwise fails with `MacMismatch` and leaves
/// the session unchanged.
pub fn accept_if_tag_matches(app: &mut Session, cleartext: Vec<u8>, expected: &[u8], mac: &[u8]) -> (r: Result<Vec<u8>, SessionError>)
    requires
        old(app).wf(),
    ensures
        final(app).wf(),
        expected@ == mac@ ==> r is Ok && r->Ok_0 == cleartext && after_received(*final(app), *old(app)),
        expected@ != mac@ ==> r is Err && r->Err_0 == SessionError::MacMismatch && *final(app) == *old(app),
{
    if bytes_equal(expected, mac) {
        app.iv.add_one();
        Ok(cleartext)
    } else {
        Err(SessionError::MacMismatch)
    }
}

/// Decrypts the content of a received record and checks its tag. On
/// success gives the plaintext and steps the counter. A tag that is not
/// the construction's tag of the plaintext under the current MAC key is
/// never accepted, and then the counter does not move. Content longer
/// than OpenSSL takes fails with `CryptoInternal`.
pub fn decrypt_data_for_transend(app: &mut Session, message: &[u8], mac: &[u8]) -> (r: Result<Vec<u8>, SessionError>)
    requires
        old(app).wf(),
    ensures
        final(app).wf(),
        match r {
            Ok(p) => old(app).symmetric_key is Some && p@ == opened(*old(app), message@)
                && tag_matches(*old(app), message@, mac@) && after_received(*final(app), *old(app)),
            Err(e) => *final(app) == *old(app) && (e == SessionError::SessionClosed
                <==> old(app).symmetric_key is None) && (e == SessionError::SessionClosed || e
                == SessionError::MacMismatch || e == SessionError::CryptoInternal) && (e
                == SessionError::MacMismatch ==> !tag_matches(*old(app), message@, mac@)),
        },
        old(app).symmetric_key is Some && !tag_matches(*old(app), message@, mac@) ==> r is Err,
        old(app).symmetric_key is Some && message@.len() > OPENSSL_MAX_LEN ==> r
            == Err::<Vec<u8>, SessionError>(SessionError::CryptoInternal),
{
    let (cleartext, expected) = match (&app.symmetric_key, &app.hmac_key) {
        (Some(key), Some(mac_key)) => {
            if message.len() > OPENSSL_MAX_LEN {
                return Err(SessionError::CryptoInternal);
            }
            let cleartext = match aes_256_ctr_decrypt(key.as_slice(), app.iv.0.as_slice(), message) {
                Ok(c) => c,
                Err(_) => return Err(SessionError::CryptoInternal),
            };
            let expected = match hmac(mac_key.as_slice(), cleartext.as_slice()) {
                Ok(t) => t,
                Err(_) => return Err(SessionError::CryptoInternal),
            };
            (cleartext, expected)
        },
        _ => return Err(SessionError::SessionClosed),
    };
    accept_if_tag_matches(app, cleartext, expected.as_slice(), mac)
}

/// For every plaintext, key and counter: decrypting what was encrypted
/// with that key and counter gives bytes whose tag is the plaintext's tag.
pub proof fn lemma_tag_survives_round_trip(mac_key: Seq<u8>, key: Seq<u8>, iv: Seq<u8>, plaintext: Seq<u8>)
    ensures
        mac_of(mac_key, ctr_apply(key, iv, ctr_apply(key, iv, plaintext))) == mac_of(
            mac_key,
            plaintext,
        ),
{
    lemma_ctr_involution(key, iv, plaintext);
}

/// A record sealed by one peer is opened by the other, when both hold the
/// same key and counter: the receiver recovers the plaintext and the tag
/// matches, so `decrypt_data_for_transend` never reports a mismatch for it.
pub proof fn lemma_peer_opens_sealed_record(sender: Session, receiver: Session, plaintext: Seq<u8>)
    requires
        sender.wf(),
        receiver.wf(),
        sender.symmetric_key is Some,
        receiver.symmetric_key is Some,
        receiver.key()@ == sender.key()@,
        receiver.iv@ == sender.iv@,
    ensures
        ({
            let rec = sealed_record(sender, plaintext);
            &&& opened(receiver, rec->Encrypted_content) == plaintext
            &&& tag_matches(receiver, rec->Encrypted_content, rec->Encrypted_mac)
        }),
{
    lemma_ctr_involution(sender.key()@, sender.iv@, plaintext);
}

/// Under one session key the counter of each record, sent or received, is
/// one more than that of the record before (so none repeats) until the
/// counter wraps.
pub proof fn lemma_counters_increase_under_one_key(before: Session, after: Session)
    requires
        before.wf(),
        after_sent(after, before) || after_received(after, before),
        !saturated_from(before.iv@, 0),
    ensures
        after.symmetric_key == before.symmetric_key,
        le_value(after.iv@) == le_value(before.iv@) + 1,
{
    lemma_step_strictly_increases(before.iv@);
}

} // verus!
