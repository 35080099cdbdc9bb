use openssl::bn::{BigNum, BigNumContext};
use openssl::dh::Dh;
use openssl::hash::{hash, MessageDigest};
use openssl::pkey::{PKey, Private, Public};
use openssl::rsa::Rsa;
use otr_engine::connection::{decrypt_data_for_transend, encrpyt_data_for_transend};
use otr_engine::error::SessionError;
use otr_engine::iv::Iv;
use otr_engine::mac::hmac;
use otr_engine::net::{
    accept_signed_offer, generate_db_to_send, reading_keying, sends_offer_first, signature_verdict,
    signed_offer,
    DhKeyPair, ErrorDiffieHellman, ServerClientModell,
};
use otr_engine::session::{Inbound, Session};
use otr_engine::wire::{decode_message, encode_message, MessageSend};

fn identity() -> (PKey<Private>, PKey<Public>) {
    let private = PKey::from_rsa(Rsa::generate(2048).unwrap()).unwrap();
    let public = PKey::public_key_from_pem(&private.public_key_to_pem().unwrap()).unwrap();
    (private, public)
}

fn offer_of(bytes: &[u8]) -> otr_engine::wire::DiffieHellmanSend {
    match decode_message(bytes).unwrap() {
        MessageSend::Dh(d) => d,
        other => panic!("expected an offer, got {:?}", other),
    }
}

fn shared_key(own: &DhKeyPair, peer_public: &[u8]) -> Vec<u8> {
    let group = Dh::from_pqg(
        BigNum::get_rfc3526_prime_4096().unwrap(),
        None,
        BigNum::from_u32(2).unwrap(),
    )
    .unwrap();
    let key = group
        .set_key(
            BigNum::from_slice(&own.public_key).unwrap(),
            BigNum::from_slice(&own.private_key).unwrap(),
        )
        .unwrap();
    let z = key.compute_key(&BigNum::from_slice(peer_public).unwrap()).unwrap();
    hash(MessageDigest::sha3_256(), &z).unwrap().to_vec()
}

struct Handshake {
    initiator: Session,
    responder: Session,
    initiator_pair: DhKeyPair,
    responder_pair: DhKeyPair,
}

/// Runs the signed handshake in the order of the roles, through the codec.
fn handshake() -> Handshake {
    let (k_i, pub_i) = identity();
    let (k_r, pub_r) = identity();
    assert!(sends_offer_first(ServerClientModell::Server));
    assert!(!sends_offer_first(ServerClientModell::Client));
    let (pair_r, offer_r) = signed_offer(Some(&k_r)).unwrap();
    let wire_r = encode_message(&MessageSend::Dh(offer_r));
    let (pair_i, offer_i) = signed_offer(Some(&k_i)).unwrap();
    let key_i = accept_signed_offer(&pair_i, &offer_of(&wire_r), &pub_r).unwrap();
    let wire_i = encode_message(&MessageSend::Dh(offer_i));
    let key_r = accept_signed_offer(&pair_r, &offer_of(&wire_i), &pub_i).unwrap();
    let mut initiator = Session::new(ServerClientModell::Client);
    let mut responder = Session::new(ServerClientModell::Server);
    initiator.go_online(key_i).unwrap();
    responder.go_online(key_r).unwrap();
    Handshake { initiator, responder, initiator_pair: pair_i, responder_pair: pair_r }
}

#[test]
fn handshake_success() {
    let h = handshake();
    assert!(h.initiator.online && h.responder.online);
    let key = h.initiator.symmetric_key.clone().unwrap();
    assert_eq!(key.len(), 32);
    assert_eq!(h.responder.symmetric_key, Some(key.clone()));
    assert_eq!(key, shared_key(&h.initiator_pair, &h.responder_pair.public_key));
    assert_eq!(key, shared_key(&h.responder_pair, &h.initiator_pair.public_key));
    let mac_key = hash(MessageDigest::sha3_512(), &key).unwrap().to_vec();
    assert_eq!(h.initiator.hmac_key, Some(mac_key.clone()));
    assert_eq!(h.responder.hmac_key, Some(mac_key));
    assert_eq!(h.initiator.iv.0, [0u8; 16]);
    assert_eq!(h.responder.iv.0, [0u8; 16]);
}

#[test]
fn public_value_is_generator_power() {
    let (pair, message) = generate_db_to_send().unwrap();
    assert_eq!(message.open_key, pair.public_key);
    assert!(message.signed.is_empty());
    let p = BigNum::get_rfc3526_prime_4096().unwrap();
    let g = BigNum::from_u32(2).unwrap();
    let x = BigNum::from_slice(&pair.private_key).unwrap();
    let mut y = BigNum::new().unwrap();
    y.mod_exp(&g, &x, &p, &mut BigNumContext::new().unwrap()).unwrap();
    assert_eq!(y.to_vec(), pair.public_key);
}

#[test]
fn handshake_tamper() {
    let (_k_i, _pub_i) = identity();
    let (k_r, pub_r) = identity();
    let (_pair_r, mut offer_r) = signed_offer(Some(&k_r)).unwrap();
    offer_r.signed[0] ^= 0xFF;
    let (pair_i, _offer_i) = signed_offer(Some(&_k_i)).unwrap();
    let result = accept_signed_offer(&pair_i, &offer_r, &pub_r);
    assert!(matches!(result, Err(ErrorDiffieHellman::ErrorDHSignedWrong)));
}

#[test]
fn handshake_with_wrong_identity_fails() {
    let (k_r, _pub_r) = identity();
    let (_k_x, pub_x) = identity();
    let (_pair_r, offer_r) = signed_offer(Some(&k_r)).unwrap();
    let (pair_i, _) = generate_db_to_send().unwrap();
    let result = accept_signed_offer(&pair_i, &offer_r, &pub_x);
    assert!(matches!(result, Err(ErrorDiffieHellman::ErrorDHSignedWrong)));
}

#[test]
fn missing_signing_key_is_reported() {
    assert!(matches!(signed_offer(None), Err(ErrorDiffieHellman::SigningKeyNotThere)));
}

#[test]
fn message_round_trip() {
    let mut h = handshake();
    let (bytes, due) = h.initiator.send_plaintext(b"hello".to_vec()).unwrap();
    assert!(!due);
    match h.responder.handle_record(&bytes).unwrap() {
        Inbound::Deliver(p) => assert_eq!(p, vec![0x68, 0x65, 0x6C, 0x6C, 0x6F]),
        other => panic!("expected a delivery, got {:?}", other),
    }
    let mut one = [0u8; 16];
    one[0] = 1;
    assert_eq!(h.initiator.iv.0, one);
    assert_eq!(h.responder.iv.0, one);
}

#[test]
fn sealed_record_has_ciphertext_and_tag_over_plaintext() {
    let mut h = handshake();
    let mac_key = h.initiator.hmac_key.clone().unwrap();
    let record = encrpyt_data_for_transend(&mut h.initiator, b"hello".to_vec()).unwrap();
    match record {
        MessageSend::Encrypted { content, mac, old_mac_key } => {
            assert_eq!(content.len(), 5);
            assert_ne!(content, b"hello".to_vec());
            assert_eq!(mac, hmac(&mac_key, b"hello").unwrap());
            assert_eq!(old_mac_key, vec![0u8; 64]);
            let plain = decrypt_data_for_transend(&mut h.responder, &content, &mac).unwrap();
            assert_eq!(plain, b"hello".to_vec());
        }
        other => panic!("expected an encrypted record, got {:?}", other),
    }
    assert_eq!(h.initiator.old_mac, Some(mac_key.clone()));
    match encrpyt_data_for_transend(&mut h.initiator, b"again".to_vec()).unwrap() {
        MessageSend::Encrypted { old_mac_key, .. } => assert_eq!(old_mac_key, mac_key),
        other => panic!("expected an encrypted record, got {:?}", other),
    }
}

#[test]
fn mac_failure_drops() {
    let mut h = handshake();
    let (bytes, _) = h.initiator.send_plaintext(b"hello".to_vec()).unwrap();
    let tampered = match decode_message(&bytes).unwrap() {
        MessageSend::Encrypted { mut content, mac, old_mac_key } => {
            content[0] ^= 0x01;
            encode_message(&MessageSend::Encrypted { content, mac, old_mac_key })
        }
        other => panic!("expected an encrypted record, got {:?}", other),
    };
    assert!(matches!(h.responder.handle_record(&tampered), Err(SessionError::MacMismatch)));
    assert_eq!(h.responder.iv.0, [0u8; 16]);
    match h.responder.handle_record(&bytes).unwrap() {
        Inbound::Deliver(p) => assert_eq!(p, b"hello".to_vec()),
        other => panic!("expected a delivery, got {:?}", other),
    }
}

#[test]
fn malformed_record_is_dropped() {
    let mut h = handshake();
    assert!(matches!(h.responder.handle_record(&[9, 9, 9]), Err(SessionError::Deserialize)));
    assert!(matches!(h.responder.handle_record(&[]), Err(SessionError::Deserialize)));
    assert_eq!(h.responder.iv.0, [0u8; 16]);
}

#[test]
fn sending_before_handshake_is_refused() {
    let mut s = Session::new(ServerClientModell::Client);
    assert!(matches!(s.send_plaintext(b"x".to_vec()), Err(SessionError::SessionClosed)));
    assert!(matches!(s.start_rekey(), Err(SessionError::SessionClosed)));
}

#[test]
fn invalid_peer_value_is_a_crypto_error() {
    let mut h = handshake();
    let before = h.responder.symmetric_key.clone();
    let bogus = encode_message(&MessageSend::Dh(otr_engine::wire::DiffieHellmanSend {
        open_key: vec![1],
        signed: vec![],
    }));
    assert!(matches!(h.responder.handle_record(&bogus), Err(SessionError::CryptoInternal)));
    assert_eq!(h.responder.symmetric_key, before);
}

fn rotate(from: &mut Session, to: &mut Session) {
    let offer = encode_message(&from.start_rekey().unwrap());
    let answer = match to.handle_record(&offer).unwrap() {
        Inbound::Reply(bytes) => bytes,
        other => panic!("expected a reply, got {:?}", other),
    };
    assert!(matches!(from.handle_record(&answer).unwrap(), Inbound::RekeyCompleted));
}

#[test]
fn counter_triggered_rekey() {
    let mut h = handshake();
    let old_key = h.initiator.symmetric_key.clone();
    // Both counters stand a few records below the point where byte 8 fills.
    let mut near = [255u8; 16];
    near[0] = 250;
    near[8] = 254;
    for b in near.iter_mut().skip(9) {
        *b = 0;
    }
    h.initiator.iv = Iv(near);
    h.responder.iv = Iv(near);
    let mut sent = 0u32;
    loop {
        let (bytes, due) = h.initiator.send_plaintext(b"m".to_vec()).unwrap();
        sent += 1;
        assert!(matches!(h.responder.handle_record(&bytes).unwrap(), Inbound::Deliver(_)));
        if due {
            break;
        }
    }
    assert_eq!(sent, 6);
    assert_eq!(h.initiator.iv.0[8], 0xFF);
    rotate(&mut h.initiator, &mut h.responder);
    assert_eq!(h.initiator.symmetric_key, h.responder.symmetric_key);
    assert_ne!(h.initiator.symmetric_key, old_key);
    assert_eq!(h.initiator.iv.0, [0u8; 16]);
    assert_eq!(h.responder.iv.0, [0u8; 16]);
    assert!(h.initiator.diffie_hellman_key.is_none());
    let (bytes, _) = h.initiator.send_plaintext(b"after".to_vec()).unwrap();
    match h.responder.handle_record(&bytes).unwrap() {
        Inbound::Deliver(p) => assert_eq!(p, b"after".to_vec()),
        other => panic!("expected a delivery, got {:?}", other),
    }
}

#[test]
fn responder_side_rekey_then_traffic_both_ways() {
    let mut h = handshake();
    rotate(&mut h.responder, &mut h.initiator);
    assert_eq!(h.initiator.symmetric_key, h.responder.symmetric_key);
    let (bytes, _) = h.responder.send_plaintext(b"ping".to_vec()).unwrap();
    assert!(matches!(h.initiator.handle_record(&bytes).unwrap(), Inbound::Deliver(p) if p == b"ping".to_vec()));
}

#[test]
fn concurrent_rekey() {
    let mut h = handshake();
    let old_key = h.initiator.symmetric_key.clone();
    let offer_i = encode_message(&h.initiator.start_rekey().unwrap());
    let offer_r = encode_message(&h.responder.start_rekey().unwrap());
    assert!(h.initiator.diffie_hellman_key.is_some());
    assert!(h.responder.diffie_hellman_key.is_some());
    let answer_r = match h.responder.handle_record(&offer_i).unwrap() {
        Inbound::Reply(bytes) => bytes,
        other => panic!("expected a reply, got {:?}", other),
    };
    let answer_i = match h.initiator.handle_record(&offer_r).unwrap() {
        Inbound::Reply(bytes) => bytes,
        other => panic!("expected a reply, got {:?}", other),
    };
    for s in [&h.initiator, &h.responder] {
        assert!(s.diffie_hellman_key.is_none());
        assert_eq!(s.iv.0, [0u8; 16]);
        assert!(s.old_mac.is_none());
        assert_ne!(s.symmetric_key, old_key);
    }
    assert!(matches!(h.initiator.handle_record(&answer_r).unwrap(), Inbound::Ignored));
    assert!(matches!(h.responder.handle_record(&answer_i).unwrap(), Inbound::Ignored));
    rotate(&mut h.initiator, &mut h.responder);
    assert_eq!(h.initiator.symmetric_key, h.responder.symmetric_key);
}

#[test]
fn answer_keys_agree_with_pending_pair() {
    let (pair_a, offer_a) = generate_db_to_send().unwrap();
    let (pair_b, offer_b) = generate_db_to_send().unwrap();
    let k_a = reading_keying(&pair_a, &offer_b).unwrap();
    let k_b = reading_keying(&pair_b, &offer_a).unwrap();
    assert_eq!(k_a.len(), 32);
    assert_eq!(k_a, k_b);
}

#[test]
fn mac_matches_nested_construction() {
    let key: Vec<u8> = (0u8..64).collect();
    let msg = b"record body";
    let mut inner_input: Vec<u8> = key.iter().map(|b| b ^ 0x36).collect();
    inner_input.extend_from_slice(msg);
    let t1 = hash(MessageDigest::sha3_512(), &inner_input).unwrap();
    let mut outer_input: Vec<u8> = key.iter().map(|b| b ^ 0x5c).collect();
    outer_input.extend_from_slice(&t1);
    let t2 = hash(MessageDigest::sha3_512(), &outer_input).unwrap().to_vec();
    let tag = hmac(&key, msg).unwrap();
    assert_eq!(tag, t2);
    assert_eq!(tag.len(), 64);
    assert_ne!(tag, hmac(&key, b"record bodY").unwrap());
}

#[test]
fn signature_verdicts() {
    assert!(signature_verdict(Ok(true)).is_ok());
    assert!(matches!(signature_verdict(Ok(false)), Err(ErrorDiffieHellman::ErrorDHSignedWrong)));
    let failure = openssl::error::ErrorStack::get();
    assert!(matches!(signature_verdict(Err(failure)), Err(ErrorDiffieHellman::VerfifierError)));
}

#[test]
fn invalid_peer_value_is_reported_by_openssl() {
    let (pair, _) = generate_db_to_send().unwrap();
    let bogus = otr_engine::wire::DiffieHellmanSend { open_key: vec![1], signed: vec![] };
    assert!(matches!(reading_keying(&pair, &bogus), Err(ErrorDiffieHellman::OpenSSL(_))));
}

#[test]
fn late_answer_without_pending_rotation_is_ignored() {
    let mut h = handshake();
    let before = h.initiator.symmetric_key.clone();
    let (_, message) = generate_db_to_send().unwrap();
    let answer = encode_message(&MessageSend::DhBack(message));
    assert!(matches!(h.initiator.handle_record(&answer).unwrap(), Inbound::Ignored));
    assert_eq!(h.initiator.symmetric_key, before);
}

#[test]
fn set_session_keys_resets_counter_and_rotation() {
    let mut h = handshake();
    h.initiator.send_plaintext(b"x".to_vec()).unwrap();
    h.initiator.start_rekey().unwrap();
    let key = vec![7u8; 32];
    let mac_key = hash(MessageDigest::sha3_512(), &key).unwrap().to_vec();
    h.initiator.set_session_keys(key.clone(), mac_key.clone());
    assert_eq!(h.initiator.symmetric_key, Some(key));
    assert_eq!(h.initiator.hmac_key, Some(mac_key));
    assert_eq!(h.initiator.iv.0, [0u8; 16]);
    assert!(h.initiator.old_mac.is_none());
    assert!(h.initiator.diffie_hellman_key.is_none());
    assert!(h.initiator.online);
}
