use otr_engine::error::SessionError;
use otr_engine::wire::{decode_message, encode_message, frame_length, DiffieHellmanSend, MessageSend};

fn offer(open_key: Vec<u8>, signed: Vec<u8>) -> DiffieHellmanSend {
    DiffieHellmanSend { open_key, signed }
}

#[test]
fn offer_encoding_is_tag_then_fields() {
    let m = MessageSend::Dh(offer(vec![1, 2], vec![]));
    assert_eq!(encode_message(&m), vec![1, 2, 1, 2, 0]);
    let back = MessageSend::DhBack(offer(vec![7], vec![8, 9]));
    assert_eq!(encode_message(&back), vec![2, 1, 7, 2, 8, 9]);
}

#[test]
fn long_field_uses_two_byte_length() {
    let m = MessageSend::Dh(offer(vec![5u8; 200], vec![]));
    let bytes = encode_message(&m);
    assert_eq!(&bytes[..3], &[1, 0xC8, 0x01]);
    assert_eq!(bytes.len(), 1 + 2 + 200 + 1);
    assert_eq!(decode_message(&bytes).unwrap(), m);
}

#[test]
fn encrypted_record_round_trips() {
    let m = MessageSend::Encrypted {
        content: vec![1, 2, 3],
        mac: vec![0xAA; 64],
        old_mac_key: vec![0; 64],
    };
    let bytes = encode_message(&m);
    assert_eq!(bytes[0], 0);
    assert_eq!(bytes.len(), 1 + 1 + 3 + 1 + 64 + 1 + 64);
    assert_eq!(decode_message(&bytes).unwrap(), m);
}

#[test]
fn short_tag_is_malformed() {
    let m = MessageSend::Encrypted {
        content: vec![1],
        mac: vec![0xAA; 63],
        old_mac_key: vec![0; 64],
    };
    assert_eq!(decode_message(&encode_message(&m)), Err(SessionError::Deserialize));
}

#[test]
fn zero_length_payload_is_malformed_not_a_crash() {
    assert_eq!(decode_message(&[]), Err(SessionError::Deserialize));
}

#[test]
fn unknown_tag_trailing_bytes_and_overlong_lengths_are_malformed() {
    assert_eq!(decode_message(&[3, 0, 0]), Err(SessionError::Deserialize));
    assert_eq!(decode_message(&[1, 0, 0, 0]), Err(SessionError::Deserialize));
    assert_eq!(decode_message(&[1, 0x80, 0x00, 0]), Err(SessionError::Deserialize));
    assert_eq!(decode_message(&[1, 5, 1, 2]), Err(SessionError::Deserialize));
    assert!(decode_message(&[1, 0, 0]).is_ok());
}

#[test]
fn frame_length_zero_is_legal() {
    assert_eq!(frame_length(&[0u8; 8]), Ok(0));
}

#[test]
fn frame_length_is_big_endian() {
    assert_eq!(frame_length(&[0, 0, 0, 0, 0, 0, 1, 2]), Ok(258));
}

#[test]
fn frame_length_limit() {
    let max = 16u64 * 1024 * 1024;
    assert_eq!(frame_length(&max.to_be_bytes()), Ok(max as usize));
    assert_eq!(frame_length(&(max + 1).to_be_bytes()), Err(SessionError::Deserialize));
    assert_eq!(frame_length(&u64::MAX.to_be_bytes()), Err(SessionError::Deserialize));
}
