use many::cose::{decode_request_from_cose_sign1, encode_cose_sign1_from_request, CoseKeyIdentity};
use many::error::{CODE_MALFORMED_ENVELOPE, CODE_SIGNATURE_MISMATCH};
use many::message::RequestMessage;

fn software_key() -> CoseKeyIdentity {
    CoseKeyIdentity::from_secret_key(vec![1u8; 32]).unwrap()
}

fn request(key: &CoseKeyIdentity) -> RequestMessage {
    RequestMessage {
        version: 1,
        from: key.identity.dup(),
        to: many::identity::Identity::anonymous(),
        method: b"echo".to_vec(),
        data: vec![0x63, b'f', b'o', b'o'],
        timestamp: 77,
        id: Some(9),
        nonce: None,
        attributes: vec![],
    }
}

#[test]
fn envelope_roundtrip_signed() {
    let key = software_key();
    let msg = request(&key);
    let env = encode_cose_sign1_from_request(&msg, &key).unwrap();
    let (back, webauthn) = decode_request_from_cose_sign1(&env).unwrap();
    assert!(!webauthn);
    assert_eq!(back.from, msg.from);
    assert_eq!(back.to, msg.to);
    assert_eq!(back.method, msg.method);
    assert_eq!(back.data, msg.data);
    assert_eq!(back.timestamp, msg.timestamp);
    assert_eq!(back.id, msg.id);
    // The decoded sender is the signer's identity.
    assert_eq!(back.from, key.identity);
}

#[test]
fn envelope_roundtrip_anonymous() {
    let key = CoseKeyIdentity::anonymous();
    let mut msg = request(&key);
    msg.from = many::identity::Identity::anonymous();
    let env = encode_cose_sign1_from_request(&msg, &key).unwrap();
    let (back, _) = decode_request_from_cose_sign1(&env).unwrap();
    assert!(back.from.is_anonymous());
    assert_eq!(back.data, msg.data);
}

#[test]
fn signature_tamper_detected() {
    let key = software_key();
    let msg = request(&key);
    let env = encode_cose_sign1_from_request(&msg, &key).unwrap();
    // Flip one bit of the signature (the last envelope byte).
    let mut bad = env.clone();
    let last = bad.len() - 1;
    bad[last] ^= 0x01;
    let err = decode_request_from_cose_sign1(&bad).unwrap_err();
    assert!(err.code == CODE_SIGNATURE_MISMATCH || err.code == CODE_MALFORMED_ENVELOPE);
}

#[test]
fn payload_tamper_detected() {
    let key = software_key();
    let msg = request(&key);
    let env = encode_cose_sign1_from_request(&msg, &key).unwrap();
    // Flip one bit somewhere in the middle (payload area).
    let mut bad = env.clone();
    let mid = bad.len() / 2;
    bad[mid] ^= 0x80;
    assert!(decode_request_from_cose_sign1(&bad).is_err());
}

#[test]
fn truncated_envelope_rejected() {
    let key = software_key();
    let msg = request(&key);
    let env = encode_cose_sign1_from_request(&msg, &key).unwrap();
    let bad: Vec<u8> = env[..env.len() - 1].to_vec();
    let err = decode_request_from_cose_sign1(&bad).unwrap_err();
    assert!(err.code < 0);
}

#[test]
fn envelope_roundtrip_with_nonce_and_attributes() {
    let key = software_key();
    let mut msg = request(&key);
    msg.nonce = Some(vec![0xAA, 0xBB]);
    msg.attributes = vec![many::message::Attribute::with_argument(9, vec![1, 2])];
    let env = encode_cose_sign1_from_request(&msg, &key).unwrap();
    let (back, _) = decode_request_from_cose_sign1(&env).unwrap();
    assert_eq!(back.nonce, Some(vec![0xAA, 0xBB]));
    assert_eq!(back.attributes, msg.attributes);
    assert_eq!(back.data, msg.data);
}
