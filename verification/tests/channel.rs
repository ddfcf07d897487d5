use aes_gcm::aead::{KeyInit, OsRng};
use aes_gcm::Aes256Gcm;
use horcrust::connection::{
    open_request, open_response, seal_request, seal_response, seal_with_nonce, ChannelError,
    Handshake, RawMessage, SessionKey, G, KEY_LEN, NONCE_LEN, P, TAG_LEN,
};
use horcrust::{
    decrypt_payload, encrypt_payload, generate_pk, generate_session_key, modpow,
    msg_error_response, msg_store_share_request, msg_success_response, HorcrustMsgRequest,
};

fn random_key() -> SessionKey {
    let key = Aes256Gcm::generate_key(OsRng);
    SessionKey::from_bytes(key.as_slice()).unwrap()
}

#[test]
fn test_encrypt_decrypt() {
    let key = random_key();
    let pt_payload = b"Hello World!";
    let encrypted_payload = encrypt_payload(&key, pt_payload.to_vec()).unwrap();
    let decrypted_payload = decrypt_payload(&key, encrypted_payload).unwrap();
    assert_eq!(pt_payload, decrypted_payload.as_slice());
}

#[test]
fn connection_test_encrypt_decrypt() {
    let key = random_key();
    let pt_payload = b"Hello World!";
    let encrypted_payload = encrypt_payload(&key, pt_payload.to_vec()).unwrap();
    let decrypted_payload = decrypt_payload(&key, encrypted_payload).unwrap();
    assert_eq!(pt_payload, decrypted_payload.as_slice());
}

#[test]
fn round_trip_of_arbitrary_payloads() {
    let key = SessionKey::from_shared_secret(0x1122_3344_5566_7788);
    let payloads: Vec<Vec<u8>> = vec![
        vec![],
        vec![0],
        vec![0xff; 1],
        (0..=255u8).collect(),
        vec![0x0a; 127],
        vec![0x12; 128],
        vec![7; 70_000],
    ];
    for payload in payloads {
        let sealed = encrypt_payload(&key, payload.clone()).unwrap();
        assert_eq!(decrypt_payload(&key, sealed), Ok(payload));
    }
}

#[test]
fn payload_under_a_different_key_fails_authentication() {
    let key = SessionKey::from_shared_secret(1);
    let other = SessionKey::from_shared_secret(2);
    let sealed = encrypt_payload(&key, b"Hello World!".to_vec()).unwrap();
    assert_eq!(
        decrypt_payload(&other, sealed.clone()),
        Err(ChannelError::AuthenticationFailed)
    );
    assert_eq!(decrypt_payload(&key, sealed), Ok(b"Hello World!".to_vec()));
}

#[test]
fn tampered_ciphertext_fails_authentication() {
    let key = SessionKey::from_shared_secret(99);
    let mut sealed = encrypt_payload(&key, b"Hello World!".to_vec()).unwrap();
    let last = sealed.len() - 1;
    sealed[last] ^= 1;
    assert_eq!(decrypt_payload(&key, sealed), Err(ChannelError::AuthenticationFailed));
}

#[test]
fn sealing_is_not_the_identity() {
    let key = SessionKey::from_shared_secret(99);
    let payload = b"Hello World!".to_vec();
    let nonce = [3u8; 12];
    let sealed = seal_with_nonce(&key, &nonce, &payload).unwrap();
    let envelope = RawMessage::decode(&sealed).unwrap();
    assert_eq!(envelope.nonce, nonce.to_vec());
    assert_eq!(envelope.encrypted_payload.len(), payload.len() + TAG_LEN);
    assert_ne!(&envelope.encrypted_payload[..payload.len()], payload.as_slice());
    // the same key, nonce and payload give the same bytes
    assert_eq!(seal_with_nonce(&key, &nonce, &payload).unwrap(), sealed);
    // another nonce gives another ciphertext
    let other = seal_with_nonce(&key, &[4u8; 12], &payload).unwrap();
    assert_ne!(
        RawMessage::decode(&other).unwrap().encrypted_payload,
        envelope.encrypted_payload
    );
}

#[test]
fn sealing_matches_the_cipher_of_the_standard() {
    // AES-256-GCM, key and nonce of zeros, empty plaintext: the tag alone.
    let key = SessionKey::from_bytes(&[0u8; 32]).unwrap();
    let sealed = seal_with_nonce(&key, &[0u8; 12], &[]).unwrap();
    let envelope = RawMessage::decode(&sealed).unwrap();
    assert_eq!(
        envelope.encrypted_payload,
        vec![
            0x53, 0x0f, 0x8a, 0xfb, 0xc7, 0x45, 0x36, 0xb9, 0xa9, 0x63, 0xb4, 0xf1, 0xc4, 0xcb,
            0x73, 0x8b
        ]
    );
}

#[test]
fn fresh_nonce_for_every_payload() {
    let key = SessionKey::from_shared_secret(5);
    let first = encrypt_payload(&key, b"same".to_vec()).unwrap();
    let second = encrypt_payload(&key, b"same".to_vec()).unwrap();
    let first = RawMessage::decode(&first).unwrap();
    let second = RawMessage::decode(&second).unwrap();
    assert_eq!(first.nonce.len(), NONCE_LEN);
    assert_eq!(second.nonce.len(), NONCE_LEN);
    assert_ne!(first.nonce, second.nonce);
}

#[test]
fn nonce_of_wrong_length_is_refused() {
    let key = SessionKey::from_shared_secret(5);
    assert_eq!(seal_with_nonce(&key, &[0u8; 11], b"x"), Err(ChannelError::BadNonce));
    assert_eq!(seal_with_nonce(&key, &[0u8; 13], b"x"), Err(ChannelError::BadNonce));
    assert_eq!(seal_with_nonce(&key, &[], b"x"), Err(ChannelError::BadNonce));
    let envelope = RawMessage { nonce: vec![1; 8], encrypted_payload: vec![2; 20] };
    assert_eq!(decrypt_payload(&key, envelope.encode()), Err(ChannelError::BadNonce));
    let envelope = RawMessage { nonce: vec![], encrypted_payload: vec![2; 20] };
    assert_eq!(decrypt_payload(&key, envelope.encode()), Err(ChannelError::BadNonce));
}

#[test]
fn garbage_is_no_envelope() {
    let key = SessionKey::from_shared_secret(5);
    assert_eq!(decrypt_payload(&key, vec![0xff, 0xff]), Err(ChannelError::MalformedEnvelope));
    assert_eq!(decrypt_payload(&key, vec![0x0a]), Err(ChannelError::MalformedEnvelope));
    assert_eq!(decrypt_payload(&key, vec![0x0a, 0x05, 1, 2]), Err(ChannelError::MalformedEnvelope));
    assert_eq!(decrypt_payload(&key, vec![0x12, 0x01, 1, 0]), Err(ChannelError::MalformedEnvelope));
    // too short to hold a tag
    let envelope = RawMessage { nonce: vec![1; 12], encrypted_payload: vec![2; 3] };
    assert_eq!(
        decrypt_payload(&key, envelope.encode()),
        Err(ChannelError::AuthenticationFailed)
    );
    // an empty envelope has an empty nonce
    assert_eq!(decrypt_payload(&key, vec![]), Err(ChannelError::BadNonce));
}

#[test]
fn key_must_have_32_bytes() {
    assert_eq!(KEY_LEN, 32);
    assert!(SessionKey::from_bytes(&[0u8; 31]).is_none());
    assert!(SessionKey::from_bytes(&[0u8; 33]).is_none());
    assert!(SessionKey::from_bytes(&[]).is_none());
    let key = SessionKey::from_bytes(&[9u8; 32]).unwrap();
    assert_eq!(key.as_bytes(), &vec![9u8; 32]);
}

#[test]
fn key_tiles_the_shared_secret() {
    let key = SessionKey::from_shared_secret(0x0807_0605_0403_0201);
    let expected: Vec<u8> = (0..32u8).map(|i| i % 8 + 1).collect();
    assert_eq!(key.as_bytes(), &expected);
    let key = SessionKey::from_shared_secret(0);
    assert_eq!(key.as_bytes(), &vec![0u8; 32]);
    let shared = 0xdead_beef_0000_0001u64;
    let key = SessionKey::from_shared_secret(shared);
    for i in 0..32 {
        assert_eq!(key.as_bytes()[i], shared.to_le_bytes()[i % 8]);
    }
}

#[test]
fn modpow_is_modular_exponentiation() {
    assert_eq!(modpow(2, 10, 1000), 24);
    assert_eq!(modpow(4, 13, 497), 445);
    assert_eq!(modpow(2, 0, 7), 1);
    assert_eq!(modpow(0, 0, 7), 1);
    assert_eq!(modpow(0, 5, 7), 0);
    assert_eq!(modpow(5, 3, 1), 0);
    assert_eq!(modpow(5, 0, 1), 0);
    assert_eq!(modpow(3, 4, 2), 1);
    assert_eq!(modpow(2, 64, P), 59);
    assert_eq!(modpow(u64::MAX, 1, P), 58);
    assert_eq!(modpow(u64::MAX, 2, u64::MAX), 0);
    assert_eq!(modpow(7, 1, 5), 2);
}

#[test]
fn public_value_belongs_to_the_private_scalar() {
    assert_eq!(P, 18446744073709551557);
    assert_eq!(G, 2);
    for _ in 0..8 {
        let (public, private) = generate_pk(P, G);
        assert_eq!(public, modpow(G, private, P));
        assert!(public < P);
    }
    let (public, private) = generate_pk(23, 5);
    assert_eq!(public, modpow(5, private, 23));
}

#[test]
fn private_scalars_differ_from_run_to_run() {
    let (_, first) = generate_pk(P, G);
    let differs = (0..8).any(|_| generate_pk(P, G).1 != first);
    assert!(differs);
}

#[test]
fn both_sides_derive_the_same_secret() {
    // the textbook exchange: p = 23, g = 5, a = 4, b = 3
    let public_a = modpow(5, 4, 23);
    let public_b = modpow(5, 3, 23);
    assert_eq!(public_a, 4);
    assert_eq!(public_b, 10);
    assert_eq!(generate_session_key(4, public_b, 23), 18);
    assert_eq!(generate_session_key(3, public_a, 23), 18);

    let (public_a, private_a) = generate_pk(P, G);
    let (public_b, private_b) = generate_pk(P, G);
    assert_eq!(
        generate_session_key(private_a, public_b, P),
        generate_session_key(private_b, public_a, P)
    );
}

#[test]
fn handshake_ends_in_one_key_on_both_sides() {
    let initiator = Handshake::start();
    let responder = Handshake::start();
    let from_initiator = initiator.public_key_bytes();
    let from_responder = responder.public_key_bytes();
    assert_eq!(from_initiator.len(), 8);
    assert_eq!(from_responder.len(), 8);
    let initiator = initiator.finish(&from_responder).unwrap();
    let responder = responder.finish(&from_initiator).unwrap();
    assert_eq!(
        initiator.session_key().as_bytes(),
        responder.session_key().as_bytes()
    );

    let sealed = encrypt_payload(initiator.session_key(), b"1234".to_vec()).unwrap();
    assert_eq!(decrypt_payload(responder.session_key(), sealed), Ok(b"1234".to_vec()));
}

#[test]
fn handshake_with_known_scalars() {
    let side = Handshake::with_private_key(10);
    assert_eq!(side.public_key_bytes(), 1024u64.to_le_bytes().to_vec());
    let peer = Handshake::with_private_key(3);
    assert_eq!(peer.public_key_bytes(), vec![8, 0, 0, 0, 0, 0, 0, 0]);
    // 8 ^ 10 = 2 ^ 30 = (2 ^ 10) ^ 3
    let session = side.finish(&[8, 0, 0, 0, 0, 0, 0, 0]).unwrap();
    let expected = SessionKey::from_shared_secret(1 << 30);
    assert_eq!(session.session_key().as_bytes(), expected.as_bytes());
    let session = peer.finish(&1024u64.to_le_bytes()).unwrap();
    assert_eq!(session.session_key().as_bytes(), expected.as_bytes());
}

#[test]
fn handshake_wants_eight_bytes_from_the_peer() {
    assert!(Handshake::with_private_key(1).finish(&[1, 2, 3]).is_none());
    assert!(Handshake::with_private_key(1).finish(&[]).is_none());
    assert!(Handshake::with_private_key(1).finish(&[0; 9]).is_none());
    assert!(Handshake::with_private_key(1).finish(&[0; 8]).is_some());
}

#[test]
fn wrong_handshake_cannot_read_the_channel() {
    let initiator = Handshake::with_private_key(1111);
    let responder = Handshake::with_private_key(2222);
    let stranger = Handshake::with_private_key(3333);
    let to_responder = initiator.public_key_bytes();
    let to_initiator = responder.public_key_bytes();
    let initiator = initiator.finish(&to_initiator).unwrap();
    let stranger = stranger.finish(&to_responder).unwrap();
    let sealed = encrypt_payload(initiator.session_key(), b"1234".to_vec()).unwrap();
    assert_eq!(
        decrypt_payload(stranger.session_key(), sealed),
        Err(ChannelError::AuthenticationFailed)
    );
}

#[test]
fn encrypted_channel_carries_request_and_response() {
    let client = Handshake::start();
    let server = Handshake::start();
    let to_server = client.public_key_bytes();
    let to_client = server.public_key_bytes();
    let client = client.finish(&to_client).unwrap();
    let server = server.finish(&to_server).unwrap();

    let request = msg_store_share_request(1234, 1234);
    let on_the_wire = seal_request(client.session_key(), &request).unwrap();
    let received = open_request(server.session_key(), on_the_wire).unwrap();
    assert_eq!(msg_store_share_request(1234, 1234), received);

    let response = msg_success_response();
    let on_the_wire = seal_response(server.session_key(), &response).unwrap();
    let received = open_response(client.session_key(), on_the_wire).unwrap();
    assert_eq!(msg_success_response(), received);
}

#[test]
fn message_of_the_wrong_kind_is_malformed() {
    let key = SessionKey::from_shared_secret(77);
    // an error response does not parse as a request: its first field is a flag
    let sealed = seal_response(&key, &msg_error_response("no")).unwrap();
    assert_eq!(open_request(&key, sealed), Err(ChannelError::MalformedMessage));
    let sealed = encrypt_payload(&key, vec![0xff, 0x00]).unwrap();
    assert_eq!(open_request(&key, sealed.clone()), Err(ChannelError::MalformedMessage));
    assert_eq!(open_response(&key, sealed), Err(ChannelError::MalformedMessage));
    // an empty payload is the empty message
    let sealed = encrypt_payload(&key, vec![]).unwrap();
    assert_eq!(open_request(&key, sealed), Ok(HorcrustMsgRequest { request: None }));
}

#[test]
fn errors_of_the_envelope_come_before_those_of_the_message() {
    let key = SessionKey::from_shared_secret(77);
    let other = SessionKey::from_shared_secret(78);
    let sealed = seal_request(&key, &msg_store_share_request(1, 2)).unwrap();
    assert_eq!(open_request(&other, sealed), Err(ChannelError::AuthenticationFailed));
    assert_eq!(open_response(&key, vec![1, 2, 3]), Err(ChannelError::MalformedEnvelope));
}
