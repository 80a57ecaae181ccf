use dspfs::error::DspfsError;
use dspfs::message::{decode_message, decode_signed, ErrorMessage, GroupUuid, Message};
use dspfs::stream::{
    check_frame_len, encode_frame, handshake_hello, initiator_complete, read_frame_header,
    receiver_accept, u64_from_be_bytes, u64_to_be_bytes, NonceGenerator,
};
use dspfs::user::PrivateUser;
use ring::signature::KeyPair;

#[test]
fn test_not_0_nonce() {
    let mut n = NonceGenerator::default();
    let nonce = n.advance();
    assert_ne!(nonce, vec![0u8; 12]);
}

#[test]
fn encryptedstream_test_not_0_nonce() {
    let mut n = NonceGenerator::default();
    let nonce = n.advance();
    assert_ne!(nonce, vec![0u8; 12]);
}

#[test]
fn test_not_nonce_unqiue() {
    let mut n = NonceGenerator::default();
    let a = n.advance();
    let b = n.advance();
    assert_ne!(a, b);
}

#[test]
fn test_nonce_uniqueness() {
    let mut n = NonceGenerator::default();
    let a = n.advance();
    let b = n.advance();
    assert_ne!(a, b);
}

#[test]
fn first_nonce_encodes_one() {
    let mut n = NonceGenerator::default();
    let a = n.advance();
    assert_eq!(a, vec![1, 0, 0, 0, 0, 0, 0, 0, 0, 0, 0, 0]);
    let b = n.advance();
    assert_eq!(b, vec![2, 0, 0, 0, 0, 0, 0, 0, 0, 0, 0, 0]);
}

#[test]
fn frames_carry_a_big_endian_length() {
    let frame = encode_frame(&b"abc".to_vec());
    assert_eq!(&frame[..8], &[0, 0, 0, 0, 0, 0, 0, 3]);
    assert_eq!(&frame[8..], b"abc");
    assert_eq!(u64_from_be_bytes(&frame[..8]), 3);
    assert_eq!(u64_to_be_bytes(3), vec![0, 0, 0, 0, 0, 0, 0, 3]);
}

#[test]
fn oversized_frame_is_refused_before_the_body() {
    // A length prefix exceeding the cap errors with FrameTooLarge.
    let header = u64_to_be_bytes(5000);
    match read_frame_header(&header, 4096) {
        Err(DspfsError::FrameTooLarge) => {}
        other => panic!("expected FrameTooLarge, got {:?}", other),
    }
    assert_eq!(read_frame_header(&header, 8192).unwrap(), 5000);
    // A cap of zero means no cap.
    assert_eq!(read_frame_header(&header, 0).unwrap(), 5000);
    assert!(check_frame_len(u64::MAX, 1024).is_err());
    assert!(check_frame_len(u64::MAX, 0).is_ok());
}

#[test]
fn message_codec_round_trips() {
    let (u, _) = PrivateUser::new(b"alice".to_vec()).unwrap();
    let messages = vec![
        Message::Init { user: u.public_user().clone(), pubkey: vec![9u8; 32] },
        Message::String(b"hello".to_vec()),
        Message::FileBlockRequest {
            groupuuid: GroupUuid { value: 0x1234_5678_9abc_def0 },
            filehash: dspfs::hash::Hash::new(vec![7u8; 32]),
            index: 42,
        },
        Message::FileBlock(b"block bytes".to_vec()),
        Message::Error(ErrorMessage::FileNotFound),
        Message::Error(ErrorMessage::Unauthorized),
    ];
    for m in messages {
        let bytes = m.serialize();
        let back = decode_message(&bytes).unwrap();
        assert_eq!(m, back);
    }
}

#[test]
fn malformed_messages_are_rejected() {
    assert!(decode_message(&[]).is_none());
    assert!(decode_message(&[99]).is_none());
    // An error message carries exactly one known code byte.
    assert!(matches!(
        decode_message(&[4, 1]),
        Some(Message::Error(ErrorMessage::Unauthorized))
    ));
    assert!(decode_message(&[4, 2]).is_none());
    let mut bytes = Message::String(b"hello".to_vec()).serialize();
    bytes.push(0); // trailing garbage
    assert!(decode_message(&bytes).is_none());
    let short = &Message::String(b"hello".to_vec()).serialize()[..5];
    assert!(decode_message(short).is_none());
}

#[test]
fn signed_messages_round_trip_and_verify() {
    let (u, _) = PrivateUser::new(b"alice".to_vec()).unwrap();
    let msg = Message::String(b"payload".to_vec());
    let signed = msg.sign(u.get_keypair()).unwrap();
    let bytes = signed.serialize();
    let back = decode_signed(&bytes).unwrap();
    assert_eq!(signed, back);

    // The signature verifies under the signer's public key.
    let key = ring::signature::UnparsedPublicKey::new(
        &ring::signature::ED25519,
        u.public_user().get_public_key().as_bytes(),
    );
    key.verify(&signed.message, &signed.signature).unwrap();
}

fn payload(frame: &[u8]) -> &[u8] {
    let len = u64_from_be_bytes(&frame[..8]) as usize;
    assert_eq!(frame.len(), 8 + len);
    &frame[8..]
}

#[test]
fn session_handshake_and_messages() {
    let (u1, _) = PrivateUser::new(b"alice".to_vec()).unwrap();
    let (u2, _) = PrivateUser::new(b"bob".to_vec()).unwrap();

    // Initiator sends its signed hello; receiver verifies it and replies.
    let (hs1, frame1) = handshake_hello(&u1).unwrap();
    let (mut s2, frame2) = receiver_accept(&u2, payload(&frame1)).unwrap();
    let mut s1 = initiator_complete(&u1, hs1, payload(&frame2)).unwrap();

    // Each side learned the other's identity.
    assert_eq!(s1.other_user(), u2.public_user());
    assert_eq!(s2.other_user(), u1.public_user());

    // Messages seal on one side and open on the other, in both directions.
    let frame = s1.send_message(&Message::String(b"asd".to_vec())).unwrap();
    match s2.recv_message(payload(&frame)).unwrap() {
        Message::String(s) => assert_eq!(s, b"asd".to_vec()),
        _ => unreachable!(),
    }
    let frame = s2.send_message(&Message::String(b"dsa".to_vec())).unwrap();
    match s1.recv_message(payload(&frame)).unwrap() {
        Message::String(s) => assert_eq!(s, b"dsa".to_vec()),
        _ => unreachable!(),
    }
    // Several messages in a row in one direction.
    for i in 0..3u8 {
        let frame = s1.send_message(&Message::FileBlock(vec![i])).unwrap();
        match s2.recv_message(payload(&frame)).unwrap() {
            Message::FileBlock(b) => assert_eq!(b, vec![i]),
            _ => unreachable!(),
        }
    }
}

#[test]
fn tampered_handshake_is_rejected() {
    let (u1, _) = PrivateUser::new(b"alice".to_vec()).unwrap();
    let (u2, _) = PrivateUser::new(b"mallory-target".to_vec()).unwrap();

    let (hs1, frame1) = handshake_hello(&u1).unwrap();
    // Flip one byte of the signed init payload after signing.
    let mut tampered = payload(&frame1).to_vec();
    let mid = tampered.len() / 2;
    tampered[mid] ^= 0xff;
    match receiver_accept(&u2, &tampered) {
        Err(DspfsError::BadSignature) | Err(DspfsError::InvalidInit) => {}
        other => panic!("expected a handshake rejection, got {:?}", other.is_ok()),
    }
    drop(hs1);
}

#[test]
fn tampered_ciphertext_is_bad_ciphertext() {
    let (u1, _) = PrivateUser::new(b"alice".to_vec()).unwrap();
    let (u2, _) = PrivateUser::new(b"bob".to_vec()).unwrap();

    let (hs1, frame1) = handshake_hello(&u1).unwrap();
    let (mut s2, frame2) = receiver_accept(&u2, payload(&frame1)).unwrap();
    let mut s1 = initiator_complete(&u1, hs1, payload(&frame2)).unwrap();

    let frame = s1.send_message(&Message::String(b"secret".to_vec())).unwrap();
    let mut sealed = payload(&frame).to_vec();
    sealed[0] ^= 1;
    match s2.recv_message(&sealed) {
        Err(DspfsError::BadCiphertext) => {}
        other => panic!("expected BadCiphertext, got {:?}", other.is_ok()),
    }
}

#[test]
fn test_new_user() {
    let (u1, skd1) = PrivateUser::new(b"Test1".to_vec()).unwrap();
    let (u2, skd2) = PrivateUser::new(b"Test2".to_vec()).unwrap();

    assert_ne!(
        u1.public_user().get_public_key().as_bytes(),
        u2.public_user().get_public_key().as_bytes()
    );

    let kp1 = ring::signature::Ed25519KeyPair::from_pkcs8(&skd1).unwrap();
    let kp2 = ring::signature::Ed25519KeyPair::from_pkcs8(&skd2).unwrap();

    assert_eq!(
        kp1.public_key().as_ref(),
        u1.public_user().get_public_key().as_bytes()
    );
    assert_eq!(
        kp2.public_key().as_ref(),
        u2.public_user().get_public_key().as_bytes()
    );
}

#[test]
fn wrong_length_public_key_is_rejected() {
    assert!(dspfs::user::PublicKey::try_from(vec![0u8; 31]).is_err());
    assert!(dspfs::user::PublicKey::try_from(vec![0u8; 32]).is_ok());
}
