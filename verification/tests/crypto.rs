use gtp::aead::{GtpAeadProtector, Protector, AEAD_TAG_LEN};
use gtp::handshake::{
    compute_client_proof, derive_directional_handshake_session_keys, ratchet_key, verify_client_proof, EphemeralKeyPair,
    HandshakeSharedSecret, HandshakeTranscript,
};
use gtp::kdf::{derive_directional_session_keys, derive_session_keys};
use gtp::types::{ConnectionId, PacketNumber, TransportError};

#[test]
fn test_chacha20_poly1305_seal_and_open_roundtrip() {
    let key = [0x42u8; 32];
    let iv = [0x13u8; 12];
    let protector = GtpAeadProtector::new(key, iv);

    let cid = ConnectionId(0x1020304050607080);
    let pn = PacketNumber(100);
    let aad = b"gtp_short_header_24_bytes_metadata";
    let original_data = b"entity_move_x=123.45_y=678.90_vx=1.2";

    let mut buffer = [0u8; 256];
    buffer[..original_data.len()].copy_from_slice(original_data);

    let sealed_len = protector.seal(pn, cid, aad, &mut buffer, original_data.len()).unwrap();
    assert_eq!(sealed_len, original_data.len() + AEAD_TAG_LEN);
    assert_ne!(&buffer[..original_data.len()], original_data);

    let opened_len = protector.open(pn, cid, aad, &mut buffer, sealed_len).unwrap();
    assert_eq!(opened_len, original_data.len());
    assert_eq!(&buffer[..opened_len], original_data);
}

#[test]
fn test_chacha20_poly1305_tamper_detection() {
    let key = [0x99u8; 32];
    let iv = [0x88u8; 12];
    let protector = GtpAeadProtector::new(key, iv);

    let cid = ConnectionId(0x1122334455667788);
    let pn = PacketNumber(42);
    let aad = b"authenticated_header_bytes";
    let original_data = b"critical_gameplay_rpc_payload";

    let mut buffer = [0u8; 128];
    buffer[..original_data.len()].copy_from_slice(original_data);

    let sealed_len = protector.seal(pn, cid, aad, &mut buffer, original_data.len()).unwrap();

    buffer[2] ^= 0x01;
    let res = protector.open(pn, cid, aad, &mut buffer, sealed_len);
    assert!(res.is_err());

    buffer[2] ^= 0x01;
    buffer[sealed_len - 1] ^= 0x80;
    let res_tag_tamper = protector.open(pn, cid, aad, &mut buffer, sealed_len);
    assert!(res_tag_tamper.is_err());

    buffer[sealed_len - 1] ^= 0x80;
    let tampered_aad = b"authenticated_header_tampered";
    let res_aad_tamper = protector.open(pn, cid, tampered_aad, &mut buffer, sealed_len);
    assert!(res_aad_tamper.is_err());
}

#[test]
fn nonce_uses_full_packet_number() {
    let protector = GtpAeadProtector::new([7u8; 32], [9u8; 12]);
    let cid = ConnectionId(0xDEAD_BEEF_1234_5678);

    let n1 = protector.derive_nonce(cid, PacketNumber(1));
    let n_hi = protector.derive_nonce(cid, PacketNumber(1 + (1u64 << 32)));
    assert_ne!(n1, n_hi);

    assert_ne!(
        protector.derive_nonce(cid, PacketNumber(0)),
        protector.derive_nonce(cid, PacketNumber(u64::MAX))
    );
}

#[test]
fn seal_rejects_overflowing_payload_len() {
    let protector = GtpAeadProtector::new([1u8; 32], [2u8; 12]);
    let mut buf = [0u8; 64];
    let res = protector.seal(PacketNumber(1), ConnectionId(1), b"aad", &mut buf, usize::MAX);
    assert!(res.is_err());
}

#[test]
fn failed_open_leaves_buffer_intact() {
    let protector_a = GtpAeadProtector::new([0x11u8; 32], [0x22u8; 12]);
    let protector_b = GtpAeadProtector::new([0x33u8; 32], [0x22u8; 12]);

    let cid = ConnectionId(0x0BAD_0BAD_0BAD_0BAD);
    let pn = PacketNumber(7);
    let aad = b"short_header_aad";
    let plaintext = b"state_update_seq=91_hp=68";

    let mut buffer = [0u8; 128];
    buffer[..plaintext.len()].copy_from_slice(plaintext);
    let sealed_len = protector_a.seal(pn, cid, aad, &mut buffer, plaintext.len()).unwrap();

    let sealed_snapshot = buffer;

    assert!(protector_b.open(pn, cid, aad, &mut buffer, sealed_len).is_err());
    assert_eq!(buffer, sealed_snapshot, "a failed open must not apply the keystream to the buffer");

    let opened_len = protector_a.open(pn, cid, aad, &mut buffer, sealed_len).unwrap();
    assert_eq!(&buffer[..opened_len], plaintext);
}

#[test]
fn test_x25519_diffie_hellman_handshake_roundtrip() {
    let client_pair = EphemeralKeyPair::generate();
    let server_pair = EphemeralKeyPair::generate();

    let client_pk = client_pair.public_key;
    let client_nonce = client_pair.nonce;

    let server_pk = server_pair.public_key;
    let server_nonce = server_pair.nonce;

    let client_shared = client_pair.compute_shared_secret(&server_pk).expect("contributory DH");
    let server_shared = server_pair.compute_shared_secret(&client_pk).expect("contributory DH");

    assert_eq!(client_shared.as_bytes(), server_shared.as_bytes());

    let cid = ConnectionId(0x1122_3344_5566_7788);
    let keys_client = derive_directional_handshake_session_keys(&client_shared, &client_nonce, &server_nonce, cid);
    let keys_server = derive_directional_handshake_session_keys(&server_shared, &client_nonce, &server_nonce, cid);

    assert_eq!(keys_client.client_tx_key, keys_server.client_tx_key);
    assert_eq!(keys_client.server_tx_key, keys_server.server_tx_key);

    assert_ne!(keys_client.client_tx_key, keys_client.server_tx_key);
    assert_ne!(keys_client.client_tx_iv, keys_client.server_tx_iv);

    let cid2 = ConnectionId(0xAABB_CCDD_EEFF_0011);
    let keys = derive_directional_handshake_session_keys(&client_shared, &client_nonce, &server_nonce, cid2);
    let (client_seal, client_open) = keys.for_role(true);
    let (server_seal, server_open) = keys.for_role(false);
    assert_eq!(client_seal, server_open);
    assert_eq!(client_open, server_seal);
    assert_ne!(client_seal.0, client_open.0);
    assert_ne!(client_seal.1, client_open.1);

    let client_tx = Protector::Aead(GtpAeadProtector::new(client_seal.0, client_seal.1));
    let mut seal_buf = [0u8; 64];
    seal_buf[..4].copy_from_slice(b"data");
    let sealed = client_tx.seal(PacketNumber(1), cid2, b"aad", &mut seal_buf, 4).unwrap();

    let server_rx = Protector::Aead(GtpAeadProtector::new(server_open.0, server_open.1));
    let mut open_buf = seal_buf;
    let opened = server_rx.open(PacketNumber(1), cid2, b"aad", &mut open_buf, sealed);
    assert_eq!(opened.unwrap(), 4);
    assert_eq!(&open_buf[..4], b"data");

    let wrong = Protector::Aead(GtpAeadProtector::new(server_seal.0, server_seal.1));
    let mut bad_buf = seal_buf;
    assert!(wrong.open(PacketNumber(1), cid2, b"aad", &mut bad_buf, sealed).is_err());

    let (ratcheted, ratcheted_iv) = ratchet_key(&keys_client.client_tx_key, cid, 1);
    assert_ne!(ratcheted, keys_client.client_tx_key);
    assert_ne!(ratcheted_iv, keys_client.client_tx_iv);

    let transcript = HandshakeTranscript { client_pk, server_pk, client_nonce, server_nonce, connection_id: cid };
    let proof = compute_client_proof(&client_shared, &transcript);
    assert!(verify_client_proof(&server_shared, &transcript, &proof));

    let mut tampered_proof = proof;
    tampered_proof[0] ^= 0xFF;
    assert!(!verify_client_proof(&server_shared, &transcript, &tampered_proof));

    let wrong_key = HandshakeSharedSecret::new([0x55u8; 32]);
    assert!(!verify_client_proof(&wrong_key, &transcript, &proof));
}

#[test]
fn low_order_public_key_rejected() {
    let pair = EphemeralKeyPair::generate();
    let zero_pk = [0u8; 32];
    assert!(pair.compute_shared_secret(&zero_pk).is_err());

    let mut order1_pk = [0u8; 32];
    order1_pk[0] = 0xED;
    for b in order1_pk.iter_mut().skip(1) {
        *b = 0xFF;
    }
    order1_pk[31] = 0x7F;
    let pair2 = EphemeralKeyPair::generate();
    assert!(pair2.compute_shared_secret(&order1_pk).is_err());
}

#[test]
fn test_hkdf_session_key_derivation_isolation() {
    let secret = b"super_secure_game_session_master_secret_2026";
    let cid1 = ConnectionId(0x1122_3344_5566_7788);
    let cid2 = ConnectionId(0x99AA_BBCC_DDEE_FF00);

    let (key1, iv1) = derive_session_keys(secret, cid1);
    let (key2, iv2) = derive_session_keys(secret, cid2);

    assert_ne!(key1, key2);
    assert_ne!(iv1, iv2);

    let (key1_repeat, iv1_repeat) = derive_session_keys(secret, cid1);
    assert_eq!(key1, key1_repeat);
    assert_eq!(iv1, iv1_repeat);
}

#[test]
fn debug_does_not_leak_session_directional_keys() {
    let keys = derive_directional_session_keys(b"audit secret", ConnectionId(9));
    let rendered = keys.debug_string();
    assert!(rendered.contains("SessionDirectionalKeys"));
    for field in ["client_tx_key", "client_tx_iv", "server_tx_key", "server_tx_iv"] {
        assert!(rendered.contains(field), "field {} should be named", field);
        assert!(rendered.contains("[REDACTED]"), "field {} must be redacted", field);
    }
    assert!(!rendered.contains(&format!("{:?}", keys.client_tx_key)));
    assert!(!rendered.contains(&format!("{:?}", keys.server_tx_iv)));
}

#[test]
fn test_hkdf_multi_connection_entropy_isolation() {
    let master_secret = b"championship_final_tournament_master_secret";
    let mut derived_keys = std::collections::HashSet::new();

    for i in 1..=500 {
        let cid = ConnectionId(i);
        let (key, iv) = derive_session_keys(master_secret, cid);
        assert!(derived_keys.insert(key), "Collision detected for connection ID: {}", i);
        assert_eq!(iv.len(), 12);
        assert_eq!(key.len(), 32);
    }
}

#[test]
fn test_hkdf_directional_keys_isolation() {
    let secret = b"directional_isolation_master_secret";
    let cid_a = ConnectionId(0x1111);
    let cid_b = ConnectionId(0x2222);

    let a = derive_directional_session_keys(secret, cid_a);
    let b = derive_directional_session_keys(secret, cid_b);

    assert_ne!(a.client_tx_key, b.client_tx_key);
    assert_ne!(a.client_tx_iv, b.client_tx_iv);
    assert_ne!(a.server_tx_key, a.client_tx_key);
}

#[test]
fn test_x25519_passive_eavesdropper_cannot_decrypt() {
    let client_ephemeral = EphemeralKeyPair::generate();
    let server_ephemeral = EphemeralKeyPair::generate();

    let client_pk = client_ephemeral.public_key;
    let client_nonce = client_ephemeral.nonce;
    let server_pk = server_ephemeral.public_key;
    let server_nonce = server_ephemeral.nonce;

    let attacker_ephemeral = EphemeralKeyPair::generate();

    let client_shared = client_ephemeral.compute_shared_secret(&server_pk).expect("contributory DH");
    let server_shared = server_ephemeral.compute_shared_secret(&client_pk).expect("contributory DH");

    let cid = ConnectionId(0x1234_5678_9ABC_DEF0);
    let client_keys = derive_directional_handshake_session_keys(&client_shared, &client_nonce, &server_nonce, cid);
    let server_keys = derive_directional_handshake_session_keys(&server_shared, &client_nonce, &server_nonce, cid);

    assert_eq!(client_keys.client_tx_key, server_keys.client_tx_key);
    assert_ne!(client_keys.client_tx_key, client_keys.server_tx_key);

    let client_protector = GtpAeadProtector::new(client_keys.client_tx_key, client_keys.client_tx_iv);
    let server_protector = GtpAeadProtector::new(client_keys.client_tx_key, client_keys.client_tx_iv);

    let attacker_shared = attacker_ephemeral.compute_shared_secret(&client_pk).expect("contributory DH");
    let attacker_keys = derive_directional_handshake_session_keys(&attacker_shared, &client_nonce, &server_nonce, cid);
    let attacker_protector = GtpAeadProtector::new(attacker_keys.client_tx_key, attacker_keys.client_tx_iv);

    let original_payload = b"super_secret_game_event_position_update";
    let mut wire_buffer = [0u8; 256];
    wire_buffer[..original_payload.len()].copy_from_slice(original_payload);

    let sealed_len = client_protector
        .seal(PacketNumber(1), cid, b"header_aad", &mut wire_buffer, original_payload.len())
        .unwrap();

    let mut server_buf = wire_buffer;
    let decrypted_len = server_protector.open(PacketNumber(1), cid, b"header_aad", &mut server_buf, sealed_len).unwrap();
    assert_eq!(&server_buf[..decrypted_len], original_payload);

    let mut attacker_buf = wire_buffer;
    let att_res = attacker_protector.open(PacketNumber(1), cid, b"header_aad", &mut attacker_buf, sealed_len);
    assert!(att_res.is_err(), "Attacker must NOT be able to open AEAD payload");
}

// Error kinds of the protector, one input each.
#[test]
fn protector_errors_name_their_cause() {
    let p = GtpAeadProtector::new([3u8; 32], [4u8; 12]);
    let mut small = [0u8; 20];
    assert_eq!(p.seal(PacketNumber(1), ConnectionId(1), b"", &mut small, 10), Err(TransportError::BufferOverflow));
    assert_eq!(p.open(PacketNumber(1), ConnectionId(1), b"", &mut small, 15), Err(TransportError::BufferTooShort));
    assert_eq!(p.open(PacketNumber(1), ConnectionId(1), b"", &mut small, 30), Err(TransportError::BufferTooShort));
    let mut junk = [7u8; 40];
    assert_eq!(p.open(PacketNumber(1), ConnectionId(1), b"", &mut junk, 40), Err(TransportError::CryptoFailure));
    assert_eq!(junk, [7u8; 40]);
    assert_eq!(p.tag_len(), 16);
}

// The nonce is the IV XOR (CID's top four bytes ‖ full packet number).
#[test]
fn nonce_layout_is_iv_xor_cid_and_pn() {
    let p = GtpAeadProtector::new([0u8; 32], [0u8; 12]);
    let n = p.derive_nonce(ConnectionId(0x0102_0304_0506_0708), PacketNumber(0x1112_1314_1516_1718));
    assert_eq!(n, [1, 2, 3, 4, 0x11, 0x12, 0x13, 0x14, 0x15, 0x16, 0x17, 0x18]);
    let q = GtpAeadProtector::new([0u8; 32], [0xFFu8; 12]);
    let m = q.derive_nonce(ConnectionId(0), PacketNumber(0));
    assert_eq!(m, [0xFFu8; 12]);
}

#[test]
fn test_key_ratchet_forward_security() {
    let cid = ConnectionId(0x7777_8888_9999);
    let initial_key = [0x42u8; 32];

    let (phase_1_key, phase_1_iv) = ratchet_key(&initial_key, cid, 1);
    let (phase_2_key, phase_2_iv) = ratchet_key(&phase_1_key, cid, 2);

    assert_ne!(initial_key, phase_1_key);
    assert_ne!(phase_1_key, phase_2_key);
    assert_ne!(initial_key, phase_2_key);
    // The base IV rotates together with the key.
    assert_ne!(phase_1_iv, phase_2_iv);
    // Re-deriving phase 1 from the same key is deterministic.
    assert_eq!(phase_1_key, ratchet_key(&initial_key, cid, 1).0);
    // A different phase never aliases another one's material.
    assert_ne!(ratchet_key(&initial_key, cid, 3).0, phase_1_key);
}

#[test]
fn test_active_mitm_key_tamper_rejected() {
    let client_ephemeral = EphemeralKeyPair::generate();
    let server_ephemeral = EphemeralKeyPair::generate();
    let attacker_ephemeral = EphemeralKeyPair::generate();

    let client_pk = client_ephemeral.public_key;
    let client_nonce = client_ephemeral.nonce;

    let server_pk = server_ephemeral.public_key;
    let server_nonce = server_ephemeral.nonce;

    let attacker_pk = attacker_ephemeral.public_key;

    let cid = ConnectionId(0xAAAA_BBBB_CCCC_DDDD);

    // The client shares a secret with the legitimate server key.
    let client_shared = client_ephemeral.compute_shared_secret(&server_pk).expect("contributory DH");

    // The server computes its secret against the substituted attacker key.
    let server_shared = server_ephemeral.compute_shared_secret(&attacker_pk).expect("contributory DH");

    let client_transcript = HandshakeTranscript { client_pk, server_pk, client_nonce, server_nonce, connection_id: cid };
    let client_proof = compute_client_proof(&client_shared, &client_transcript);

    let server_view =
        HandshakeTranscript { client_pk: attacker_pk, server_pk, client_nonce, server_nonce, connection_id: cid };
    let is_valid = verify_client_proof(&server_shared, &server_view, &client_proof);
    assert!(!is_valid, "Active MITM key substitution MUST fail cryptographic key confirmation!");
}

#[test]
fn client_proof_binds_every_transcript_field() {
    let shared = HandshakeSharedSecret::new([0x21u8; 32]);
    let base = HandshakeTranscript {
        client_pk: [1u8; 32],
        server_pk: [2u8; 32],
        client_nonce: [3u8; 32],
        server_nonce: [4u8; 32],
        connection_id: ConnectionId(77),
    };
    let proof = compute_client_proof(&shared, &base);
    assert!(verify_client_proof(&shared, &base, &proof));
    let variants = [
        HandshakeTranscript { client_nonce: [9u8; 32], ..base },
        HandshakeTranscript { server_nonce: [9u8; 32], ..base },
        HandshakeTranscript { connection_id: ConnectionId(78), ..base },
        HandshakeTranscript { server_pk: [9u8; 32], ..base },
    ];
    for v in variants.iter() {
        assert!(!verify_client_proof(&shared, v, &proof));
    }
}
