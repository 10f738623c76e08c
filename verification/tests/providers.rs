//! The fake crypto provider and the chaotic HTTP server.

use maki::fake_provider::{
    open_unit, seal_unit, CiphertextUnit, CryptoContext, CryptoError, FakeCryptoProvider,
    Misbehavior, PlaintextUnit,
};
use maki::http_chaos::{head_state, parse_head, parse_head_text, HeadState, ResponseSpec, HEAD_LIMIT};

const UNIT: usize = 512;

fn ctx() -> CryptoContext {
    CryptoContext {
        volume_uuid: 0xABCD_EF00u128.to_be_bytes(),
        format_version: 1,
        crypto_compatibility_id: "test-profile-v1".to_string(),
    }
}

fn plain(unit_index: u64, byte: u8) -> PlaintextUnit {
    PlaintextUnit { unit_index, data: vec![byte; UNIT] }
}

#[test]
fn fake_provider_roundtrip_and_integrity() {
    let mut p = FakeCryptoProvider::new(UNIT as u32);
    let caps = p.capabilities();
    assert!(caps.integrity.present());

    let cts = p.encrypt_batch(&ctx(), &[plain(3, 0xAB)]).unwrap();
    assert_eq!(cts.len(), 1);
    assert!(cts[0].data.len() <= caps.max_ciphertext_size as usize);

    // Round trip.
    let pts = p.decrypt_batch(&ctx(), &cts).unwrap();
    assert_eq!(pts[0].data, vec![0xAB; UNIT]);

    // Corruption is detected, never decrypted silently.
    let mut corrupt = cts[0].clone();
    let last = corrupt.data.len() - 1;
    corrupt.data[last] ^= 0x01;
    let err = p.decrypt_batch(&ctx(), &[corrupt]).unwrap_err();
    assert!(matches!(err, CryptoError::Integrity(_)));

    // Context binding: decrypting under a different unit index fails.
    let moved = CiphertextUnit { unit_index: 4, data: cts[0].data.clone() };
    assert!(p.decrypt_batch(&ctx(), &[moved]).is_err());
}

#[test]
fn ciphertexts_differ_from_their_plaintexts_and_depend_on_key_and_context() {
    let mut p = FakeCryptoProvider::new(UNIT as u32);
    let base = p.encrypt_batch(&ctx(), &[plain(0, 7)]).unwrap();
    assert_eq!(&base[0].data[..4], b"MKF1");
    assert_ne!(&base[0].data[8..8 + UNIT], &vec![7u8; UNIT][..]);
    let mut other_context = ctx();
    other_context.format_version = 2;
    let versioned = p.encrypt_batch(&other_context, &[plain(0, 7)]).unwrap();
    assert_ne!(base[0].data, versioned[0].data);
    let mut keyed = FakeCryptoProvider::new(UNIT as u32).with_key(99);
    assert_ne!(base[0].data, keyed.encrypt_batch(&ctx(), &[plain(0, 7)]).unwrap()[0].data);

    // Without context binding a unit can be moved.
    let mut loose = FakeCryptoProvider::new(UNIT as u32).with_context_binding(false);
    assert!(!loose.capabilities().context_binding.present());
    let cts = loose.encrypt_batch(&ctx(), &[plain(0, 7)]).unwrap();
    let moved = CiphertextUnit { unit_index: 5, data: cts[0].data.clone() };
    assert_eq!(loose.decrypt_batch(&ctx(), &[moved]).unwrap()[0].data, vec![7u8; UNIT]);
}

#[test]
fn the_checksum_of_the_plaintext_is_carried() {
    let mut p = FakeCryptoProvider::new(UNIT as u32);
    let cts = p.encrypt_batch(&ctx(), &[plain(0, 9)]).unwrap();
    let carried = u32::from_le_bytes(cts[0].data[4..8].try_into().unwrap());
    assert_eq!(carried, crc32fast::hash(&vec![9u8; UNIT]));
}

#[test]
fn units_are_sealed_and_opened_by_the_same_keystream() {
    let sealed = seal_unit(&[1, 2, 3], &[0xF0, 0x0F, 0xFF], 0x0403_0201, 10);
    assert_eq!(
        sealed,
        vec![b'M', b'K', b'F', b'1', 1, 2, 3, 4, 0xF1, 0x0D, 0xFC, 0, 0]
    );
    let (plain, checksum) = open_unit(&sealed, &[0xF0, 0x0F, 0xFF], 3);
    assert_eq!(plain, vec![1, 2, 3]);
    assert_eq!(checksum, 0x0403_0201);
}

#[test]
fn queued_failures_come_first_and_in_order() {
    let mut p = FakeCryptoProvider::new(UNIT as u32);
    p.fail_next(vec![
        CryptoError::Retryable("busy".into()),
        CryptoError::ProviderFatal("gone".into()),
    ]);
    assert_eq!(p.queued_failures(), 2);
    let first = p.encrypt_batch(&ctx(), &[plain(0, 1)]).unwrap_err();
    assert!(matches!(first, CryptoError::Retryable(m) if m == "busy"));
    let second = p.decrypt_batch(&ctx(), &[]).unwrap_err();
    assert!(matches!(second, CryptoError::ProviderFatal(m) if m == "gone"));
    assert_eq!(p.queued_failures(), 0);
    assert!(p.encrypt_batch(&ctx(), &[plain(0, 1)]).is_ok());
    assert_eq!((p.encrypt_calls(), p.decrypt_calls()), (2, 1));
    assert_eq!(p.max_concurrent_calls(), 1);
}

#[test]
fn wrong_sizes_and_oversized_batches_are_refused() {
    let mut p = FakeCryptoProvider::new(UNIT as u32).with_max_batch(1, 1 << 20);
    let short = PlaintextUnit { unit_index: 0, data: vec![0; UNIT - 1] };
    assert!(matches!(
        p.encrypt_batch(&ctx(), &[short]),
        Err(CryptoError::NonRetryableRequest(_))
    ));
    let cts = p.encrypt_batch(&ctx(), &[plain(0, 1)]).unwrap();
    let truncated = CiphertextUnit { unit_index: 0, data: cts[0].data[..8].to_vec() };
    assert!(p.decrypt_batch(&ctx(), &[truncated]).is_err());
    let mut unmarked = cts[0].clone();
    unmarked.data[0] ^= 1;
    assert!(matches!(
        p.decrypt_batch(&ctx(), &[unmarked]),
        Err(CryptoError::Integrity(_))
    ));
}

#[test]
fn every_misbehavior_breaks_the_contract_it_names() {
    let units = [plain(0, 1), plain(1, 2)];
    let mut p = FakeCryptoProvider::new(UNIT as u32).with_overhead(16);
    let sound = p.encrypt_batch(&ctx(), &units).unwrap();
    let limit = p.capabilities().max_ciphertext_size as usize;
    let mut with = |m: Misbehavior| {
        p.set_misbehavior(Some(m));
        p.encrypt_batch(&ctx(), &units).unwrap()
    };
    let reordered = with(Misbehavior::ReorderResults);
    assert_eq!((reordered[0].unit_index, reordered[1].unit_index), (1, 0));
    assert_eq!(with(Misbehavior::DropLastItem).len(), 1);
    let doubled = with(Misbehavior::DuplicateFirstItem);
    assert_eq!(doubled.len(), 3);
    assert!(with(Misbehavior::OversizeCiphertext).iter().any(|c| c.data.len() > limit));
    let mislabelled = with(Misbehavior::MismatchedIndex);
    assert!(mislabelled.iter().zip(&sound).any(|(a, b)| a.unit_index != b.unit_index));
    p.set_misbehavior(None);
    let again = p.encrypt_batch(&ctx(), &units).unwrap();
    assert_eq!(again[1].data, sound[1].data);
}

// ---------- responses and requests ----------

#[test]
fn responses_carry_their_length_and_their_type() {
    let value: serde_json::Value = serde_json::from_str("{\"ok\":true}").unwrap();
    let response = ResponseSpec::json(&value);
    let head = response.head();
    assert!(head.starts_with("HTTP/1.1 200"), "{head}");
    assert!(head.ends_with("\r\n\r\n"), "{head}");
    assert!(head.contains("application/json"), "{head}");
    assert_eq!(response.sent_body(), b"{\"ok\":true}");
    assert!(head.to_lowercase().contains("content-length: 11"), "{head}");
    assert_eq!(ResponseSpec::raw(b"abc".to_vec()).sent_body(), b"abc");
    assert!(ResponseSpec::status(503).head().starts_with("HTTP/1.1 503"));
}

#[test]
fn a_cut_response_promises_more_than_it_sends() {
    let mut response = ResponseSpec::raw(b"0123456789".to_vec());
    assert!(!response.closes());
    response.drop_after = Some(4);
    assert_eq!(response.sent_body(), b"0123");
    assert!(response.head().to_lowercase().contains("content-length: 10"));
    assert!(response.closes());
}

#[test]
fn requests_are_read_once_their_head_is_complete() {
    let text = "POST /v1/seal?x=1&y=b HTTP/1.1\r\nHost: local\r\nContent-Length: 5\r\n\r\n";
    assert!(matches!(head_state(&b"POST / HTTP/1.1\r\n".to_vec()), HeadState::More));
    assert!(matches!(head_state(&text.as_bytes().to_vec()), HeadState::Complete));
    assert!(matches!(head_state(&vec![b'a'; HEAD_LIMIT + 1]), HeadState::TooLong));
    let (request, body) = parse_head(&text.as_bytes().to_vec());
    assert_eq!(body, 5);
    assert_eq!(request.method, "POST");
    assert_eq!(request.path, "/v1/seal");
    assert_eq!(request.query.get("x").map(|v| v.as_str()), Some("1"));
    assert_eq!(request.query.get("y").map(|v| v.as_str()), Some("b"));
    assert_eq!(request.headers.get("host").map(|v| v.as_str()), Some("local"));
    let (request, body) = parse_head_text("GET / HTTP/1.1\r\n\r\n");
    assert_eq!((request.method.as_str(), request.path.as_str(), body), ("GET", "/", 0));
}
