use zkpaste::ident::{generate_paste_id, is_valid_lookup_id, PASTE_ID_LENGTH};
use zkpaste::store::{
    AcceptError, FetchError, PasteStore, EXPIRY_MILLIS, MAX_ENCRYPTED_SIZE, NONCE_LENGTH,
};

fn zero_nonce() -> Vec<u8> {
    vec![0u8; 12]
}

fn is_alnum_id(id: &str) -> bool {
    id.chars().count() == PASTE_ID_LENGTH && id.chars().all(|c| c.is_ascii_alphanumeric())
}

#[test]
fn example_scenario() {
    let mut store = PasteStore::new();
    let id = store.accept(vec![0x01, 0x02, 0x03], zero_nonce(), 0).unwrap();
    assert_eq!(id.len(), 22);
    assert!(is_alnum_id(&id));
    let paste = store.fetch(&id).unwrap();
    assert_eq!(paste.ciphertext, vec![0x01, 0x02, 0x03]);
    assert_eq!(paste.nonce, vec![0u8; 12]);
    assert_eq!(store.fetch(&String::new()).err(), Some(FetchError::InvalidId));
    let mut other = generate_paste_id();
    while other == id {
        other = generate_paste_id();
    }
    assert_eq!(store.fetch(&other).err(), Some(FetchError::NotFound));
}

#[test]
fn round_trip_keeps_bytes() {
    let mut store = PasteStore::new();
    let payloads: Vec<Vec<u8>> = vec![vec![7], (0..=255).collect(), vec![0xAB; 4096]];
    for (i, ciphertext) in payloads.into_iter().enumerate() {
        let nonce: Vec<u8> = (0..12).map(|b| b as u8 + i as u8).collect();
        let id = store.accept(ciphertext.clone(), nonce.clone(), 100).unwrap();
        let paste = store.fetch(&id).unwrap();
        assert_eq!(paste.ciphertext, ciphertext);
        assert_eq!(paste.nonce, nonce);
        assert_eq!(paste.created_at, 100);
    }
    assert_eq!(store.len(), 3);
}

#[test]
fn largest_payload_is_accepted() {
    let mut store = PasteStore::new();
    let ciphertext = vec![1u8; MAX_ENCRYPTED_SIZE - NONCE_LENGTH];
    let id = store.accept(ciphertext, zero_nonce(), 0).unwrap();
    assert_eq!(store.fetch(&id).unwrap().ciphertext.len(), 10 * 1024 * 1024 - 12);
}

#[test]
fn oversized_payload_is_refused() {
    let mut store = PasteStore::new();
    let ciphertext = vec![1u8; MAX_ENCRYPTED_SIZE - NONCE_LENGTH + 1];
    assert_eq!(store.accept(ciphertext, zero_nonce(), 0), Err(AcceptError::InvalidPayload));
    assert_eq!(store.len(), 0);
}

#[test]
fn empty_ciphertext_is_refused() {
    let mut store = PasteStore::new();
    assert_eq!(store.accept(Vec::new(), zero_nonce(), 0), Err(AcceptError::InvalidPayload));
    assert_eq!(store.len(), 0);
}

#[test]
fn wrong_nonce_lengths_are_refused() {
    let mut store = PasteStore::new();
    store.accept(vec![9], zero_nonce(), 0).unwrap();
    for len in [0usize, 1, 11, 13, 16, 32] {
        assert_eq!(store.accept(vec![1, 2, 3], vec![0u8; len], 0), Err(AcceptError::InvalidNonce));
        assert_eq!(store.len(), 1);
    }
}

#[test]
fn nonce_is_checked_before_payload() {
    let mut store = PasteStore::new();
    assert_eq!(store.accept(Vec::new(), vec![0u8; 3], 0), Err(AcceptError::InvalidNonce));
}

#[test]
fn taken_id_is_a_conflict() {
    let mut store = PasteStore::new();
    let id = "abcdefghijklmnopqrstuv".to_string();
    assert_eq!(store.accept_with_id(id.clone(), vec![1], zero_nonce(), 0), Ok(id.clone()));
    assert_eq!(
        store.accept_with_id(id.clone(), vec![2], zero_nonce(), 0),
        Err(AcceptError::StorageConflict)
    );
    assert_eq!(store.len(), 1);
    assert_eq!(store.fetch(&id).unwrap().ciphertext, vec![1]);
}

#[test]
fn accept_with_id_checks_sizes_first() {
    let mut store = PasteStore::new();
    let id = "taken".to_string();
    store.accept_with_id(id.clone(), vec![1], zero_nonce(), 0).unwrap();
    assert_eq!(
        store.accept_with_id(id.clone(), vec![2], vec![0u8; 5], 0),
        Err(AcceptError::InvalidNonce)
    );
    assert_eq!(
        store.accept_with_id(id, Vec::new(), zero_nonce(), 0),
        Err(AcceptError::InvalidPayload)
    );
}

#[test]
fn absent_id_is_not_found() {
    let mut store = PasteStore::new();
    store.accept(vec![1], zero_nonce(), 0).unwrap();
    let absent = "ZZZZZZZZZZZZZZZZZZZZZ".to_string();
    assert_eq!(store.fetch(&absent).err(), Some(FetchError::NotFound));
    assert!(!store.contains(&absent));
}

#[test]
fn malformed_ids_are_refused() {
    let store = PasteStore::new();
    assert_eq!(store.fetch(&String::new()).err(), Some(FetchError::InvalidId));
    assert_eq!(store.fetch(&"a".repeat(51)).err(), Some(FetchError::InvalidId));
    assert_eq!(store.fetch(&"a".repeat(50)).err(), Some(FetchError::NotFound));
    assert_eq!(store.fetch(&"a".to_string()).err(), Some(FetchError::NotFound));
}

#[test]
fn id_length_counts_characters() {
    assert!(is_valid_lookup_id(&"é".repeat(50)));
    assert!(!is_valid_lookup_id(&"é".repeat(51)));
    assert!(!is_valid_lookup_id(""));
    assert!(is_valid_lookup_id("x"));
}

#[test]
fn reaping_twice_removes_nothing_the_second_time() {
    let mut store = PasteStore::new();
    store.accept(vec![1], zero_nonce(), 0).unwrap();
    store.accept(vec![2], zero_nonce(), 10).unwrap();
    let fresh = store.accept(vec![3], zero_nonce(), EXPIRY_MILLIS).unwrap();
    let now = EXPIRY_MILLIS + 5;
    assert_eq!(store.reap_expired(now), 1);
    assert_eq!(store.reap_expired(now), 0);
    assert_eq!(store.len(), 2);
    assert!(store.contains(&fresh));
}

#[test]
fn record_expires_after_retention_window() {
    let mut store = PasteStore::new();
    let t: u64 = 1_000;
    let id = store.accept(vec![1, 2], zero_nonce(), t).unwrap();
    assert_eq!(store.reap_expired(t + EXPIRY_MILLIS), 0);
    assert!(store.fetch(&id).is_ok());
    assert_eq!(store.reap_expired(t + EXPIRY_MILLIS + 1), 1);
    assert_eq!(store.fetch(&id).err(), Some(FetchError::NotFound));
    assert_eq!(store.len(), 0);
}

#[test]
fn record_from_later_clock_reading_is_kept() {
    let mut store = PasteStore::new();
    let id = store.accept(vec![1], zero_nonce(), 500).unwrap();
    assert_eq!(store.reap_expired(0), 0);
    assert!(store.contains(&id));
}

#[test]
fn many_accepts_give_distinct_fetchable_ids() {
    let mut store = PasteStore::new();
    let mut ids: Vec<(String, Vec<u8>)> = Vec::new();
    for i in 0..200u32 {
        let ciphertext = i.to_le_bytes().to_vec();
        let id = store.accept(ciphertext.clone(), zero_nonce(), i as u64).unwrap();
        ids.push((id, ciphertext));
    }
    for (i, (a, _)) in ids.iter().enumerate() {
        for (b, _) in ids.iter().skip(i + 1) {
            assert_ne!(a, b);
        }
    }
    for (id, ciphertext) in &ids {
        assert_eq!(&store.fetch(id).unwrap().ciphertext, ciphertext);
    }
    assert_eq!(store.len(), 200);
}

#[test]
fn generated_ids_have_the_documented_shape() {
    let a = generate_paste_id();
    let b = generate_paste_id();
    assert!(is_alnum_id(&a));
    assert!(is_alnum_id(&b));
    assert_ne!(a, b);
}
