use zkpaste::config::{listen_mode, ListenMode};
use zkpaste::service::{create_paste, get_paste, CreateError};
use zkpaste::store::{AcceptError, FetchError, PasteStore};

const ZERO_NONCE_B64: &str = "AAAAAAAAAAAAAAAA";

#[test]
fn create_then_get_round_trips_base64() {
    let mut store = PasteStore::new();
    let id = create_paste(&mut store, &"AQID".to_string(), &ZERO_NONCE_B64.to_string(), 0).unwrap();
    let paste = store.fetch(&id).unwrap();
    assert_eq!(paste.ciphertext, vec![1, 2, 3]);
    assert_eq!(paste.nonce, vec![0u8; 12]);
    let encoded = get_paste(&store, &id).unwrap();
    assert_eq!(encoded.encrypted_data_b64, "AQID");
    assert_eq!(encoded.nonce_b64, ZERO_NONCE_B64);
}

#[test]
fn get_paste_encodes_stored_bytes() {
    let mut store = PasteStore::new();
    let id = store.accept(b"hello world~".to_vec(), vec![0xFF; 12], 0).unwrap();
    let encoded = get_paste(&store, &id).unwrap();
    assert_eq!(encoded.encrypted_data_b64, "aGVsbG8gd29ybGR+");
    assert_eq!(encoded.nonce_b64, "////////////////");
}

#[test]
fn get_paste_reports_lookup_errors() {
    let store = PasteStore::new();
    assert_eq!(get_paste(&store, &String::new()).err(), Some(FetchError::InvalidId));
    assert_eq!(get_paste(&store, &"abc".to_string()).err(), Some(FetchError::NotFound));
}

#[test]
fn bad_nonce_encoding_is_reported_first() {
    let mut store = PasteStore::new();
    let r = create_paste(&mut store, &"!!".to_string(), &"!!".to_string(), 0);
    assert_eq!(r, Err(CreateError::NonceEncoding));
    assert_eq!(store.len(), 0);
}

#[test]
fn bad_data_encoding_is_reported() {
    let mut store = PasteStore::new();
    let r = create_paste(&mut store, &"A".to_string(), &ZERO_NONCE_B64.to_string(), 0);
    assert_eq!(r, Err(CreateError::DataEncoding));
    assert_eq!(store.len(), 0);
}

#[test]
fn decoded_nonce_of_wrong_length_is_refused() {
    let mut store = PasteStore::new();
    let r = create_paste(&mut store, &"AQID".to_string(), &"AAAAAAAAAAA=".to_string(), 0);
    assert_eq!(r, Err(CreateError::Rejected(AcceptError::InvalidNonce)));
}

#[test]
fn empty_decoded_data_is_refused() {
    let mut store = PasteStore::new();
    let r = create_paste(&mut store, &String::new(), &ZERO_NONCE_B64.to_string(), 0);
    assert_eq!(r, Err(CreateError::Rejected(AcceptError::InvalidPayload)));
}

#[test]
fn statuses_and_messages() {
    assert_eq!(CreateError::NonceEncoding.status(), 400);
    assert_eq!(CreateError::DataEncoding.status(), 400);
    assert_eq!(CreateError::Rejected(AcceptError::InvalidNonce).status(), 400);
    assert_eq!(CreateError::Rejected(AcceptError::InvalidPayload).status(), 400);
    assert_eq!(CreateError::Rejected(AcceptError::StorageConflict).status(), 500);
    assert_eq!(FetchError::InvalidId.status(), 400);
    assert_eq!(FetchError::NotFound.status(), 404);
    assert_eq!(CreateError::NonceEncoding.message(), "Invalid nonce encoding");
    assert_eq!(
        CreateError::Rejected(AcceptError::InvalidNonce).message(),
        "Invalid nonce length. Expected 12"
    );
    assert_eq!(
        CreateError::Rejected(AcceptError::StorageConflict).message(),
        "Could not save paste, please try again."
    );
}

#[test]
fn listen_mode_needs_both_or_neither() {
    assert_eq!(listen_mode(true, true), Some(ListenMode::Https));
    assert_eq!(listen_mode(false, false), Some(ListenMode::Http));
    assert_eq!(listen_mode(true, false), None);
    assert_eq!(listen_mode(false, true), None);
}
