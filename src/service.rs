use base64::Engine;
use vstd::prelude::*;

use crate::ident::is_paste_id;
use crate::store::{
    acceptance_error, fetch_spec, new_record, AcceptError, FetchError, PasteStore, PasteView,
    MAX_ENCRYPTED_SIZE,
};

verus! {

#[verifier::external_type_specification]
#[verifier::external_body]
pub struct ExDecodeError(base64::DecodeError);

/// What base64's standard engine decodes `s` to, or `None` where it refuses `s`.
pub uninterp spec fn standard_decoded(s: Seq<char>) -> Option<Seq<u8>>;

/// What base64's standard engine encodes `b` to.
pub uninterp spec fn standard_encoded(b: Seq<u8>) -> Seq<char>;

/// Relies on base64 0.22's `Engine::decode` on `general_purpose::STANDARD`: the result
/// depends on the input alone, and an input that is not padded standard base64 is an `Err`.
#[verifier::external_body]
fn decode_standard(s: &String) -> (r: Result<Vec<u8>, base64::DecodeError>)
    ensures
        match r {
            Ok(v) => standard_decoded(s@) == Some(v@),
            Err(_) => standard_decoded(s@) is None,
        },
{
    base64::engine::general_purpose::STANDARD.decode(s)
}

/// Relies on base64 0.22's `Engine::encode` on `general_purpose::STANDARD`: the result
/// depends on the input alone and is padded, four characters for each started group of
/// three bytes. It panics only where that length overflows `usize`.
#[verifier::external_body]
fn encode_standard(b: &Vec<u8>) -> (r: String)
    requires
        4 * ((b@.len() + 2) / 3) <= usize::MAX,
    ensures
        r@ == standard_encoded(b@),
        r@.len() == 4 * ((b@.len() + 2) / 3),
{
    base64::engine::general_purpose::STANDARD.encode(b)
}

/// Why a creation request was refused.
#[derive(Debug, Clone, Copy, PartialEq, Eq, Structural)]
pub enum CreateError {
    /// The nonce field is not valid base64.
    NonceEncoding,
    /// The ciphertext field is not valid base64.
    DataEncoding,
    /// The decoded payload was refused by the store.
    Rejected(AcceptError),
}

impl CreateError {
    /// The HTTP status that reports this refusal.
    pub fn status(&self) -> (r: u16)
        ensures
            r == create_status(*self),
    {
        match self {
            CreateError::Rejected(AcceptError::StorageConflict) => 500,
            _ => 400,
        }
    }

    /// The message that reports this refusal.
    pub fn message(&self) -> (r: String)
        ensures
            r@ == create_message(*self)@,
    {
        match self {
            CreateError::NonceEncoding => "Invalid nonce encoding".to_owned(),
            CreateError::DataEncoding => "Invalid encrypted_data encoding".to_owned(),
            CreateError::Rejected(AcceptError::InvalidNonce) => "Invalid nonce length. Expected 12".to_owned(),
            CreateError::Rejected(AcceptError::InvalidPayload) =>
                "Encrypted content exceeds maximum size limit or is empty".to_owned(),
            CreateError::Rejected(AcceptError::StorageConflict) =>
                "Could not save paste, please try again.".to_owned(),
        }
    }
}

/// Server-side failures (a taken identifier) are 500; every other refusal is the client's, 400.
pub open spec fn create_status(e: CreateError) -> u16 {
    match e {
        CreateError::Rejected(AcceptError::StorageConflict) => 500,
        _ => 400,
    }
}

/// The message text of each refusal.
pub open spec fn create_message(e: CreateError) -> &'static str {
    match e {
        CreateError::NonceEncoding => "Invalid nonce encoding",
        CreateError::DataEncoding => "Invalid encrypted_data encoding",
        CreateError::Rejected(AcceptError::InvalidNonce) => "Invalid nonce length. Expected 12",
        CreateError::Rejected(AcceptError::InvalidPayload) =>
            "Encrypted content exceeds maximum size limit or is empty",
        CreateError::Rejected(AcceptError::StorageConflict) =>
            "Could not save paste, please try again.",
    }
}

impl FetchError {
    /// The HTTP status that reports this outcome.
    pub fn status(&self) -> (r: u16)
        ensures
            r == fetch_status(*self),
    {
        match self {
            FetchError::InvalidId => 400,
            FetchError::NotFound => 404,
        }
    }
}

/// A malformed identifier is 400, an absent record 404.
pub open spec fn fetch_status(e: FetchError) -> u16 {
    match e {
        FetchError::InvalidId => 400,
        FetchError::NotFound => 404,
    }
}

/// A stored paste with both fields in standard base64.
pub struct EncodedPaste {
    pub encrypted_data_b64: String,
    pub nonce_b64: String,
}

/// The refusal, if any, of a creation request whose fields decode to `nonce` and `data`.
pub open spec fn create_error(nonce: Option<Seq<u8>>, data: Option<Seq<u8>>) -> Option<CreateError> {
    match nonce {
        None => Some(CreateError::NonceEncoding),
        Some(n) => match data {
            None => Some(CreateError::DataEncoding),
            Some(d) => match acceptance_error(d.len(), n.len()) {
                Some(e) => Some(CreateError::Rejected(e)),
                None => None,
            },
        },
    }
}

/// Decodes both base64 fields, the nonce first, and stores the payload under a fresh identifier.
pub fn create_paste(
    store: &mut PasteStore,
    encrypted_data_b64: &String,
    nonce_b64: &String,
    now: u64,
) -> (r: Result<String, CreateError>)
    requires
        old(store).wf(),
    ensures
        final(store).wf(),
        ({
            let nonce = standard_decoded(nonce_b64@);
            let data = standard_decoded(encrypted_data_b64@);
            match create_error(nonce, data) {
                Some(e) => r == Err::<String, CreateError>(e) && final(store)@ == old(store)@,
                None => match r {
                    Ok(id) => {
                        &&& is_paste_id(id@)
                        &&& !old(store)@.contains_key(id@)
                        &&& final(store)@ == old(store)@.insert(
                            id@,
                            new_record(data.unwrap(), nonce.unwrap(), now),
                        )
                    },
                    Err(e) => {
                        &&& e == CreateError::Rejected(AcceptError::StorageConflict)
                        &&& final(store)@ == old(store)@
                        &&& exists|k: Seq<char>| #[trigger]
                            old(store)@.contains_key(k) && is_paste_id(k)
                    },
                },
            }
        }),
{
    let nonce = match decode_standard(nonce_b64) {
        Ok(n) => n,
        Err(_) => {
            return Err(CreateError::NonceEncoding);
        },
    };
    let data = match decode_standard(encrypted_data_b64) {
        Ok(d) => d,
        Err(_) => {
            return Err(CreateError::DataEncoding);
        },
    };
    match store.accept(data, nonce, now) {
        Ok(id) => Ok(id),
        Err(e) => Err(CreateError::Rejected(e)),
    }
}

/// The paste stored under `id`, with both fields in standard base64.
pub fn get_paste(store: &PasteStore, id: &String) -> (r: Result<EncodedPaste, FetchError>)
    requires
        store.wf(),
    ensures
        match r {
            Ok(p) => exists|v: PasteView|
                {
                    &&& fetch_spec(store@, id@) == Ok::<PasteView, FetchError>(v)
                    &&& p.encrypted_data_b64@ == standard_encoded(v.ciphertext)
                    &&& p.nonce_b64@ == standard_encoded(v.nonce)
                },
            Err(e) => fetch_spec(store@, id@) == Err::<PasteView, FetchError>(e),
        },
{
    let paste = store.fetch(id)?;
    proof {
        store.lemma_live_records_acceptable();
        assert(store@.contains_key(id@));
        assert(paste.ciphertext@.len() + paste.nonce@.len() <= MAX_ENCRYPTED_SIZE);
    }
    let encrypted_data_b64 = encode_standard(&paste.ciphertext);
    let nonce_b64 = encode_standard(&paste.nonce);
    Ok(EncodedPaste { encrypted_data_b64, nonce_b64 })
}

} // verus!
