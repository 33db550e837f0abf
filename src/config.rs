use vstd::prelude::*;

verus! {

/// How the server listens.
#[derive(Debug, Clone, Copy, PartialEq, Eq, Structural)]
pub enum ListenMode {
    /// Plain HTTP: neither certificate nor key was given.
    Http,
    /// HTTPS: both certificate and key were given.
    Https,
}

/// The listen mode for the given TLS settings: both or neither must be given.
pub open spec fn listen_mode_spec(cert_given: bool, key_given: bool) -> Option<ListenMode> {
    if cert_given && key_given {
        Some(ListenMode::Https)
    } else if !cert_given && !key_given {
        Some(ListenMode::Http)
    } else {
        None
    }
}

/// Chooses the listen mode; `None` means the server must refuse to start.
pub fn listen_mode(cert_given: bool, key_given: bool) -> (r: Option<ListenMode>)
    ensures
        r == listen_mode_spec(cert_given, key_given),
{
    match (cert_given, key_given) {
        (true, true) => Some(ListenMode::Https),
        (false, false) => Some(ListenMode::Http),
        _ => None,
    }
}

} // verus!
