//! Errors of the relay's connection workflow.

use vstd::prelude::*;

verus! {

/// Errors a peer-side connection workflow can end in. Causes reported by
/// outside components are carried as text.
#[derive(Debug)]
pub enum WebrtcError {
    /// The signaling exchange with the relay failed.
    ServerError(String),
    /// The description exchange was malformed or rejected.
    SdpError,
    /// The transport engine reported a fault.
    WebrtcError(String),
    /// Network communication failed.
    NetworkError(String),
    /// Sending on the control channel failed.
    SendError(String),
    /// No usable local address was found to offer as a candidate.
    NoCandidates,
}

impl WebrtcError {
    /// Whether the error leaves retrying pointless: no candidates means no
    /// local network to work with, and a rejected description will be
    /// rejected again.
    pub fn is_permanent(&self) -> (r: bool)
        ensures
            r == (*self matches WebrtcError::NoCandidates || *self matches WebrtcError::SdpError),
    {
        match self {
            WebrtcError::NoCandidates => true,
            WebrtcError::SdpError => true,
            _ => false,
        }
    }
}

} // verus!
