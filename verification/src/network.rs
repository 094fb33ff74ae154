//! Network access of the node.

use crate::text::push_text;
use vstd::prelude::*;
use vstd::string::*;

verus! {

/// Errors of the network. Where the operating system or the WiFi driver
/// reported the error, its text is kept.
#[derive(Debug, Clone, PartialEq, Eq)]
pub enum NetworkError {
    /// The network is not configured.
    NotConfigured,
    /// The WiFi driver failed.
    WifiError(String),
    /// Reading or writing failed.
    Io(String),
}

impl NetworkError {
    /// A sentence that describes the error.
    pub fn describe(&self) -> (s: String)
        ensures
            s@ == match *self {
                NetworkError::NotConfigured => "network not configured"@,
                NetworkError::WifiError(e) => "WiFi error: "@ + e@,
                NetworkError::Io(e) => "I/O error: "@ + e@,
            },
    {
        match self {
            NetworkError::NotConfigured => String::from_str("network not configured"),
            NetworkError::WifiError(e) => {
                let mut s = String::from_str("WiFi error: ");
                push_text(&mut s, e.as_str());
                s
            },
            NetworkError::Io(e) => {
                let mut s = String::from_str("I/O error: ");
                push_text(&mut s, e.as_str());
                s
            },
        }
    }
}

/// Whether the node has network access. A host always has.
pub fn is_wifi_connected() -> (r: bool)
    ensures
        r,
{
    true
}

/// Prepares the platform. A host needs no preparation.
pub fn ensure_esp_initialized() {
}

} // verus!
