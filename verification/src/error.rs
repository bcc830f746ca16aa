//! The failures that the proxy core tells apart.

use vstd::prelude::*;

verus! {

/// Why a connection, or the process, could not go on.
#[derive(Clone, Copy, Debug, PartialEq, Eq, Structural)]
pub enum ProxyError {
    /// The peer did not send a well-formed packet.
    Malformed,
    /// No route exists for the requested virtual host.
    UnknownHost,
    /// The backend could not be reached.
    BackendUnreachable,
    /// Client and backend addresses belong to different address families.
    MixedFamilies,
    /// A socket failed while bytes were being relayed.
    Io,
    /// A listener could not be bound or the configuration could not be read.
    StartupFailure,
}

impl ProxyError {
    /// A short human-readable description.
    pub fn message(&self) -> (text: &'static str)
        ensures
            text@ == self.message_text(),
    {
        match self {
            ProxyError::Malformed => "malformed packet",
            ProxyError::UnknownHost => "unknown host",
            ProxyError::BackendUnreachable => "backend unreachable",
            ProxyError::MixedFamilies => "client and backend address families differ",
            ProxyError::Io => "connection closed while relaying",
            ProxyError::StartupFailure => "startup failed",
        }
    }

    /// The characters of the description.
    pub open spec fn message_text(&self) -> Seq<char> {
        match self {
            ProxyError::Malformed => "malformed packet"@,
            ProxyError::UnknownHost => "unknown host"@,
            ProxyError::BackendUnreachable => "backend unreachable"@,
            ProxyError::MixedFamilies => "client and backend address families differ"@,
            ProxyError::Io => "connection closed while relaying"@,
            ProxyError::StartupFailure => "startup failed"@,
        }
    }

    /// Whether a reply is owed to the client before the connection closes.
    pub fn is_recoverable(&self) -> (yes: bool)
        ensures
            yes == (*self == ProxyError::UnknownHost || *self == ProxyError::BackendUnreachable),
    {
        match self {
            ProxyError::UnknownHost => true,
            ProxyError::BackendUnreachable => true,
            _ => false,
        }
    }
}

} // verus!
