//! The ways in which an operation can fail.

use vstd::prelude::*;

verus! {

/// Why an operation failed. Nothing is retried inside the library: every
/// failure is handed to the caller, who decides what to do next.
#[derive(Debug, Clone, Copy, PartialEq, Eq, Structural)]
pub enum NetError {
    /// The party directory could not be loaded, or it is no directory.
    ConfigError,
    /// A link to some peer could not be established at construction.
    ConnectionError,
    /// The peer is this party itself, or no party of the directory.
    InvalidPeer,
    /// The configured time ran out before the operation completed.
    Timeout,
    /// The link to the peer is broken.
    LinkError,
    /// The operation was issued after `stop`.
    ClosedError,
}

impl NetError {
    /// The text of [`NetError::describe`].
    pub open spec fn text(self) -> Seq<char> {
        match self {
            NetError::ConfigError => "invalid party directory"@,
            NetError::ConnectionError => "could not connect to every peer"@,
            NetError::InvalidPeer => "invalid peer"@,
            NetError::Timeout => "timed out"@,
            NetError::LinkError => "link to peer is broken"@,
            NetError::ClosedError => "network io is stopped"@,
        }
    }

    /// A short description for messages and logs.
    pub fn describe(&self) -> (text: String)
        ensures
            text@ == self.text(),
    {
        match self {
            NetError::ConfigError => "invalid party directory".to_owned(),
            NetError::ConnectionError => "could not connect to every peer".to_owned(),
            NetError::InvalidPeer => "invalid peer".to_owned(),
            NetError::Timeout => "timed out".to_owned(),
            NetError::LinkError => "link to peer is broken".to_owned(),
            NetError::ClosedError => "network io is stopped".to_owned(),
        }
    }
}

} // verus!
