//! Error taxonomy of the sync engine.
//!
//! Connection, TLS, authentication and folder-selection failures are fatal
//! for a whole sync call; decode problems never surface here (a malformed
//! message degrades to a plaintext fallback instead); local-store failures
//! are kept distinct from protocol failures so a caller can tell "server
//! reachable but could not persist" from "could not reach server".

use vstd::prelude::*;

verus! {

/// One failing step of a sync, store or send operation.
#[derive(Clone, Copy, Debug, PartialEq, Eq, Structural)]
pub enum SyncError {
    /// TCP connection could not be opened (refused, unreachable, timeout).
    Connect,
    /// The TLS handshake failed.
    Tls,
    /// The server rejected the credentials (LOGIN, or USER/PASS).
    Auth,
    /// The requested folder could not be selected.
    Folder,
    /// A fetch or RETR exchange failed mid-transfer.
    Fetch,
    /// Reading or writing the local store failed.
    LocalIo,
    /// A cached message was requested that is not in the store.
    NotFound,
    /// The outbound SMTP submission failed.
    Send,
}

impl SyncError {
    /// The human-readable diagnostic for this failing step.
    pub open spec fn spec_message(self) -> Seq<char> {
        match self {
            SyncError::Connect => "connection failed"@,
            SyncError::Tls => "TLS handshake failed"@,
            SyncError::Auth => "login failed"@,
            SyncError::Folder => "folder selection failed"@,
            SyncError::Fetch => "fetch failed"@,
            SyncError::LocalIo => "local store access failed"@,
            SyncError::NotFound => "message not found"@,
            SyncError::Send => "send failed"@,
        }
    }

    /// Renders the error as a descriptive string naming the failing step.
    pub fn message(&self) -> (r: String)
        ensures
            r@ == self.spec_message(),
    {
        match self {
            SyncError::Connect => String::from_str("connection failed"),
            SyncError::Tls => String::from_str("TLS handshake failed"),
            SyncError::Auth => String::from_str("login failed"),
            SyncError::Folder => String::from_str("folder selection failed"),
            SyncError::Fetch => String::from_str("fetch failed"),
            SyncError::LocalIo => String::from_str("local store access failed"),
            SyncError::NotFound => String::from_str("message not found"),
            SyncError::Send => String::from_str("send failed"),
        }
    }
}

} // verus!
