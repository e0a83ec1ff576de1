//! States of the optional cloud copy of the user's data.
use vstd::prelude::*;

verus! {

/// Where a cloud operation stands.
#[derive(Debug, Clone, PartialEq, Eq)]
pub enum CloudSyncState {
    Idle,
    NotLinked,
    Linking,
    Checking,
    Uploading,
    Downloading,
    Deleting,
    Success(String),
    Error(String),
}

impl CloudSyncState {
    /// Whether an operation is under way, so that no other may start.
    pub fn is_busy(&self) -> (r: bool)
        ensures
            r == (self is Linking || self is Checking || self is Uploading || self is Downloading
                || self is Deleting),
    {
        match self {
            CloudSyncState::Linking | CloudSyncState::Checking | CloudSyncState::Uploading
            | CloudSyncState::Downloading | CloudSyncState::Deleting => true,
            _ => false,
        }
    }
}

/// A cloud operation awaiting the user's confirmation.
#[derive(Debug, Clone, Copy, PartialEq, Eq, Structural)]
pub enum CloudAction {
    Upload,
    Download,
    Delete,
}

/// What a completed sign-in hands back.
#[derive(Debug, Clone)]
pub struct AuthResult {
    pub token: String,
    pub steam_id: String,
}

} // verus!
