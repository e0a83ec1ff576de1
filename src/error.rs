//! Errors of the library's operations.
use vstd::prelude::*;

verus! {

/// An error, by kind, with its detail.
#[derive(Debug, Clone, PartialEq, Eq)]
pub enum OverachieverError {
    Config(String),
    SteamApi(String),
    Database(String),
    Network(String),
    WebSocket(String),
    Auth(String),
    NotAuthenticated,
    InvalidData(String),
}

impl OverachieverError {
    /// The heading under which the error is shown, before its detail.
    pub fn heading(&self) -> (r: &'static str)
        ensures
            r@ == match *self {
                OverachieverError::Config(_) => "Configuration error"@,
                OverachieverError::SteamApi(_) => "Steam API error"@,
                OverachieverError::Database(_) => "Database error"@,
                OverachieverError::Network(_) => "Network error"@,
                OverachieverError::WebSocket(_) => "WebSocket error"@,
                OverachieverError::Auth(_) => "Authentication error"@,
                OverachieverError::NotAuthenticated => "Not authenticated"@,
                OverachieverError::InvalidData(_) => "Invalid data"@,
            },
    {
        match self {
            OverachieverError::Config(_) => "Configuration error",
            OverachieverError::SteamApi(_) => "Steam API error",
            OverachieverError::Database(_) => "Database error",
            OverachieverError::Network(_) => "Network error",
            OverachieverError::WebSocket(_) => "WebSocket error",
            OverachieverError::Auth(_) => "Authentication error",
            OverachieverError::NotAuthenticated => "Not authenticated",
            OverachieverError::InvalidData(_) => "Invalid data",
        }
    }

    /// The detail of the error, if it has one.
    pub fn detail(&self) -> (r: Option<&String>)
        ensures
            r == match self {
                OverachieverError::NotAuthenticated => None,
                OverachieverError::Config(d) => Some(d),
                OverachieverError::SteamApi(d) => Some(d),
                OverachieverError::Database(d) => Some(d),
                OverachieverError::Network(d) => Some(d),
                OverachieverError::WebSocket(d) => Some(d),
                OverachieverError::Auth(d) => Some(d),
                OverachieverError::InvalidData(d) => Some(d),
            },
    {
        match self {
            OverachieverError::NotAuthenticated => None,
            OverachieverError::Config(d) => Some(d),
            OverachieverError::SteamApi(d) => Some(d),
            OverachieverError::Database(d) => Some(d),
            OverachieverError::Network(d) => Some(d),
            OverachieverError::WebSocket(d) => Some(d),
            OverachieverError::Auth(d) => Some(d),
            OverachieverError::InvalidData(d) => Some(d),
        }
    }
}

} // verus!
