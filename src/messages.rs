//! Requests a client sends to the sync server.
use vstd::prelude::*;

verus! {

/// A request from a client.
#[derive(Debug, Clone)]
pub enum ClientMessage {
    /// Sign in with a session token.
    Authenticate { token: String },
    FetchGames,
    FetchAchievements { appid: u64 },
    /// Run the Update flow on the server.
    SyncFromSteam,
    /// Run the Full Scan flow on the server.
    FullScan { force: bool },
    FetchHistory,
    SubmitRating { appid: u64, rating: u8, comment: Option<String> },
    SubmitAchievementTip { appid: u64, apiname: String, difficulty: u8, tip: String },
    GetCommunityRatings { appid: u64 },
    GetCommunityTips { appid: u64, apiname: String },
    Ping,
}

impl ClientMessage {
    /// The sync flow the request starts, if it starts one.
    pub fn flow(&self) -> (r: Option<crate::sync::FlowKind>)
        ensures
            r == match *self {
                ClientMessage::SyncFromSteam => Some(crate::sync::FlowKind::Update),
                ClientMessage::FullScan { force } => Some(crate::sync::FlowKind::FullScan { force }),
                _ => None,
            },
    {
        match self {
            ClientMessage::SyncFromSteam => Some(crate::sync::FlowKind::Update),
            ClientMessage::FullScan { force } => Some(crate::sync::FlowKind::FullScan { force: *force }),
            _ => None,
        }
    }
}

} // verus!
