//! Records exchanged with the game source and kept in the store.
use vstd::prelude::*;
use vstd::string::StringExecFns;

use crate::text::{decimal, decimal_string};

verus! {

/// One entry of the owned-games list as the game source reports it.
#[derive(Debug, Clone)]
pub struct SteamGame {
    pub appid: u64,
    pub name: String,
    /// Total playtime in minutes.
    pub playtime_forever: u32,
    pub playtime_windows_forever: Option<u32>,
    pub playtime_mac_forever: Option<u32>,
    pub playtime_linux_forever: Option<u32>,
    pub playtime_deck_forever: Option<u32>,
    /// Unix seconds of the last session; `None` or `Some(0)` when never played.
    pub rtime_last_played: Option<u32>,
    pub img_icon_url: Option<String>,
}

/// A game as tracked by the store, for one user.
///
/// `achievements_total` and `achievements_unlocked` stay `None` until the game
/// is scraped; `Some(0)` total means the game has no achievements at all.
#[derive(Debug, Clone)]
pub struct Game {
    pub appid: u64,
    pub name: String,
    pub playtime_forever: u32,
    pub rtime_last_played: Option<u32>,
    pub img_icon_url: Option<String>,
    /// Unix seconds at which the game first entered the store.
    pub added_at: i64,
    pub achievements_total: Option<u32>,
    pub achievements_unlocked: Option<u32>,
    /// Unix seconds of the last successful achievement scrape.
    pub last_achievement_scrape: Option<i64>,
}

/// Progress of one achievement as the game source reports it.
#[derive(Debug, Clone)]
pub struct Achievement {
    pub apiname: String,
    /// 1 when unlocked.
    pub achieved: u8,
    /// Unix seconds of the unlock, 0 when unknown.
    pub unlocktime: u32,
}

/// Definition of one achievement from the game's schema.
#[derive(Debug, Clone)]
pub struct AchievementSchema {
    /// The api name, the achievement's key within its game.
    pub name: String,
    pub display_name: String,
    pub description: Option<String>,
    pub icon: String,
    pub icongray: String,
}

/// Stored unlock state of one achievement for the user.
#[derive(Debug, Clone)]
pub struct UnlockState {
    pub appid: u64,
    pub apiname: String,
    pub achieved: bool,
    /// Unix seconds of the unlock, once known.
    pub unlocktime: Option<i64>,
}

/// Stored schema entry of one achievement, shared by all users.
#[derive(Debug, Clone)]
pub struct SchemaEntry {
    pub appid: u64,
    pub apiname: String,
    pub display_name: String,
    pub description: Option<String>,
    pub icon: String,
    pub icon_gray: String,
}

/// An achievement of one game with its schema fields and the user's state.
#[derive(Debug, Clone)]
pub struct GameAchievement {
    pub appid: u64,
    pub apiname: String,
    pub name: String,
    pub description: Option<String>,
    pub icon: String,
    pub icon_gray: String,
    pub achieved: bool,
    pub unlocktime: Option<i64>,
}

/// Snapshot of the owned-games list taken after each run.
#[derive(Debug, Clone, Copy)]
pub struct RunHistory {
    pub run_at: i64,
    pub total_games: u32,
    pub unplayed_games: u32,
}

/// Snapshot of achievement progress over all games.
#[derive(Debug, Clone, Copy)]
pub struct AchievementHistory {
    pub recorded_at: i64,
    pub total_achievements: u64,
    pub unlocked_achievements: u64,
    pub games_with_achievements: u64,
    /// Mean completion over the counted games, in hundredths of a percent.
    pub avg_completion_hundredths: u64,
}

/// The moment a game was first played.
#[derive(Debug, Clone, Copy)]
pub struct FirstPlay {
    pub appid: u64,
    pub played_at: i64,
}

/// Outcome of merging one game's fetched achievements.
#[derive(Debug, Clone, Copy, PartialEq, Eq, Structural)]
pub struct MergeResult {
    pub unlocked_count: u32,
    pub total_count: u32,
}

/// Summary of a finished sync run.
#[derive(Debug, Clone, Copy, PartialEq, Eq, Structural)]
pub struct SyncResult {
    /// Games scraped in this run, whether or not their fetch succeeded.
    pub games_updated: u32,
    /// Sum of the lengths of the achievement-progress lists fetched in this
    /// run, or `u64::MAX` where that does not fit.
    pub achievements_updated: u64,
    /// Games that entered the store in this run.
    pub new_games: u32,
}

/// A Steam user's public profile.
#[derive(Debug, Clone)]
pub struct UserProfile {
    pub steam_id: String,
    pub display_name: String,
    pub avatar_url: Option<String>,
}

/// The user's answer to the data-processing consent dialog.
#[derive(Debug, Clone, Copy, PartialEq, Eq, Structural)]
pub enum GdprConsent {
    Unset,
    Accepted,
    Declined,
}

impl GdprConsent {
    /// Whether the user has answered, either way.
    pub fn is_set(&self) -> (r: bool)
        ensures
            r == !(*self is Unset),
    {
        !matches!(self, GdprConsent::Unset)
    }

    /// Whether the user has accepted.
    pub fn is_accepted(&self) -> (r: bool)
        ensures
            r == (*self is Accepted),
    {
        matches!(self, GdprConsent::Accepted)
    }
}

/// A copy of an optional string, equal to it.
pub fn copy_opt_string(s: &Option<String>) -> (r: Option<String>)
    ensures
        r == *s,
{
    match s {
        Some(v) => Some(v.clone()),
        None => None,
    }
}

impl Game {
    /// Completion in hundredths of a percent, rounded down; `None` until
    /// the game is scraped or when it has no achievements.
    pub open spec fn completion(self) -> Option<int> {
        match (self.achievements_unlocked, self.achievements_total) {
            (Some(u), Some(t)) => if t > 0 {
                Some(u as int * 10000 / t as int)
            } else {
                None
            },
            _ => None,
        }
    }

    /// The game's completion in hundredths of a percent.
    pub fn completion_percent(&self) -> (r: Option<u64>)
        ensures
            r matches Some(c) ==> self.completion() == Some(c as int),
            r is None ==> self.completion() is None,
    {
        match (self.achievements_unlocked, self.achievements_total) {
            (Some(u), Some(t)) => {
                if t > 0 {
                    assert(u as int * 10000 <= u32::MAX as int * 10000) by (nonlinear_arith)
                        requires
                            u <= u32::MAX,
                    ;
                    assert(u as int * 10000 / t as int <= u as int * 10000) by (nonlinear_arith)
                        requires
                            t >= 1,
                    ;
                    Some((u as u64) * 10000 / (t as u64))
                } else {
                    None
                }
            },
            _ => None,
        }
    }

    /// How the achievement counts are shown: "unlocked / total", "N/A"
    /// for a game known to have none, and a dash before the first scrape.
    pub fn achievements_display(&self) -> (r: String)
        ensures
            r@ == match (self.achievements_unlocked, self.achievements_total) {
                (Some(u), Some(t)) => if t > 0 {
                    decimal(u as nat) + " / "@ + decimal(t as nat)
                } else {
                    "N/A"@
                },
                _ => "\u{2014}"@,
            },
    {
        match (self.achievements_unlocked, self.achievements_total) {
            (Some(u), Some(t)) => {
                if t > 0 {
                    let mut r = decimal_string(u as u64);
                    r.append(" / ");
                    let total = decimal_string(t as u64);
                    r.append(total.as_str());
                    r
                } else {
                    "N/A".to_string()
                }
            },
            _ => "\u{2014}".to_string(),
        }
    }

    /// A copy of this game, equal to it.
    pub fn copied(&self) -> (r: Game)
        ensures
            r == *self,
    {
        Game {
            appid: self.appid,
            name: self.name.clone(),
            playtime_forever: self.playtime_forever,
            rtime_last_played: self.rtime_last_played,
            img_icon_url: copy_opt_string(&self.img_icon_url),
            added_at: self.added_at,
            achievements_total: self.achievements_total,
            achievements_unlocked: self.achievements_unlocked,
            last_achievement_scrape: self.last_achievement_scrape,
        }
    }
}

} // verus!
