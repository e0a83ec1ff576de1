//! The table store: games, unlock states, schema entries, history snapshots
//! and first-play events for one user, with upsert semantics.
use vstd::prelude::*;

use crate::merge::{unique_schema_keys, unique_unlock_keys};
use crate::order::{by_name, sort_by_name};
use crate::models::{
    AchievementHistory, FirstPlay, Game, RunHistory, SchemaEntry, SteamGame, UnlockState,
};

verus! {

/// The most games the store holds.
pub const MAX_GAMES: usize = 1_000_000;

/// A write that the store refuses.
#[derive(Debug, Clone, Copy, PartialEq, Eq, Structural)]
pub enum StoreError {
    /// The games table already holds `MAX_GAMES` games.
    Full,
}

/// Index of the last game with `appid`, or -1.
pub open spec fn find_game(s: Seq<Game>, appid: u64) -> int
    decreases s.len(),
{
    if s.len() == 0 {
        -1
    } else if s.last().appid == appid {
        s.len() - 1
    } else {
        find_game(s.drop_last(), appid)
    }
}

/// A stored game after the owned-games list reports it again: the reported
/// fields change, the first-seen time and the achievement fields stay.
pub open spec fn refreshed(old: Game, g: SteamGame) -> Game {
    Game {
        name: g.name,
        playtime_forever: g.playtime_forever,
        rtime_last_played: g.rtime_last_played,
        img_icon_url: g.img_icon_url,
        ..old
    }
}

/// A game seen for the first time at `now`: nothing known of its achievements.
pub open spec fn fresh_game(g: SteamGame, now: i64) -> Game {
    Game {
        appid: g.appid,
        name: g.name,
        playtime_forever: g.playtime_forever,
        rtime_last_played: g.rtime_last_played,
        img_icon_url: g.img_icon_url,
        added_at: now,
        achievements_total: None,
        achievements_unlocked: None,
        last_achievement_scrape: None,
    }
}

/// The games table after upserting `g` at `now`.
pub open spec fn games_after_upsert(s: Seq<Game>, g: SteamGame, now: i64) -> Seq<Game> {
    let i = find_game(s, g.appid);
    if i >= 0 {
        s.update(i, refreshed(s[i], g))
    } else {
        s.push(fresh_game(g, now))
    }
}

/// The upsert of `g` is the game's first play: it was stored with no
/// playtime at all and now reports some.
pub open spec fn is_first_play(s: Seq<Game>, g: SteamGame) -> bool {
    let i = find_game(s, g.appid);
    i >= 0 && s[i].playtime_forever == 0 && g.playtime_forever > 0
}

/// Some first-play event is recorded for `appid`.
pub open spec fn has_first_play(fps: Seq<FirstPlay>, appid: u64) -> bool {
    exists|j: int| 0 <= j < fps.len() && (#[trigger] fps[j]).appid == appid
}

/// When a first play happened: the last-played time the source reports, or
/// `now` where it reports none.
pub open spec fn first_play_time(g: SteamGame, now: i64) -> i64 {
    match g.rtime_last_played {
        Some(t) => if t > 0 { t as i64 } else { now },
        None => now,
    }
}

/// The first-play events after upserting `g` at `now`: one is added on a
/// first play, unless the game already has one.
pub open spec fn first_plays_after_upsert(
    s: Seq<Game>,
    fps: Seq<FirstPlay>,
    g: SteamGame,
    now: i64,
) -> Seq<FirstPlay> {
    if is_first_play(s, g) && !has_first_play(fps, g.appid) {
        fps.push(FirstPlay { appid: g.appid, played_at: first_play_time(g, now) })
    } else {
        fps
    }
}

/// The games table after recording a scrape of `appid` at `now`.
pub open spec fn games_after_counts(
    s: Seq<Game>,
    appid: u64,
    total: u32,
    unlocked: u32,
    now: i64,
) -> Seq<Game> {
    let i = find_game(s, appid);
    if i >= 0 {
        s.update(
            i,
            Game {
                achievements_total: Some(total),
                achievements_unlocked: Some(unlocked),
                last_achievement_scrape: Some(now),
                ..s[i]
            },
        )
    } else {
        s
    }
}

/// The games never scraped, in the order given.
pub open spec fn never_scraped(s: Seq<Game>) -> Seq<Game>
    decreases s.len(),
{
    if s.len() == 0 {
        s
    } else if s.last().last_achievement_scrape is None {
        never_scraped(s.drop_last()).push(s.last())
    } else {
        never_scraped(s.drop_last())
    }
}

/// Number of games with no playtime at all.
pub open spec fn count_unplayed(s: Seq<Game>) -> nat
    decreases s.len(),
{
    if s.len() == 0 {
        0
    } else {
        count_unplayed(s.drop_last()) + if s.last().playtime_forever == 0 {
            1nat
        } else {
            0nat
        }
    }
}

/// No appid occurs twice.
pub open spec fn unique_appids(s: Seq<Game>) -> bool {
    forall|i: int, j: int| 0 <= i < j < s.len() ==> (#[trigger] s[i]).appid != (#[trigger] s[j]).appid
}

pub proof fn lemma_find_game_same_appids(s: Seq<Game>, s2: Seq<Game>, appid: u64)
    requires
        s.len() == s2.len(),
        forall|i: int| 0 <= i < s.len() ==> (#[trigger] s2[i]).appid == s[i].appid,
    ensures
        find_game(s2, appid) == find_game(s, appid),
    decreases s.len(),
{
    if s.len() > 0 {
        assert forall|i: int| 0 <= i < s.len() - 1 implies (#[trigger] s2.drop_last()[i]).appid
            == s.drop_last()[i].appid by {
            assert(s2.drop_last()[i] == s2[i]);
            assert(s.drop_last()[i] == s[i]);
        }
        lemma_find_game_same_appids(s.drop_last(), s2.drop_last(), appid);
    }
}

/// After an upsert of `g`, the game is stored with the playtime it reported.
proof fn lemma_upsert_stores_playtime(s: Seq<Game>, g: SteamGame, now: i64)
    ensures
        find_game(games_after_upsert(s, g, now), g.appid) >= 0,
        games_after_upsert(s, g, now)[find_game(games_after_upsert(s, g, now), g.appid)].playtime_forever
            == g.playtime_forever,
{
    let after = games_after_upsert(s, g, now);
    lemma_find_game(s, g.appid);
    if find_game(s, g.appid) >= 0 {
        lemma_find_game_same_appids(s, after, g.appid);
    } else {
        assert(after.drop_last() =~= s);
    }
}

/// An owned-games upsert records a first play exactly when the game was
/// stored with no playtime and now reports some (for a game with no
/// first play recorded yet).
pub proof fn first_play_iff_playtime_leaves_zero(
    games: Seq<Game>,
    fps: Seq<FirstPlay>,
    g: SteamGame,
    now: i64,
)
    requires
        !has_first_play(fps, g.appid),
    ensures
        first_plays_after_upsert(games, fps, g, now).len() > fps.len() <==> (find_game(
            games,
            g.appid,
        ) >= 0 && games[find_game(games, g.appid)].playtime_forever == 0 && g.playtime_forever > 0),
        first_plays_after_upsert(games, fps, g, now).len() <= fps.len() + 1,
{
}

/// Upserting the same owned game a second time records no second first
/// play, and leaves the games table as the first upsert left it, up to the
/// time of a first sighting.
pub proof fn repeated_upsert_records_one_first_play(
    games: Seq<Game>,
    fps: Seq<FirstPlay>,
    g: SteamGame,
    now1: i64,
    now2: i64,
)
    ensures
        first_plays_after_upsert(
            games_after_upsert(games, g, now1),
            first_plays_after_upsert(games, fps, g, now1),
            g,
            now2,
        ) == first_plays_after_upsert(games, fps, g, now1),
{
    lemma_upsert_stores_playtime(games, g, now1);
}

/// A scrape that records no achievements marks the game as having none,
/// with a scrape time, and takes it out of the never-scraped games.
pub proof fn zero_achievement_scrape_is_not_never_scraped(games: Seq<Game>, appid: u64, now: i64)
    requires
        unique_appids(games),
        find_game(games, appid) >= 0,
    ensures
        ({
            let after = games_after_counts(games, appid, 0, 0, now);
            let i = find_game(after, appid);
            &&& i >= 0
            &&& after[i].achievements_total == Some(0u32)
            &&& after[i].last_achievement_scrape == Some(now)
            &&& forall|j: int|
                0 <= j < never_scraped(after).len() ==> (#[trigger] never_scraped(after)[j]).appid
                    != appid
        }),
{
    let after = games_after_counts(games, appid, 0, 0, now);
    lemma_find_game(games, appid);
    lemma_find_game_same_appids(games, after, appid);
    let i = find_game(after, appid);
    assert forall|k: int| 0 <= k < after.len() && (#[trigger] after[k]).appid == appid implies k == i by {
        if k != i {
            assert(after[k].appid == games[k].appid);
            if k < i {
                assert(games[k].appid != games[i].appid);
            } else {
                assert(games[i].appid != games[k].appid);
            }
        }
    }
    lemma_never_scraped_members(after);
}

/// Every never-scraped game is an unscraped game of the table.
pub proof fn lemma_never_scraped_members(s: Seq<Game>)
    ensures
        forall|j: int|
            0 <= j < never_scraped(s).len() ==> exists|k: int|
                0 <= k < s.len() && s[k] == #[trigger] never_scraped(s)[j]
                    && s[k].last_achievement_scrape is None,
    decreases s.len(),
{
    if s.len() > 0 {
        lemma_never_scraped_members(s.drop_last());
        let prev = never_scraped(s.drop_last());
        let ns = never_scraped(s);
        let last = s.last();
        if last.last_achievement_scrape is None {
            assert(ns == prev.push(last));
        } else {
            assert(ns == prev);
        }
        assert forall|j: int| 0 <= j < ns.len() implies exists|k: int|
            0 <= k < s.len() && s[k] == #[trigger] ns[j]
                && s[k].last_achievement_scrape is None by {
            if j < prev.len() {
                assert(ns[j] == prev[j]);
                let k = choose|k: int|
                    0 <= k < s.drop_last().len() && s.drop_last()[k] == #[trigger] prev[j]
                        && s.drop_last()[k].last_achievement_scrape is None;
                assert(s[k] == s.drop_last()[k]);
                assert(0 <= k < s.len() && s[k] == ns[j] && s[k].last_achievement_scrape is None);
            } else {
                let k = s.len() - 1;
                assert(ns[j] == last);
                assert(s[k] == last);
                assert(0 <= k < s.len() && s[k] == ns[j] && s[k].last_achievement_scrape is None);
            }
        }
    }
}

pub proof fn lemma_find_game(s: Seq<Game>, appid: u64)
    ensures
        -1 <= find_game(s, appid) < s.len(),
        find_game(s, appid) >= 0 ==> s[find_game(s, appid)].appid == appid,
        find_game(s, appid) == -1 ==> forall|j: int| 0 <= j < s.len() ==> s[j].appid != appid,
    decreases s.len(),
{
    if s.len() > 0 {
        lemma_find_game(s.drop_last(), appid);
        if s.last().appid != appid {
            assert forall|j: int| 0 <= j < s.len() && find_game(s, appid) == -1 implies s[j].appid
                != appid by {
                if j < s.len() - 1 {
                    assert(s[j] == s.drop_last()[j]);
                }
            }
        }
    }
}

proof fn lemma_count_unplayed_bound(s: Seq<Game>)
    ensures
        count_unplayed(s) <= s.len(),
    decreases s.len(),
{
    if s.len() > 0 {
        lemma_count_unplayed_bound(s.drop_last());
    }
}

/// Where upserting an owned-games list has got to: the tables so far, how
/// many games were new, and whether every write so far was taken.
pub struct OwnedFold {
    pub games: Seq<Game>,
    pub first_plays: Seq<FirstPlay>,
    pub new_games: nat,
    pub ok: bool,
}

/// Upserting `list` in order at `now`; the first game that the full table
/// refuses stops it, with everything before it written.
pub open spec fn owned_fold(
    gs: Seq<Game>,
    fps: Seq<FirstPlay>,
    list: Seq<SteamGame>,
    now: i64,
) -> OwnedFold
    decreases list.len(),
{
    if list.len() == 0 {
        OwnedFold { games: gs, first_plays: fps, new_games: 0, ok: true }
    } else {
        let prev = owned_fold(gs, fps, list.drop_last(), now);
        let g = list.last();
        let is_new = find_game(prev.games, g.appid) == -1;
        if !prev.ok || (is_new && prev.games.len() >= MAX_GAMES) {
            OwnedFold { ok: false, ..prev }
        } else {
            OwnedFold {
                games: games_after_upsert(prev.games, g, now),
                first_plays: first_plays_after_upsert(prev.games, prev.first_plays, g, now),
                new_games: prev.new_games + if is_new {
                    1nat
                } else {
                    0nat
                },
                ok: true,
            }
        }
    }
}

/// The games whose appid is in `ids`, in the order given.
pub open spec fn select_recent(s: Seq<Game>, ids: Seq<u64>) -> Seq<Game>
    decreases s.len(),
{
    if s.len() == 0 {
        s
    } else if ids.contains(s.last().appid) {
        select_recent(s.drop_last(), ids).push(s.last())
    } else {
        select_recent(s.drop_last(), ids)
    }
}

pub proof fn lemma_owned_fold(gs: Seq<Game>, fps: Seq<FirstPlay>, list: Seq<SteamGame>, now: i64)
    requires
        gs.len() <= MAX_GAMES,
    ensures
        owned_fold(gs, fps, list, now).games.len() == gs.len() + owned_fold(gs, fps, list, now).new_games,
        owned_fold(gs, fps, list, now).games.len() <= MAX_GAMES,
        owned_fold(gs, fps, list, now).new_games <= list.len(),
    decreases list.len(),
{
    if list.len() > 0 {
        lemma_owned_fold(gs, fps, list.drop_last(), now);
        let prev = owned_fold(gs, fps, list.drop_last(), now);
        lemma_find_game(prev.games, list.last().appid);
    }
}

/// Every selected game is one of `s`.
pub proof fn lemma_select_recent_members(s: Seq<Game>, ids: Seq<u64>)
    ensures
        forall|j: int| 0 <= j < select_recent(s, ids).len() ==> s.contains(#[trigger] select_recent(s, ids)[j]),
    decreases s.len(),
{
    if s.len() > 0 {
        lemma_select_recent_members(s.drop_last(), ids);
        let prev = select_recent(s.drop_last(), ids);
        assert forall|j: int| 0 <= j < select_recent(s, ids).len() implies s.contains(
            #[trigger] select_recent(s, ids)[j],
        ) by {
            let x = select_recent(s, ids)[j];
            if j < prev.len() {
                assert(x == prev[j]);
                assert(s.drop_last().contains(x));
                let k = choose|k: int| 0 <= k < s.drop_last().len() && s.drop_last()[k] == x;
                assert(s[k] == x);
            } else {
                assert(x == s.last());
                assert(s[s.len() - 1] == x);
            }
        }
    }
}

/// A game of the table is found under its appid.
pub proof fn lemma_member_is_found(s: Seq<Game>, x: Game)
    requires
        s.contains(x),
    ensures
        find_game(s, x.appid) >= 0,
{
    lemma_find_game(s, x.appid);
    let k = choose|k: int| 0 <= k < s.len() && s[k] == x;
    assert(s[k].appid == x.appid);
}

pub proof fn lemma_select_recent_len(s: Seq<Game>, ids: Seq<u64>)
    ensures
        select_recent(s, ids).len() <= s.len(),
    decreases s.len(),
{
    if s.len() > 0 {
        lemma_select_recent_len(s.drop_last(), ids);
    }
}

pub proof fn lemma_never_scraped_len(s: Seq<Game>)
    ensures
        never_scraped(s).len() <= s.len(),
    decreases s.len(),
{
    if s.len() > 0 {
        lemma_never_scraped_len(s.drop_last());
    }
}

/// What the store holds, as mathematical sequences.
pub struct StoreView {
    pub games: Seq<Game>,
    pub unlocks: Seq<UnlockState>,
    pub schemas: Seq<SchemaEntry>,
    pub run_history: Seq<RunHistory>,
    pub achievement_history: Seq<AchievementHistory>,
    pub first_plays: Seq<FirstPlay>,
    pub last_update: Option<i64>,
}

impl StoreView {
    pub open spec fn wf(self) -> bool {
        &&& self.games.len() <= MAX_GAMES
        &&& unique_appids(self.games)
        &&& unique_unlock_keys(self.unlocks)
        &&& unique_schema_keys(self.schemas)
    }
}

/// Everything stored for one user.
pub struct Store {
    pub games: Vec<Game>,
    pub unlocks: Vec<UnlockState>,
    pub schemas: Vec<SchemaEntry>,
    pub run_history: Vec<RunHistory>,
    pub achievement_history: Vec<AchievementHistory>,
    pub first_plays: Vec<FirstPlay>,
    /// Unix seconds at which the last sync run completed.
    pub last_update: Option<i64>,
}

/// Copies of the games whose appid is in `ids`, in order.
pub fn select_games(games: &Vec<Game>, ids: &Vec<u64>) -> (r: Vec<Game>)
    ensures
        r@ == select_recent(games@, ids@),
{
    let mut r: Vec<Game> = Vec::new();
    let mut i: usize = 0;
    while i < games.len()
        invariant
            i <= games.len(),
            r@ == select_recent(games@.subrange(0, i as int), ids@),
        decreases games.len() - i,
    {
        assert(games@.subrange(0, i + 1).drop_last() =~= games@.subrange(0, i as int));
        let appid = games[i].appid;
        let mut found = false;
        let mut k: usize = 0;
        while k < ids.len()
            invariant
                k <= ids.len(),
                found == (exists|m: int| 0 <= m < k && ids@[m] == appid),
            decreases ids.len() - k,
        {
            if ids[k] == appid {
                found = true;
            }
            k = k + 1;
        }
        assert(found == ids@.contains(appid));
        if found {
            r.push(games[i].copied());
        }
        i = i + 1;
    }
    assert(games@.subrange(0, i as int) =~= games@);
    r
}

/// The appids of an owned-games list, in order.
pub fn appids_of(list: &Vec<SteamGame>) -> (r: Vec<u64>)
    ensures
        r@ == list@.map_values(|g: SteamGame| g.appid),
{
    let mut r: Vec<u64> = Vec::new();
    let mut i: usize = 0;
    while i < list.len()
        invariant
            i <= list.len(),
            r@ == list@.subrange(0, i as int).map_values(|g: SteamGame| g.appid),
        decreases list.len() - i,
    {
        r.push(list[i].appid);
        i = i + 1;
        assert(r@ =~= list@.subrange(0, i as int).map_values(|g: SteamGame| g.appid));
    }
    assert(list@.subrange(0, i as int) =~= list@);
    r
}

impl View for Store {
    type V = StoreView;

    open spec fn view(&self) -> StoreView {
        StoreView {
            games: self.games@,
            unlocks: self.unlocks@,
            schemas: self.schemas@,
            run_history: self.run_history@,
            achievement_history: self.achievement_history@,
            first_plays: self.first_plays@,
            last_update: self.last_update,
        }
    }
}

/// Position of the last game with `appid` in `games`.
pub fn find_game_index(games: &Vec<Game>, appid: u64) -> (r: Option<usize>)
    ensures
        match r {
            Some(i) => i as int == find_game(games@, appid),
            None => find_game(games@, appid) == -1,
        },
{
    let mut i: usize = games.len();
    assert(games@.subrange(0, i as int) =~= games@);
    while i > 0
        invariant
            i <= games.len(),
            find_game(games@, appid) == find_game(games@.subrange(0, i as int), appid),
        decreases i,
    {
        assert(games@.subrange(0, i as int).drop_last() =~= games@.subrange(0, i - 1));
        if games[i - 1].appid == appid {
            return Some(i - 1);
        }
        i = i - 1;
    }
    None
}

impl Store {
    /// The store's own limits hold, and no game, unlock state or schema
    /// entry is stored twice under one key.
    pub open spec fn wf(&self) -> bool {
        &&& self.games.len() <= MAX_GAMES
        &&& unique_appids(self.games@)
        &&& unique_unlock_keys(self.unlocks@)
        &&& unique_schema_keys(self.schemas@)
    }

    /// Whether the store's limits hold, for a store whose tables were
    /// filled from elsewhere (a saved copy) rather than by its own methods.
    pub fn is_well_formed(&self) -> (r: bool)
        ensures
            r == self.wf(),
    {
        if self.games.len() > MAX_GAMES {
            return false;
        }
        let mut j: usize = 0;
        while j < self.games.len()
            invariant
                j <= self.games.len(),
                forall|a: int, b: int|
                    0 <= a < b < j ==> (#[trigger] self.games@[a]).appid != (#[trigger] self.games@[b]).appid,
            decreases self.games.len() - j,
        {
            let mut i: usize = 0;
            while i < j
                invariant
                    i <= j < self.games.len(),
                    forall|a: int| 0 <= a < i ==> (#[trigger] self.games@[a]).appid != self.games@[j as int].appid,
                decreases j - i,
            {
                if self.games[i].appid == self.games[j].appid {
                    return false;
                }
                i = i + 1;
            }
            j = j + 1;
        }
        let mut j: usize = 0;
        while j < self.unlocks.len()
            invariant
                j <= self.unlocks.len(),
                forall|a: int, b: int|
                    0 <= a < b < j ==> !((#[trigger] self.unlocks@[a]).appid == (
                    #[trigger] self.unlocks@[b]).appid && self.unlocks@[a].apiname@
                        == self.unlocks@[b].apiname@),
            decreases self.unlocks.len() - j,
        {
            let mut i: usize = 0;
            while i < j
                invariant
                    i <= j < self.unlocks.len(),
                    forall|a: int|
                        0 <= a < i ==> !((#[trigger] self.unlocks@[a]).appid
                            == self.unlocks@[j as int].appid && self.unlocks@[a].apiname@
                            == self.unlocks@[j as int].apiname@),
                decreases j - i,
            {
                if self.unlocks[i].appid == self.unlocks[j].appid
                    && self.unlocks[i].apiname == self.unlocks[j].apiname {
                    return false;
                }
                i = i + 1;
            }
            j = j + 1;
        }
        let mut j: usize = 0;
        while j < self.schemas.len()
            invariant
                j <= self.schemas.len(),
                forall|a: int, b: int|
                    0 <= a < b < j ==> !((#[trigger] self.schemas@[a]).appid == (
                    #[trigger] self.schemas@[b]).appid && self.schemas@[a].apiname@
                        == self.schemas@[b].apiname@),
            decreases self.schemas.len() - j,
        {
            let mut i: usize = 0;
            while i < j
                invariant
                    i <= j < self.schemas.len(),
                    forall|a: int|
                        0 <= a < i ==> !((#[trigger] self.schemas@[a]).appid
                            == self.schemas@[j as int].appid && self.schemas@[a].apiname@
                            == self.schemas@[j as int].apiname@),
                decreases j - i,
            {
                if self.schemas[i].appid == self.schemas[j].appid
                    && self.schemas[i].apiname == self.schemas[j].apiname {
                    return false;
                }
                i = i + 1;
            }
            j = j + 1;
        }
        true
    }

    /// An empty store.
    pub fn new() -> (r: Store)
        ensures
            r.wf(),
            r.games@.len() == 0,
            r.unlocks@.len() == 0,
            r.schemas@.len() == 0,
            r.run_history@.len() == 0,
            r.achievement_history@.len() == 0,
            r.first_plays@.len() == 0,
            r.last_update is None,
    {
        Store {
            games: Vec::new(),
            unlocks: Vec::new(),
            schemas: Vec::new(),
            run_history: Vec::new(),
            achievement_history: Vec::new(),
            first_plays: Vec::new(),
            last_update: None,
        }
    }

    /// Copies of all games, in name order.
    pub fn get_all_games(&self) -> (r: Vec<Game>)
        ensures
            r@ == by_name(self.games@),
    {
        sort_by_name(&self.games)
    }

    /// Whether a first-play event is recorded for `appid`.
    pub fn has_first_play(&self, appid: u64) -> (r: bool)
        ensures
            r == has_first_play(self.first_plays@, appid),
    {
        let mut j: usize = 0;
        while j < self.first_plays.len()
            invariant
                j <= self.first_plays.len(),
                forall|k: int| 0 <= k < j ==> (#[trigger] self.first_plays@[k]).appid != appid,
            decreases self.first_plays.len() - j,
        {
            if self.first_plays[j].appid == appid {
                return true;
            }
            j = j + 1;
        }
        false
    }

    /// Records that `appid` was first played at `played_at`, unless an
    /// event for it is already recorded.
    pub fn record_first_play(&mut self, appid: u64, played_at: i64)
        ensures
            final(self).first_plays@ == if has_first_play(old(self).first_plays@, appid) {
                old(self).first_plays@
            } else {
                old(self).first_plays@.push(FirstPlay { appid, played_at })
            },
            final(self).games == old(self).games,
            final(self).unlocks == old(self).unlocks,
            final(self).schemas == old(self).schemas,
            final(self).run_history == old(self).run_history,
            final(self).achievement_history == old(self).achievement_history,
            final(self).last_update == old(self).last_update,
    {
        if !self.has_first_play(appid) {
            self.first_plays.push(FirstPlay { appid, played_at });
        }
    }

    /// Inserts or refreshes one game of the owned-games list at `now`, and
    /// records its first play when its stored playtime goes from zero to
    /// some. Returns whether the game is new; refuses a new game when the
    /// table is full.
    pub fn upsert_game(&mut self, g: &SteamGame, now: i64) -> (r: Result<bool, StoreError>)
        requires
            old(self).wf(),
        ensures
            final(self).wf(),
            find_game(old(self).games@, g.appid) == -1 && old(self).games@.len() >= MAX_GAMES ==> r
                == Err::<bool, StoreError>(StoreError::Full) && *final(self) == *old(self),
            !(find_game(old(self).games@, g.appid) == -1 && old(self).games@.len() >= MAX_GAMES)
                ==> {
                &&& r == Ok::<bool, StoreError>(find_game(old(self).games@, g.appid) == -1)
                &&& final(self).games@ == games_after_upsert(old(self).games@, *g, now)
                &&& final(self).first_plays@ == first_plays_after_upsert(
                    old(self).games@,
                    old(self).first_plays@,
                    *g,
                    now,
                )
                &&& final(self).unlocks == old(self).unlocks
                &&& final(self).schemas == old(self).schemas
                &&& final(self).run_history == old(self).run_history
                &&& final(self).achievement_history == old(self).achievement_history
                &&& final(self).last_update == old(self).last_update
            },
    {
        proof {
            lemma_find_game(self.games@, g.appid);
        }
        match find_game_index(&self.games, g.appid) {
            Some(i) => {
                if self.games[i].playtime_forever == 0 && g.playtime_forever > 0 {
                    let played_at: i64 = match g.rtime_last_played {
                        Some(t) => if t > 0 { t as i64 } else { now },
                        None => now,
                    };
                    self.record_first_play(g.appid, played_at);
                }
                let old_game = self.games[i].copied();
                let updated = Game {
                    name: g.name.clone(),
                    playtime_forever: g.playtime_forever,
                    rtime_last_played: g.rtime_last_played,
                    img_icon_url: crate::models::copy_opt_string(&g.img_icon_url),
                    ..old_game
                };
                self.games[i] = updated;
                Ok(false)
            },
            None => {
                if self.games.len() >= MAX_GAMES {
                    return Err(StoreError::Full);
                }
                let fresh = Game {
                    appid: g.appid,
                    name: g.name.clone(),
                    playtime_forever: g.playtime_forever,
                    rtime_last_played: g.rtime_last_played,
                    img_icon_url: crate::models::copy_opt_string(&g.img_icon_url),
                    added_at: now,
                    achievements_total: None,
                    achievements_unlocked: None,
                    last_achievement_scrape: None,
                };
                self.games.push(fresh);
                Ok(true)
            },
        }
    }

    /// Records a scrape of `appid` at `now` that found `total` achievements,
    /// `unlocked` of them unlocked. A game that is not stored is left alone.
    pub fn update_game_achievement_counts(
        &mut self,
        appid: u64,
        total: u32,
        unlocked: u32,
        now: i64,
    )
        requires
            old(self).wf(),
        ensures
            final(self).wf(),
            final(self).games@ == games_after_counts(old(self).games@, appid, total, unlocked, now),
            final(self).unlocks == old(self).unlocks,
            final(self).schemas == old(self).schemas,
            final(self).run_history == old(self).run_history,
            final(self).achievement_history == old(self).achievement_history,
            final(self).first_plays == old(self).first_plays,
            final(self).last_update == old(self).last_update,
    {
        proof {
            lemma_find_game(self.games@, appid);
        }
        if let Some(i) = find_game_index(&self.games, appid) {
            let old_game = self.games[i].copied();
            self.games[i] = Game {
                achievements_total: Some(total),
                achievements_unlocked: Some(unlocked),
                last_achievement_scrape: Some(now),
                ..old_game
            };
        }
    }

    /// Records a scrape of `appid` at `now` that found no achievements: the
    /// game is then known to have none, and is not scraped again unless
    /// forced.
    pub fn mark_game_zero_achievements(&mut self, appid: u64, now: i64)
        requires
            old(self).wf(),
        ensures
            final(self).wf(),
            final(self).games@ == games_after_counts(old(self).games@, appid, 0, 0, now),
            final(self).unlocks == old(self).unlocks,
            final(self).schemas == old(self).schemas,
            final(self).run_history == old(self).run_history,
            final(self).achievement_history == old(self).achievement_history,
            final(self).first_plays == old(self).first_plays,
            final(self).last_update == old(self).last_update,
    {
        self.update_game_achievement_counts(appid, 0, 0, now);
    }

    /// Copies of the games never scraped, in name order.
    pub fn get_games_never_scraped(&self) -> (r: Vec<Game>)
        ensures
            r@ == by_name(never_scraped(self.games@)),
    {
        let mut r: Vec<Game> = Vec::new();
        let mut i: usize = 0;
        while i < self.games.len()
            invariant
                i <= self.games.len(),
                r@ == never_scraped(self.games@.subrange(0, i as int)),
            decreases self.games.len() - i,
        {
            assert(self.games@.subrange(0, i + 1).drop_last() =~= self.games@.subrange(0, i as int));
            if self.games[i].last_achievement_scrape.is_none() {
                r.push(self.games[i].copied());
            }
            i = i + 1;
        }
        assert(self.games@.subrange(0, i as int) =~= self.games@);
        sort_by_name(&r)
    }

    /// Upserts every game of an owned-games list in order, as `upsert_game`
    /// does. Returns how many were new, or the refusal of the first game
    /// that did not fit; the games before it stay written.
    pub fn upsert_games(&mut self, list: &Vec<SteamGame>, now: i64) -> (r: Result<u32, StoreError>)
        requires
            old(self).wf(),
        ensures
            final(self).wf(),
            final(self).games@ == owned_fold(old(self).games@, old(self).first_plays@, list@, now).games,
            final(self).first_plays@ == owned_fold(
                old(self).games@,
                old(self).first_plays@,
                list@,
                now,
            ).first_plays,
            owned_fold(old(self).games@, old(self).first_plays@, list@, now).ok ==> r == Ok::<
                u32,
                StoreError,
            >(owned_fold(old(self).games@, old(self).first_plays@, list@, now).new_games as u32),
            !owned_fold(old(self).games@, old(self).first_plays@, list@, now).ok ==> r == Err::<
                u32,
                StoreError,
            >(StoreError::Full),
            final(self).unlocks == old(self).unlocks,
            final(self).schemas == old(self).schemas,
            final(self).run_history == old(self).run_history,
            final(self).achievement_history == old(self).achievement_history,
            final(self).last_update == old(self).last_update,
    {
        let mut new_games: u32 = 0;
        let mut ok = true;
        let mut i: usize = 0;
        while i < list.len()
            invariant
                i <= list@.len(),
                self.wf(),
                old(self).wf(),
                ({
                    let f = owned_fold(old(self).games@, old(self).first_plays@, list@.subrange(0, i as int), now);
                    &&& self.games@ == f.games
                    &&& self.first_plays@ == f.first_plays
                    &&& ok == f.ok
                    &&& new_games == f.new_games
                }),
                self.unlocks == old(self).unlocks,
                self.schemas == old(self).schemas,
                self.run_history == old(self).run_history,
                self.achievement_history == old(self).achievement_history,
                self.last_update == old(self).last_update,
            decreases list.len() - i,
        {
            let ghost prefix = list@.subrange(0, i as int);
            assert(list@.subrange(0, i + 1).drop_last() =~= prefix);
            assert(list@.subrange(0, i + 1).last() == list@[i as int]);
            proof {
                lemma_owned_fold(old(self).games@, old(self).first_plays@, prefix, now);
            }
            if ok {
                match self.upsert_game(&list[i], now) {
                    Ok(is_new) => {
                        if is_new {
                            new_games = new_games + 1;
                        }
                    },
                    Err(_) => {
                        ok = false;
                    },
                }
            }
            i = i + 1;
        }
        assert(list@.subrange(0, i as int) =~= list@);
        if ok {
            Ok(new_games)
        } else {
            Err(StoreError::Full)
        }
    }

    /// Copies of the games whose appid is in `ids`, in name order.
    pub fn get_games_recently_played(&self, ids: &Vec<u64>) -> (r: Vec<Game>)
        ensures
            r@ == select_recent(by_name(self.games@), ids@),
    {
        let all = self.get_all_games();
        select_games(&all, ids)
    }

    /// Number of stored games with no playtime at all.
    pub fn count_unplayed(&self) -> (r: u32)
        requires
            self.wf(),
        ensures
            r == count_unplayed(self.games@),
    {
        let mut n: u32 = 0;
        let mut i: usize = 0;
        while i < self.games.len()
            invariant
                i <= self.games.len() <= MAX_GAMES,
                n == count_unplayed(self.games@.subrange(0, i as int)),
            decreases self.games.len() - i,
        {
            assert(self.games@.subrange(0, i + 1).drop_last() =~= self.games@.subrange(0, i as int));
            proof {
                lemma_count_unplayed_bound(self.games@.subrange(0, i as int));
            }
            if self.games[i].playtime_forever == 0 {
                n = n + 1;
            }
            i = i + 1;
        }
        assert(self.games@.subrange(0, i as int) =~= self.games@);
        n
    }

    /// Appends a snapshot of the owned-games list.
    pub fn insert_run_history_snapshot(&mut self, snapshot: RunHistory)
        ensures
            final(self).run_history@ == old(self).run_history@.push(snapshot),
            final(self).games == old(self).games,
            final(self).unlocks == old(self).unlocks,
            final(self).schemas == old(self).schemas,
            final(self).achievement_history == old(self).achievement_history,
            final(self).first_plays == old(self).first_plays,
            final(self).last_update == old(self).last_update,
    {
        self.run_history.push(snapshot);
    }

    /// Appends a snapshot of achievement progress.
    pub fn insert_achievement_history_snapshot(&mut self, snapshot: AchievementHistory)
        ensures
            final(self).achievement_history@ == old(self).achievement_history@.push(snapshot),
            final(self).games == old(self).games,
            final(self).unlocks == old(self).unlocks,
            final(self).schemas == old(self).schemas,
            final(self).run_history == old(self).run_history,
            final(self).first_plays == old(self).first_plays,
            final(self).last_update == old(self).last_update,
    {
        self.achievement_history.push(snapshot);
    }

    /// Records that a sync run completed at `now`.
    pub fn record_last_update_timestamp(&mut self, now: i64)
        ensures
            final(self).last_update == Some(now),
            final(self).games == old(self).games,
            final(self).unlocks == old(self).unlocks,
            final(self).schemas == old(self).schemas,
            final(self).run_history == old(self).run_history,
            final(self).achievement_history == old(self).achievement_history,
            final(self).first_plays == old(self).first_plays,
    {
        self.last_update = Some(now);
    }

    /// When the last sync run completed, if ever.
    pub fn get_last_update_timestamp(&self) -> (r: Option<i64>)
        ensures
            r == self.last_update,
    {
        self.last_update
    }
}

} // verus!
