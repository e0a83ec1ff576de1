//! The sync flows, Update and Full Scan, as a state machine.
//!
//! A session holds the decisions; whoever drives it performs the action it
//! asks for (a fetch from the game source) and hands back the outcome with
//! the time. Each step updates the store and appends progress events. Every
//! session ends with exactly one terminal event, `Done` or `Error`.
use vstd::prelude::*;

use crate::merge::{count_achieved, merge_schemas, merge_unlocks};
use crate::order::{by_name, lemma_by_name};
use crate::models::{
    Achievement, AchievementHistory, AchievementSchema, Game, MergeResult, RunHistory, SteamGame,
    SyncResult,
};
use crate::stats::{
    avg_completion, compute_stats, count_with_achievements, sum_total, sum_unlocked,
};
use crate::store::{
    count_unplayed, find_game, games_after_counts, never_scraped, owned_fold, select_recent,
    zero_achievement_scrape_is_not_never_scraped, Store, StoreView, MAX_GAMES,
};

verus! {

/// Message of the terminal error when the store cannot take the owned games.
pub const STORE_FULL_MESSAGE: &'static str = "The store cannot hold every owned game";

/// Message of the terminal error when no API key or user id is configured.
pub const NOT_CONFIGURED_MESSAGE: &'static str =
    "Please configure steam_web_api_key and steam_id in config.toml";

/// Message of the terminal error when a server has no API key of its own.
pub const SERVER_KEY_MISSING_MESSAGE: &'static str = "Steam API key not configured on server";

/// Message of the terminal error when the user has not signed in.
pub const NOT_AUTHENTICATED_MESSAGE: &'static str = "Not authenticated";

/// Which flow a session runs.
#[derive(Debug, Clone, Copy, PartialEq, Eq, Structural)]
pub enum FlowKind {
    /// Owned games, then achievements of the recently played ones.
    Update,
    /// Owned games, then achievements of the never-scraped games, or of
    /// every game when forced.
    FullScan { force: bool },
}

/// What the session may rely on to reach the game source.
#[derive(Debug, Clone, Copy, PartialEq, Eq, Structural)]
pub enum Credentials {
    Ready,
    /// The local settings lack the API key or the user id.
    NotConfigured,
    /// The server that runs the flow has no API key.
    ServerKeyMissing,
    /// The user has not signed in to the server.
    NotAuthenticated,
}

/// A progress event of a sync session.
#[derive(Debug, Clone)]
pub enum SyncState {
    /// Scraping begins; sent only when some game is to be scraped.
    Starting,
    /// The owned-games fetch; every run with usable credentials opens with it.
    FetchingGames,
    FetchingRecentlyPlayed,
    ScrapingAchievements { current: u32, total: u32, game_name: String },
    GameUpdated { appid: u64, unlocked: u32, total: u32 },
    /// The run's summary and every stored game, in name order.
    Done { result: SyncResult, games: Vec<Game> },
    Error { message: String },
}

impl SyncState {
    /// The event ends its session.
    pub open spec fn is_terminal(self) -> bool {
        self is Done || self is Error
    }
}

/// What the driver of a session must do next.
#[derive(Debug, Clone, Copy, PartialEq, Eq, Structural)]
pub enum SyncAction {
    FetchOwnedGames,
    FetchRecentlyPlayed,
    /// Fetch the player's progress and the schema of one game.
    FetchGameData { appid: u64 },
    /// The session has ended.
    Stop,
}

/// The outcome of an action, as the driver hands it back.
#[derive(Debug)]
pub enum SyncInput {
    OwnedGames { games: Result<Vec<SteamGame>, String> },
    RecentlyPlayed { appids: Result<Vec<u64>, String> },
    /// `None` for a fetch that failed.
    GameData {
        appid: u64,
        progress: Option<Vec<Achievement>>,
        schema: Option<Vec<AchievementSchema>>,
    },
}

/// Where a session stands.
#[derive(Debug, Clone, Copy, PartialEq, Eq, Structural)]
pub enum Phase {
    FetchingOwnedGames,
    FetchingRecentlyPlayed,
    Scraping,
    Finished,
}

/// One run of a sync flow.
pub struct SyncSession {
    pub kind: FlowKind,
    pub phase: Phase,
    /// The games selected for scraping, in order.
    pub queue: Vec<Game>,
    /// Position in `queue` of the game being scraped.
    pub next: usize,
    /// Length of the owned-games list, for the run snapshot.
    pub owned_count: u32,
    /// Appids of the owned-games list.
    pub owned_ids: Vec<u64>,
    pub games_updated: u32,
    pub achievements_updated: u64,
    pub new_games: u32,
    /// Some game merged in this run has achievements.
    pub saw_achievements: bool,
    /// Every event so far, oldest first.
    pub events: Vec<SyncState>,
}

/// A session as mathematical values.
pub struct SessionView {
    pub kind: FlowKind,
    pub phase: Phase,
    pub queue: Seq<Game>,
    pub next: usize,
    pub owned_count: u32,
    pub owned_ids: Seq<u64>,
    pub games_updated: u32,
    pub achievements_updated: u64,
    pub new_games: u32,
    pub saw_achievements: bool,
    pub events: Seq<SyncState>,
}

impl View for SyncSession {
    type V = SessionView;

    open spec fn view(&self) -> SessionView {
        SessionView {
            kind: self.kind,
            phase: self.phase,
            queue: self.queue@,
            next: self.next,
            owned_count: self.owned_count,
            owned_ids: self.owned_ids@,
            games_updated: self.games_updated,
            achievements_updated: self.achievements_updated,
            new_games: self.new_games,
            saw_achievements: self.saw_achievements,
            events: self.events@,
        }
    }
}

impl SessionView {
    /// The session's invariant: the last event is terminal exactly when the
    /// session is finished, and no earlier event is.
    pub open spec fn wf(self) -> bool {
        &&& self.events.len() > 0
        &&& (self.opens_run() || (self.events.len() == 1 && self.events[0] is Error))
        &&& (self.phase is Finished <==> self.events.last().is_terminal())
        &&& forall|i: int| 0 <= i < self.events.len() - 1 ==> !(#[trigger] self.events[i]).is_terminal()
        &&& self.queue.len() <= MAX_GAMES
        &&& self.next <= self.queue.len()
        &&& (self.phase is Scraping ==> self.next < self.queue.len())
        &&& (self.phase is FetchingOwnedGames || self.phase is FetchingRecentlyPlayed ==> self.next
            == 0 && self.queue.len() == 0)
        &&& (self.phase is Finished ==> self.next == self.queue.len())
        &&& self.games_updated <= self.next
        &&& self.new_games <= MAX_GAMES
        &&& self.owned_count <= MAX_GAMES
    }

    /// The events open with `FetchingGames`.
    pub open spec fn opens_run(self) -> bool {
        self.events.len() >= 1 && self.events[0] is FetchingGames
    }

    /// The bounds that hold while a session runs, its events all
    /// non-terminal.
    pub open spec fn running(self) -> bool {
        &&& self.events.len() > 0
        &&& self.opens_run()
        &&& forall|i: int| 0 <= i < self.events.len() ==> !(#[trigger] self.events[i]).is_terminal()
        &&& self.queue.len() <= MAX_GAMES
        &&& self.next <= self.queue.len()
        &&& self.games_updated <= self.next
        &&& self.new_games <= MAX_GAMES
        &&& self.owned_count <= MAX_GAMES
    }

    /// Steps left at most before the session finishes.
    pub open spec fn remaining(self) -> nat {
        match self.phase {
            Phase::FetchingOwnedGames => (MAX_GAMES + 3) as nat,
            Phase::FetchingRecentlyPlayed => (MAX_GAMES + 2) as nat,
            Phase::Scraping => (self.queue.len() - self.next) as nat,
            Phase::Finished => 0,
        }
    }

    /// The action the session asks for.
    pub open spec fn action(self) -> SyncAction {
        match self.phase {
            Phase::FetchingOwnedGames => SyncAction::FetchOwnedGames,
            Phase::FetchingRecentlyPlayed => SyncAction::FetchRecentlyPlayed,
            Phase::Scraping => SyncAction::FetchGameData { appid: self.queue[self.next as int].appid },
            Phase::Finished => SyncAction::Stop,
        }
    }

    /// `input` is the outcome of the action the session asks for.
    pub open spec fn answers(self, input: SyncInput) -> bool {
        match input {
            SyncInput::OwnedGames { .. } => self.phase is FetchingOwnedGames,
            SyncInput::RecentlyPlayed { .. } => self.phase is FetchingRecentlyPlayed,
            SyncInput::GameData { appid, .. } => self.phase is Scraping && self.next
                < self.queue.len() && appid == self.queue[self.next as int].appid,
        }
    }
}

/// The achievement snapshot taken when a run finishes: over every stored
/// game, with the mean over played games.
pub open spec fn history_snapshot(games: Seq<Game>, now: i64) -> AchievementHistory {
    AchievementHistory {
        recorded_at: now,
        total_achievements: sum_total(games) as u64,
        unlocked_achievements: sum_unlocked(games) as u64,
        games_with_achievements: count_with_achievements(games) as u64,
        avg_completion_hundredths: avg_completion(games, false) as u64,
    }
}

/// The run snapshot: the owned-list length and the stored unplayed games.
pub open spec fn run_snapshot(games: Seq<Game>, owned: u32, now: i64) -> RunHistory {
    RunHistory { run_at: now, total_games: owned, unplayed_games: count_unplayed(games) as u32 }
}

/// The games an Update scrapes: stored games in the owned-games list and
/// in the recently-played list, in name order.
pub open spec fn recent_selection(games: Seq<Game>, owned: Seq<u64>, recent: Seq<u64>) -> Seq<Game> {
    select_recent(select_recent(by_name(games), owned), recent)
}

/// The games a Full Scan scrapes, in name order: every stored game when
/// forced, else the never-scraped ones.
pub open spec fn scan_selection(games: Seq<Game>, force: bool) -> Seq<Game> {
    if force {
        by_name(games)
    } else {
        by_name(never_scraped(games))
    }
}

/// The store after finishing a run at `now`: an achievement snapshot when
/// some merged game has achievements, and the completion time.
pub open spec fn finish_store(sv: SessionView, st: StoreView, now: i64) -> StoreView {
    let st1 = if sv.saw_achievements {
        StoreView {
            achievement_history: st.achievement_history.push(history_snapshot(st.games, now)),
            ..st
        }
    } else {
        st
    };
    StoreView { last_update: Some(now), ..st1 }
}

/// The run's summary.
pub open spec fn summary(sv: SessionView) -> SyncResult {
    SyncResult {
        games_updated: sv.games_updated,
        achievements_updated: sv.achievements_updated,
        new_games: sv.new_games,
    }
}

/// `sv2` and `st2` finish the run of `sv` and `st` at `now`: the store gets
/// its snapshot and completion time, and the session ends with `Done`,
/// carrying the summary and every stored game, in name order, as stored
/// after the last write.
pub open spec fn finished(
    sv: SessionView,
    st: StoreView,
    now: i64,
    sv2: SessionView,
    st2: StoreView,
) -> bool {
    &&& st2 == finish_store(sv, st, now)
    &&& sv2.events.len() == sv.events.len() + 1
    &&& sv2.events.drop_last() == sv.events
    &&& sv2.events.last() is Done
    &&& sv2.events.last()->Done_result == summary(sv)
    &&& sv2.events.last()->Done_games@ == by_name(st2.games)
    &&& sv2 == SessionView { phase: Phase::Finished, events: sv2.events, ..sv }
}

/// `sv2` and `st2` start scraping `queue` from its start, announced by
/// `Starting`; an empty queue finishes the run with no `Starting`.
pub open spec fn begins(
    sv: SessionView,
    st: StoreView,
    queue: Seq<Game>,
    now: i64,
    sv2: SessionView,
    st2: StoreView,
) -> bool {
    let sv1 = SessionView { queue, next: 0, ..sv };
    if queue.len() == 0 {
        finished(sv1, st, now, sv2, st2)
    } else {
        sv2 == SessionView {
            phase: Phase::Scraping,
            events: sv.events.push(SyncState::Starting),
            ..sv1
        } && st2 == st
    }
}

/// `post` is `pre` ended by an error event carrying `message`.
pub open spec fn failed_with(pre: SessionView, post: SessionView, message: Seq<char>) -> bool {
    &&& post.events.len() == pre.events.len() + 1
    &&& post.events.drop_last() == pre.events
    &&& post.events.last() is Error
    &&& post.events.last()->Error_message@ == message
    &&& post == SessionView { phase: Phase::Finished, events: post.events, ..pre }
}

/// The step taken on owned games `list` fetched at `now`.
pub open spec fn owned_step(
    sv: SessionView,
    st: StoreView,
    list: Seq<SteamGame>,
    now: i64,
    sv2: SessionView,
    st2: StoreView,
) -> bool {
    let f = owned_fold(st.games, st.first_plays, list, now);
    if list.len() > MAX_GAMES {
        failed_with(sv, sv2, STORE_FULL_MESSAGE@) && st2 == st
    } else if !f.ok {
        failed_with(sv, sv2, STORE_FULL_MESSAGE@) && st2 == StoreView {
            games: f.games,
            first_plays: f.first_plays,
            ..st
        }
    } else {
        let st1 = StoreView { games: f.games, first_plays: f.first_plays, ..st };
        let sv1 = SessionView {
            owned_count: list.len() as u32,
            owned_ids: list.map_values(|g: SteamGame| g.appid),
            new_games: f.new_games as u32,
            ..sv
        };
        match sv.kind {
            FlowKind::Update => {
                &&& sv2 == SessionView {
                    phase: Phase::FetchingRecentlyPlayed,
                    events: sv.events.push(SyncState::FetchingRecentlyPlayed),
                    ..sv1
                }
                &&& st2 == st1
            },
            FlowKind::FullScan { force } => begins(
                sv1,
                StoreView {
                    run_history: st1.run_history.push(
                        run_snapshot(f.games, list.len() as u32, now),
                    ),
                    ..st1
                },
                scan_selection(f.games, force),
                now,
                sv2,
                st2,
            ),
        }
    }
}

/// `x + y`, or `u64::MAX` where that does not fit.
pub open spec fn add_saturating(x: u64, y: int) -> u64 {
    if x + y > u64::MAX {
        u64::MAX
    } else {
        (x + y) as u64
    }
}

/// Length of a fetched achievement-progress list, 0 for a failed fetch.
pub open spec fn fetched_len(progress: Option<Seq<Achievement>>) -> int {
    match progress {
        Some(p) => p.len() as int,
        None => 0,
    }
}

/// The step taken on one game's fetched data at `now`. Every such step
/// counts the game as scanned and adds the length of its fetched progress
/// list to the achievements counted.
pub open spec fn game_step(
    sv: SessionView,
    st: StoreView,
    appid: u64,
    progress: Option<Seq<Achievement>>,
    schema: Option<Seq<AchievementSchema>>,
    now: i64,
    sv2: SessionView,
    st2: StoreView,
) -> bool {
    let g = sv.queue[sv.next as int];
    let current = sv.next + 1;
    let scraping = SyncState::ScrapingAchievements {
        current: current as u32,
        total: sv.queue.len() as u32,
        game_name: g.name,
    };
    let merged = progress is Some && schema is Some && schema->0.len() <= u32::MAX;
    let counted = add_saturating(sv.achievements_updated, fetched_len(progress));
    let p = progress->0;
    let sch = schema->0;
    let total = sch.len();
    let unlocked = count_achieved(p, sch);
    let st1 = if merged {
        StoreView {
            unlocks: merge_unlocks(st.unlocks, appid, p, sch),
            schemas: merge_schemas(st.schemas, appid, sch, sch.len()),
            games: games_after_counts(st.games, appid, total as u32, unlocked as u32, now),
            ..st
        }
    } else {
        st
    };
    let sv1 = if merged {
        SessionView {
            next: current as usize,
            games_updated: (sv.games_updated + 1) as u32,
            achievements_updated: counted,
            saw_achievements: sv.saw_achievements || total > 0,
            events: sv.events.push(scraping).push(
                SyncState::GameUpdated { appid, unlocked: unlocked as u32, total: total as u32 },
            ),
            ..sv
        }
    } else {
        SessionView {
            next: current as usize,
            games_updated: (sv.games_updated + 1) as u32,
            achievements_updated: counted,
            events: sv.events.push(scraping),
            ..sv
        }
    };
    if current == sv.queue.len() {
        finished(sv1, st1, now, sv2, st2)
    } else {
        sv2 == sv1 && st2 == st1
    }
}

/// The view of an optional vector.
pub open spec fn opt_view<T>(o: Option<Vec<T>>) -> Option<Seq<T>> {
    match o {
        Some(v) => Some(v@),
        None => None,
    }
}

/// One step of a session: `pre` and `st` are before it, `post` and `st2`
/// after it. An input that does not answer the session's action changes
/// nothing.
pub open spec fn step_spec(
    pre: SessionView,
    st: StoreView,
    input: SyncInput,
    now: i64,
    post: SessionView,
    st2: StoreView,
) -> bool {
    if !pre.answers(input) {
        post == pre && st2 == st
    } else {
        match input {
            SyncInput::OwnedGames { games } => match games {
                Err(message) => failed_with(pre, post, message@) && st2 == st,
                Ok(list) => owned_step(pre, st, list@, now, post, st2),
            },
            SyncInput::RecentlyPlayed { appids } => match appids {
                Err(message) => failed_with(pre, post, message@) && st2 == st,
                Ok(ids) => begins(
                    pre,
                    StoreView {
                        run_history: st.run_history.push(
                            run_snapshot(st.games, pre.owned_count, now),
                        ),
                        ..st
                    },
                    recent_selection(st.games, pre.owned_ids, ids@),
                    now,
                    post,
                    st2,
                ),
            },
            SyncInput::GameData { appid, progress, schema } => game_step(
                pre,
                st,
                appid,
                opt_view(progress),
                opt_view(schema),
                now,
                post,
                st2,
            ),
        }
    }
}

/// Every game the session has still to scrape is stored.
pub open spec fn linked(sv: SessionView, st: StoreView) -> bool {
    forall|k: int|
        sv.next <= k < sv.queue.len() ==> find_game(st.games, (#[trigger] sv.queue[k]).appid) >= 0
}

proof fn lemma_begins_linked(
    sv: SessionView,
    st: StoreView,
    queue: Seq<Game>,
    now: i64,
    sv2: SessionView,
    st2: StoreView,
)
    requires
        begins(sv, st, queue, now, sv2, st2),
        forall|k: int| 0 <= k < queue.len() ==> st.games.contains(#[trigger] queue[k]),
    ensures
        linked(sv2, st2),
{
    if queue.len() > 0 {
        assert forall|k: int| sv2.next <= k < sv2.queue.len() implies find_game(
            st2.games,
            (#[trigger] sv2.queue[k]).appid,
        ) >= 0 by {
            crate::store::lemma_member_is_found(st.games, queue[k]);
        }
    }
}

proof fn lemma_scan_members(games: Seq<Game>, force: bool)
    ensures
        forall|k: int|
            0 <= k < scan_selection(games, force).len() ==> games.contains(
                #[trigger] scan_selection(games, force)[k],
            ),
{
    let ns = never_scraped(games);
    lemma_by_name(games);
    lemma_by_name(ns);
    crate::store::lemma_never_scraped_members(games);
    assert forall|k: int| 0 <= k < scan_selection(games, force).len() implies games.contains(
        #[trigger] scan_selection(games, force)[k],
    ) by {
        if !force {
            let x = by_name(ns)[k];
            assert(ns.contains(x));
            let j = choose|j: int| 0 <= j < ns.len() && ns[j] == x;
            assert(ns[j] == x);
            let i = choose|i: int|
                0 <= i < games.len() && games[i] == #[trigger] ns[j]
                    && games[i].last_achievement_scrape is None;
            assert(games[i] == x);
        }
    }
}

proof fn lemma_recent_members(games: Seq<Game>, owned: Seq<u64>, recent: Seq<u64>)
    ensures
        forall|k: int|
            0 <= k < recent_selection(games, owned, recent).len() ==> games.contains(
                #[trigger] recent_selection(games, owned, recent)[k],
            ),
{
    let a = by_name(games);
    let b = select_recent(a, owned);
    lemma_by_name(games);
    crate::store::lemma_select_recent_members(a, owned);
    crate::store::lemma_select_recent_members(b, recent);
    assert forall|k: int| 0 <= k < recent_selection(games, owned, recent).len() implies games.contains(
        #[trigger] recent_selection(games, owned, recent)[k],
    ) by {
        let x = recent_selection(games, owned, recent)[k];
        assert(b.contains(x));
        let j = choose|j: int| 0 <= j < b.len() && b[j] == x;
        assert(a.contains(b[j]));
        let i = choose|i: int| 0 <= i < a.len() && a[i] == b[j];
        assert(games.contains(a[i]));
    }
}

/// The link between a session and its store holds through every step:
/// whatever the session has still to scrape stays stored.
pub proof fn step_keeps_link(
    pre: SessionView,
    st: StoreView,
    input: SyncInput,
    now: i64,
    post: SessionView,
    st2: StoreView,
)
    requires
        pre.wf(),
        linked(pre, st),
        step_spec(pre, st, input, now, post, st2),
    ensures
        linked(post, st2),
{
    if pre.answers(input) {
        match input {
            SyncInput::OwnedGames { games } => match games {
                Err(_) => {},
                Ok(list) => {
                    let f = owned_fold(st.games, st.first_plays, list@, now);
                    if list@.len() <= MAX_GAMES && f.ok {
                        if let FlowKind::FullScan { force } = pre.kind {
                            lemma_scan_members(f.games, force);
                            let sv1 = SessionView {
                                owned_count: list@.len() as u32,
                                owned_ids: list@.map_values(|g: SteamGame| g.appid),
                                new_games: f.new_games as u32,
                                ..pre
                            };
                            lemma_begins_linked(
                                sv1,
                                StoreView {
                                    run_history: st.run_history.push(
                                        run_snapshot(f.games, list@.len() as u32, now),
                                    ),
                                    games: f.games,
                                    first_plays: f.first_plays,
                                    ..st
                                },
                                scan_selection(f.games, force),
                                now,
                                post,
                                st2,
                            );
                        }
                    }
                },
            },
            SyncInput::RecentlyPlayed { appids } => match appids {
                Err(_) => {},
                Ok(ids) => {
                    lemma_recent_members(st.games, pre.owned_ids, ids@);
                    lemma_begins_linked(
                        pre,
                        StoreView {
                            run_history: st.run_history.push(
                                run_snapshot(st.games, pre.owned_count, now),
                            ),
                            ..st
                        },
                        recent_selection(st.games, pre.owned_ids, ids@),
                        now,
                        post,
                        st2,
                    );
                },
            },
            SyncInput::GameData { appid, progress, schema } => {
                let p = opt_view(progress);
                let sch = opt_view(schema);
                if pre.next + 1 < pre.queue.len() && p is Some && sch is Some && sch->0.len()
                    <= u32::MAX {
                    let unlocked = count_achieved(p->0, sch->0);
                    let after = games_after_counts(
                        st.games,
                        appid,
                        sch->0.len() as u32,
                        unlocked as u32,
                        now,
                    );
                    crate::store::lemma_find_game(st.games, appid);
                    assert forall|k: int| post.next <= k < post.queue.len() implies find_game(
                        st2.games,
                        (#[trigger] post.queue[k]).appid,
                    ) >= 0 by {
                        crate::store::lemma_find_game_same_appids(
                            st.games,
                            after,
                            post.queue[k].appid,
                        );
                    }
                }
            },
        }
    }
}

/// Number of terminal events in `events`.
pub open spec fn count_terminal(events: Seq<SyncState>) -> nat
    decreases events.len(),
{
    if events.len() == 0 {
        0
    } else {
        count_terminal(events.drop_last()) + if events.last().is_terminal() {
            1nat
        } else {
            0nat
        }
    }
}

proof fn lemma_no_terminal(events: Seq<SyncState>)
    requires
        forall|i: int| 0 <= i < events.len() ==> !(#[trigger] events[i]).is_terminal(),
    ensures
        count_terminal(events) == 0,
    decreases events.len(),
{
    if events.len() > 0 {
        assert forall|i: int| 0 <= i < events.len() - 1 implies !(
        #[trigger] events.drop_last()[i]).is_terminal() by {
            assert(events.drop_last()[i] == events[i]);
        }
        lemma_no_terminal(events.drop_last());
    }
}

/// The events of a finished session: a run with usable credentials opens
/// with `FetchingGames` (one without them reports a single `Error`), and
/// exactly one terminal event, `Done` or `Error`, ends it, after every
/// progress event.
pub proof fn finished_session_has_one_terminal_event(s: SessionView)
    requires
        s.wf(),
        s.phase is Finished,
    ensures
        s.opens_run() || (s.events.len() == 1 && s.events[0] is Error),
        count_terminal(s.events) == 1,
        s.events.last().is_terminal(),
        forall|i: int| 0 <= i < s.events.len() - 1 ==> !(#[trigger] s.events[i]).is_terminal(),
{
    assert forall|i: int| 0 <= i < s.events.drop_last().len() implies !(
    #[trigger] s.events.drop_last()[i]).is_terminal() by {
        assert(s.events.drop_last()[i] == s.events[i]);
    }
    lemma_no_terminal(s.events.drop_last());
}

proof fn lemma_empty_schema_game_step(
    sv: SessionView,
    st: StoreView,
    appid: u64,
    progress: Seq<Achievement>,
    now: i64,
    sv2: SessionView,
    st2: StoreView,
)
    requires
        sv.wf(),
        st.wf(),
        sv.phase is Scraping,
        find_game(st.games, appid) >= 0,
        game_step(sv, st, appid, Some(progress), Some(Seq::<AchievementSchema>::empty()), now, sv2, st2),
    ensures
        st2.games == games_after_counts(st.games, appid, 0, 0, now),
        ({
            let i = find_game(st2.games, appid);
            &&& i >= 0
            &&& st2.games[i].achievements_total == Some(0u32)
            &&& st2.games[i].last_achievement_scrape == Some(now)
            &&& forall|j: int|
                0 <= j < by_name(never_scraped(st2.games)).len() ==> (#[trigger] by_name(
                    never_scraped(st2.games),
                )[j]).appid != appid
        }),
{
    assert(count_achieved(progress, Seq::<AchievementSchema>::empty()) == 0);
    zero_achievement_scrape_is_not_never_scraped(st.games, appid, now);
    let ns = never_scraped(st2.games);
    lemma_by_name(ns);
    assert forall|j: int| 0 <= j < by_name(ns).len() implies (#[trigger] by_name(ns)[j]).appid
        != appid by {
        assert(ns.contains(by_name(ns)[j]));
        let k = choose|k: int| 0 <= k < ns.len() && ns[k] == by_name(ns)[j];
        assert(ns[k].appid != appid);
    }
}

/// `b` begins with all of `a`.
pub open spec fn extends(a: Seq<SyncState>, b: Seq<SyncState>) -> bool {
    a.len() <= b.len() && b.subrange(0, a.len() as int) == a
}

/// In a sync run, a game whose fetch succeeds with an empty schema is
/// recorded as having no achievements, with a scrape time, and reported as
/// `GameUpdated` with 0 of 0; it is no longer among the games that
/// `get_games_never_scraped` returns: "has none" and "not yet checked" stay
/// apart.
pub proof fn empty_schema_scrape_marks_game_checked(
    pre: SessionView,
    st: StoreView,
    input: SyncInput,
    now: i64,
    post: SessionView,
    st2: StoreView,
)
    requires
        pre.wf(),
        st.wf(),
        linked(pre, st),
        pre.answers(input),
        input is GameData,
        input->GameData_progress is Some,
        input->GameData_schema is Some,
        input->GameData_schema->0@.len() == 0,
        step_spec(pre, st, input, now, post, st2),
    ensures
        ({
            let appid = input->GameData_appid;
            let i = find_game(st2.games, appid);
            &&& st2.games == games_after_counts(st.games, appid, 0, 0, now)
            &&& i >= 0
            &&& st2.games[i].achievements_total == Some(0u32)
            &&& st2.games[i].last_achievement_scrape == Some(now)
            &&& forall|j: int|
                0 <= j < by_name(never_scraped(st2.games)).len() ==> (#[trigger] by_name(
                    never_scraped(st2.games),
                )[j]).appid != appid
            &&& post.events[pre.events.len() + 1int] == SyncState::GameUpdated {
                appid,
                unlocked: 0,
                total: 0,
            }
        }),
{
    let appid = input->GameData_appid;
    let p = input->GameData_progress->0@;
    let sch = input->GameData_schema->0@;
    assert(sch =~= Seq::<AchievementSchema>::empty());
    assert(find_game(st.games, pre.queue[pre.next as int].appid) >= 0);
    assert(opt_view(input->GameData_progress) == Some(p));
    assert(opt_view(input->GameData_schema) == Some(Seq::<AchievementSchema>::empty()));
    assert(game_step(pre, st, appid, Some(p), Some(Seq::<AchievementSchema>::empty()), now, post, st2));
    lemma_empty_schema_game_step(pre, st, appid, p, now, post, st2);
    assert(count_achieved(p, Seq::<AchievementSchema>::empty()) == 0);
    let g = pre.queue[pre.next as int];
    let current = pre.next + 1;
    let scraping = SyncState::ScrapingAchievements {
        current: current as u32,
        total: pre.queue.len() as u32,
        game_name: g.name,
    };
    let updated = SyncState::GameUpdated { appid, unlocked: 0, total: 0 };
    let events1 = pre.events.push(scraping).push(updated);
    assert(events1[pre.events.len() + 1int] == updated);
    if current == pre.queue.len() {
        assert(post.events.drop_last() == events1);
        assert(post.events[pre.events.len() + 1int] == post.events.drop_last()[pre.events.len()
            + 1int]);
    } else {
        assert(post.events == events1);
    }
}

proof fn lemma_extends_push(a: Seq<SyncState>, b: Seq<SyncState>, x: SyncState)
    requires
        extends(a, b),
    ensures
        extends(a, b.push(x)),
{
    assert(b.push(x).subrange(0, a.len() as int) =~= b.subrange(0, a.len() as int));
}

proof fn lemma_extends_refl(a: Seq<SyncState>)
    ensures
        extends(a, a),
{
    assert(a.subrange(0, a.len() as int) =~= a);
}

proof fn lemma_finish_extends(
    sv: SessionView,
    st: StoreView,
    now: i64,
    sv2: SessionView,
    st2: StoreView,
)
    requires
        finished(sv, st, now, sv2, st2),
    ensures
        extends(sv.events, sv2.events),
{
    lemma_extends_refl(sv.events);
    lemma_extends_push(sv.events, sv.events, sv2.events.last());
    assert(sv2.events =~= sv.events.push(sv2.events.last()));
}

proof fn lemma_begin_extends(
    sv: SessionView,
    st: StoreView,
    queue: Seq<Game>,
    now: i64,
    sv2: SessionView,
    st2: StoreView,
)
    requires
        begins(sv, st, queue, now, sv2, st2),
    ensures
        extends(sv.events, sv2.events),
{
    lemma_extends_refl(sv.events);
    if queue.len() == 0 {
        lemma_finish_extends(SessionView { queue, next: 0, ..sv }, st, now, sv2, st2);
    } else {
        lemma_extends_push(sv.events, sv.events, SyncState::Starting);
    }
}

/// A step only appends events: what a session has reported stays as it was,
/// in the same order.
pub proof fn step_only_appends_events(
    pre: SessionView,
    st: StoreView,
    input: SyncInput,
    now: i64,
    post: SessionView,
    st2: StoreView,
)
    requires
        step_spec(pre, st, input, now, post, st2),
    ensures
        extends(pre.events, post.events),
{
    lemma_extends_refl(pre.events);
    if pre.answers(input) {
        match input {
            SyncInput::OwnedGames { games } => match games {
                Err(message) => {
                    assert(post.events == pre.events.push(post.events.last()));
                    lemma_extends_push(pre.events, pre.events, post.events.last());
                },
                Ok(list) => {
                    let f = owned_fold(st.games, st.first_plays, list@, now);
                    if list@.len() > MAX_GAMES || !f.ok {
                        assert(post.events == pre.events.push(post.events.last()));
                        lemma_extends_push(pre.events, pre.events, post.events.last());
                    } else {
                        let sv1 = SessionView {
                            owned_count: list@.len() as u32,
                            owned_ids: list@.map_values(|g: SteamGame| g.appid),
                            new_games: f.new_games as u32,
                            ..pre
                        };
                        match pre.kind {
                            FlowKind::Update => {
                                lemma_extends_push(
                                    pre.events,
                                    pre.events,
                                    SyncState::FetchingRecentlyPlayed,
                                );
                            },
                            FlowKind::FullScan { force } => {
                                lemma_begin_extends(
                                    sv1,
                                    StoreView {
                                        run_history: st.run_history.push(
                                            run_snapshot(f.games, list@.len() as u32, now),
                                        ),
                                        games: f.games,
                                        first_plays: f.first_plays,
                                        ..st
                                    },
                                    scan_selection(f.games, force),
                                    now,
                                    post,
                                    st2,
                                );
                            },
                        }
                    }
                },
            },
            SyncInput::RecentlyPlayed { appids } => match appids {
                Err(message) => {
                    assert(post.events == pre.events.push(post.events.last()));
                    lemma_extends_push(pre.events, pre.events, post.events.last());
                },
                Ok(ids) => {
                    lemma_begin_extends(
                        pre,
                        StoreView {
                            run_history: st.run_history.push(
                                run_snapshot(st.games, pre.owned_count, now),
                            ),
                            ..st
                        },
                        recent_selection(st.games, pre.owned_ids, ids@),
                        now,
                        post,
                        st2,
                    );
                },
            },
            SyncInput::GameData { appid, progress, schema } => {
                let g = pre.queue[pre.next as int];
                let current = pre.next + 1;
                let scraping = SyncState::ScrapingAchievements {
                    current: current as u32,
                    total: pre.queue.len() as u32,
                    game_name: g.name,
                };
                let p = opt_view(progress);
                let sch = opt_view(schema);
                let merged = p is Some && sch is Some && sch->0.len() <= u32::MAX;
                lemma_extends_push(pre.events, pre.events, scraping);
                let unlocked = count_achieved(p->0, sch->0);
                let updated = SyncState::GameUpdated {
                    appid,
                    unlocked: unlocked as u32,
                    total: sch->0.len() as u32,
                };
                lemma_extends_push(pre.events, pre.events.push(scraping), updated);
                let st1 = if merged {
                    StoreView {
                        unlocks: merge_unlocks(st.unlocks, appid, p->0, sch->0),
                        schemas: merge_schemas(st.schemas, appid, sch->0, sch->0.len()),
                        games: games_after_counts(
                            st.games,
                            appid,
                            sch->0.len() as u32,
                            unlocked as u32,
                            now,
                        ),
                        ..st
                    }
                } else {
                    st
                };
                let sv1 = if merged {
                    SessionView {
                        next: current as usize,
                        games_updated: (pre.games_updated + 1) as u32,
                        achievements_updated: add_saturating(pre.achievements_updated, fetched_len(p)),
                        saw_achievements: pre.saw_achievements || sch->0.len() > 0,
                        events: pre.events.push(scraping).push(updated),
                        ..pre
                    }
                } else {
                    SessionView {
                        next: current as usize,
                        games_updated: (pre.games_updated + 1) as u32,
                        achievements_updated: add_saturating(pre.achievements_updated, fetched_len(p)),
                        events: pre.events.push(scraping),
                        ..pre
                    }
                };
                if current == pre.queue.len() {
                    lemma_finish_extends(sv1, st1, now, post, st2);
                    assert(extends(sv1.events, post.events));
                    assert(post.events.subrange(0, pre.events.len() as int) =~= sv1.events.subrange(
                        0,
                        pre.events.len() as int,
                    ));
                }
            },
        }
    }
}

/// A session that has not finished holds no terminal event.
pub proof fn running_session_has_no_terminal_event(s: SessionView)
    requires
        s.wf(),
        !(s.phase is Finished),
    ensures
        count_terminal(s.events) == 0,
{
    lemma_no_terminal(s.events);
}

/// A Full Scan without force selects only games never scraped, each a
/// stored game; with force it selects every stored game, each once, in
/// name order.
pub proof fn full_scan_selects_by_scrape_state(games: Seq<Game>)
    ensures
        forall|j: int|
            0 <= j < scan_selection(games, false).len() ==> (#[trigger] scan_selection(
                games,
                false,
            )[j]).last_achievement_scrape is None && never_scraped(games).contains(
                scan_selection(games, false)[j],
            ),
        scan_selection(games, true).to_multiset() == games.to_multiset(),
{
    let ns = never_scraped(games);
    lemma_by_name(ns);
    lemma_by_name(games);
    crate::store::lemma_never_scraped_members(games);
    assert forall|j: int| 0 <= j < scan_selection(games, false).len() implies (
    #[trigger] scan_selection(games, false)[j]).last_achievement_scrape is None
        && ns.contains(scan_selection(games, false)[j]) by {
        let x = by_name(ns)[j];
        assert(ns.contains(x));
        let k = choose|k: int| 0 <= k < ns.len() && ns[k] == x;
        assert(ns[k] == x);
    }
}

/// A game whose progress fetch fails is skipped: its stored record, and
/// every unlock state and schema entry, stay as they were, no
/// `GameUpdated` event is added, and the run goes on to the next game (or
/// ends with `Done` after the last).
pub proof fn failed_fetch_skips_game(
    sv: SessionView,
    st: StoreView,
    appid: u64,
    schema: Option<Seq<AchievementSchema>>,
    now: i64,
    sv2: SessionView,
    st2: StoreView,
)
    requires
        sv.wf(),
        sv.phase is Scraping,
        game_step(sv, st, appid, None, schema, now, sv2, st2),
    ensures
        st2.games == st.games,
        st2.unlocks == st.unlocks,
        st2.schemas == st.schemas,
        sv.next + 1 < sv.queue.len() ==> sv2.phase is Scraping && sv2.next == sv.next + 1
            && sv2.events == sv.events.push(sv2.events.last())
            && sv2.events.last() is ScrapingAchievements,
        sv.next + 1 == sv.queue.len() ==> sv2.phase is Finished && sv2.events.last() is Done,
{
}

/// Applies a progress event to a displayed games list: `GameUpdated` sets
/// that game's counts and marks it scraped at `now`; every other event
/// leaves the list as it is.
pub fn apply_event(games: &mut Vec<Game>, event: &SyncState, now: i64)
    ensures
        match *event {
            SyncState::GameUpdated { appid, unlocked, total } => final(games)@ == games_after_counts(
                old(games)@,
                appid,
                total,
                unlocked,
                now,
            ),
            _ => final(games)@ == old(games)@,
        },
{
    if let SyncState::GameUpdated { appid, unlocked, total } = event {
        proof {
            crate::store::lemma_find_game(games@, *appid);
        }
        if let Some(i) = crate::store::find_game_index(games, *appid) {
            let old_game = games[i].copied();
            games[i] = Game {
                achievements_total: Some(*total),
                achievements_unlocked: Some(*unlocked),
                last_achievement_scrape: Some(now),
                ..old_game
            };
        }
    }
}

impl SyncSession {
    /// A new session of `kind`. Without usable credentials it ends at once
    /// with an error saying which are missing, before any fetch.
    pub fn start(kind: FlowKind, credentials: Credentials) -> (r: SyncSession)
        ensures
            r@.wf(),
            forall|st: StoreView| #[trigger] linked(r@, st),
            r.kind == kind,
            r.queue@.len() == 0,
            r.next == 0,
            r.owned_count == 0,
            r.games_updated == 0,
            r.achievements_updated == 0,
            r.new_games == 0,
            !r.saw_achievements,
            credentials is Ready ==> r.phase is FetchingOwnedGames && r.events@ == seq![
                SyncState::FetchingGames,
            ],
            credentials is NotConfigured ==> r.phase is Finished && r.events@.len() == 1
                && r.events@[0] is Error && r.events@[0]->Error_message@ == NOT_CONFIGURED_MESSAGE@,
            credentials is ServerKeyMissing ==> r.phase is Finished && r.events@.len() == 1
                && r.events@[0] is Error && r.events@[0]->Error_message@
                == SERVER_KEY_MISSING_MESSAGE@,
            credentials is NotAuthenticated ==> r.phase is Finished && r.events@.len() == 1
                && r.events@[0] is Error && r.events@[0]->Error_message@
                == NOT_AUTHENTICATED_MESSAGE@,
    {
        let mut events: Vec<SyncState> = Vec::new();
        let phase = match credentials {
            Credentials::Ready => {
                events.push(SyncState::FetchingGames);
                Phase::FetchingOwnedGames
            },
            Credentials::ServerKeyMissing => {
                events.push(SyncState::Error { message: SERVER_KEY_MISSING_MESSAGE.to_string() });
                Phase::Finished
            },
            Credentials::NotConfigured => {
                events.push(SyncState::Error { message: NOT_CONFIGURED_MESSAGE.to_string() });
                Phase::Finished
            },
            Credentials::NotAuthenticated => {
                events.push(SyncState::Error { message: NOT_AUTHENTICATED_MESSAGE.to_string() });
                Phase::Finished
            },
        };
        assert(events@ == seq![SyncState::FetchingGames] || events@.len() == 1);
        SyncSession {
            kind,
            phase,
            queue: Vec::new(),
            next: 0,
            owned_count: 0,
            owned_ids: Vec::new(),
            games_updated: 0,
            achievements_updated: 0,
            new_games: 0,
            saw_achievements: false,
            events,
        }
    }

    /// The action the driver must perform next.
    pub fn action(&self) -> (r: SyncAction)
        requires
            self@.wf(),
        ensures
            r == self@.action(),
    {
        match self.phase {
            Phase::FetchingOwnedGames => SyncAction::FetchOwnedGames,
            Phase::FetchingRecentlyPlayed => SyncAction::FetchRecentlyPlayed,
            Phase::Scraping => SyncAction::FetchGameData { appid: self.queue[self.next].appid },
            Phase::Finished => SyncAction::Stop,
        }
    }

    /// Whether the session has ended.
    pub fn is_finished(&self) -> (r: bool)
        ensures
            r == (self.phase is Finished),
    {
        matches!(self.phase, Phase::Finished)
    }

    /// All events so far, oldest first.
    pub fn events(&self) -> (r: &Vec<SyncState>)
        ensures
            r@ == self.events@,
    {
        &self.events
    }

    fn fail(&mut self, message: String)
        requires
            old(self)@.wf(),
            old(self).phase is FetchingOwnedGames || old(self).phase is FetchingRecentlyPlayed,
        ensures
            failed_with(old(self)@, final(self)@, message@),
            final(self)@.wf(),
    {
        self.events.push(SyncState::Error { message });
        self.phase = Phase::Finished;
        assert(final(self)@.events.drop_last() =~= old(self)@.events);
    }

    fn finish_run(&mut self, store: &mut Store, now: i64)
        requires
            old(self)@.running(),
            old(self).next == old(self).queue@.len(),
            old(store).wf(),
        ensures
            finished(old(self)@, old(store)@, now, final(self)@, final(store)@),
            final(self)@.wf(),
            final(store).wf(),
    {
        if self.saw_achievements {
            let stats = compute_stats(&store.games, false);
            store.insert_achievement_history_snapshot(
                AchievementHistory {
                    recorded_at: now,
                    total_achievements: stats.total_achievements,
                    unlocked_achievements: stats.unlocked_achievements,
                    games_with_achievements: stats.games_with_achievements,
                    avg_completion_hundredths: stats.avg_completion_hundredths,
                },
            );
        }
        store.record_last_update_timestamp(now);
        let result = SyncResult {
            games_updated: self.games_updated,
            achievements_updated: self.achievements_updated,
            new_games: self.new_games,
        };
        let games = store.get_all_games();
        self.events.push(SyncState::Done { result, games });
        self.phase = Phase::Finished;
        assert(final(self)@.events.drop_last() =~= old(self)@.events);
    }

    fn begin_scraping(&mut self, store: &mut Store, queue: Vec<Game>, now: i64)
        requires
            old(self)@.running(),
            old(self).games_updated == 0,
            queue@.len() <= MAX_GAMES,
            old(store).wf(),
        ensures
            begins(old(self)@, old(store)@, queue@, now, final(self)@, final(store)@),
            final(self)@.wf(),
            final(store).wf(),
    {
        self.queue = queue;
        self.next = 0;
        if self.queue.len() == 0 {
            self.finish_run(store, now);
        } else {
            self.events.push(SyncState::Starting);
            self.phase = Phase::Scraping;
        }
    }

    fn on_owned_games(&mut self, store: &mut Store, list: Vec<SteamGame>, now: i64)
        requires
            old(self)@.wf(),
            old(self).phase is FetchingOwnedGames,
            old(store).wf(),
        ensures
            owned_step(old(self)@, old(store)@, list@, now, final(self)@, final(store)@),
            final(self)@.wf(),
            final(store).wf(),
    {
        if list.len() > MAX_GAMES {
            self.fail(STORE_FULL_MESSAGE.to_string());
            return;
        }
        proof {
            crate::store::lemma_owned_fold(store.games@, store.first_plays@, list@, now);
        }
        match store.upsert_games(&list, now) {
            Err(_) => {
                self.fail(STORE_FULL_MESSAGE.to_string());
            },
            Ok(new_games) => {
                self.owned_count = list.len() as u32;
                self.owned_ids = crate::store::appids_of(&list);
                self.new_games = new_games;
                match self.kind {
                    FlowKind::Update => {
                        self.events.push(SyncState::FetchingRecentlyPlayed);
                        self.phase = Phase::FetchingRecentlyPlayed;
                    },
                    FlowKind::FullScan { force } => {
                        let unplayed = store.count_unplayed();
                        store.insert_run_history_snapshot(
                            RunHistory {
                                run_at: now,
                                total_games: self.owned_count,
                                unplayed_games: unplayed,
                            },
                        );
                        let queue = if force {
                            store.get_all_games()
                        } else {
                            store.get_games_never_scraped()
                        };
                        proof {
                            crate::store::lemma_never_scraped_len(store.games@);
                            lemma_by_name(store.games@);
                            lemma_by_name(never_scraped(store.games@));
                        }
                        self.begin_scraping(store, queue, now);
                    },
                }
            },
        }
    }

    fn on_recently_played(&mut self, store: &mut Store, ids: Vec<u64>, now: i64)
        requires
            old(self)@.wf(),
            old(self).phase is FetchingRecentlyPlayed,
            old(store).wf(),
        ensures
            begins(
                old(self)@,
                StoreView {
                    run_history: old(store)@.run_history.push(
                        run_snapshot(old(store)@.games, old(self).owned_count, now),
                    ),
                    ..old(store)@
                },
                recent_selection(old(store)@.games, old(self).owned_ids@, ids@),
                now,
                final(self)@,
                final(store)@,
            ),
            final(self)@.wf(),
            final(store).wf(),
    {
        let unplayed = store.count_unplayed();
        store.insert_run_history_snapshot(
            RunHistory { run_at: now, total_games: self.owned_count, unplayed_games: unplayed },
        );
        let owned = store.get_games_recently_played(&self.owned_ids);
        let queue = crate::store::select_games(&owned, &ids);
        proof {
            lemma_by_name(store.games@);
            crate::store::lemma_select_recent_len(by_name(store.games@), self.owned_ids@);
            crate::store::lemma_select_recent_len(owned@, ids@);
        }
        self.begin_scraping(store, queue, now);
    }

    fn on_game_data(
        &mut self,
        store: &mut Store,
        appid: u64,
        progress: Option<Vec<Achievement>>,
        schema: Option<Vec<AchievementSchema>>,
        now: i64,
    )
        requires
            old(self)@.wf(),
            old(self).phase is Scraping,
            appid == old(self).queue@[old(self).next as int].appid,
            old(store).wf(),
        ensures
            game_step(
                old(self)@,
                old(store)@,
                appid,
                opt_view(progress),
                opt_view(schema),
                now,
                final(self)@,
                final(store)@,
            ),
            final(self)@.wf(),
            final(store).wf(),
    {
        let current = self.next + 1;
        let scraping = SyncState::ScrapingAchievements {
            current: current as u32,
            total: self.queue.len() as u32,
            game_name: self.queue[self.next].name.clone(),
        };
        let fetched: u64 = match &progress {
            Some(p) => p.len() as u64,
            None => 0,
        };
        self.achievements_updated = self.achievements_updated.saturating_add(fetched);
        let mut merged: Option<MergeResult> = None;
        match &progress {
            Some(p) => match &schema {
                Some(sch) => {
                    if sch.len() <= u32::MAX as usize {
                        let r = store.merge_achievements(appid, p, sch);
                        store.update_game_achievement_counts(
                            appid,
                            r.total_count,
                            r.unlocked_count,
                            now,
                        );
                        self.saw_achievements = self.saw_achievements || r.total_count > 0;
                        merged = Some(r);
                    }
                },
                None => {},
            },
            None => {},
        }
        self.games_updated = self.games_updated + 1;
        self.events.push(scraping);
        if let Some(r) = merged {
            self.events.push(
                SyncState::GameUpdated { appid, unlocked: r.unlocked_count, total: r.total_count },
            );
        }
        self.next = current;
        if current == self.queue.len() {
            self.finish_run(store, now);
        }
    }

    /// Takes the outcome of the session's action, fetched at `now`: updates
    /// the store, appends events, and moves on. An input that is not the
    /// outcome of the action asked for changes nothing.
    pub fn step(&mut self, store: &mut Store, input: SyncInput, now: i64)
        requires
            old(self)@.wf(),
            old(store).wf(),
        ensures
            final(self)@.wf(),
            final(store).wf(),
            step_spec(old(self)@, old(store)@, input, now, final(self)@, final(store)@),
            old(self)@.answers(input) ==> final(self)@.remaining() < old(self)@.remaining(),
            linked(old(self)@, old(store)@) ==> linked(final(self)@, final(store)@),
    {
        let ghost pre = self@;
        let ghost st = store@;
        let ghost inp = input;
        match input {
            SyncInput::OwnedGames { games } => {
                if matches!(self.phase, Phase::FetchingOwnedGames) {
                    match games {
                        Err(message) => self.fail(message),
                        Ok(list) => self.on_owned_games(store, list, now),
                    }
                }
            },
            SyncInput::RecentlyPlayed { appids } => {
                if matches!(self.phase, Phase::FetchingRecentlyPlayed) {
                    match appids {
                        Err(message) => self.fail(message),
                        Ok(ids) => self.on_recently_played(store, ids, now),
                    }
                }
            },
            SyncInput::GameData { appid, progress, schema } => {
                if matches!(self.phase, Phase::Scraping) && self.next < self.queue.len()
                    && appid == self.queue[self.next].appid {
                    self.on_game_data(store, appid, progress, schema, now);
                }
            },
        }
        proof {
            assert(step_spec(pre, st, inp, now, self@, store@));
            if linked(pre, st) {
                step_keeps_link(pre, st, inp, now, self@, store@);
            }
        }
    }
}

} // verus!
