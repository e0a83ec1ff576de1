//! The activity log: achievement unlocks and first plays, newest first.
//! It is read from the store, never stored itself.
use vstd::multiset::Multiset;
use vstd::prelude::*;

use crate::merge::{find_schema, find_schema_index, lemma_find_schema};
use crate::models::{copy_opt_string, FirstPlay, Game, SchemaEntry, UnlockState};
use crate::store::{find_game, find_game_index, lemma_find_game, Store, StoreView};

verus! {

/// One line of the activity log.
#[derive(Debug, Clone)]
pub enum LogEntry {
    Achievement {
        appid: u64,
        apiname: String,
        game_name: String,
        achievement_name: String,
        timestamp: i64,
        achievement_icon: String,
        game_icon_url: Option<String>,
    },
    FirstPlay { appid: u64, game_name: String, timestamp: i64, game_icon_url: Option<String> },
}

impl LogEntry {
    pub open spec fn time(self) -> i64 {
        match self {
            LogEntry::Achievement { timestamp, .. } => timestamp,
            LogEntry::FirstPlay { timestamp, .. } => timestamp,
        }
    }

    /// When the logged event happened, in Unix seconds.
    pub fn timestamp(&self) -> (r: i64)
        ensures
            r == self.time(),
    {
        match self {
            LogEntry::Achievement { timestamp, .. } => *timestamp,
            LogEntry::FirstPlay { timestamp, .. } => *timestamp,
        }
    }
}

/// The log line of an unlock state: only for an unlocked achievement with a
/// known time, whose game and schema entry are stored.
pub open spec fn unlock_entry(games: Seq<Game>, schemas: Seq<SchemaEntry>, u: UnlockState) -> Option<
    LogEntry,
> {
    let gi = find_game(games, u.appid);
    let si = find_schema(schemas, u.appid, u.apiname@);
    if u.achieved && u.unlocktime is Some && gi >= 0 && si >= 0 {
        Some(
            LogEntry::Achievement {
                appid: u.appid,
                apiname: u.apiname,
                game_name: games[gi].name,
                achievement_name: schemas[si].display_name,
                timestamp: u.unlocktime->0,
                achievement_icon: schemas[si].icon,
                game_icon_url: games[gi].img_icon_url,
            },
        )
    } else {
        None
    }
}

/// The log line of a first play whose game is stored.
pub open spec fn first_play_entry(games: Seq<Game>, fp: FirstPlay) -> Option<LogEntry> {
    let gi = find_game(games, fp.appid);
    if gi >= 0 {
        Some(
            LogEntry::FirstPlay {
                appid: fp.appid,
                game_name: games[gi].name,
                timestamp: fp.played_at,
                game_icon_url: games[gi].img_icon_url,
            },
        )
    } else {
        None
    }
}

pub open spec fn unlock_entries(games: Seq<Game>, schemas: Seq<SchemaEntry>, us: Seq<UnlockState>) -> Seq<
    LogEntry,
>
    decreases us.len(),
{
    if us.len() == 0 {
        Seq::empty()
    } else {
        let prev = unlock_entries(games, schemas, us.drop_last());
        match unlock_entry(games, schemas, us.last()) {
            Some(e) => prev.push(e),
            None => prev,
        }
    }
}

pub open spec fn first_play_entries(games: Seq<Game>, fps: Seq<FirstPlay>) -> Seq<LogEntry>
    decreases fps.len(),
{
    if fps.len() == 0 {
        Seq::empty()
    } else {
        let prev = first_play_entries(games, fps.drop_last());
        match first_play_entry(games, fps.last()) {
            Some(e) => prev.push(e),
            None => prev,
        }
    }
}

/// Every line the log can show: unlocks, then first plays.
pub open spec fn log_candidates(st: StoreView) -> Seq<LogEntry> {
    unlock_entries(st.games, st.schemas, st.unlocks) + first_play_entries(st.games, st.first_plays)
}

/// Newest first.
pub open spec fn newest_first(s: Seq<LogEntry>) -> bool {
    forall|i: int, j: int| 0 <= i < j < s.len() ==> (#[trigger] s[i]).time() >= (#[trigger] s[j]).time()
}

fn unlock_line(store: &Store, u: &UnlockState) -> (r: Option<LogEntry>)
    ensures
        r == unlock_entry(store.games@, store.schemas@, *u),
{
    proof {
        lemma_find_game(store.games@, u.appid);
        lemma_find_schema(store.schemas@, u.appid, u.apiname@);
    }
    if !u.achieved {
        return None;
    }
    let t = match u.unlocktime {
        Some(t) => t,
        None => return None,
    };
    let gi = match find_game_index(&store.games, u.appid) {
        Some(i) => i,
        None => return None,
    };
    let si = match find_schema_index(&store.schemas, u.appid, &u.apiname) {
        Some(i) => i,
        None => return None,
    };
    Some(
        LogEntry::Achievement {
            appid: u.appid,
            apiname: u.apiname.clone(),
            game_name: store.games[gi].name.clone(),
            achievement_name: store.schemas[si].display_name.clone(),
            timestamp: t,
            achievement_icon: store.schemas[si].icon.clone(),
            game_icon_url: copy_opt_string(&store.games[gi].img_icon_url),
        },
    )
}

fn first_play_line(store: &Store, fp: &FirstPlay) -> (r: Option<LogEntry>)
    ensures
        r == first_play_entry(store.games@, *fp),
{
    proof {
        lemma_find_game(store.games@, fp.appid);
    }
    match find_game_index(&store.games, fp.appid) {
        Some(gi) => Some(
            LogEntry::FirstPlay {
                appid: fp.appid,
                game_name: store.games[gi].name.clone(),
                timestamp: fp.played_at,
                game_icon_url: copy_opt_string(&store.games[gi].img_icon_url),
            },
        ),
        None => None,
    }
}

/// Inserts `e` into `out`, kept newest first, after every entry at least
/// as new.
fn insert_newest_first(out: &mut Vec<LogEntry>, e: LogEntry)
    requires
        newest_first(old(out)@),
    ensures
        newest_first(final(out)@),
        final(out)@.to_multiset() == old(out)@.to_multiset().insert(e),
{
    let t = e.timestamp();
    let mut pos: usize = 0;
    while pos < out.len() && out[pos].timestamp() >= t
        invariant
            pos <= out.len(),
            newest_first(out@),
            forall|k: int| 0 <= k < pos ==> (#[trigger] out@[k]).time() >= t,
        decreases out.len() - pos,
    {
        pos = pos + 1;
    }
    proof {
        vstd::seq_lib::to_multiset_insert(out@, pos as int, e);
    }
    let ghost before = out@;
    out.insert(pos, e);
    assert forall|i: int, j: int| 0 <= i < j < out@.len() implies (#[trigger] out@[i]).time() >= (
    #[trigger] out@[j]).time() by {
        if pos < before.len() {
            assert(before[pos as int].time() < t);
        }
        if i < pos && j == pos {
        } else if i < pos && j > pos {
            assert(out@[j] == before[j - 1]);
        } else if i == pos && j > pos {
            assert(out@[j] == before[j - 1]);
            assert(before[pos as int].time() >= before[j - 1].time() || j - 1 == pos);
        } else if i > pos {
            assert(out@[i] == before[i - 1]);
            assert(out@[j] == before[j - 1]);
        } else {
            assert(out@[i] == before[i]);
            assert(out@[j] == before[j]);
        }
    }
}

impl Store {
    /// The newest `limit` log lines, newest first: unlocks with a known time
    /// and first plays, each joined with its stored game (and schema entry).
    pub fn get_log_entries(&self, limit: usize) -> (r: Vec<LogEntry>)
        ensures
            exists|sorted: Seq<LogEntry>|
                {
                    &&& sorted.to_multiset() == log_candidates(self@).to_multiset()
                    &&& newest_first(sorted)
                    &&& r@ == sorted.take(
                        if limit < sorted.len() {
                            limit as int
                        } else {
                            sorted.len() as int
                        },
                    )
                },
    {
        let mut cand: Vec<LogEntry> = Vec::new();
        let mut i: usize = 0;
        while i < self.unlocks.len()
            invariant
                i <= self.unlocks.len(),
                cand@ == unlock_entries(self.games@, self.schemas@, self.unlocks@.subrange(0, i as int)),
            decreases self.unlocks.len() - i,
        {
            assert(self.unlocks@.subrange(0, i + 1).drop_last() =~= self.unlocks@.subrange(0, i as int));
            if let Some(e) = unlock_line(self, &self.unlocks[i]) {
                cand.push(e);
            }
            i = i + 1;
        }
        assert(self.unlocks@.subrange(0, i as int) =~= self.unlocks@);
        let ghost unlock_part = cand@;
        let mut k: usize = 0;
        while k < self.first_plays.len()
            invariant
                k <= self.first_plays.len(),
                unlock_part == unlock_entries(self.games@, self.schemas@, self.unlocks@),
                cand@ == unlock_part + first_play_entries(self.games@, self.first_plays@.subrange(0, k as int)),
            decreases self.first_plays.len() - k,
        {
            assert(self.first_plays@.subrange(0, k + 1).drop_last() =~= self.first_plays@.subrange(0, k as int));
            let ghost prev = cand@;
            if let Some(e) = first_play_line(self, &self.first_plays[k]) {
                cand.push(e);
                assert(cand@ =~= unlock_part + first_play_entries(self.games@, self.first_plays@.subrange(0, k + 1)));
            } else {
                assert(cand@ =~= unlock_part + first_play_entries(self.games@, self.first_plays@.subrange(0, k + 1)));
            }
            k = k + 1;
        }
        assert(self.first_plays@.subrange(0, k as int) =~= self.first_plays@);
        let ghost all = cand@;
        assert(all == log_candidates(self@));
        let mut out: Vec<LogEntry> = Vec::new();
        let mut rest = cand;
        broadcast use vstd::seq_lib::group_to_multiset_ensures, vstd::multiset::group_multiset_axioms;

        assert(out@.to_multiset() =~= Multiset::empty());
        while rest.len() > 0
            invariant
                newest_first(out@),
                out@.to_multiset().add(rest@.to_multiset()) == all.to_multiset(),
            decreases rest.len(),
        {
            let ghost r0 = rest@;
            proof {
                vstd::seq_lib::to_multiset_remove(r0, 0);
            }
            let e = rest.remove(0);
            assert(r0[0] == e);
            assert(r0.contains(e));
            proof {
                r0.to_multiset_ensures();
            }
            assert(r0.to_multiset().count(e) > 0);
            let ghost out0 = out@;
            insert_newest_first(&mut out, e);
            assert(out@.to_multiset() == out0.to_multiset().insert(e));
            assert(rest@.to_multiset() == r0.to_multiset().remove(e));
            assert(out@.to_multiset().add(rest@.to_multiset()) =~= out0.to_multiset().add(r0.to_multiset()));
        }
        assert(rest@ =~= Seq::<LogEntry>::empty());
        assert(out@.to_multiset() =~= all.to_multiset());
        let ghost sorted = out@;
        out.truncate(limit);
        assert(out@ =~= sorted.take(if limit < sorted.len() { limit as int } else { sorted.len() as int }));
        out
    }
}

} // verus!
