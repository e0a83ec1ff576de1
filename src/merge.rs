//! Reconciliation of freshly fetched achievement data with what is stored.
//!
//! The schema decides which achievements a game has; the fetched progress
//! says which of them are unlocked and when. A known unlock time is never
//! replaced by a missing one.
use vstd::prelude::*;

use crate::models::{
    copy_opt_string, Achievement, AchievementSchema, GameAchievement, MergeResult, SchemaEntry,
    UnlockState,
};
use crate::store::Store;

verus! {

/// `fresh` where it is known, else `stored`.
pub open spec fn coalesce(fresh: Option<i64>, stored: Option<i64>) -> Option<i64> {
    if fresh is Some {
        fresh
    } else {
        stored
    }
}

/// Index of the last unlock state keyed by (`appid`, `name`), or -1.
pub open spec fn find_unlock(s: Seq<UnlockState>, appid: u64, name: Seq<char>) -> int
    decreases s.len(),
{
    if s.len() == 0 {
        -1
    } else if s.last().appid == appid && s.last().apiname@ == name {
        s.len() - 1
    } else {
        find_unlock(s.drop_last(), appid, name)
    }
}

/// Index of the last schema entry keyed by (`appid`, `name`), or -1.
pub open spec fn find_schema(s: Seq<SchemaEntry>, appid: u64, name: Seq<char>) -> int
    decreases s.len(),
{
    if s.len() == 0 {
        -1
    } else if s.last().appid == appid && s.last().apiname@ == name {
        s.len() - 1
    } else {
        find_schema(s.drop_last(), appid, name)
    }
}

/// Index of the last fetched progress entry for `name`, or -1.
pub open spec fn find_progress(p: Seq<Achievement>, name: Seq<char>) -> int
    decreases p.len(),
{
    if p.len() == 0 {
        -1
    } else if p.last().apiname@ == name {
        p.len() - 1
    } else {
        find_progress(p.drop_last(), name)
    }
}

/// Index of the last fetched schema entry for `name`, or -1.
pub open spec fn find_named(sch: Seq<AchievementSchema>, name: Seq<char>) -> int
    decreases sch.len(),
{
    if sch.len() == 0 {
        -1
    } else if sch.last().name@ == name {
        sch.len() - 1
    } else {
        find_named(sch.drop_last(), name)
    }
}

/// Whether the fetched progress marks `name` as unlocked; absent means locked.
pub open spec fn fetched_achieved(p: Seq<Achievement>, name: Seq<char>) -> bool {
    let k = find_progress(p, name);
    k >= 0 && p[k].achieved == 1
}

/// The unlock time the fetched progress gives `name`, if any.
pub open spec fn fetched_time(p: Seq<Achievement>, name: Seq<char>) -> Option<i64> {
    let k = find_progress(p, name);
    if k >= 0 && p[k].unlocktime > 0 {
        Some(p[k].unlocktime as i64)
    } else {
        None
    }
}

/// The unlock table after an upsert of (`appid`, `apiname`): the achieved
/// flag is overwritten, the unlock time is coalesced.
pub open spec fn unlocks_after_upsert(
    s: Seq<UnlockState>,
    appid: u64,
    apiname: String,
    achieved: bool,
    time: Option<i64>,
) -> Seq<UnlockState> {
    let i = find_unlock(s, appid, apiname@);
    if i >= 0 {
        s.update(i, UnlockState { achieved, unlocktime: coalesce(time, s[i].unlocktime), ..s[i] })
    } else {
        s.push(UnlockState { appid, apiname, achieved, unlocktime: time })
    }
}

/// The schema table after an upsert of `e` for `appid`: every field is
/// overwritten.
pub open spec fn schemas_after_upsert(
    s: Seq<SchemaEntry>,
    appid: u64,
    apiname: String,
    e: AchievementSchema,
) -> Seq<SchemaEntry> {
    let i = find_schema(s, appid, apiname@);
    if i >= 0 {
        s.update(
            i,
            SchemaEntry {
                display_name: e.display_name,
                description: e.description,
                icon: e.icon,
                icon_gray: e.icongray,
                ..s[i]
            },
        )
    } else {
        s.push(
            SchemaEntry {
                appid,
                apiname,
                display_name: e.display_name,
                description: e.description,
                icon: e.icon,
                icon_gray: e.icongray,
            },
        )
    }
}

/// The unlock table after merging, for each entry of the schema in order.
pub open spec fn merge_unlocks(
    u: Seq<UnlockState>,
    appid: u64,
    p: Seq<Achievement>,
    sch: Seq<AchievementSchema>,
) -> Seq<UnlockState>
    decreases sch.len(),
{
    if sch.len() == 0 {
        u
    } else {
        let e = sch.last();
        unlocks_after_upsert(
            merge_unlocks(u, appid, p, sch.drop_last()),
            appid,
            e.name,
            fetched_achieved(p, e.name@),
            fetched_time(p, e.name@),
        )
    }
}

/// The schema table after merging the first `n` entries of `full`; each is
/// stored with the fields of the last entry of `full` that has its name.
pub open spec fn merge_schemas(
    s: Seq<SchemaEntry>,
    appid: u64,
    full: Seq<AchievementSchema>,
    n: nat,
) -> Seq<SchemaEntry>
    decreases n,
{
    if n == 0 || n > full.len() {
        s
    } else {
        let e = full[n - 1];
        schemas_after_upsert(
            merge_schemas(s, appid, full, (n - 1) as nat),
            appid,
            e.name,
            full[find_named(full, e.name@)],
        )
    }
}

/// Number of schema entries that the fetched progress marks as unlocked.
pub open spec fn count_achieved(p: Seq<Achievement>, sch: Seq<AchievementSchema>) -> nat
    decreases sch.len(),
{
    if sch.len() == 0 {
        0
    } else {
        count_achieved(p, sch.drop_last()) + if fetched_achieved(p, sch.last().name@) {
            1nat
        } else {
            0nat
        }
    }
}

/// The row shown for an unlock state of `appid`, joined with its schema entry.
pub open spec fn game_achievement_row(schemas: Seq<SchemaEntry>, appid: u64, u: UnlockState) -> Option<
    GameAchievement,
> {
    let si = find_schema(schemas, u.appid, u.apiname@);
    if u.appid == appid && si >= 0 {
        Some(
            GameAchievement {
                appid: u.appid,
                apiname: u.apiname,
                name: schemas[si].display_name,
                description: schemas[si].description,
                icon: schemas[si].icon,
                icon_gray: schemas[si].icon_gray,
                achieved: u.achieved,
                unlocktime: u.unlocktime,
            },
        )
    } else {
        None
    }
}

/// The rows of `appid`, in unlock-table order.
pub open spec fn game_achievement_rows(schemas: Seq<SchemaEntry>, appid: u64, us: Seq<UnlockState>) -> Seq<
    GameAchievement,
>
    decreases us.len(),
{
    if us.len() == 0 {
        Seq::empty()
    } else {
        let prev = game_achievement_rows(schemas, appid, us.drop_last());
        match game_achievement_row(schemas, appid, us.last()) {
            Some(r) => prev.push(r),
            None => prev,
        }
    }
}

pub proof fn lemma_find_unlock(s: Seq<UnlockState>, appid: u64, name: Seq<char>)
    ensures
        -1 <= find_unlock(s, appid, name) < s.len(),
        find_unlock(s, appid, name) >= 0 ==> s[find_unlock(s, appid, name)].appid == appid
            && s[find_unlock(s, appid, name)].apiname@ == name,
        find_unlock(s, appid, name) == -1 ==> forall|j: int|
            0 <= j < s.len() ==> !((#[trigger] s[j]).appid == appid && s[j].apiname@ == name),
    decreases s.len(),
{
    if s.len() > 0 {
        lemma_find_unlock(s.drop_last(), appid, name);
        assert forall|j: int| 0 <= j < s.len() - 1 implies s.drop_last()[j] == #[trigger] s[j] by {}
    }
}

pub proof fn lemma_find_schema(s: Seq<SchemaEntry>, appid: u64, name: Seq<char>)
    ensures
        -1 <= find_schema(s, appid, name) < s.len(),
        find_schema(s, appid, name) >= 0 ==> s[find_schema(s, appid, name)].appid == appid
            && s[find_schema(s, appid, name)].apiname@ == name,
        find_schema(s, appid, name) == -1 ==> forall|j: int|
            0 <= j < s.len() ==> !((#[trigger] s[j]).appid == appid && s[j].apiname@ == name),
    decreases s.len(),
{
    if s.len() > 0 {
        lemma_find_schema(s.drop_last(), appid, name);
        assert forall|j: int| 0 <= j < s.len() - 1 implies s.drop_last()[j] == #[trigger] s[j] by {}
    }
}

pub proof fn lemma_find_progress(p: Seq<Achievement>, name: Seq<char>)
    ensures
        -1 <= find_progress(p, name) < p.len(),
        find_progress(p, name) >= 0 ==> p[find_progress(p, name)].apiname@ == name,
    decreases p.len(),
{
    if p.len() > 0 {
        lemma_find_progress(p.drop_last(), name);
    }
}

pub proof fn lemma_find_named(sch: Seq<AchievementSchema>, name: Seq<char>)
    ensures
        -1 <= find_named(sch, name) < sch.len(),
        find_named(sch, name) >= 0 ==> sch[find_named(sch, name)].name@ == name,
        forall|j: int| 0 <= j < sch.len() && (#[trigger] sch[j]).name@ == name ==> j <= find_named(
            sch,
            name,
        ),
    decreases sch.len(),
{
    if sch.len() > 0 {
        lemma_find_named(sch.drop_last(), name);
        assert forall|j: int| 0 <= j < sch.len() && (#[trigger] sch[j]).name@ == name implies j
            <= find_named(sch, name) by {
            if j < sch.len() - 1 {
                assert(sch[j] == sch.drop_last()[j]);
            }
        }
    }
}

proof fn lemma_count_achieved_bound(p: Seq<Achievement>, sch: Seq<AchievementSchema>)
    ensures
        count_achieved(p, sch) <= sch.len(),
    decreases sch.len(),
{
    if sch.len() > 0 {
        lemma_count_achieved_bound(p, sch.drop_last());
    }
}

/// The unlock state of (`appid`, `name`) is stored and an upsert with
/// `achieved` and `time` would not change it.
pub open spec fn unlock_settled(
    t: Seq<UnlockState>,
    appid: u64,
    name: Seq<char>,
    achieved: bool,
    time: Option<i64>,
) -> bool {
    let i = find_unlock(t, appid, name);
    i >= 0 && t[i].achieved == achieved && coalesce(time, t[i].unlocktime) == t[i].unlocktime
}

/// The schema entry of (`appid`, `name`) is stored with the fields of `e`.
pub open spec fn schema_settled(
    t: Seq<SchemaEntry>,
    appid: u64,
    name: Seq<char>,
    e: AchievementSchema,
) -> bool {
    let i = find_schema(t, appid, name);
    &&& i >= 0
    &&& t[i].display_name == e.display_name
    &&& t[i].description == e.description
    &&& t[i].icon == e.icon
    &&& t[i].icon_gray == e.icongray
}

proof fn lemma_find_unlock_same_keys(
    s: Seq<UnlockState>,
    s2: Seq<UnlockState>,
    appid: u64,
    name: Seq<char>,
)
    requires
        s.len() == s2.len(),
        forall|i: int|
            0 <= i < s.len() ==> (#[trigger] s2[i]).appid == s[i].appid && s2[i].apiname@
                == s[i].apiname@,
    ensures
        find_unlock(s2, appid, name) == find_unlock(s, appid, name),
    decreases s.len(),
{
    if s.len() > 0 {
        assert forall|i: int| 0 <= i < s.len() - 1 implies (#[trigger] s2.drop_last()[i]).appid
            == s.drop_last()[i].appid && s2.drop_last()[i].apiname@ == s.drop_last()[i].apiname@ by {
            assert(s2.drop_last()[i] == s2[i]);
            assert(s.drop_last()[i] == s[i]);
        }
        lemma_find_unlock_same_keys(s.drop_last(), s2.drop_last(), appid, name);
    }
}

proof fn lemma_find_schema_same_keys(
    s: Seq<SchemaEntry>,
    s2: Seq<SchemaEntry>,
    appid: u64,
    name: Seq<char>,
)
    requires
        s.len() == s2.len(),
        forall|i: int|
            0 <= i < s.len() ==> (#[trigger] s2[i]).appid == s[i].appid && s2[i].apiname@
                == s[i].apiname@,
    ensures
        find_schema(s2, appid, name) == find_schema(s, appid, name),
    decreases s.len(),
{
    if s.len() > 0 {
        assert forall|i: int| 0 <= i < s.len() - 1 implies (#[trigger] s2.drop_last()[i]).appid
            == s.drop_last()[i].appid && s2.drop_last()[i].apiname@ == s.drop_last()[i].apiname@ by {
            assert(s2.drop_last()[i] == s2[i]);
            assert(s.drop_last()[i] == s[i]);
        }
        lemma_find_schema_same_keys(s.drop_last(), s2.drop_last(), appid, name);
    }
}

/// An upsert of one key settles that key and leaves every other key's
/// stored row where and as it was.
proof fn lemma_unlock_upsert_effect(
    t: Seq<UnlockState>,
    appid: u64,
    apiname: String,
    achieved: bool,
    time: Option<i64>,
    name2: Seq<char>,
)
    ensures
        unlock_settled(unlocks_after_upsert(t, appid, apiname, achieved, time), appid, apiname@, achieved, time),
        name2 != apiname@ ==> find_unlock(unlocks_after_upsert(t, appid, apiname, achieved, time), appid, name2)
            == find_unlock(t, appid, name2),
        name2 != apiname@ && find_unlock(t, appid, name2) >= 0 ==> unlocks_after_upsert(
            t,
            appid,
            apiname,
            achieved,
            time,
        )[find_unlock(t, appid, name2)] == t[find_unlock(t, appid, name2)],
{
    let after = unlocks_after_upsert(t, appid, apiname, achieved, time);
    let i = find_unlock(t, appid, apiname@);
    lemma_find_unlock(t, appid, apiname@);
    lemma_find_unlock(t, appid, name2);
    if i >= 0 {
        lemma_find_unlock_same_keys(t, after, appid, apiname@);
        lemma_find_unlock_same_keys(t, after, appid, name2);
    } else {
        assert(after.drop_last() =~= t);
    }
}

proof fn lemma_schema_upsert_effect(
    t: Seq<SchemaEntry>,
    appid: u64,
    apiname: String,
    e: AchievementSchema,
    name2: Seq<char>,
)
    ensures
        schema_settled(schemas_after_upsert(t, appid, apiname, e), appid, apiname@, e),
        name2 != apiname@ ==> find_schema(schemas_after_upsert(t, appid, apiname, e), appid, name2)
            == find_schema(t, appid, name2),
        name2 != apiname@ && find_schema(t, appid, name2) >= 0 ==> schemas_after_upsert(
            t,
            appid,
            apiname,
            e,
        )[find_schema(t, appid, name2)] == t[find_schema(t, appid, name2)],
{
    let after = schemas_after_upsert(t, appid, apiname, e);
    let i = find_schema(t, appid, apiname@);
    lemma_find_schema(t, appid, apiname@);
    lemma_find_schema(t, appid, name2);
    if i >= 0 {
        lemma_find_schema_same_keys(t, after, appid, apiname@);
        lemma_find_schema_same_keys(t, after, appid, name2);
    } else {
        assert(after.drop_last() =~= t);
    }
}

/// After a merge, every key of the schema is settled with the values that
/// the merge gives it.
proof fn lemma_merge_unlocks_settles(
    u: Seq<UnlockState>,
    appid: u64,
    p: Seq<Achievement>,
    sch: Seq<AchievementSchema>,
)
    ensures
        forall|j: int|
            0 <= j < sch.len() ==> unlock_settled(
                merge_unlocks(u, appid, p, sch),
                appid,
                (#[trigger] sch[j]).name@,
                fetched_achieved(p, sch[j].name@),
                fetched_time(p, sch[j].name@),
            ),
    decreases sch.len(),
{
    if sch.len() > 0 {
        let prev = merge_unlocks(u, appid, p, sch.drop_last());
        let e = sch.last();
        lemma_merge_unlocks_settles(u, appid, p, sch.drop_last());
        assert forall|j: int| 0 <= j < sch.len() implies unlock_settled(
            merge_unlocks(u, appid, p, sch),
            appid,
            (#[trigger] sch[j]).name@,
            fetched_achieved(p, sch[j].name@),
            fetched_time(p, sch[j].name@),
        ) by {
            lemma_unlock_upsert_effect(
                prev,
                appid,
                e.name,
                fetched_achieved(p, e.name@),
                fetched_time(p, e.name@),
                sch[j].name@,
            );
            if j < sch.len() - 1 {
                assert(sch.drop_last()[j] == sch[j]);
            }
        }
    }
}

proof fn lemma_merge_unlocks_noop(
    t: Seq<UnlockState>,
    appid: u64,
    p: Seq<Achievement>,
    sch: Seq<AchievementSchema>,
)
    requires
        forall|j: int|
            0 <= j < sch.len() ==> unlock_settled(
                t,
                appid,
                (#[trigger] sch[j]).name@,
                fetched_achieved(p, sch[j].name@),
                fetched_time(p, sch[j].name@),
            ),
    ensures
        merge_unlocks(t, appid, p, sch) == t,
    decreases sch.len(),
{
    if sch.len() > 0 {
        assert forall|j: int| 0 <= j < sch.len() - 1 implies unlock_settled(
            t,
            appid,
            (#[trigger] sch.drop_last()[j]).name@,
            fetched_achieved(p, sch.drop_last()[j].name@),
            fetched_time(p, sch.drop_last()[j].name@),
        ) by {
            assert(sch.drop_last()[j] == sch[j]);
        }
        lemma_merge_unlocks_noop(t, appid, p, sch.drop_last());
        let e = sch.last();
        assert(unlock_settled(t, appid, sch[sch.len() - 1].name@, fetched_achieved(p, e.name@), fetched_time(p, e.name@)));
        let i = find_unlock(t, appid, e.name@);
        lemma_find_unlock(t, appid, e.name@);
        assert(t.update(i, UnlockState { achieved: fetched_achieved(p, e.name@), unlocktime: coalesce(fetched_time(p, e.name@), t[i].unlocktime), ..t[i] }) =~= t);
    }
}

proof fn lemma_merge_schemas_settles(
    s: Seq<SchemaEntry>,
    appid: u64,
    full: Seq<AchievementSchema>,
    n: nat,
)
    requires
        n <= full.len(),
    ensures
        forall|j: int|
            0 <= j < n ==> schema_settled(
                merge_schemas(s, appid, full, n),
                appid,
                (#[trigger] full[j]).name@,
                full[find_named(full, full[j].name@)],
            ),
    decreases n,
{
    if n > 0 {
        let prev = merge_schemas(s, appid, full, (n - 1) as nat);
        let e = full[n - 1];
        lemma_merge_schemas_settles(s, appid, full, (n - 1) as nat);
        assert forall|j: int| 0 <= j < n implies schema_settled(
            merge_schemas(s, appid, full, n),
            appid,
            (#[trigger] full[j]).name@,
            full[find_named(full, full[j].name@)],
        ) by {
            lemma_schema_upsert_effect(
                prev,
                appid,
                e.name,
                full[find_named(full, e.name@)],
                full[j].name@,
            );
        }
    }
}

proof fn lemma_merge_schemas_noop(
    t: Seq<SchemaEntry>,
    appid: u64,
    full: Seq<AchievementSchema>,
    n: nat,
)
    requires
        n <= full.len(),
        forall|j: int|
            0 <= j < n ==> schema_settled(
                t,
                appid,
                (#[trigger] full[j]).name@,
                full[find_named(full, full[j].name@)],
            ),
    ensures
        merge_schemas(t, appid, full, n) == t,
    decreases n,
{
    if n > 0 {
        lemma_merge_schemas_noop(t, appid, full, (n - 1) as nat);
        let e = full[n - 1];
        let v = full[find_named(full, e.name@)];
        assert(schema_settled(t, appid, full[n - 1].name@, v));
        let i = find_schema(t, appid, e.name@);
        lemma_find_schema(t, appid, e.name@);
        assert(t.update(i, SchemaEntry { display_name: v.display_name, description: v.description, icon: v.icon, icon_gray: v.icongray, ..t[i] }) =~= t);
    }
}

/// Merging the same fetched data a second time changes nothing: the unlock
/// and schema tables stay as the first merge left them, with no row added.
pub proof fn merge_is_idempotent(
    u: Seq<UnlockState>,
    s: Seq<SchemaEntry>,
    appid: u64,
    p: Seq<Achievement>,
    sch: Seq<AchievementSchema>,
)
    ensures
        merge_unlocks(merge_unlocks(u, appid, p, sch), appid, p, sch) == merge_unlocks(
            u,
            appid,
            p,
            sch,
        ),
        merge_schemas(merge_schemas(s, appid, sch, sch.len()), appid, sch, sch.len())
            == merge_schemas(s, appid, sch, sch.len()),
{
    lemma_merge_unlocks_settles(u, appid, p, sch);
    lemma_merge_unlocks_noop(merge_unlocks(u, appid, p, sch), appid, p, sch);
    lemma_merge_schemas_settles(s, appid, sch, sch.len());
    lemma_merge_schemas_noop(merge_schemas(s, appid, sch, sch.len()), appid, sch, sch.len());
}

/// `b` keeps every row of `a` in place under its key; a known unlock time
/// stays known, and stays as it was where `p` gives no time for that row.
pub open spec fn keeps_unlock_times(a: Seq<UnlockState>, b: Seq<UnlockState>, p: Seq<Achievement>) -> bool {
    &&& a.len() <= b.len()
    &&& forall|i: int|
        0 <= i < a.len() ==> {
            &&& (#[trigger] b[i]).appid == a[i].appid
            &&& b[i].apiname == a[i].apiname
            &&& (a[i].unlocktime is Some ==> b[i].unlocktime is Some)
            &&& (fetched_time(p, a[i].apiname@) is None ==> b[i].unlocktime == a[i].unlocktime)
        }
}

/// Merging never erases a known unlock time: each stored row keeps its
/// place and key, a known time stays known, and where the fetched progress
/// gives no time for the row, its stored time is unchanged.
pub proof fn merge_keeps_known_unlock_times(
    u: Seq<UnlockState>,
    appid: u64,
    p: Seq<Achievement>,
    sch: Seq<AchievementSchema>,
)
    ensures
        keeps_unlock_times(u, merge_unlocks(u, appid, p, sch), p),
    decreases sch.len(),
{
    if sch.len() > 0 {
        let prev = merge_unlocks(u, appid, p, sch.drop_last());
        let e = sch.last();
        let after = merge_unlocks(u, appid, p, sch);
        merge_keeps_known_unlock_times(u, appid, p, sch.drop_last());
        let i = find_unlock(prev, appid, e.name@);
        lemma_find_unlock(prev, appid, e.name@);
        assert(keeps_unlock_times(prev, after, p));
    }
}

/// No (appid, api name) key occurs twice in the unlock table.
pub open spec fn unique_unlock_keys(s: Seq<UnlockState>) -> bool {
    forall|i: int, j: int|
        0 <= i < j < s.len() ==> !((#[trigger] s[i]).appid == (#[trigger] s[j]).appid
            && s[i].apiname@ == s[j].apiname@)
}

/// No (appid, api name) key occurs twice in the schema table.
pub open spec fn unique_schema_keys(s: Seq<SchemaEntry>) -> bool {
    forall|i: int, j: int|
        0 <= i < j < s.len() ==> !((#[trigger] s[i]).appid == (#[trigger] s[j]).appid
            && s[i].apiname@ == s[j].apiname@)
}

proof fn lemma_unlock_upsert_unique(
    t: Seq<UnlockState>,
    appid: u64,
    apiname: String,
    achieved: bool,
    time: Option<i64>,
)
    requires
        unique_unlock_keys(t),
    ensures
        unique_unlock_keys(unlocks_after_upsert(t, appid, apiname, achieved, time)),
{
    let after = unlocks_after_upsert(t, appid, apiname, achieved, time);
    lemma_find_unlock(t, appid, apiname@);
    if find_unlock(t, appid, apiname@) >= 0 {
        assert forall|i: int, j: int| 0 <= i < j < after.len() implies !((#[trigger] after[i]).appid
            == (#[trigger] after[j]).appid && after[i].apiname@ == after[j].apiname@) by {
            assert(t[i].appid == after[i].appid && t[i].apiname@ == after[i].apiname@);
            assert(t[j].appid == after[j].appid && t[j].apiname@ == after[j].apiname@);
        }
    } else {
        assert forall|i: int, j: int| 0 <= i < j < after.len() implies !((#[trigger] after[i]).appid
            == (#[trigger] after[j]).appid && after[i].apiname@ == after[j].apiname@) by {
            assert(after[i] == t[i]);
            if j < t.len() {
                assert(after[j] == t[j]);
            }
        }
    }
}

proof fn lemma_schema_upsert_unique(t: Seq<SchemaEntry>, appid: u64, apiname: String, e: AchievementSchema)
    requires
        unique_schema_keys(t),
    ensures
        unique_schema_keys(schemas_after_upsert(t, appid, apiname, e)),
{
    let after = schemas_after_upsert(t, appid, apiname, e);
    lemma_find_schema(t, appid, apiname@);
    if find_schema(t, appid, apiname@) >= 0 {
        assert forall|i: int, j: int| 0 <= i < j < after.len() implies !((#[trigger] after[i]).appid
            == (#[trigger] after[j]).appid && after[i].apiname@ == after[j].apiname@) by {
            assert(t[i].appid == after[i].appid && t[i].apiname@ == after[i].apiname@);
            assert(t[j].appid == after[j].appid && t[j].apiname@ == after[j].apiname@);
        }
    } else {
        assert forall|i: int, j: int| 0 <= i < j < after.len() implies !((#[trigger] after[i]).appid
            == (#[trigger] after[j]).appid && after[i].apiname@ == after[j].apiname@) by {
            assert(after[i] == t[i]);
            if j < t.len() {
                assert(after[j] == t[j]);
            }
        }
    }
}

proof fn lemma_merge_unlocks_unique(
    u: Seq<UnlockState>,
    appid: u64,
    p: Seq<Achievement>,
    sch: Seq<AchievementSchema>,
)
    requires
        unique_unlock_keys(u),
    ensures
        unique_unlock_keys(merge_unlocks(u, appid, p, sch)),
    decreases sch.len(),
{
    if sch.len() > 0 {
        lemma_merge_unlocks_unique(u, appid, p, sch.drop_last());
        let e = sch.last();
        lemma_unlock_upsert_unique(
            merge_unlocks(u, appid, p, sch.drop_last()),
            appid,
            e.name,
            fetched_achieved(p, e.name@),
            fetched_time(p, e.name@),
        );
    }
}

proof fn lemma_merge_schemas_unique(
    s: Seq<SchemaEntry>,
    appid: u64,
    full: Seq<AchievementSchema>,
    n: nat,
)
    requires
        unique_schema_keys(s),
    ensures
        unique_schema_keys(merge_schemas(s, appid, full, n)),
    decreases n,
{
    if n > 0 && n <= full.len() {
        lemma_merge_schemas_unique(s, appid, full, (n - 1) as nat);
        let e = full[n - 1];
        lemma_schema_upsert_unique(
            merge_schemas(s, appid, full, (n - 1) as nat),
            appid,
            e.name,
            full[find_named(full, e.name@)],
        );
    }
}

/// Merging keeps one row per key: where the unlock and schema tables hold
/// each (appid, api name) once, they still do after a merge.
pub proof fn merge_keeps_one_row_per_key(
    u: Seq<UnlockState>,
    s: Seq<SchemaEntry>,
    appid: u64,
    p: Seq<Achievement>,
    sch: Seq<AchievementSchema>,
)
    requires
        unique_unlock_keys(u),
        unique_schema_keys(s),
    ensures
        unique_unlock_keys(merge_unlocks(u, appid, p, sch)),
        unique_schema_keys(merge_schemas(s, appid, sch, sch.len())),
{
    lemma_merge_unlocks_unique(u, appid, p, sch);
    lemma_merge_schemas_unique(s, appid, sch, sch.len());
}

/// Position of the last fetched progress entry for `name`.
fn find_progress_index(p: &Vec<Achievement>, name: &String) -> (r: Option<usize>)
    ensures
        match r {
            Some(k) => k as int == find_progress(p@, name@),
            None => find_progress(p@, name@) == -1,
        },
{
    let mut i: usize = p.len();
    assert(p@.subrange(0, i as int) =~= p@);
    while i > 0
        invariant
            i <= p.len(),
            find_progress(p@, name@) == find_progress(p@.subrange(0, i as int), name@),
        decreases i,
    {
        assert(p@.subrange(0, i as int).drop_last() =~= p@.subrange(0, i - 1));
        if p[i - 1].apiname == *name {
            return Some(i - 1);
        }
        i = i - 1;
    }
    None
}

/// Position of the last fetched schema entry for `name`.
fn find_named_index(sch: &Vec<AchievementSchema>, name: &String) -> (r: Option<usize>)
    ensures
        match r {
            Some(k) => k as int == find_named(sch@, name@),
            None => find_named(sch@, name@) == -1,
        },
{
    let mut i: usize = sch.len();
    assert(sch@.subrange(0, i as int) =~= sch@);
    while i > 0
        invariant
            i <= sch.len(),
            find_named(sch@, name@) == find_named(sch@.subrange(0, i as int), name@),
        decreases i,
    {
        assert(sch@.subrange(0, i as int).drop_last() =~= sch@.subrange(0, i - 1));
        if sch[i - 1].name == *name {
            return Some(i - 1);
        }
        i = i - 1;
    }
    None
}

/// Position of the last unlock state keyed by (`appid`, `name`).
fn find_unlock_index(s: &Vec<UnlockState>, appid: u64, name: &String) -> (r: Option<usize>)
    ensures
        match r {
            Some(k) => k as int == find_unlock(s@, appid, name@),
            None => find_unlock(s@, appid, name@) == -1,
        },
{
    let mut i: usize = s.len();
    assert(s@.subrange(0, i as int) =~= s@);
    while i > 0
        invariant
            i <= s.len(),
            find_unlock(s@, appid, name@) == find_unlock(s@.subrange(0, i as int), appid, name@),
        decreases i,
    {
        assert(s@.subrange(0, i as int).drop_last() =~= s@.subrange(0, i - 1));
        if s[i - 1].appid == appid && s[i - 1].apiname == *name {
            return Some(i - 1);
        }
        i = i - 1;
    }
    None
}

/// Position of the last schema entry keyed by (`appid`, `name`).
pub(crate) fn find_schema_index(s: &Vec<SchemaEntry>, appid: u64, name: &String) -> (r: Option<usize>)
    ensures
        match r {
            Some(k) => k as int == find_schema(s@, appid, name@),
            None => find_schema(s@, appid, name@) == -1,
        },
{
    let mut i: usize = s.len();
    assert(s@.subrange(0, i as int) =~= s@);
    while i > 0
        invariant
            i <= s.len(),
            find_schema(s@, appid, name@) == find_schema(s@.subrange(0, i as int), appid, name@),
        decreases i,
    {
        assert(s@.subrange(0, i as int).drop_last() =~= s@.subrange(0, i - 1));
        if s[i - 1].appid == appid && s[i - 1].apiname == *name {
            return Some(i - 1);
        }
        i = i - 1;
    }
    None
}

impl Store {
    /// The achievements of `appid` with the user's state, each joined with
    /// its schema entry, in the order in which they were first merged.
    pub fn get_game_achievements(&self, appid: u64) -> (r: Vec<GameAchievement>)
        ensures
            r@ == game_achievement_rows(self.schemas@, appid, self.unlocks@),
    {
        let mut r: Vec<GameAchievement> = Vec::new();
        let mut i: usize = 0;
        while i < self.unlocks.len()
            invariant
                i <= self.unlocks.len(),
                r@ == game_achievement_rows(self.schemas@, appid, self.unlocks@.subrange(0, i as int)),
            decreases self.unlocks.len() - i,
        {
            assert(self.unlocks@.subrange(0, i + 1).drop_last() =~= self.unlocks@.subrange(0, i as int));
            let u = &self.unlocks[i];
            proof {
                lemma_find_schema(self.schemas@, u.appid, u.apiname@);
            }
            if u.appid == appid {
                if let Some(si) = find_schema_index(&self.schemas, u.appid, &u.apiname) {
                    let e = &self.schemas[si];
                    r.push(
                        GameAchievement {
                            appid: u.appid,
                            apiname: u.apiname.clone(),
                            name: e.display_name.clone(),
                            description: copy_opt_string(&e.description),
                            icon: e.icon.clone(),
                            icon_gray: e.icon_gray.clone(),
                            achieved: u.achieved,
                            unlocktime: u.unlocktime,
                        },
                    );
                }
            }
            i = i + 1;
        }
        assert(self.unlocks@.subrange(0, i as int) =~= self.unlocks@);
        r
    }

    /// Upserts the unlock state of (`appid`, `apiname`): the achieved flag
    /// is overwritten, and the unlock time only where `time` is known.
    pub fn upsert_achievement_unlock_state(
        &mut self,
        appid: u64,
        apiname: &String,
        achieved: bool,
        time: Option<i64>,
    )
        requires
            old(self).wf(),
        ensures
            final(self).wf(),
            final(self).unlocks@ == unlocks_after_upsert(
                old(self).unlocks@,
                appid,
                *apiname,
                achieved,
                time,
            ),
            final(self).games == old(self).games,
            final(self).schemas == old(self).schemas,
            final(self).run_history == old(self).run_history,
            final(self).achievement_history == old(self).achievement_history,
            final(self).first_plays == old(self).first_plays,
            final(self).last_update == old(self).last_update,
    {
        proof {
            lemma_find_unlock(self.unlocks@, appid, apiname@);
            lemma_unlock_upsert_unique(self.unlocks@, appid, *apiname, achieved, time);
        }
        match find_unlock_index(&self.unlocks, appid, apiname) {
            Some(i) => {
                let stored = self.unlocks[i].unlocktime;
                let unlocktime = if time.is_some() {
                    time
                } else {
                    stored
                };
                let row = UnlockState {
                    appid: self.unlocks[i].appid,
                    apiname: self.unlocks[i].apiname.clone(),
                    achieved,
                    unlocktime,
                };
                self.unlocks[i] = row;
            },
            None => {
                self.unlocks.push(
                    UnlockState { appid, apiname: apiname.clone(), achieved, unlocktime: time },
                );
            },
        }
    }

    /// Upserts the schema entry of (`appid`, `apiname`) with the fields of `e`.
    pub fn upsert_achievement_schema(
        &mut self,
        appid: u64,
        apiname: &String,
        e: &AchievementSchema,
    )
        requires
            old(self).wf(),
        ensures
            final(self).wf(),
            final(self).schemas@ == schemas_after_upsert(old(self).schemas@, appid, *apiname, *e),
            final(self).games == old(self).games,
            final(self).unlocks == old(self).unlocks,
            final(self).run_history == old(self).run_history,
            final(self).achievement_history == old(self).achievement_history,
            final(self).first_plays == old(self).first_plays,
            final(self).last_update == old(self).last_update,
    {
        proof {
            lemma_find_schema(self.schemas@, appid, apiname@);
            lemma_schema_upsert_unique(self.schemas@, appid, *apiname, *e);
        }
        match find_schema_index(&self.schemas, appid, apiname) {
            Some(i) => {
                let row = SchemaEntry {
                    appid: self.schemas[i].appid,
                    apiname: self.schemas[i].apiname.clone(),
                    display_name: e.display_name.clone(),
                    description: crate::models::copy_opt_string(&e.description),
                    icon: e.icon.clone(),
                    icon_gray: e.icongray.clone(),
                };
                self.schemas[i] = row;
            },
            None => {
                self.schemas.push(
                    SchemaEntry {
                        appid,
                        apiname: apiname.clone(),
                        display_name: e.display_name.clone(),
                        description: crate::models::copy_opt_string(&e.description),
                        icon: e.icon.clone(),
                        icon_gray: e.icongray.clone(),
                    },
                );
            },
        }
    }

    /// Merges one game's fetched progress and schema into the store. Every
    /// schema entry gets an unlock state (locked where the progress does not
    /// mention it) and a stored schema entry. Returns the number of schema
    /// entries and how many of them are unlocked.
    pub fn merge_achievements(
        &mut self,
        appid: u64,
        progress: &Vec<Achievement>,
        schema: &Vec<AchievementSchema>,
    ) -> (r: MergeResult)
        requires
            old(self).wf(),
            schema@.len() <= u32::MAX,
        ensures
            final(self).wf(),
            final(self).unlocks@ == merge_unlocks(old(self).unlocks@, appid, progress@, schema@),
            final(self).schemas@ == merge_schemas(
                old(self).schemas@,
                appid,
                schema@,
                schema@.len(),
            ),
            r.total_count == schema@.len(),
            r.unlocked_count == count_achieved(progress@, schema@),
            final(self).games == old(self).games,
            final(self).run_history == old(self).run_history,
            final(self).achievement_history == old(self).achievement_history,
            final(self).first_plays == old(self).first_plays,
            final(self).last_update == old(self).last_update,
    {
        let mut unlocked: u32 = 0;
        let mut j: usize = 0;
        while j < schema.len()
            invariant
                j <= schema@.len() <= u32::MAX,
                self.wf(),
                self.unlocks@ == merge_unlocks(
                    old(self).unlocks@,
                    appid,
                    progress@,
                    schema@.subrange(0, j as int),
                ),
                self.schemas@ == merge_schemas(old(self).schemas@, appid, schema@, j as nat),
                unlocked == count_achieved(progress@, schema@.subrange(0, j as int)),
                self.games == old(self).games,
                self.run_history == old(self).run_history,
                self.achievement_history == old(self).achievement_history,
                self.first_plays == old(self).first_plays,
                self.last_update == old(self).last_update,
            decreases schema.len() - j,
        {
            let e = &schema[j];
            assert(schema@.subrange(0, j + 1).drop_last() =~= schema@.subrange(0, j as int));
            assert(schema@.subrange(0, j + 1).last() == schema@[j as int]);
            proof {
                lemma_find_progress(progress@, e.name@);
                lemma_find_named(schema@, e.name@);
                lemma_count_achieved_bound(progress@, schema@.subrange(0, j as int));
            }
            let (achieved, time) = match find_progress_index(progress, &e.name) {
                Some(k) => {
                    let a = progress[k].achieved == 1;
                    let t = if progress[k].unlocktime > 0 {
                        Some(progress[k].unlocktime as i64)
                    } else {
                        None
                    };
                    (a, t)
                },
                None => (false, None),
            };
            self.upsert_achievement_unlock_state(appid, &e.name, achieved, time);
            let last = match find_named_index(schema, &e.name) {
                Some(k) => k,
                None => j,
            };
            self.upsert_achievement_schema(appid, &e.name, &schema[last]);
            if achieved {
                unlocked = unlocked + 1;
            }
            j = j + 1;
        }
        assert(schema@.subrange(0, j as int) =~= schema@);
        MergeResult { unlocked_count: unlocked, total_count: schema.len() as u32 }
    }
}

} // verus!
