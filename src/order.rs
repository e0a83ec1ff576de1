//! Orders on games: character order of names, and a stable insertion sort
//! under any order that relates every two games one way or the other.
use vstd::prelude::*;
use vstd::string::StrSliceExecFns;

use crate::models::Game;

verus! {

/// `a` comes no later than `b` in character order, comparing code points
/// from the start; a prefix comes first.
pub open spec fn lex_le(a: Seq<char>, b: Seq<char>) -> bool
    decreases a.len(),
{
    if a.len() == 0 {
        true
    } else if b.len() == 0 {
        false
    } else if a[0] != b[0] {
        a[0] < b[0]
    } else {
        lex_le(a.drop_first(), b.drop_first())
    }
}

pub proof fn lemma_lex_total(a: Seq<char>, b: Seq<char>)
    ensures
        lex_le(a, b) || lex_le(b, a),
    decreases a.len(),
{
    if a.len() > 0 && b.len() > 0 {
        if a[0] == b[0] {
            lemma_lex_total(a.drop_first(), b.drop_first());
        }
    }
}

/// Whether `a` comes no later than `b` in character order.
pub fn lex_le_exec(a: &str, b: &str) -> (r: bool)
    ensures
        r == lex_le(a@, b@),
{
    let n = a.unicode_len();
    let m = b.unicode_len();
    let mut i: usize = 0;
    assert(a@.subrange(0, n as int) =~= a@);
    assert(b@.subrange(0, m as int) =~= b@);
    while i < n && i < m && a.get_char(i) == b.get_char(i)
        invariant
            i <= n == a@.len(),
            i <= m == b@.len(),
            lex_le(a@, b@) == lex_le(a@.subrange(i as int, n as int), b@.subrange(i as int, m as int)),
        decreases n - i,
    {
        assert(a@.subrange(i as int, n as int).drop_first() =~= a@.subrange(i + 1, n as int));
        assert(b@.subrange(i as int, m as int).drop_first() =~= b@.subrange(i + 1, m as int));
        i = i + 1;
    }
    assert(a@.subrange(0, n as int) =~= a@);
    assert(b@.subrange(0, m as int) =~= b@);
    if i == n {
        true
    } else if i == m {
        false
    } else {
        a.get_char(i) < b.get_char(i)
    }
}

/// Where insertion sorting puts `x` into `s`: after the leading games that
/// may come before it.
pub open spec fn insert_pos(s: Seq<Game>, x: Game, le: spec_fn(Game, Game) -> bool) -> nat
    decreases s.len(),
{
    if s.len() == 0 {
        0
    } else if le(s[0], x) {
        1 + insert_pos(s.drop_first(), x, le)
    } else {
        0
    }
}

/// `s` sorted by inserting each game in turn, from the first: a game goes
/// after every earlier game that may come before it, so games that may come
/// in either order keep their order.
pub open spec fn insertion_sorted(s: Seq<Game>, le: spec_fn(Game, Game) -> bool) -> Seq<Game>
    decreases s.len(),
{
    if s.len() == 0 {
        s
    } else {
        let t = insertion_sorted(s.drop_last(), le);
        t.insert(insert_pos(t, s.last(), le) as int, s.last())
    }
}

/// Each game may come before the next.
pub open spec fn adjacent_sorted(s: Seq<Game>, le: spec_fn(Game, Game) -> bool) -> bool {
    forall|i: int| 0 <= i < s.len() - 1 ==> le(#[trigger] s[i], s[i + 1])
}

/// Every two games may come in one order or the other.
pub open spec fn total(le: spec_fn(Game, Game) -> bool) -> bool {
    forall|a: Game, b: Game| #[trigger] le(a, b) || le(b, a)
}

/// Character order of names.
pub open spec fn name_le() -> spec_fn(Game, Game) -> bool {
    |a: Game, b: Game| lex_le(a.name@, b.name@)
}

/// The games in name order, equal names in their given order.
pub open spec fn by_name(s: Seq<Game>) -> Seq<Game> {
    insertion_sorted(s, name_le())
}

pub proof fn lemma_insert_pos(s: Seq<Game>, x: Game, le: spec_fn(Game, Game) -> bool)
    ensures
        insert_pos(s, x, le) <= s.len(),
        forall|k: int| 0 <= k < insert_pos(s, x, le) ==> le(#[trigger] s[k], x),
        insert_pos(s, x, le) < s.len() ==> !le(s[insert_pos(s, x, le) as int], x),
    decreases s.len(),
{
    if s.len() > 0 && le(s[0], x) {
        lemma_insert_pos(s.drop_first(), x, le);
        assert forall|k: int| 0 <= k < insert_pos(s, x, le) implies le(#[trigger] s[k], x) by {
            if k > 0 {
                assert(s[k] == s.drop_first()[k - 1]);
            }
        }
        if insert_pos(s, x, le) < s.len() {
            assert(s[insert_pos(s, x, le) as int] == s.drop_first()[insert_pos(s.drop_first(), x, le) as int]);
        }
    }
}

/// Insertion sorting under a total order gives the same games, each one
/// allowed before the next.
pub proof fn lemma_insertion_sorted(s: Seq<Game>, le: spec_fn(Game, Game) -> bool)
    requires
        total(le),
    ensures
        insertion_sorted(s, le).len() == s.len(),
        insertion_sorted(s, le).to_multiset() == s.to_multiset(),
        adjacent_sorted(insertion_sorted(s, le), le),
    decreases s.len(),
{
    broadcast use vstd::seq_lib::group_to_multiset_ensures;

    if s.len() > 0 {
        let t = insertion_sorted(s.drop_last(), le);
        let x = s.last();
        lemma_insertion_sorted(s.drop_last(), le);
        lemma_insert_pos(t, x, le);
        let p = insert_pos(t, x, le) as int;
        let r = t.insert(p, x);
        vstd::seq_lib::to_multiset_insert(t, p, x);
        assert(s.drop_last().push(x) =~= s);
        assert forall|i: int| 0 <= i < r.len() - 1 implies le(#[trigger] r[i], r[i + 1]) by {
            if i + 1 < p {
                assert(r[i] == t[i] && r[i + 1] == t[i + 1]);
            } else if i + 1 == p {
                assert(r[i] == t[i]);
            } else if i == p {
                assert(r[i + 1] == t[i]);
                assert(le(t[i], x) || le(x, t[i]));
            } else {
                assert(r[i] == t[i - 1] && r[i + 1] == t[i]);
            }
        }
    }
}

proof fn lemma_name_le_total()
    ensures
        total(name_le()),
{
    assert forall|a: Game, b: Game| #[trigger] name_le()(a, b) || name_le()(b, a) by {
        lemma_lex_total(a.name@, b.name@);
    }
}

/// The games in name order: the same games, each named no later than the
/// next.
pub proof fn lemma_by_name(s: Seq<Game>)
    ensures
        by_name(s).len() == s.len(),
        by_name(s).to_multiset() == s.to_multiset(),
        adjacent_sorted(by_name(s), name_le()),
        forall|j: int| 0 <= j < by_name(s).len() ==> s.contains(#[trigger] by_name(s)[j]),
{
    broadcast use vstd::seq_lib::group_to_multiset_ensures;

    lemma_name_le_total();
    lemma_insertion_sorted(s, name_le());
    assert forall|j: int| 0 <= j < by_name(s).len() implies s.contains(#[trigger] by_name(s)[j]) by {
        let r = by_name(s);
        r.to_multiset_ensures();
        s.to_multiset_ensures();
        assert(r.contains(r[j]));
        assert(r.to_multiset().count(r[j]) > 0);
        assert(s.to_multiset().count(r[j]) > 0);
    }
}

/// Copies of `games` in name order, equal names in their given order.
pub fn sort_by_name(games: &Vec<Game>) -> (r: Vec<Game>)
    ensures
        r@ == by_name(games@),
{
    let mut out: Vec<Game> = Vec::new();
    let mut i: usize = 0;
    while i < games.len()
        invariant
            i <= games.len(),
            out@ == insertion_sorted(games@.subrange(0, i as int), name_le()),
        decreases games.len() - i,
    {
        let x = games[i].copied();
        let mut pos: usize = 0;
        assert(out@.subrange(0, out@.len() as int) =~= out@);
        while pos < out.len() && lex_le_exec(out[pos].name.as_str(), x.name.as_str())
            invariant
                pos <= out@.len(),
                insert_pos(out@, x, name_le()) == pos + insert_pos(
                    out@.subrange(pos as int, out@.len() as int),
                    x,
                    name_le(),
                ),
            decreases out@.len() - pos,
        {
            assert(out@.subrange(pos as int, out@.len() as int).drop_first() =~= out@.subrange(
                pos + 1,
                out@.len() as int,
            ));
            pos = pos + 1;
        }
        assert(games@.subrange(0, i + 1).drop_last() =~= games@.subrange(0, i as int));
        assert(games@.subrange(0, i + 1).last() == x);
        out.insert(pos, x);
        i = i + 1;
    }
    assert(games@.subrange(0, i as int) =~= games@);
    out
}

} // verus!
