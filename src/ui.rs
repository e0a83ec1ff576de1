//! View state of the games table and side panels.
use vstd::prelude::*;
use vstd::string::StrSliceExecFns;

use crate::auth::{occurs, occurs_in};
use crate::models::Game;
use crate::order::{
    insert_pos, insertion_sorted, lemma_insertion_sorted, lemma_lex_total, lex_le, lex_le_exec,
};

verus! {

/// Column by which the games table is sorted.
#[derive(Clone, Copy, Debug, PartialEq, Eq, Structural)]
pub enum SortColumn {
    Name,
    LastPlayed,
    Playtime,
    AchievementsTotal,
    AchievementsPercent,
}

/// Direction in which a sortable column is ordered.
#[derive(Clone, Copy, Debug, PartialEq, Eq, Structural)]
pub enum SortOrder {
    Ascending,
    Descending,
}

impl SortOrder {
    /// The opposite direction.
    pub fn toggle(&self) -> (r: SortOrder)
        ensures
            r == match *self {
                SortOrder::Ascending => SortOrder::Descending,
                SortOrder::Descending => SortOrder::Ascending,
            },
    {
        match self {
            SortOrder::Ascending => SortOrder::Descending,
            SortOrder::Descending => SortOrder::Ascending,
        }
    }
}

/// A three-way filter: everything, only with a property, or only without.
#[derive(Clone, Copy, Debug, PartialEq, Eq, Structural)]
pub enum TriFilter {
    All,
    With,
    Without,
}

impl TriFilter {
    /// The next setting: All, With, Without, and round again.
    pub fn cycle(&self) -> (r: TriFilter)
        ensures
            r == match *self {
                TriFilter::All => TriFilter::With,
                TriFilter::With => TriFilter::Without,
                TriFilter::Without => TriFilter::All,
            },
    {
        match self {
            TriFilter::All => TriFilter::With,
            TriFilter::With => TriFilter::Without,
            TriFilter::Without => TriFilter::All,
        }
    }

    /// The text shown for the setting: "All", or the caller's text for the
    /// other two.
    pub fn label(&self, with_text: &str, without_text: &str) -> (r: String)
        ensures
            r@ == match *self {
                TriFilter::All => "All"@,
                TriFilter::With => with_text@,
                TriFilter::Without => without_text@,
            },
    {
        match self {
            TriFilter::All => "All".to_string(),
            TriFilter::With => with_text.to_string(),
            TriFilter::Without => without_text.to_string(),
        }
    }

    /// Whether a game with or without the property passes the filter.
    pub fn admits(&self, has_property: bool) -> (r: bool)
        ensures
            r == match *self {
                TriFilter::All => true,
                TriFilter::With => has_property,
                TriFilter::Without => !has_property,
            },
    {
        match self {
            TriFilter::All => true,
            TriFilter::With => has_property,
            TriFilter::Without => !has_property,
        }
    }
}

/// Which panel the sidebar shows.
#[derive(Clone, Copy, Debug, PartialEq, Eq, Structural)]
pub enum SidebarPanel {
    Stats,
    Log,
}

/// Name of a difficulty rating from 1 to 5; empty for any other value.
pub open spec fn difficulty_name(rating: u8) -> Seq<char> {
    if rating == 1 {
        "Very easy"@
    } else if rating == 2 {
        "Easy"@
    } else if rating == 3 {
        "Moderate"@
    } else if rating == 4 {
        "Hard"@
    } else if rating == 5 {
        "Extreme"@
    } else {
        ""@
    }
}

/// Symbol of a difficulty rating from 1 to 5; empty for any other value.
pub open spec fn difficulty_symbol(rating: u8) -> Seq<char> {
    if rating == 1 {
        "\u{1F422}"@
    } else if rating == 2 {
        "\u{1F407}"@
    } else if rating == 3 {
        "\u{1F3C3}"@
    } else if rating == 4 {
        "\u{26A1}"@
    } else if rating == 5 {
        "\u{1F525}"@
    } else {
        ""@
    }
}

/// Colour of a difficulty rating from 1 to 5, as red, green and blue;
/// grey for any other value.
pub open spec fn difficulty_rgb(rating: u8) -> (u8, u8, u8) {
    if rating == 1 {
        (80, 200, 80)
    } else if rating == 2 {
        (140, 200, 60)
    } else if rating == 3 {
        (200, 200, 60)
    } else if rating == 4 {
        (230, 140, 50)
    } else if rating == 5 {
        (230, 60, 60)
    } else {
        (160, 160, 160)
    }
}

/// The colour of a difficulty rating, as red, green and blue.
pub fn difficulty_color(rating: u8) -> (r: (u8, u8, u8))
    ensures
        r == difficulty_rgb(rating),
{
    match rating {
        1 => (80, 200, 80),
        2 => (140, 200, 60),
        3 => (200, 200, 60),
        4 => (230, 140, 50),
        5 => (230, 60, 60),
        _ => (160, 160, 160),
    }
}

/// The name of a difficulty rating.
pub fn difficulty_label(rating: u8) -> (r: &'static str)
    ensures
        r@ == difficulty_name(rating),
{
    match rating {
        1 => "Very easy",
        2 => "Easy",
        3 => "Moderate",
        4 => "Hard",
        5 => "Extreme",
        _ => "",
    }
}

/// The symbol of a difficulty rating.
pub fn difficulty_icon(rating: u8) -> (r: &'static str)
    ensures
        r@ == difficulty_symbol(rating),
{
    match rating {
        1 => "\u{1F422}",
        2 => "\u{1F407}",
        3 => "\u{1F3C3}",
        4 => "\u{26A1}",
        5 => "\u{1F525}",
        _ => "",
    }
}

/// What `str::to_lowercase` returns for `s`.
pub uninterp spec fn lower_of(s: Seq<char>) -> Seq<char>;

/// Relies on `str::to_lowercase`: the lowercase form of `s`, which depends
/// on its characters alone; an empty string stays empty.
#[verifier::external_body]
fn lowercase(s: &str) -> (r: String)
    ensures
        r@ == lower_of(s@),
        s@.len() == 0 ==> r@.len() == 0,
{
    s.to_lowercase()
}

/// The game has achievements, as far as is known.
pub open spec fn shows_achievements(g: Game) -> bool {
    match g.achievements_total {
        Some(t) => t > 0,
        None => false,
    }
}

/// The game has been played, as far as is known.
pub open spec fn shows_playtime(g: Game) -> bool {
    match g.rtime_last_played {
        Some(t) => t > 0,
        None => false,
    }
}

/// The filters of the games table pass a game whose lowercase name is
/// `lower_name`, for the lowercase name filter `lower_filter`.
pub open spec fn passes(
    g: Game,
    lower_name: Seq<char>,
    lower_filter: Seq<char>,
    achievements: TriFilter,
    playtime: TriFilter,
) -> bool {
    &&& (lower_filter.len() == 0 || occurs(lower_name, lower_filter))
    &&& match achievements {
        TriFilter::All => true,
        TriFilter::With => shows_achievements(g),
        TriFilter::Without => !shows_achievements(g),
    }
    &&& match playtime {
        TriFilter::All => true,
        TriFilter::With => shows_playtime(g),
        TriFilter::Without => !shows_playtime(g),
    }
}

/// Positions of the games that pass the filters, in order.
pub open spec fn filtered(
    games: Seq<Game>,
    lower_filter: Seq<char>,
    achievements: TriFilter,
    playtime: TriFilter,
) -> Seq<usize>
    decreases games.len(),
{
    if games.len() == 0 {
        Seq::empty()
    } else {
        let prev = filtered(games.drop_last(), lower_filter, achievements, playtime);
        let g = games.last();
        if passes(g, lower_of(g.name@), lower_filter, achievements, playtime) {
            prev.push((games.len() - 1) as usize)
        } else {
            prev
        }
    }
}

/// Whether one game passes the filters, given its lowercase name and the
/// lowercase name filter.
pub fn game_passes(
    g: &Game,
    lower_name: &str,
    lower_filter: &str,
    achievements: TriFilter,
    playtime: TriFilter,
) -> (r: bool)
    ensures
        r == passes(*g, lower_name@, lower_filter@, achievements, playtime),
{
    let has_achievements = match g.achievements_total {
        Some(t) => t > 0,
        None => false,
    };
    let has_playtime = match g.rtime_last_played {
        Some(t) => t > 0,
        None => false,
    };
    let name_ok = lower_filter.unicode_len() == 0 || occurs_in(lower_name, lower_filter);
    name_ok && achievements.admits(has_achievements) && playtime.admits(has_playtime)
}

/// Positions of the games that the games table shows: the lowercase name
/// contains the lowercase name filter (any name, for an empty filter), and
/// the achievement and playtime filters pass.
pub fn get_filtered_indices(
    games: &Vec<Game>,
    filter_name: &str,
    achievements: TriFilter,
    playtime: TriFilter,
) -> (r: Vec<usize>)
    ensures
        r@ == filtered(games@, lower_of(filter_name@), achievements, playtime),
{
    let lower_filter = lowercase(filter_name);
    let mut r: Vec<usize> = Vec::new();
    let mut i: usize = 0;
    while i < games.len()
        invariant
            i <= games.len(),
            lower_filter@ == lower_of(filter_name@),
            r@ == filtered(games@.subrange(0, i as int), lower_filter@, achievements, playtime),
        decreases games.len() - i,
    {
        assert(games@.subrange(0, i + 1).drop_last() =~= games@.subrange(0, i as int));
        let lower_name = lowercase(games[i].name.as_str());
        if game_passes(&games[i], lower_name.as_str(), lower_filter.as_str(), achievements, playtime) {
            r.push(i);
        }
        i = i + 1;
    }
    assert(games@.subrange(0, i as int) =~= games@);
    r
}

/// `None` first, then by value.
pub open spec fn opt_le(a: Option<u32>, b: Option<u32>) -> bool {
    match (a, b) {
        (None, _) => true,
        (Some(_), None) => false,
        (Some(x), Some(y)) => x <= y,
    }
}

/// Completion for ordering: hundredths of a percent, or -1 where unknown.
pub open spec fn percent_key(g: Game) -> int {
    match g.completion() {
        Some(c) => c,
        None => -1,
    }
}

/// `a` may come before `b` when `column` is sorted ascending. Names go in
/// lowercase character order; the other columns put the larger value first.
pub open spec fn precedes(column: SortColumn, a: Game, b: Game) -> bool {
    match column {
        SortColumn::Name => lex_le(lower_of(a.name@), lower_of(b.name@)),
        SortColumn::LastPlayed => opt_le(b.rtime_last_played, a.rtime_last_played),
        SortColumn::Playtime => b.playtime_forever <= a.playtime_forever,
        SortColumn::AchievementsTotal => opt_le(b.achievements_total, a.achievements_total),
        SortColumn::AchievementsPercent => percent_key(b) <= percent_key(a),
    }
}

/// `a` may come before `b` under `column` and `order`.
pub open spec fn in_order(column: SortColumn, order: SortOrder, a: Game, b: Game) -> bool {
    match order {
        SortOrder::Ascending => precedes(column, a, b),
        SortOrder::Descending => precedes(column, b, a),
    }
}

/// Each game may come before the next.
pub open spec fn sorted_by(column: SortColumn, order: SortOrder, s: Seq<Game>) -> bool {
    forall|i: int| 0 <= i < s.len() - 1 ==> in_order(column, order, #[trigger] s[i], s[i + 1])
}

proof fn lemma_in_order_total(column: SortColumn, order: SortOrder, a: Game, b: Game)
    ensures
        in_order(column, order, a, b) || in_order(column, order, b, a),
{
    lemma_lex_total(lower_of(a.name@), lower_of(b.name@));
}

fn opt_le_exec(a: Option<u32>, b: Option<u32>) -> (r: bool)
    ensures
        r == opt_le(a, b),
{
    match (a, b) {
        (None, _) => true,
        (Some(_), None) => false,
        (Some(x), Some(y)) => x <= y,
    }
}

fn percent_key_exec(g: &Game) -> (r: i128)
    ensures
        r == percent_key(*g),
{
    match g.completion_percent() {
        Some(c) => c as i128,
        None => -1,
    }
}

/// Whether `a` (with lowercase name `la`) may come before `b`.
fn in_order_exec(
    column: SortColumn,
    order: SortOrder,
    a: &Game,
    la: &str,
    b: &Game,
    lb: &str,
) -> (r: bool)
    requires
        la@ == lower_of(a.name@),
        lb@ == lower_of(b.name@),
    ensures
        r == in_order(column, order, *a, *b),
{
    let (x, lx, y, ly) = match order {
        SortOrder::Ascending => (a, la, b, lb),
        SortOrder::Descending => (b, lb, a, la),
    };
    match column {
        SortColumn::Name => lex_le_exec(lx, ly),
        SortColumn::LastPlayed => opt_le_exec(y.rtime_last_played, x.rtime_last_played),
        SortColumn::Playtime => y.playtime_forever <= x.playtime_forever,
        SortColumn::AchievementsTotal => opt_le_exec(y.achievements_total, x.achievements_total),
        SortColumn::AchievementsPercent => percent_key_exec(y) <= percent_key_exec(x),
    }
}

/// The order of `column` and `order` as a relation on games.
pub open spec fn column_le(column: SortColumn, order: SortOrder) -> spec_fn(Game, Game) -> bool {
    |a: Game, b: Game| in_order(column, order, a, b)
}

/// Sorts the games table by `column` in `order`, by inserting each game in
/// turn after every earlier game that may come before it: the same games,
/// each allowed before the next, and games that may come in either order
/// (equal keys) keep their order.
pub fn sort_games(games: &mut Vec<Game>, column: SortColumn, order: SortOrder)
    ensures
        final(games)@ == insertion_sorted(old(games)@, column_le(column, order)),
        final(games)@.to_multiset() == old(games)@.to_multiset(),
        sorted_by(column, order, final(games)@),
{
    let ghost all = games@;
    let ghost le = column_le(column, order);
    let mut out: Vec<Game> = Vec::new();
    let mut lowered: Vec<String> = Vec::new();
    assert(all.subrange(0, 0) =~= Seq::<Game>::empty());
    assert(all.subrange(0, all.len() as int) =~= all);
    while games.len() > 0
        invariant
            games@.len() <= all.len(),
            games@ == all.subrange(all.len() - games@.len(), all.len() as int),
            out@ == insertion_sorted(all.subrange(0, all.len() - games@.len()), le),
            le == column_le(column, order),
            lowered@.len() == out@.len(),
            forall|k: int| 0 <= k < out@.len() ==> (#[trigger] lowered@[k])@ == lower_of(out@[k].name@),
        decreases games.len(),
    {
        let ghost done = all.len() - games@.len();
        let g = games.remove(0);
        assert(g == all[done]);
        assert(games@ =~= all.subrange(done + 1, all.len() as int));
        let lg = lowercase(g.name.as_str());
        let mut pos: usize = 0;
        assert(out@.subrange(0, out@.len() as int) =~= out@);
        while pos < out.len() && in_order_exec(column, order, &out[pos], lowered[pos].as_str(), &g, lg.as_str())
            invariant
                pos <= out@.len() == lowered@.len(),
                forall|k: int| 0 <= k < out@.len() ==> (#[trigger] lowered@[k])@ == lower_of(out@[k].name@),
                lg@ == lower_of(g.name@),
                le == column_le(column, order),
                insert_pos(out@, g, le) == pos + insert_pos(
                    out@.subrange(pos as int, out@.len() as int),
                    g,
                    le,
                ),
            decreases out@.len() - pos,
        {
            assert(out@.subrange(pos as int, out@.len() as int).drop_first() =~= out@.subrange(
                pos + 1,
                out@.len() as int,
            ));
            pos = pos + 1;
        }
        let ghost before = out@;
        let ghost lbefore = lowered@;
        assert(all.subrange(0, done + 1).drop_last() =~= all.subrange(0, done));
        assert(all.subrange(0, done + 1).last() == g);
        out.insert(pos, g);
        lowered.insert(pos, lg);
        assert forall|k: int| 0 <= k < out@.len() implies (#[trigger] lowered@[k])@ == lower_of(out@[k].name@) by {
            if k < pos {
                assert(out@[k] == before[k] && lowered@[k] == lbefore[k]);
            } else if k > pos {
                assert(out@[k] == before[k - 1] && lowered@[k] == lbefore[k - 1]);
            }
        }
    }
    proof {
        assert forall|a: Game, b: Game| #[trigger] le(a, b) || le(b, a) by {
            lemma_in_order_total(column, order, a, b);
        }
        lemma_insertion_sorted(all, le);
        assert forall|i: int| 0 <= i < out@.len() - 1 implies in_order(column, order, #[trigger] out@[i], out@[i + 1]) by {
            assert(le(out@[i], out@[i + 1]));
        }
    }
    *games = out;
}

} // verus!
