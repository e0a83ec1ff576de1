//! Completion statistics over a set of games.
//!
//! Only games known to have achievements count. The mean completion is taken
//! over played games unless unplayed ones are asked for too: a game never
//! played is not comparable to one played and found hard. Percentages are
//! kept in hundredths of a percent, rounded down per game and for the mean.
use vstd::prelude::*;

use crate::models::Game;

verus! {

/// Hundredths of a percent in a whole.
pub const FULL_COMPLETION: u64 = 10000;

/// Largest completion one game can show, in hundredths of a percent.
pub open spec fn max_completion() -> int {
    u32::MAX as int * 10000
}

/// Aggregate achievement figures over a set of games.
#[derive(Debug, Clone, Copy, PartialEq, Eq, Structural)]
pub struct CompletionStats {
    pub total_achievements: u64,
    pub unlocked_achievements: u64,
    pub games_with_achievements: u64,
    /// Mean completion over the games in the average, in hundredths of a percent.
    pub avg_completion_hundredths: u64,
    /// How many games the mean is taken over.
    pub games_in_average: u64,
}

/// The game is known to have at least one achievement.
pub open spec fn has_achievements(g: Game) -> bool {
    match g.achievements_total {
        Some(t) => t > 0,
        None => false,
    }
}

/// The game enters the mean completion.
pub open spec fn in_average(g: Game, include_unplayed: bool) -> bool {
    has_achievements(g) && g.achievements_unlocked is Some && (include_unplayed
        || g.playtime_forever > 0)
}

/// The game's completion in hundredths of a percent, rounded down.
pub open spec fn completion_hundredths(g: Game) -> int {
    g.achievements_unlocked->0 as int * 10000 / g.achievements_total->0 as int
}

pub open spec fn sum_total(s: Seq<Game>) -> int
    decreases s.len(),
{
    if s.len() == 0 {
        0
    } else {
        sum_total(s.drop_last()) + if has_achievements(s.last()) {
            s.last().achievements_total->0 as int
        } else {
            0
        }
    }
}

pub open spec fn sum_unlocked(s: Seq<Game>) -> int
    decreases s.len(),
{
    if s.len() == 0 {
        0
    } else {
        sum_unlocked(s.drop_last()) + if has_achievements(s.last()) {
            match s.last().achievements_unlocked {
                Some(u) => u as int,
                None => 0,
            }
        } else {
            0
        }
    }
}

pub open spec fn count_with_achievements(s: Seq<Game>) -> int
    decreases s.len(),
{
    if s.len() == 0 {
        0
    } else {
        count_with_achievements(s.drop_last()) + if has_achievements(s.last()) {
            1int
        } else {
            0
        }
    }
}

pub open spec fn count_in_average(s: Seq<Game>, include_unplayed: bool) -> int
    decreases s.len(),
{
    if s.len() == 0 {
        0
    } else {
        count_in_average(s.drop_last(), include_unplayed) + if in_average(
            s.last(),
            include_unplayed,
        ) {
            1int
        } else {
            0
        }
    }
}

pub open spec fn sum_completion(s: Seq<Game>, include_unplayed: bool) -> int
    decreases s.len(),
{
    if s.len() == 0 {
        0
    } else {
        sum_completion(s.drop_last(), include_unplayed) + if in_average(
            s.last(),
            include_unplayed,
        ) {
            completion_hundredths(s.last())
        } else {
            0
        }
    }
}

/// Mean completion in hundredths of a percent, 0 when no game counts.
pub open spec fn avg_completion(s: Seq<Game>, include_unplayed: bool) -> int {
    let n = count_in_average(s, include_unplayed);
    if n == 0 {
        0
    } else {
        sum_completion(s, include_unplayed) / n
    }
}

proof fn lemma_sums_bounded(s: Seq<Game>, include_unplayed: bool)
    ensures
        0 <= sum_total(s) <= s.len() * u32::MAX,
        0 <= sum_unlocked(s) <= s.len() * u32::MAX,
        0 <= count_with_achievements(s) <= s.len(),
        0 <= count_in_average(s, include_unplayed) <= s.len(),
        0 <= sum_completion(s, include_unplayed) <= count_in_average(s, include_unplayed)
            * max_completion(),
    decreases s.len(),
{
    if s.len() > 0 {
        lemma_sums_bounded(s.drop_last(), include_unplayed);
        let g = s.last();
        if in_average(g, include_unplayed) {
            lemma_completion_bounded(g);
        }
        let c = count_in_average(s.drop_last(), include_unplayed);
        assert((c + 1) * max_completion() == c * max_completion() + max_completion())
            by (nonlinear_arith);
    }
}

proof fn lemma_completion_bounded(g: Game)
    requires
        has_achievements(g),
        g.achievements_unlocked is Some,
    ensures
        0 <= completion_hundredths(g) <= max_completion(),
{
    let u = g.achievements_unlocked->0 as int;
    let t = g.achievements_total->0 as int;
    assert(0 <= u * 10000 / t <= u * 10000) by (nonlinear_arith)
        requires
            0 <= u,
            t >= 1,
    ;
    assert(u * 10000 <= u32::MAX as int * 10000) by (nonlinear_arith)
        requires
            u <= u32::MAX,
    ;
}

proof fn lemma_avg_bounded(s: Seq<Game>, include_unplayed: bool)
    ensures
        0 <= avg_completion(s, include_unplayed) <= max_completion(),
{
    lemma_sums_bounded(s, include_unplayed);
    let n = count_in_average(s, include_unplayed);
    let x = sum_completion(s, include_unplayed);
    if n > 0 {
        assert(0 <= x / n <= max_completion()) by (nonlinear_arith)
            requires
                n > 0,
                0 <= x <= n * max_completion(),
                max_completion() > 0,
        ;
    }
}

/// The completion figures of `games`. The mean completion covers played
/// games only, or every game with achievements when `include_unplayed`.
pub fn compute_stats(games: &Vec<Game>, include_unplayed: bool) -> (r: CompletionStats)
    requires
        games@.len() <= u32::MAX,
    ensures
        r.total_achievements == sum_total(games@),
        r.unlocked_achievements == sum_unlocked(games@),
        r.games_with_achievements == count_with_achievements(games@),
        r.games_in_average == count_in_average(games@, include_unplayed),
        r.avg_completion_hundredths == avg_completion(games@, include_unplayed),
{
    let mut total: u64 = 0;
    let mut unlocked: u64 = 0;
    let mut with_ach: u64 = 0;
    let mut counted: u64 = 0;
    let mut completion: u128 = 0;
    let mut i: usize = 0;
    while i < games.len()
        invariant
            i <= games@.len() <= u32::MAX,
            total == sum_total(games@.subrange(0, i as int)),
            unlocked == sum_unlocked(games@.subrange(0, i as int)),
            with_ach == count_with_achievements(games@.subrange(0, i as int)),
            counted == count_in_average(games@.subrange(0, i as int), include_unplayed),
            completion == sum_completion(games@.subrange(0, i as int), include_unplayed),
        decreases games.len() - i,
    {
        let ghost prefix = games@.subrange(0, i as int);
        let ghost next = games@.subrange(0, i + 1);
        assert(next.drop_last() =~= prefix);
        proof {
            lemma_sums_bounded(prefix, include_unplayed);
            lemma_sums_bounded(next, include_unplayed);
            assert(prefix.len() * u32::MAX <= (u32::MAX as int) * (u32::MAX as int)) by (nonlinear_arith)
                requires prefix.len() <= u32::MAX;
            assert(next.len() * u32::MAX <= (u32::MAX as int + 1) * (u32::MAX as int)) by (nonlinear_arith)
                requires next.len() <= u32::MAX as int + 1;
            assert(count_in_average(next, include_unplayed) * max_completion()
                <= (u32::MAX as int + 1) * max_completion()) by (nonlinear_arith)
                requires count_in_average(next, include_unplayed) <= u32::MAX as int + 1, max_completion() > 0;
        }
        let g = &games[i];
        if let Some(t) = g.achievements_total {
            if t > 0 {
                total = total + t as u64;
                with_ach = with_ach + 1;
                if let Some(u) = g.achievements_unlocked {
                    unlocked = unlocked + u as u64;
                    if include_unplayed || g.playtime_forever > 0 {
                        proof {
                            lemma_completion_bounded(*g);
                        }
                        let pct: u64 = (u as u64) * FULL_COMPLETION / (t as u64);
                        counted = counted + 1;
                        completion = completion + pct as u128;
                    }
                }
            }
        }
        i = i + 1;
    }
    assert(games@.subrange(0, i as int) =~= games@);
    proof {
        lemma_avg_bounded(games@, include_unplayed);
    }
    let avg: u64 = if counted == 0 {
        0
    } else {
        (completion / (counted as u128)) as u64
    };
    CompletionStats {
        total_achievements: total,
        unlocked_achievements: unlocked,
        games_with_achievements: with_ach,
        avg_completion_hundredths: avg,
        games_in_average: counted,
    }
}

} // verus!
