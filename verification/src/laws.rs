//! What holds of every haystack, needle and set of weights.
use vstd::prelude::*;
use crate::chars::lemma_to_lower_keeps_width;
use crate::config::MatcherConfig;
use crate::fuzzy_greedy::greedy_placement;
use crate::fuzzy_greedy::greedy_score;
use crate::fuzzy_greedy::greedy_succeeds;
use crate::fuzzy_greedy::lemma_greedy_is_placement;
use crate::fuzzy_greedy::lemma_matchable_iff_greedy;
use crate::fuzzy_optimal::cell;
use crate::fuzzy_optimal::gap;
use crate::fuzzy_optimal::lemma_best_end;
use crate::fuzzy_optimal::lemma_cell_bounds;
use crate::fuzzy_optimal::lemma_gap;
use crate::fuzzy_optimal::lemma_optimal_bounds_greedy;
use crate::fuzzy_optimal::lemma_optimal_iff_matchable;
use crate::fuzzy_optimal::lemma_optimal_is_placement;
use crate::fuzzy_optimal::optimal_placement;
use crate::fuzzy_optimal::optimal_score;
use crate::score::bonus_at;
use crate::score::char_matches;
use crate::score::clamp_score;
use crate::score::eligible;
use crate::score::is_placement;
use crate::score::lemma_matchable_lengths;
use crate::score::lemma_run_bonus_bounds;
use crate::score::lemma_run_bonus_monotone;
use crate::score::lemma_run_len_bounds;
use crate::score::lemma_score_bounds;
use crate::score::matchable;
use crate::score::placement_score;
use crate::score::run_bonus;
use crate::score::run_len;
use crate::score::score_upto;
use crate::utf32_str::all_narrow;

verus! {

/// A needle with a character that does not fit into seven bits occurs in no
/// haystack whose characters all do.
pub proof fn lemma_narrow_haystack_wide_needle(
    config: MatcherConfig,
    haystack: Seq<u32>,
    needle: Seq<u32>,
)
    requires
        all_narrow(haystack),
        !all_narrow(needle),
    ensures
        !matchable(config, haystack, needle),
{
    if matchable(config, haystack, needle) {
        let p = choose|p: Seq<int>| is_placement(config, haystack, needle, p);
        let i = choose|i: int| 0 <= i < needle.len() && !(#[trigger] needle[i] < 128);
        assert(eligible(config, haystack, needle, i, p[i]));
        assert(haystack[p[i]] < 128);
        lemma_to_lower_keeps_width(haystack[p[i]]);
        lemma_to_lower_keeps_width(needle[i]);
    }
}

/// A needle longer than the haystack has no result, optimal or greedy.
pub proof fn lemma_longer_needle_is_absent(
    config: MatcherConfig,
    haystack: Seq<u32>,
    needle: Seq<u32>,
)
    requires
        needle.len() > haystack.len(),
    ensures
        !matchable(config, haystack, needle),
        optimal_score(config, haystack, needle) is None,
        greedy_score(config, haystack, needle) is None,
{
    lemma_optimal_iff_matchable(config, haystack, needle);
    lemma_matchable_iff_greedy(config, haystack, needle);
    if matchable(config, haystack, needle) {
        lemma_matchable_lengths(config, haystack, needle);
    }
}

/// An empty needle has no result, optimal or greedy.
pub proof fn lemma_empty_needle_is_absent(
    config: MatcherConfig,
    haystack: Seq<u32>,
    needle: Seq<u32>,
)
    requires
        needle.len() == 0,
    ensures
        !matchable(config, haystack, needle),
        optimal_score(config, haystack, needle) is None,
        greedy_score(config, haystack, needle) is None,
{
    lemma_optimal_iff_matchable(config, haystack, needle);
    lemma_matchable_iff_greedy(config, haystack, needle);
}

/// The optimal and the greedy match have a result on the same pairs, and the
/// optimal score is never below the greedy one, before and after both are
/// fitted into the output range.
pub proof fn lemma_optimal_at_least_greedy(
    config: MatcherConfig,
    haystack: Seq<u32>,
    needle: Seq<u32>,
)
    ensures
        optimal_score(config, haystack, needle) is Some <==> greedy_score(
            config,
            haystack,
            needle,
        ) is Some,
        greedy_score(config, haystack, needle) is Some ==> optimal_score(
            config,
            haystack,
            needle,
        )->0 >= greedy_score(config, haystack, needle)->0 && clamp_score(
            optimal_score(config, haystack, needle)->0,
        ) >= clamp_score(greedy_score(config, haystack, needle)->0),
{
    lemma_optimal_iff_matchable(config, haystack, needle);
    lemma_matchable_iff_greedy(config, haystack, needle);
    if greedy_succeeds(config, haystack, needle) {
        lemma_optimal_bounds_greedy(config, haystack, needle);
    }
}

/// The positions that either match reports are as many as the needle has
/// characters, and each lies behind the one before it.
pub proof fn lemma_indices_rise(config: MatcherConfig, haystack: Seq<u32>, needle: Seq<u32>)
    requires
        matchable(config, haystack, needle),
    ensures
        optimal_placement(config, haystack, needle).len() == needle.len(),
        greedy_placement(config, haystack, needle).len() == needle.len(),
        forall|i: int|
            0 < i < needle.len() ==> optimal_placement(config, haystack, needle)[i - 1]
                < #[trigger] optimal_placement(config, haystack, needle)[i],
        forall|i: int|
            0 < i < needle.len() ==> greedy_placement(config, haystack, needle)[i - 1]
                < #[trigger] greedy_placement(config, haystack, needle)[i],
{
    lemma_optimal_iff_matchable(config, haystack, needle);
    lemma_matchable_iff_greedy(config, haystack, needle);
    lemma_optimal_is_placement(config, haystack, needle);
    lemma_greedy_is_placement(config, haystack, needle);
}

/// The haystack characters at the positions that either match reports are the
/// needle's characters, up to what the case rule lets pass.
pub proof fn lemma_indices_spell_needle(
    config: MatcherConfig,
    haystack: Seq<u32>,
    needle: Seq<u32>,
    i: int,
)
    requires
        matchable(config, haystack, needle),
        0 <= i < needle.len(),
    ensures
        0 <= optimal_placement(config, haystack, needle)[i] < haystack.len(),
        char_matches(
            config.case_matching,
            haystack[optimal_placement(config, haystack, needle)[i]],
            needle[i],
        ),
        0 <= greedy_placement(config, haystack, needle)[i] < haystack.len(),
        char_matches(
            config.case_matching,
            haystack[greedy_placement(config, haystack, needle)[i]],
            needle[i],
        ),
{
    lemma_optimal_iff_matchable(config, haystack, needle);
    lemma_matchable_iff_greedy(config, haystack, needle);
    lemma_optimal_is_placement(config, haystack, needle);
    lemma_greedy_is_placement(config, haystack, needle);
    let op = optimal_placement(config, haystack, needle);
    let gp = greedy_placement(config, haystack, needle);
    assert(eligible(config, haystack, needle, i, op[i]));
    assert(eligible(config, haystack, needle, i, gp[i]));
}

/// The bonuses that the positions `p[0..=i]` earn for where they fall.
pub open spec fn bonus_sum(config: MatcherConfig, haystack: Seq<u32>, p: Seq<int>, i: int) -> int
    decreases i,
{
    if i <= 0 {
        bonus_at(config, haystack, p[0])
    } else {
        bonus_sum(config, haystack, p, i - 1) + bonus_at(config, haystack, p[i])
    }
}

/// What a single run of `count` matches earns for being a run.
pub open spec fn run_sum(config: MatcherConfig, count: int) -> int
    decreases count,
{
    if count < 2 {
        0
    } else {
        run_sum(config, count - 1) + run_bonus(config, count)
    }
}

/// Whether the positions follow one another without a gap.
pub open spec fn is_run(p: Seq<int>) -> bool {
    forall|i: int| 0 < i < p.len() ==> #[trigger] p[i] == p[i - 1] + 1
}

/// No positions earn more, beyond their bonuses, than a single run would.
pub proof fn lemma_score_at_most_run(
    config: MatcherConfig,
    haystack: Seq<u32>,
    p: Seq<int>,
    i: int,
)
    requires
        0 <= i < p.len(),
    ensures
        score_upto(config, haystack, p, i) <= bonus_sum(config, haystack, p, i) + run_sum(
            config,
            i + 1,
        ),
    decreases i,
{
    if i > 0 {
        lemma_score_at_most_run(config, haystack, p, i - 1);
        lemma_score_bounds(config, haystack, p, i - 1);
        lemma_run_len_bounds(p, i);
        lemma_run_bonus_monotone(config, run_len(p, i), i + 1);
        lemma_run_bonus_bounds(config, i + 1);
    }
}

/// A single run earns its bonuses and the whole of what a run can earn.
pub proof fn lemma_run_score(config: MatcherConfig, haystack: Seq<u32>, p: Seq<int>, i: int)
    requires
        0 <= i < p.len(),
        is_run(p),
    ensures
        run_len(p, i) == i + 1,
        score_upto(config, haystack, p, i) == bonus_sum(config, haystack, p, i) + run_sum(
            config,
            i + 1,
        ),
    decreases i,
{
    if i > 0 {
        lemma_run_score(config, haystack, p, i - 1);
        assert(p[i] == p[i - 1] + 1);
    }
}

/// Where the needle occurs as one run, that run earns, beyond the bonuses for
/// where its characters fall, at least what any other placement of the needle
/// earns beyond its own; so it scores at least as high as every placement
/// whose bonuses are no larger.
pub proof fn lemma_run_beats_scattered(
    config: MatcherConfig,
    haystack: Seq<u32>,
    needle: Seq<u32>,
    run: Seq<int>,
    p: Seq<int>,
)
    requires
        is_placement(config, haystack, needle, run),
        is_run(run),
        is_placement(config, haystack, needle, p),
    ensures
        placement_score(config, haystack, run) - bonus_sum(
            config,
            haystack,
            run,
            needle.len() - 1,
        ) >= placement_score(config, haystack, p) - bonus_sum(
            config,
            haystack,
            p,
            needle.len() - 1,
        ),
        bonus_sum(config, haystack, run, needle.len() - 1) >= bonus_sum(
            config,
            haystack,
            p,
            needle.len() - 1,
        ) ==> placement_score(config, haystack, run) >= placement_score(config, haystack, p),
{
    lemma_run_score(config, haystack, run, needle.len() - 1);
    lemma_score_at_most_run(config, haystack, p, needle.len() - 1);
}

/// Whether every character of a run behind the first earns the same for
/// being in the run, however long the run is.
pub open spec fn flat_runs(config: MatcherConfig) -> bool {
    config.bonus_consecutive_step == 0 || config.bonus_consecutive_max <= config.bonus_consecutive
}

/// With flat runs the length of a run does not matter to what its last character earns.
pub proof fn lemma_flat_run_bonus(config: MatcherConfig, a: int, b: int)
    requires
        flat_runs(config),
        a >= 2,
        b >= 2,
    ensures
        run_bonus(config, a) == run_bonus(config, b),
{
    assert((a - 2) * config.bonus_consecutive_step >= 0) by (nonlinear_arith)
        requires
            a >= 2,
            config.bonus_consecutive_step >= 0,
    ;
    assert((b - 2) * config.bonus_consecutive_step >= 0) by (nonlinear_arith)
        requires
            b >= 2,
            config.bonus_consecutive_step >= 0,
    ;
    if config.bonus_consecutive_step == 0 {
        assert((a - 2) * 0 == 0 && (b - 2) * 0 == 0) by (nonlinear_arith);
    }
}

/// With flat runs the cell that a placement passes through with needle
/// character `i` holds at least the placement's running total.
pub proof fn lemma_cell_bounds_placement(
    config: MatcherConfig,
    haystack: Seq<u32>,
    needle: Seq<u32>,
    p: Seq<int>,
    i: int,
)
    requires
        flat_runs(config),
        is_placement(config, haystack, needle, p),
        0 <= i < needle.len(),
    ensures
        cell(config, haystack, needle, i, p[i]) is Some,
        cell(config, haystack, needle, i, p[i])->0.score >= score_upto(config, haystack, p, i),
    decreases i,
{
    assert(eligible(config, haystack, needle, i, p[i]));
    if i > 0 {
        let j = p[i];
        assert(p[i - 1] < p[i]);
        lemma_cell_bounds_placement(config, haystack, needle, p, i - 1);
        let d = cell(config, haystack, needle, i - 1, j - 1);
        let g = gap(config, haystack, needle, i - 1, j);
        lemma_gap(config, haystack, needle, i - 1, j);
        if p[i - 1] == j - 1 {
            lemma_cell_bounds(config, haystack, needle, i - 1, j - 1);
            lemma_run_len_bounds(p, i - 1);
            lemma_flat_run_bonus(config, d->0.run + 1, run_len(p, i));
        } else {
            assert(cell(config, haystack, needle, i - 1, p[i - 1]) is Some);
            assert(g is Some);
        }
    }
}

/// With flat runs the optimal score is the largest that any placement has.
pub proof fn lemma_optimal_is_maximal(
    config: MatcherConfig,
    haystack: Seq<u32>,
    needle: Seq<u32>,
    p: Seq<int>,
)
    requires
        flat_runs(config),
        is_placement(config, haystack, needle, p),
    ensures
        optimal_score(config, haystack, needle) is Some,
        optimal_score(config, haystack, needle)->0 >= placement_score(config, haystack, p),
        optimal_score(config, haystack, needle)->0 == placement_score(
            config,
            haystack,
            optimal_placement(config, haystack, needle),
        ),
        is_placement(config, haystack, needle, optimal_placement(config, haystack, needle)),
{
    let last = needle.len() - 1;
    lemma_cell_bounds_placement(config, haystack, needle, p, last);
    assert(eligible(config, haystack, needle, last, p[last]));
    lemma_best_end(config, haystack, needle, haystack.len() as int);
    lemma_optimal_is_placement(config, haystack, needle);
}

} // verus!
