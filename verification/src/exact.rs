//! The two fast paths that need no grid: a needle of one character, and a
//! needle as long as the window, which can only match as one run.
use vstd::prelude::*;
use crate::chars::Char;
use crate::chars::codes;
use crate::config::MatcherConfig;
use crate::fuzzy_greedy::greedy_pos;
use crate::fuzzy_optimal::best_end;
use crate::fuzzy_optimal::cell;
use crate::fuzzy_optimal::lemma_best_end_stable;
use crate::fuzzy_optimal::lemma_cell_after_greedy;
use crate::fuzzy_optimal::lemma_optimal_iff_matchable;
use crate::fuzzy_optimal::lemma_optimal_is_placement;
use crate::fuzzy_optimal::optimal_placement;
use crate::fuzzy_optimal::optimal_score;
use crate::prefilter::lemma_window_holds_placement;
use crate::prefilter::window_end;
use crate::prefilter::window_start;
use crate::score::as_indices;
use crate::score::clamp_score;
use crate::score::consecutive_bonus;
use crate::score::is_placement;
use crate::score::lemma_score_bounds;
use crate::score::matchable;
use crate::score::may_match;
use crate::score::placement_score;
use crate::score::position_bonus;
use crate::score::run_len;
use crate::score::score_upto;
use crate::score::step_max;
use crate::score::to_score;

verus! {

/// The positions `start`, `start + 1`, ... of a run of `count` matches.
pub open spec fn run_from(start: int, count: int) -> Seq<int> {
    Seq::new(count as nat, |t: int| start + t)
}

/// A placement into a window that is as long as the needle is the window itself.
pub proof fn lemma_tight_window(
    config: MatcherConfig,
    haystack: Seq<u32>,
    needle: Seq<u32>,
    p: Seq<int>,
)
    requires
        is_placement(config, haystack, needle, p),
        window_end(config, haystack, needle) - window_start(config, haystack, needle)
            == needle.len(),
    ensures
        p == run_from(window_start(config, haystack, needle), needle.len() as int),
{
    let run = run_from(window_start(config, haystack, needle), needle.len() as int);
    assert forall|i: int| 0 <= i < p.len() implies p[i] == run[i] by {
        lemma_window_holds_placement(config, haystack, needle, p, i);
    }
    assert(p =~= run);
}

/// Matches a needle of one character: the best position is the leftmost of
/// those that earn the largest bonus.
pub fn substring_match_1<const INDICES: bool, H: Char, N: Char>(
    config: &MatcherConfig,
    haystack: &[H],
    needle: &[N],
    start: usize,
    indices: &mut Vec<u32>,
) -> (score: Option<u16>)
    requires
        needle@.len() == 1,
        haystack@.len() <= u32::MAX,
        start <= greedy_pos(*config, codes(haystack@), codes(needle@), 0),
    ensures
        score == match optimal_score(*config, codes(haystack@), codes(needle@)) {
            Some(total) => Some(clamp_score(total)),
            None => None,
        },
        final(indices)@ == if INDICES && score is Some {
            old(indices)@ + as_indices(
                optimal_placement(*config, codes(haystack@), codes(needle@)),
            )
        } else {
            old(indices)@
        },
{
    let ghost hs = codes(haystack@);
    let ghost ns = codes(needle@);
    let len: usize = haystack.len();
    let nc: N = needle[0];
    let mut found: bool = false;
    let mut best: usize = 0;
    let mut top: u16 = 0;
    let mut j: usize = if start < len {
        start
    } else {
        len
    };
    proof {
        assert forall|k: int| 0 <= k < j implies (#[trigger] cell(*config, hs, ns, 0, k))
            is None by {
            if cell(*config, hs, ns, 0, k) is Some {
                lemma_cell_after_greedy(*config, hs, ns, 0, k);
            }
        }
        lemma_best_end_stable(*config, hs, ns, 0, j as int);
    }
    while j < len
        invariant
            j <= len,
            len == haystack@.len(),
            hs == codes(haystack@),
            ns == codes(needle@),
            needle@.len() == 1,
            nc == needle@[0],
            found == (best_end(*config, hs, ns, j as int) is Some),
            found ==> best == best_end(*config, hs, ns, j as int)->0 && best < j && cell(
                *config,
                hs,
                ns,
                0,
                best as int,
            ) == Some(
                crate::fuzzy_optimal::Node { score: top as int, run: 1, prev: -1 },
            ),
        decreases len - j,
    {
        if may_match(config.case_matching, haystack[j], nc) {
            let bonus: u16 = position_bonus(config, haystack, j);
            if !found || bonus > top {
                found = true;
                best = j;
                top = bonus;
            }
        }
        j = j + 1;
    }
    if !found {
        return None;
    }
    if INDICES {
        indices.push(best as u32);
        proof {
            assert(optimal_placement(*config, hs, ns) =~= seq![best as int]);
            assert(as_indices(seq![best as int]) =~= seq![best as u32]);
            assert(indices@ =~= old(indices)@ + seq![best as u32]);
        }
    }
    Some(top)
}

/// The score of the run of `count` matches that starts at `start`.
pub fn run_score<H: Char>(config: &MatcherConfig, haystack: &[H], start: usize, count: usize) -> (total: u64)
    requires
        count > 0,
        start + count <= haystack@.len(),
        haystack@.len() <= u32::MAX,
    ensures
        total == placement_score(*config, codes(haystack@), run_from(start as int, count as int)),
{
    let ghost hs = codes(haystack@);
    let ghost run = run_from(start as int, count as int);
    let mut total: u64 = position_bonus(config, haystack, start) as u64;
    let mut t: usize = 1;
    while t < count
        invariant
            1 <= t <= count,
            start + count <= haystack@.len(),
            haystack@.len() <= u32::MAX,
            hs == codes(haystack@),
            run == run_from(start as int, count as int),
            total == score_upto(*config, hs, run, t - 1),
            run_len(run, t - 1) == t,
        decreases count - t,
    {
        proof {
            lemma_score_bounds(*config, hs, run, t - 1);
            assert(t * step_max() <= 0x1_0000_0000 * step_max()) by (nonlinear_arith)
                requires
                    t <= 0x1_0000_0000,
            ;
            assert(run[t as int] == run[t - 1] + 1);
        }
        let bonus: u16 = position_bonus(config, haystack, start + t);
        total = total + consecutive_bonus(config, (t + 1) as u32) as u64 + bonus as u64;
        t = t + 1;
    }
    total
}

/// Matches a needle that is as long as the window: the one placement is the
/// window itself, so its score is that of a single run.
pub fn contiguous_match<const INDICES: bool, H: Char, N: Char>(
    config: &MatcherConfig,
    haystack: &[H],
    needle: &[N],
    start: usize,
    indices: &mut Vec<u32>,
) -> (score: u16)
    requires
        haystack@.len() <= u32::MAX,
        matchable(*config, codes(haystack@), codes(needle@)),
        start == window_start(*config, codes(haystack@), codes(needle@)),
        start + needle@.len() == window_end(*config, codes(haystack@), codes(needle@)),
    ensures
        optimal_score(*config, codes(haystack@), codes(needle@)) is Some,
        score == clamp_score(optimal_score(*config, codes(haystack@), codes(needle@))->0),
        final(indices)@ == if INDICES {
            old(indices)@ + as_indices(
                optimal_placement(*config, codes(haystack@), codes(needle@)),
            )
        } else {
            old(indices)@
        },
{
    let ghost hs = codes(haystack@);
    let ghost ns = codes(needle@);
    let ghost run = run_from(start as int, needle@.len() as int);
    let count: usize = needle.len();
    proof {
        lemma_optimal_iff_matchable(*config, hs, ns);
        lemma_optimal_is_placement(*config, hs, ns);
        lemma_tight_window(*config, hs, ns, optimal_placement(*config, hs, ns));
        crate::prefilter::lemma_prev_match(*config, hs, ns, count - 1, hs.len() as int);
    }
    let total: u64 = run_score(config, haystack, start, count);
    if INDICES {
        let mut t: usize = 0;
        while t < count
            invariant
                t <= count,
                start + count <= u32::MAX,
                count == needle@.len(),
                run == run_from(start as int, count as int),
                indices@ == old(indices)@ + as_indices(run.take(t as int)),
            decreases count - t,
        {
            indices.push((start + t) as u32);
            proof {
                assert(as_indices(run.take(t + 1)) =~= as_indices(run.take(t as int)).push(
                    (start + t) as u32,
                ));
                assert(indices@ =~= old(indices)@ + as_indices(run.take(t + 1)));
            }
            t = t + 1;
        }
        proof {
            assert(run.take(count as int) =~= run);
        }
    }
    to_score(total)
}

} // verus!
