//! The greedy aligner: each needle character takes the first haystack position
//! that it may match after the match of the character before it.
use vstd::prelude::*;
use crate::chars::Char;
use crate::chars::codes;
use crate::config::MatcherConfig;
use crate::score::as_indices;
use crate::score::charge;
use crate::score::clamp_score;
use crate::score::consecutive_bonus;
use crate::score::eligible;
use crate::score::is_placement;
use crate::score::lemma_run_len_bounds;
use crate::score::lemma_score_bounds;
use crate::score::matchable;
use crate::score::may_match;
use crate::score::placement_score;
use crate::score::position_bonus;
use crate::score::run_len;
use crate::score::score_upto;
use crate::score::skip_penalty;
use crate::score::step_max;
use crate::score::to_score;

verus! {

/// The first position at or after `from` where needle character `i` may be
/// matched, or the length of the haystack where there is none.
pub open spec fn next_match(
    config: MatcherConfig,
    haystack: Seq<u32>,
    needle: Seq<u32>,
    i: int,
    from: int,
) -> int
    decreases haystack.len() - from,
{
    if from < 0 || from >= haystack.len() {
        haystack.len() as int
    } else if eligible(config, haystack, needle, i, from) {
        from
    } else {
        next_match(config, haystack, needle, i, from + 1)
    }
}

/// The position that the greedy aligner gives needle character `i`, or the
/// length of the haystack where the characters up to `i` cannot all be matched.
pub open spec fn greedy_pos(
    config: MatcherConfig,
    haystack: Seq<u32>,
    needle: Seq<u32>,
    i: int,
) -> int
    decreases i,
{
    if i <= 0 {
        next_match(config, haystack, needle, 0, 0)
    } else {
        next_match(config, haystack, needle, i, greedy_pos(config, haystack, needle, i - 1) + 1)
    }
}

/// The positions that the greedy aligner chooses.
pub open spec fn greedy_placement(
    config: MatcherConfig,
    haystack: Seq<u32>,
    needle: Seq<u32>,
) -> Seq<int> {
    Seq::new(needle.len(), |i: int| greedy_pos(config, haystack, needle, i))
}

/// Whether the greedy aligner finds a position for every needle character.
pub open spec fn greedy_succeeds(
    config: MatcherConfig,
    haystack: Seq<u32>,
    needle: Seq<u32>,
) -> bool {
    needle.len() > 0 && greedy_pos(config, haystack, needle, needle.len() - 1) < haystack.len()
}

/// The score of the greedy placement, where there is one.
pub open spec fn greedy_score(
    config: MatcherConfig,
    haystack: Seq<u32>,
    needle: Seq<u32>,
) -> Option<int> {
    if greedy_succeeds(config, haystack, needle) {
        Some(placement_score(config, haystack, greedy_placement(config, haystack, needle)))
    } else {
        None
    }
}

pub proof fn lemma_next_match(
    config: MatcherConfig,
    haystack: Seq<u32>,
    needle: Seq<u32>,
    i: int,
    from: int,
)
    requires
        0 <= from,
    ensures
        next_match(config, haystack, needle, i, from) <= haystack.len(),
        from <= haystack.len() ==> from <= next_match(config, haystack, needle, i, from),
        next_match(config, haystack, needle, i, from) < haystack.len() ==> eligible(
            config,
            haystack,
            needle,
            i,
            next_match(config, haystack, needle, i, from),
        ),
        forall|k: int|
            from <= k < next_match(config, haystack, needle, i, from) ==> !eligible(
                config,
                haystack,
                needle,
                i,
                k,
            ),
    decreases haystack.len() - from,
{
    if from < haystack.len() && !eligible(config, haystack, needle, i, from) {
        lemma_next_match(config, haystack, needle, i, from + 1);
    }
}

/// The greedy positions rise as long as they stay inside the haystack.
pub proof fn lemma_greedy_pos(config: MatcherConfig, haystack: Seq<u32>, needle: Seq<u32>, i: int)
    requires
        0 <= i,
    ensures
        0 <= greedy_pos(config, haystack, needle, i) <= haystack.len(),
        greedy_pos(config, haystack, needle, i) < haystack.len() ==> eligible(
            config,
            haystack,
            needle,
            i,
            greedy_pos(config, haystack, needle, i),
        ),
        i > 0 && greedy_pos(config, haystack, needle, i) < haystack.len() ==> greedy_pos(
            config,
            haystack,
            needle,
            i - 1,
        ) < greedy_pos(config, haystack, needle, i),
    decreases i,
{
    if i == 0 {
        lemma_next_match(config, haystack, needle, 0, 0);
    } else {
        lemma_greedy_pos(config, haystack, needle, i - 1);
        lemma_next_match(
            config,
            haystack,
            needle,
            i,
            greedy_pos(config, haystack, needle, i - 1) + 1,
        );
    }
}

/// Where a later needle character finds a position, each earlier one has found one.
pub proof fn lemma_greedy_prefix(
    config: MatcherConfig,
    haystack: Seq<u32>,
    needle: Seq<u32>,
    i: int,
    k: int,
)
    requires
        0 <= i <= k,
        greedy_pos(config, haystack, needle, k) < haystack.len(),
    ensures
        greedy_pos(config, haystack, needle, i) < haystack.len(),
        greedy_pos(config, haystack, needle, i) + (k - i) <= greedy_pos(
            config,
            haystack,
            needle,
            k,
        ),
    decreases k - i,
{
    if i < k {
        lemma_greedy_pos(config, haystack, needle, k);
        lemma_greedy_prefix(config, haystack, needle, i, k - 1);
    }
}

/// No placement puts a needle character before its greedy position.
pub proof fn lemma_greedy_leftmost(
    config: MatcherConfig,
    haystack: Seq<u32>,
    needle: Seq<u32>,
    p: Seq<int>,
    i: int,
)
    requires
        is_placement(config, haystack, needle, p),
        0 <= i < p.len(),
    ensures
        greedy_pos(config, haystack, needle, i) <= p[i],
    decreases i,
{
    assert(eligible(config, haystack, needle, i, p[i]));
    if i == 0 {
        lemma_next_match(config, haystack, needle, 0, 0);
    } else {
        lemma_greedy_leftmost(config, haystack, needle, p, i - 1);
        assert(p[i - 1] < p[i]);
        lemma_greedy_pos(config, haystack, needle, i - 1);
        lemma_next_match(
            config,
            haystack,
            needle,
            i,
            greedy_pos(config, haystack, needle, i - 1) + 1,
        );
    }
}

/// Where the greedy aligner succeeds, its positions are a placement.
pub proof fn lemma_greedy_is_placement(
    config: MatcherConfig,
    haystack: Seq<u32>,
    needle: Seq<u32>,
)
    requires
        greedy_succeeds(config, haystack, needle),
    ensures
        is_placement(config, haystack, needle, greedy_placement(config, haystack, needle)),
{
    let p = greedy_placement(config, haystack, needle);
    let last = needle.len() - 1;
    assert forall|i: int| 0 <= i < p.len() implies eligible(
        config,
        haystack,
        needle,
        i,
        #[trigger] p[i],
    ) by {
        lemma_greedy_prefix(config, haystack, needle, i, last);
        lemma_greedy_pos(config, haystack, needle, i);
    }
    assert forall|i: int| 0 < i < p.len() implies p[i - 1] < #[trigger] p[i] by {
        lemma_greedy_prefix(config, haystack, needle, i, last);
        lemma_greedy_pos(config, haystack, needle, i);
    }
}

/// The needle occurs in the haystack exactly where the greedy aligner succeeds.
pub proof fn lemma_matchable_iff_greedy(
    config: MatcherConfig,
    haystack: Seq<u32>,
    needle: Seq<u32>,
)
    ensures
        matchable(config, haystack, needle) <==> greedy_succeeds(config, haystack, needle),
{
    if greedy_succeeds(config, haystack, needle) {
        lemma_greedy_is_placement(config, haystack, needle);
    }
    if matchable(config, haystack, needle) {
        let p = choose|p: Seq<int>| is_placement(config, haystack, needle, p);
        let last = needle.len() - 1;
        lemma_greedy_leftmost(config, haystack, needle, p, last);
        assert(eligible(config, haystack, needle, last, p[last]));
    }
}

/// A scan may start anywhere up to the match that it will find.
pub proof fn lemma_next_match_from(
    config: MatcherConfig,
    haystack: Seq<u32>,
    needle: Seq<u32>,
    i: int,
    a: int,
    b: int,
)
    requires
        0 <= a <= b <= next_match(config, haystack, needle, i, a),
    ensures
        next_match(config, haystack, needle, i, b) == next_match(config, haystack, needle, i, a),
    decreases b - a,
{
    lemma_next_match(config, haystack, needle, i, a);
    if a < b {
        lemma_next_match_from(config, haystack, needle, i, a + 1, b);
    }
}

/// The first position at or after `from` where `needle[i]` may be matched.
pub fn scan_forward<H: Char, N: Char>(
    config: &MatcherConfig,
    haystack: &[H],
    needle: &[N],
    i: usize,
    from: usize,
) -> (pos: usize)
    requires
        i < needle@.len(),
    ensures
        pos == next_match(*config, codes(haystack@), codes(needle@), i as int, from as int),
{
    let ghost hs = codes(haystack@);
    let ghost ns = codes(needle@);
    let len: usize = haystack.len();
    if from >= len {
        return len;
    }
    let nc: N = needle[i];
    let mut pos: usize = from;
    while pos < len && !may_match(config.case_matching, haystack[pos], nc)
        invariant
            from <= pos <= len,
            len == haystack@.len(),
            hs == codes(haystack@),
            ns == codes(needle@),
            i < needle@.len(),
            nc == needle@[i as int],
            next_match(*config, hs, ns, i as int, from as int) == next_match(
                *config,
                hs,
                ns,
                i as int,
                pos as int,
            ),
        decreases len - pos,
    {
        pos += 1;
    }
    pos
}

/// Matches `needle` greedily from `start` on. Returns the score of the greedy
/// placement and, where `INDICES` is set, appends its positions to `indices`.
pub fn fuzzy_match_greedy_<const INDICES: bool, H: Char, N: Char>(
    config: &MatcherConfig,
    haystack: &[H],
    needle: &[N],
    start: usize,
    indices: &mut Vec<u32>,
) -> (score: Option<u16>)
    requires
        haystack@.len() <= u32::MAX,
        start <= greedy_pos(*config, codes(haystack@), codes(needle@), 0),
    ensures
        score == match greedy_score(*config, codes(haystack@), codes(needle@)) {
            Some(total) => Some(clamp_score(total)),
            None => None,
        },
        final(indices)@ == if INDICES && greedy_succeeds(
            *config,
            codes(haystack@),
            codes(needle@),
        ) {
            old(indices)@ + as_indices(
                greedy_placement(*config, codes(haystack@), codes(needle@)),
            )
        } else {
            old(indices)@
        },
{
    let ghost hs = codes(haystack@);
    let ghost ns = codes(needle@);
    let ghost gp = greedy_placement(*config, hs, ns);
    let count: usize = needle.len();
    let len: usize = haystack.len();
    let base: usize = indices.len();
    let mut i: usize = 0;
    let mut pos: usize = start;
    let mut prev: usize = 0;
    let mut total: u64 = 0;
    let mut run: u32 = 0;
    while i < count
        invariant
            i <= count,
            count == needle@.len(),
            len == haystack@.len(),
            len <= u32::MAX,
            hs == codes(haystack@),
            ns == codes(needle@),
            gp == greedy_placement(*config, hs, ns),
            base == old(indices)@.len(),
            i == 0 ==> pos == start && start <= greedy_pos(*config, hs, ns, 0),
            i > 0 ==> prev == greedy_pos(*config, hs, ns, i - 1) && prev < len && pos == prev + 1
                && total == score_upto(*config, hs, gp, i - 1) && run == run_len(gp, i - 1),
            indices@ == if INDICES {
                old(indices)@ + as_indices(gp.take(i as int))
            } else {
                old(indices)@
            },
        decreases count - i,
    {
        let found: usize = scan_forward(config, haystack, needle, i, pos);
        proof {
            if i == 0 {
                lemma_next_match(*config, hs, ns, 0, 0);
                lemma_next_match_from(*config, hs, ns, 0, 0, start as int);
            }
            lemma_greedy_pos(*config, hs, ns, i as int);
            assert(found == greedy_pos(*config, hs, ns, i as int));
        }
        if found >= len {
            indices.truncate(base);
            proof {
                if greedy_succeeds(*config, hs, ns) {
                    lemma_greedy_prefix(*config, hs, ns, i as int, count - 1);
                }
                assert(indices@ =~= old(indices)@);
            }
            return None;
        }
        proof {
            lemma_greedy_prefix(*config, hs, ns, 0, i as int);
            lemma_greedy_pos(*config, hs, ns, 0);
            lemma_run_len_bounds(gp, i as int);
            lemma_score_bounds(*config, hs, gp, i as int);
            if i > 0 {
                lemma_run_len_bounds(gp, i - 1);
                lemma_score_bounds(*config, hs, gp, i - 1);
            }
            assert((i + 1) * step_max() <= 0x1_0000_0000 * step_max()) by (nonlinear_arith)
                requires
                    i + 1 <= 0x1_0000_0000,
            ;
        }
        let bonus: u16 = position_bonus(config, haystack, found);
        if i == 0 {
            total = bonus as u64;
            run = 1;
        } else if found == prev + 1 {
            run = run + 1;
            total = total + consecutive_bonus(config, run) as u64 + bonus as u64;
        } else {
            run = 1;
            total = charge(total, skip_penalty(config, (found - prev - 1) as u32)) + bonus as u64;
        }
        if INDICES {
            indices.push(found as u32);
            proof {
                assert(gp.take(i + 1) =~= gp.take(i as int).push(gp[i as int]));
                assert(as_indices(gp.take(i + 1)) =~= as_indices(gp.take(i as int)).push(
                    found as u32,
                ));
                assert(indices@ =~= old(indices)@ + as_indices(gp.take(i + 1)));
            }
        }
        prev = found;
        pos = found + 1;
        i = i + 1;
    }
    if count == 0 {
        return None;
    }
    proof {
        assert(gp.take(count as int) =~= gp);
    }
    Some(to_score(total))
}

} // verus!
