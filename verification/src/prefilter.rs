//! The prefilter: rejects a pair that cannot match and narrows the haystack to
//! the window that holds every placement.
use vstd::prelude::*;
use crate::chars::Char;
use crate::chars::codes;
use crate::config::MatcherConfig;
use crate::fuzzy_greedy::greedy_pos;
use crate::fuzzy_greedy::greedy_succeeds;
use crate::fuzzy_greedy::lemma_greedy_leftmost;
use crate::fuzzy_greedy::lemma_greedy_pos;
use crate::fuzzy_greedy::lemma_greedy_prefix;
use crate::fuzzy_greedy::lemma_matchable_iff_greedy;
use crate::fuzzy_greedy::scan_forward;
use crate::score::eligible;
use crate::score::is_placement;
use crate::score::matchable;
use crate::score::may_match;

verus! {

/// The last position below `below` where needle character `i` may be matched,
/// or -1 where there is none.
pub open spec fn prev_match(
    config: MatcherConfig,
    haystack: Seq<u32>,
    needle: Seq<u32>,
    i: int,
    below: int,
) -> int
    decreases below,
{
    if below <= 0 {
        -1
    } else if eligible(config, haystack, needle, i, below - 1) {
        below - 1
    } else {
        prev_match(config, haystack, needle, i, below - 1)
    }
}

/// Where the window starts: at the first position that the first needle
/// character may be matched at.
pub open spec fn window_start(config: MatcherConfig, haystack: Seq<u32>, needle: Seq<u32>) -> int {
    greedy_pos(config, haystack, needle, 0)
}

/// Where the earliest placement ends: behind the greedy position of the last
/// needle character.
pub open spec fn window_greedy_end(
    config: MatcherConfig,
    haystack: Seq<u32>,
    needle: Seq<u32>,
) -> int {
    greedy_pos(config, haystack, needle, needle.len() - 1) + 1
}

/// Where the window ends: behind the last position that the last needle
/// character may be matched at.
pub open spec fn window_end(config: MatcherConfig, haystack: Seq<u32>, needle: Seq<u32>) -> int {
    prev_match(config, haystack, needle, needle.len() - 1, haystack.len() as int) + 1
}

pub proof fn lemma_prev_match(
    config: MatcherConfig,
    haystack: Seq<u32>,
    needle: Seq<u32>,
    i: int,
    below: int,
)
    ensures
        -1 <= prev_match(config, haystack, needle, i, below),
        below >= 0 ==> prev_match(config, haystack, needle, i, below) < below,
        prev_match(config, haystack, needle, i, below) >= 0 ==> eligible(
            config,
            haystack,
            needle,
            i,
            prev_match(config, haystack, needle, i, below),
        ),
        forall|k: int|
            prev_match(config, haystack, needle, i, below) < k < below ==> !eligible(
                config,
                haystack,
                needle,
                i,
                k,
            ),
    decreases below,
{
    if below > 0 && !eligible(config, haystack, needle, i, below - 1) {
        lemma_prev_match(config, haystack, needle, i, below - 1);
    }
}

/// Every placement lies inside the window.
pub proof fn lemma_window_holds_placement(
    config: MatcherConfig,
    haystack: Seq<u32>,
    needle: Seq<u32>,
    p: Seq<int>,
    i: int,
)
    requires
        is_placement(config, haystack, needle, p),
        0 <= i < p.len(),
    ensures
        window_start(config, haystack, needle) + i <= p[i],
        p[i] + (p.len() - 1 - i) < window_end(config, haystack, needle),
{
    let last = p.len() - 1;
    lemma_greedy_leftmost(config, haystack, needle, p, i);
    lemma_greedy_leftmost(config, haystack, needle, p, last);
    assert(eligible(config, haystack, needle, i, p[i]));
    assert(eligible(config, haystack, needle, last, p[last]));
    lemma_greedy_prefix(config, haystack, needle, 0, i);
    lemma_prev_match(config, haystack, needle, last, haystack.len() as int);
    lemma_rising(p, i, last);
}

/// Rising positions lie at least as far apart as their ranks.
pub proof fn lemma_rising(p: Seq<int>, i: int, k: int)
    requires
        0 <= i <= k < p.len(),
        forall|t: int| 0 < t < p.len() ==> p[t - 1] < #[trigger] p[t],
    ensures
        p[i] + (k - i) <= p[k],
    decreases k - i,
{
    if i < k {
        lemma_rising(p, i, k - 1);
        assert(p[k - 1] < p[k]);
    }
}

/// Scans the haystack forward for the needle's characters in order, and then
/// backward for its last character. `None` where the needle does not occur.
/// Else the start of the window, the end of the earliest placement, and the end
/// of the window; with `only_greedy` the backward scan is left out and the end
/// of the earliest placement stands for the end of the window.
pub fn prefilter<H: Char, N: Char>(
    config: &MatcherConfig,
    haystack: &[H],
    needle: &[N],
    only_greedy: bool,
) -> (window: Option<(usize, usize, usize)>)
    ensures
        window is Some <==> matchable(*config, codes(haystack@), codes(needle@)),
        window is Some ==> {
            let (start, greedy_end, end) = window->0;
            &&& start == window_start(*config, codes(haystack@), codes(needle@))
            &&& greedy_end == window_greedy_end(*config, codes(haystack@), codes(needle@))
            &&& end == if only_greedy {
                greedy_end as int
            } else {
                window_end(*config, codes(haystack@), codes(needle@))
            }
            &&& start < greedy_end <= end <= haystack@.len()
        },
{
    let ghost hs = codes(haystack@);
    let ghost ns = codes(needle@);
    let count: usize = needle.len();
    let len: usize = haystack.len();
    proof {
        lemma_matchable_iff_greedy(*config, hs, ns);
    }
    if count == 0 {
        return None;
    }
    let mut start: usize = 0;
    let mut pos: usize = 0;
    let mut i: usize = 0;
    while i < count
        invariant
            i <= count,
            count == needle@.len(),
            len == haystack@.len(),
            hs == codes(haystack@),
            ns == codes(needle@),
            matchable(*config, hs, ns) <==> greedy_succeeds(*config, hs, ns),
            i == 0 ==> pos == 0,
            i > 0 ==> pos == greedy_pos(*config, hs, ns, i - 1) + 1 && pos <= len && start
                == greedy_pos(*config, hs, ns, 0) && start < pos,
        decreases count - i,
    {
        let found: usize = scan_forward(config, haystack, needle, i, pos);
        proof {
            lemma_greedy_pos(*config, hs, ns, i as int);
        }
        if found >= len {
            proof {
                if greedy_succeeds(*config, hs, ns) {
                    lemma_greedy_prefix(*config, hs, ns, i as int, count - 1);
                }
            }
            return None;
        }
        if i == 0 {
            start = found;
        }
        pos = found + 1;
        i = i + 1;
    }
    let greedy_end: usize = pos;
    if only_greedy {
        return Some((start, greedy_end, greedy_end));
    }
    let last: N = needle[count - 1];
    let mut end: usize = len;
    proof {
        lemma_greedy_pos(*config, hs, ns, count - 1);
    }
    while end > greedy_end && !may_match(config.case_matching, haystack[end - 1], last)
        invariant
            greedy_end <= end <= len,
            count == needle@.len(),
            count > 0,
            len == haystack@.len(),
            hs == codes(haystack@),
            ns == codes(needle@),
            last == needle@[count - 1],
            eligible(*config, hs, ns, count - 1, greedy_end - 1),
            prev_match(*config, hs, ns, count - 1, len as int) == prev_match(
                *config,
                hs,
                ns,
                count - 1,
                end as int,
            ),
        decreases end,
    {
        end = end - 1;
    }
    Some((start, greedy_end, end))
}

} // verus!
