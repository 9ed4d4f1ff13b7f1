//! The score model: which haystack character a needle character may match, what
//! a match earns where it falls, what a run earns and what a gap costs.
use vstd::prelude::*;
use crate::chars::Char;
use crate::chars::CharClass;
use crate::chars::class_of;
use crate::chars::classify;
use crate::chars::codes;
use crate::chars::fold;
use crate::chars::is_upper;
use crate::chars::is_word;
use crate::chars::to_lower;
use crate::chars::upper;
use crate::config::CaseMatching;
use crate::config::MatcherConfig;

verus! {

/// Whether the needle character `nc` may match the haystack character `hc`.
pub open spec fn char_matches(mode: CaseMatching, hc: u32, nc: u32) -> bool {
    match mode {
        CaseMatching::Respect => hc == nc,
        CaseMatching::Ignore => to_lower(hc) == to_lower(nc),
        CaseMatching::Smart => if is_upper(nc) {
            hc == nc
        } else {
            to_lower(hc) == nc
        },
    }
}

/// Whether needle character `i` may be matched at haystack position `j`.
pub open spec fn eligible(
    config: MatcherConfig,
    haystack: Seq<u32>,
    needle: Seq<u32>,
    i: int,
    j: int,
) -> bool {
    &&& 0 <= i < needle.len()
    &&& 0 <= j < haystack.len()
    &&& char_matches(config.case_matching, haystack[j], needle[i])
}

/// The bonus for a match on a character of class `cur` that follows one of class `prev`.
pub open spec fn transition_bonus(config: MatcherConfig, prev: CharClass, cur: CharClass) -> int {
    if !is_word(cur) {
        0
    } else if prev == CharClass::Whitespace {
        config.bonus_boundary_white as int
    } else if prev == CharClass::Separator {
        config.bonus_boundary as int
    } else if prev == CharClass::Lower && cur == CharClass::Upper {
        config.bonus_camel as int
    } else if (prev == CharClass::Number) != (cur == CharClass::Number) {
        config.bonus_camel as int
    } else {
        0
    }
}

/// The bonus for a match at haystack position `j`, whatever is matched there.
pub open spec fn bonus_at(config: MatcherConfig, haystack: Seq<u32>, j: int) -> int {
    if j <= 0 {
        config.bonus_start as int
    } else {
        transition_bonus(config, class_of(haystack[j - 1]), class_of(haystack[j]))
    }
}

/// The bonus that the character which brings a run to length `run` earns for it.
pub open spec fn run_bonus(config: MatcherConfig, run: int) -> int {
    let rising = config.bonus_consecutive + (run - 2) * config.bonus_consecutive_step;
    if run < 2 {
        0
    } else if rising < config.bonus_consecutive_max {
        rising
    } else {
        config.bonus_consecutive_max as int
    }
}

/// The penalty for `skipped` unmatched haystack characters between two matches.
pub open spec fn gap_penalty(config: MatcherConfig, skipped: int) -> int {
    if skipped < 1 {
        0
    } else {
        config.penalty_gap_start + (skipped - 1) * config.penalty_gap_extension
    }
}

/// Subtraction that stops at zero.
pub open spec fn sat_sub(total: int, penalty: int) -> int {
    if total > penalty {
        total - penalty
    } else {
        0
    }
}

/// A placement gives each needle character a haystack position where it may
/// be matched, each position after the one before it.
pub open spec fn is_placement(
    config: MatcherConfig,
    haystack: Seq<u32>,
    needle: Seq<u32>,
    p: Seq<int>,
) -> bool {
    &&& needle.len() > 0
    &&& p.len() == needle.len()
    &&& forall|i: int| 0 <= i < p.len() ==> eligible(config, haystack, needle, i, #[trigger] p[i])
    &&& forall|i: int| 0 < i < p.len() ==> p[i - 1] < #[trigger] p[i]
}

/// Whether the needle occurs in the haystack as an in-order subsequence.
pub open spec fn matchable(config: MatcherConfig, haystack: Seq<u32>, needle: Seq<u32>) -> bool {
    exists|p: Seq<int>| is_placement(config, haystack, needle, p)
}

/// The length of the run that ends with the match of needle character `i`.
pub open spec fn run_len(p: Seq<int>, i: int) -> int
    decreases i,
{
    if i <= 0 || p[i] != p[i - 1] + 1 {
        1
    } else {
        run_len(p, i - 1) + 1
    }
}

/// The running total after the matches of needle characters `0..=i`.
pub open spec fn score_upto(config: MatcherConfig, haystack: Seq<u32>, p: Seq<int>, i: int) -> int
    decreases i,
{
    if i <= 0 {
        bonus_at(config, haystack, p[0])
    } else if p[i] == p[i - 1] + 1 {
        score_upto(config, haystack, p, i - 1) + run_bonus(config, run_len(p, i)) + bonus_at(
            config,
            haystack,
            p[i],
        )
    } else {
        sat_sub(
            score_upto(config, haystack, p, i - 1),
            gap_penalty(config, p[i] - p[i - 1] - 1),
        ) + bonus_at(config, haystack, p[i])
    }
}

/// The score of a placement, before it is fitted into the output range.
pub open spec fn placement_score(config: MatcherConfig, haystack: Seq<u32>, p: Seq<int>) -> int {
    score_upto(config, haystack, p, p.len() - 1)
}

/// A total fitted into the output range: what is above the range becomes its top.
pub open spec fn clamp_score(total: int) -> u16 {
    if total <= 0 {
        0
    } else if total >= 0xFFFF {
        0xFFFF
    } else {
        total as u16
    }
}

/// Positions as the indices that a matcher reports.
pub open spec fn as_indices(p: Seq<int>) -> Seq<u32> {
    Seq::new(p.len(), |i: int| p[i] as u32)
}

/// The most that one match can add to a running total.
pub open spec fn step_max() -> int {
    0x1FFFE
}

pub proof fn lemma_bonus_bounds(config: MatcherConfig, haystack: Seq<u32>, j: int)
    ensures
        0 <= bonus_at(config, haystack, j) <= 0xFFFF,
{
}

pub proof fn lemma_run_bonus_bounds(config: MatcherConfig, run: int)
    ensures
        0 <= run_bonus(config, run) <= 0xFFFF,
{
    if run >= 2 {
        assert((run - 2) * config.bonus_consecutive_step >= 0) by (nonlinear_arith)
            requires
                run >= 2,
                config.bonus_consecutive_step >= 0,
        ;
    }
}

/// A longer run never earns less for its last character.
pub proof fn lemma_run_bonus_monotone(config: MatcherConfig, shorter: int, longer: int)
    requires
        shorter <= longer,
    ensures
        run_bonus(config, shorter) <= run_bonus(config, longer),
{
    lemma_run_bonus_bounds(config, longer);
    if shorter >= 2 {
        assert((shorter - 2) * config.bonus_consecutive_step <= (longer - 2)
            * config.bonus_consecutive_step) by (nonlinear_arith)
            requires
                shorter <= longer,
                config.bonus_consecutive_step >= 0,
        ;
    }
}

pub proof fn lemma_gap_penalty_step(config: MatcherConfig, skipped: int)
    requires
        skipped >= 1,
    ensures
        gap_penalty(config, skipped) >= 0,
        gap_penalty(config, skipped + 1) == gap_penalty(config, skipped)
            + config.penalty_gap_extension,
{
    assert((skipped - 1) * config.penalty_gap_extension >= 0) by (nonlinear_arith)
        requires
            skipped >= 1,
            config.penalty_gap_extension >= 0,
    ;
    assert((skipped + 1 - 1) * config.penalty_gap_extension == (skipped - 1)
        * config.penalty_gap_extension + config.penalty_gap_extension) by (nonlinear_arith);
}

/// A gap of one character costs the starting penalty alone.
pub proof fn lemma_gap_penalty_one(config: MatcherConfig)
    ensures
        gap_penalty(config, 1) == config.penalty_gap_start,
{
    assert((1 - 1) * config.penalty_gap_extension == 0) by (nonlinear_arith);
}

/// In a placement the match of needle character `i` falls no earlier than position `i`.
pub proof fn lemma_placement_spread(
    config: MatcherConfig,
    haystack: Seq<u32>,
    needle: Seq<u32>,
    p: Seq<int>,
    i: int,
)
    requires
        is_placement(config, haystack, needle, p),
        0 <= i < p.len(),
    ensures
        i <= p[i] < haystack.len(),
        p[i] + (p.len() - 1 - i) < haystack.len(),
    decreases p.len() - i,
{
    assert(eligible(config, haystack, needle, i, p[i]));
    if i > 0 {
        lemma_placement_low(config, haystack, needle, p, i);
    }
    if i < p.len() - 1 {
        lemma_placement_spread(config, haystack, needle, p, i + 1);
        assert(p[i + 1 - 1] < p[i + 1]);
    }
}

proof fn lemma_placement_low(
    config: MatcherConfig,
    haystack: Seq<u32>,
    needle: Seq<u32>,
    p: Seq<int>,
    i: int,
)
    requires
        is_placement(config, haystack, needle, p),
        0 <= i < p.len(),
    ensures
        i <= p[i],
    decreases i,
{
    assert(eligible(config, haystack, needle, i, p[i]));
    if i > 0 {
        lemma_placement_low(config, haystack, needle, p, i - 1);
        assert(p[i - 1] < p[i]);
    }
}

/// A needle that occurs in a haystack is not empty and no longer than the haystack.
pub proof fn lemma_matchable_lengths(config: MatcherConfig, haystack: Seq<u32>, needle: Seq<u32>)
    requires
        matchable(config, haystack, needle),
    ensures
        0 < needle.len() <= haystack.len(),
{
    let p = choose|p: Seq<int>| is_placement(config, haystack, needle, p);
    lemma_placement_spread(config, haystack, needle, p, needle.len() - 1);
}

/// A run is no longer than the number of characters matched so far.
pub proof fn lemma_run_len_bounds(p: Seq<int>, i: int)
    requires
        0 <= i,
    ensures
        1 <= run_len(p, i) <= i + 1,
    decreases i,
{
    if i > 0 {
        lemma_run_len_bounds(p, i - 1);
    }
}

/// A running total is never negative, and each match adds a bounded amount.
pub proof fn lemma_score_bounds(config: MatcherConfig, haystack: Seq<u32>, p: Seq<int>, i: int)
    requires
        0 <= i,
    ensures
        0 <= score_upto(config, haystack, p, i) <= (i + 1) * step_max(),
    decreases i,
{
    lemma_bonus_bounds(config, haystack, p[i]);
    lemma_bonus_bounds(config, haystack, p[0]);
    if i > 0 {
        lemma_score_bounds(config, haystack, p, i - 1);
        lemma_run_bonus_bounds(config, run_len(p, i));
        assert((i + 1) * step_max() == i * step_max() + step_max()) by (nonlinear_arith);
    }
}

/// A running total depends on the positions up to its character alone.
pub proof fn lemma_score_prefix(
    config: MatcherConfig,
    haystack: Seq<u32>,
    p: Seq<int>,
    q: Seq<int>,
    i: int,
)
    requires
        0 <= i < p.len(),
        i < q.len(),
        forall|k: int| 0 <= k <= i ==> p[k] == q[k],
    ensures
        run_len(p, i) == run_len(q, i),
        score_upto(config, haystack, p, i) == score_upto(config, haystack, q, i),
    decreases i,
{
    if i > 0 {
        lemma_score_prefix(config, haystack, p, q, i - 1);
    }
}

/// Charging two penalties one after the other is charging their sum.
pub proof fn lemma_sat_sub_twice(total: int, first: int, second: int)
    requires
        first >= 0,
        second >= 0,
    ensures
        sat_sub(sat_sub(total, first), second) == sat_sub(total, first + second),
{
}

/// Whether `nc` may match `hc` under the rule `mode`.
pub fn may_match<H: Char, N: Char>(mode: CaseMatching, hc: H, nc: N) -> (r: bool)
    ensures
        r == char_matches(mode, hc.code(), nc.code()),
{
    let h: u32 = hc.codepoint();
    let n: u32 = nc.codepoint();
    match mode {
        CaseMatching::Respect => h == n,
        CaseMatching::Ignore => fold(h) == fold(n),
        CaseMatching::Smart => if upper(n) {
            h == n
        } else {
            fold(h) == n
        },
    }
}

/// The bonus for a match at position `j` of `haystack`.
pub fn position_bonus<H: Char>(config: &MatcherConfig, haystack: &[H], j: usize) -> (bonus: u16)
    requires
        j < haystack@.len(),
    ensures
        bonus == bonus_at(*config, codes(haystack@), j as int),
{
    if j == 0 {
        return config.bonus_start;
    }
    let prev: CharClass = classify(haystack[j - 1].codepoint());
    let cur: CharClass = classify(haystack[j].codepoint());
    let prev_number: bool = matches!(prev, CharClass::Number);
    let cur_number: bool = matches!(cur, CharClass::Number);
    if matches!(cur, CharClass::Whitespace) || matches!(cur, CharClass::Separator) {
        0
    } else if matches!(prev, CharClass::Whitespace) {
        config.bonus_boundary_white
    } else if matches!(prev, CharClass::Separator) {
        config.bonus_boundary
    } else if matches!(prev, CharClass::Lower) && matches!(cur, CharClass::Upper) {
        config.bonus_camel
    } else if prev_number != cur_number {
        config.bonus_camel
    } else {
        0
    }
}

/// The bonus of the character that brings a run to length `run`.
pub fn consecutive_bonus(config: &MatcherConfig, run: u32) -> (bonus: u16)
    ensures
        bonus == run_bonus(*config, run as int),
{
    if run < 2 {
        return 0;
    }
    let steps: u64 = (run - 2) as u64;
    let step: u64 = config.bonus_consecutive_step as u64;
    assert(steps * step <= 0xFFFF_FFFF * 0xFFFF) by (nonlinear_arith)
        requires
            steps <= 0xFFFF_FFFF,
            step <= 0xFFFF,
    ;
    let rising: u64 = config.bonus_consecutive as u64 + steps * step;
    if rising < config.bonus_consecutive_max as u64 {
        rising as u16
    } else {
        config.bonus_consecutive_max
    }
}

/// The penalty for a gap of `skipped` haystack characters.
pub fn skip_penalty(config: &MatcherConfig, skipped: u32) -> (penalty: u64)
    ensures
        penalty == gap_penalty(*config, skipped as int),
{
    if skipped < 1 {
        return 0;
    }
    let more: u64 = (skipped - 1) as u64;
    let each: u64 = config.penalty_gap_extension as u64;
    assert(more * each <= 0xFFFF_FFFF * 0xFFFF) by (nonlinear_arith)
        requires
            more <= 0xFFFF_FFFF,
            each <= 0xFFFF,
    ;
    config.penalty_gap_start as u64 + more * each
}

/// `total` less `penalty`, but never below zero.
pub fn charge(total: u64, penalty: u64) -> (rest: u64)
    ensures
        rest == sat_sub(total as int, penalty as int),
{
    if total > penalty {
        total - penalty
    } else {
        0
    }
}

/// A running total as a score.
pub fn to_score(total: u64) -> (score: u16)
    ensures
        score == clamp_score(total as int),
{
    if total >= 0xFFFF {
        0xFFFF
    } else {
        total as u16
    }
}

} // verus!
