//! Scoring weights and the case rule of a matcher.
use vstd::prelude::*;

verus! {

/// How the case of a needle character restricts the haystack characters it may match.
#[derive(Clone, Copy, Debug, PartialEq, Eq, Structural)]
pub enum CaseMatching {
    /// An uppercase needle character matches only itself; any other needle
    /// character matches a haystack character of either case.
    Smart,
    /// A needle character matches only itself.
    Respect,
    /// Case never matters.
    Ignore,
}

/// The weights of the score model and the case rule. A matcher only reads it.
#[derive(Clone, Copy, Debug, PartialEq, Eq)]
pub struct MatcherConfig {
    /// Bonus for a match on the first character of the haystack.
    pub bonus_start: u16,
    /// Bonus for a match on a word character that follows a separator.
    pub bonus_boundary: u16,
    /// Bonus for a match on a word character that follows whitespace.
    pub bonus_boundary_white: u16,
    /// Bonus for a match on the first character of a camel-case or numeric segment.
    pub bonus_camel: u16,
    /// Bonus for the second character of a run.
    pub bonus_consecutive: u16,
    /// What each further character of a run adds to the bonus of the one before it.
    pub bonus_consecutive_step: u16,
    /// The largest bonus a character of a run can earn for being in the run.
    pub bonus_consecutive_max: u16,
    /// Penalty for the first haystack character skipped between two matches.
    pub penalty_gap_start: u16,
    /// Penalty for each further haystack character skipped in the same gap.
    pub penalty_gap_extension: u16,
    /// The case rule.
    pub case_matching: CaseMatching,
}

impl Default for MatcherConfig {
    fn default() -> (config: Self)
        ensures
            config.bonus_start == 6,
            config.bonus_boundary == 8,
            config.bonus_boundary_white == 10,
            config.bonus_camel == 5,
            config.bonus_consecutive == 4,
            config.bonus_consecutive_step == 1,
            config.bonus_consecutive_max == 8,
            config.penalty_gap_start == 3,
            config.penalty_gap_extension == 1,
            config.case_matching == CaseMatching::Smart,
    {
        MatcherConfig {
            bonus_start: 6,
            bonus_boundary: 8,
            bonus_boundary_white: 10,
            bonus_camel: 5,
            bonus_consecutive: 4,
            bonus_consecutive_step: 1,
            bonus_consecutive_max: 8,
            penalty_gap_start: 3,
            penalty_gap_extension: 1,
            case_matching: CaseMatching::Smart,
        }
    }
}

impl MatcherConfig {
    /// The same weights under another case rule.
    pub fn with_case_matching(self, case_matching: CaseMatching) -> (config: Self)
        ensures
            config == (MatcherConfig { case_matching, ..self }),
    {
        MatcherConfig { case_matching, ..self }
    }
}

} // verus!
