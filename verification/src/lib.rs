//! Fuzzy matching of a needle against a haystack: is the needle an in-order
//! subsequence of the haystack, how well does it fit, and where.
//!
//! A [`Matcher`] owns the scratch grid of the optimal aligner and the weights
//! of the score model. It offers an optimal and a greedy match, each with or
//! without the matched positions.
pub mod chars;
pub mod config;
pub mod exact;
pub mod fuzzy_greedy;
pub mod fuzzy_optimal;
pub mod laws;
pub mod matrix;
pub mod prefilter;
pub mod score;
pub mod utf32_str;

pub use crate::config::CaseMatching;
pub use crate::config::MatcherConfig;
pub use crate::utf32_str::Utf32Str;

use vstd::prelude::*;
use crate::exact::substring_match_1;
use crate::fuzzy_greedy::fuzzy_match_greedy_;
use crate::fuzzy_greedy::greedy_placement;
use crate::fuzzy_greedy::greedy_score;
use crate::fuzzy_greedy::lemma_greedy_is_placement;
use crate::fuzzy_greedy::lemma_greedy_pos;
use crate::fuzzy_greedy::lemma_matchable_iff_greedy;
use crate::fuzzy_optimal::fuzzy_match_optimal;
use crate::fuzzy_optimal::lemma_optimal_bounds_greedy;
use crate::fuzzy_optimal::lemma_optimal_iff_matchable;
use crate::fuzzy_optimal::lemma_optimal_is_placement;
use crate::fuzzy_optimal::optimal_placement;
use crate::fuzzy_optimal::optimal_score;
use crate::laws::flat_runs;
use crate::laws::lemma_narrow_haystack_wide_needle;
use crate::laws::lemma_optimal_is_maximal;
use crate::matrix::MatrixSlab;
use crate::prefilter::prefilter;
use crate::score::as_indices;
use crate::score::clamp_score;
use crate::score::is_placement;
use crate::score::lemma_matchable_lengths;
use crate::score::matchable;
use crate::score::placement_score;
use crate::utf32_str::Text;

verus! {

/// What the optimal match reports: the score of the optimal alignment, fitted
/// into the output range; `None` where the needle does not occur.
pub open spec fn optimal_result(
    config: MatcherConfig,
    haystack: Seq<u32>,
    needle: Seq<u32>,
) -> Option<u16> {
    match optimal_score(config, haystack, needle) {
        Some(total) => Some(clamp_score(total)),
        None => None,
    }
}

/// What the greedy match reports: the score of the greedy placement, fitted
/// into the output range; `None` where the needle does not occur.
pub open spec fn greedy_result(
    config: MatcherConfig,
    haystack: Seq<u32>,
    needle: Seq<u32>,
) -> Option<u16> {
    match greedy_score(config, haystack, needle) {
        Some(total) => Some(clamp_score(total)),
        None => None,
    }
}

/// A matcher: the weights of the score model, and the scratch grid that the
/// optimal aligner works in. One matcher serves one thread.
pub struct Matcher {
    pub config: MatcherConfig,
    slab: MatrixSlab,
}

impl Matcher {
    /// The weights and the case rule: the field `config`.
    pub closed spec fn weights(&self) -> MatcherConfig {
        self.config
    }

    /// The scratch grid.
    pub closed spec fn scratch(&self) -> MatrixSlab {
        self.slab
    }

    /// A matcher with the given weights and an empty scratch grid.
    pub fn new(config: MatcherConfig) -> (matcher: Self)
        ensures
            matcher.weights() == config,
            matcher.scratch().height() == 0,
    {
        Self { config, slab: MatrixSlab::new() }
    }

    /// The score of the optimal alignment of `needle` in `haystack`; `None`
    /// where the needle does not occur in the haystack as an in-order subsequence.
    pub fn fuzzy_match(&mut self, haystack: Utf32Str<'_>, needle: Utf32Str<'_>) -> (score: Option<
        u16,
    >)
        requires
            haystack@.len() <= u32::MAX,
        ensures
            final(self).weights() == old(self).weights(),
            final(self).scratch().covers(&old(self).scratch()),
            score == optimal_result(old(self).weights(), haystack@, needle@),
            score is Some <==> matchable(old(self).weights(), haystack@, needle@),
            needle@.len() == 0 || needle@.len() > haystack@.len() ==> score is None,
            greedy_result(old(self).weights(), haystack@, needle@) is Some ==> score is Some
                && score->0 >= greedy_result(old(self).weights(), haystack@, needle@)->0,
            flat_runs(old(self).weights()) ==> forall|p: Seq<int>|
                #[trigger] is_placement(old(self).weights(), haystack@, needle@, p) ==> score is Some
                    && score->0 >= clamp_score(
                    placement_score(old(self).weights(), haystack@, p),
                ),
    {
        let mut indices: Vec<u32> = Vec::new();
        self.fuzzy_matcher_impl::<false>(haystack, needle, &mut indices)
    }

    /// As [`Matcher::fuzzy_match`]; where the needle occurs, the positions of
    /// the optimal alignment are appended to `indices`, one for each needle
    /// character, in rising order.
    pub fn fuzzy_indices(
        &mut self,
        haystack: Utf32Str<'_>,
        needle: Utf32Str<'_>,
        indices: &mut Vec<u32>,
    ) -> (score: Option<u16>)
        requires
            haystack@.len() <= u32::MAX,
        ensures
            final(self).weights() == old(self).weights(),
            final(self).scratch().covers(&old(self).scratch()),
            score == optimal_result(old(self).weights(), haystack@, needle@),
            score is Some <==> matchable(old(self).weights(), haystack@, needle@),
            needle@.len() == 0 || needle@.len() > haystack@.len() ==> score is None,
            greedy_result(old(self).weights(), haystack@, needle@) is Some ==> score is Some
                && score->0 >= greedy_result(old(self).weights(), haystack@, needle@)->0,
            flat_runs(old(self).weights()) ==> forall|p: Seq<int>|
                #[trigger] is_placement(old(self).weights(), haystack@, needle@, p) ==> score is Some
                    && score->0 >= clamp_score(
                    placement_score(old(self).weights(), haystack@, p),
                ),
            score is None ==> final(indices)@ == old(indices)@,
            score is Some ==> {
                let placed = optimal_placement(old(self).weights(), haystack@, needle@);
                &&& final(indices)@ == old(indices)@ + as_indices(placed)
                &&& is_placement(old(self).weights(), haystack@, needle@, placed)
                &&& score->0 == clamp_score(placement_score(old(self).weights(), haystack@, placed))
            },
    {
        self.fuzzy_matcher_impl::<true>(haystack, needle, indices)
    }

    /// The optimal match, by the form of the two texts and the length of the needle.
    pub fn fuzzy_matcher_impl<const INDICES: bool>(
        &mut self,
        haystack: Utf32Str<'_>,
        needle_: Utf32Str<'_>,
        indices: &mut Vec<u32>,
    ) -> (score: Option<u16>)
        requires
            haystack@.len() <= u32::MAX,
        ensures
            final(self).weights() == old(self).weights(),
            final(self).scratch().covers(&old(self).scratch()),
            score == optimal_result(old(self).weights(), haystack@, needle_@),
            score is Some <==> matchable(old(self).weights(), haystack@, needle_@),
            needle_@.len() == 0 || needle_@.len() > haystack@.len() ==> score is None,
            greedy_result(old(self).weights(), haystack@, needle_@) is Some ==> score is Some
                && score->0 >= greedy_result(old(self).weights(), haystack@, needle_@)->0,
            flat_runs(old(self).weights()) ==> forall|p: Seq<int>|
                #[trigger] is_placement(old(self).weights(), haystack@, needle_@, p) ==> score is Some
                    && score->0 >= clamp_score(
                    placement_score(old(self).weights(), haystack@, p),
                ),
            !INDICES || score is None ==> final(indices)@ == old(indices)@,
            score is Some ==> {
                let placed = optimal_placement(old(self).weights(), haystack@, needle_@);
                &&& INDICES ==> final(indices)@ == old(indices)@ + as_indices(placed)
                &&& is_placement(old(self).weights(), haystack@, needle_@, placed)
                &&& score->0 == clamp_score(placement_score(old(self).weights(), haystack@, placed))
            },
    {
        let config: MatcherConfig = self.config;
        proof {
            use_type_invariant(&haystack);
            use_type_invariant(&needle_);
            haystack.lemma_forms();
            needle_.lemma_forms();
            lemma_optimal_iff_matchable(config, haystack@, needle_@);
            lemma_matchable_iff_greedy(config, haystack@, needle_@);
            lemma_greedy_pos(config, haystack@, needle_@, 0);
            if matchable(config, haystack@, needle_@) {
                lemma_matchable_lengths(config, haystack@, needle_@);
                lemma_optimal_is_placement(config, haystack@, needle_@);
                lemma_optimal_bounds_greedy(config, haystack@, needle_@);
            }
            if flat_runs(config) {
                assert forall|p: Seq<int>| #[trigger]
                    is_placement(config, haystack@, needle_@, p) implies optimal_score(
                    config,
                    haystack@,
                    needle_@,
                )->0 >= placement_score(config, haystack@, p) by {
                    lemma_optimal_is_maximal(config, haystack@, needle_@, p);
                }
            }
        }
        if needle_.len() > haystack.len() || needle_.is_empty() {
            return None;
        }
        match (haystack.text, needle_.text) {
            (Text::Ascii(haystack), Text::Ascii(needle)) => {
                if needle.len() == 1 {
                    return substring_match_1::<INDICES, u8, u8>(
                        &config,
                        haystack,
                        needle,
                        0,
                        indices,
                    );
                }
                match prefilter(&config, haystack, needle, false) {
                    Some((start, greedy_end, end)) => fuzzy_match_optimal::<INDICES, u8, u8>(
                        &mut self.slab,
                        &config,
                        haystack,
                        needle,
                        start,
                        greedy_end,
                        end,
                        indices,
                    ),
                    None => None,
                }
            },
            (Text::Ascii(_), Text::Unicode(_)) => {
                proof {
                    lemma_narrow_haystack_wide_needle(config, haystack@, needle_@);
                }
                None
            },
            (Text::Unicode(haystack), Text::Ascii(needle)) => {
                if needle.len() == 1 {
                    return match prefilter(&config, haystack, needle, true) {
                        Some((start, _, _)) => substring_match_1::<INDICES, char, u8>(
                            &config,
                            haystack,
                            needle,
                            start,
                            indices,
                        ),
                        None => None,
                    };
                }
                match prefilter(&config, haystack, needle, false) {
                    Some((start, greedy_end, end)) => fuzzy_match_optimal::<INDICES, char, u8>(
                        &mut self.slab,
                        &config,
                        haystack,
                        needle,
                        start,
                        greedy_end,
                        end,
                        indices,
                    ),
                    None => None,
                }
            },
            (Text::Unicode(haystack), Text::Unicode(needle)) => {
                if needle.len() == 1 {
                    return match prefilter(&config, haystack, needle, true) {
                        Some((start, _, _)) => substring_match_1::<INDICES, char, char>(
                            &config,
                            haystack,
                            needle,
                            start,
                            indices,
                        ),
                        None => None,
                    };
                }
                match prefilter(&config, haystack, needle, false) {
                    Some((start, greedy_end, end)) => fuzzy_match_optimal::<INDICES, char, char>(
                        &mut self.slab,
                        &config,
                        haystack,
                        needle,
                        start,
                        greedy_end,
                        end,
                        indices,
                    ),
                    None => None,
                }
            },
        }
    }

    /// The score of the greedy placement of `needle` in `haystack`, in which
    /// each needle character takes the first position that it may; `None`
    /// where the needle does not occur in the haystack.
    pub fn fuzzy_match_greedy(&mut self, haystack: Utf32Str<'_>, needle: Utf32Str<'_>) -> (score:
        Option<u16>)
        requires
            haystack@.len() <= u32::MAX,
        ensures
            *final(self) == *old(self),
            score == greedy_result(old(self).weights(), haystack@, needle@),
            score is Some <==> matchable(old(self).weights(), haystack@, needle@),
            needle@.len() == 0 || needle@.len() > haystack@.len() ==> score is None,
            score is Some ==> optimal_result(old(self).weights(), haystack@, needle@) is Some
                && score->0 <= optimal_result(old(self).weights(), haystack@, needle@)->0,
    {
        let mut indices: Vec<u32> = Vec::new();
        self.fuzzy_match_greedy_impl::<false>(haystack, needle, &mut indices)
    }

    /// As [`Matcher::fuzzy_match_greedy`]; where the needle occurs, the greedy
    /// positions are appended to `indices`, one for each needle character, in
    /// rising order.
    pub fn fuzzy_indices_greedy(
        &mut self,
        haystack: Utf32Str<'_>,
        needle: Utf32Str<'_>,
        indices: &mut Vec<u32>,
    ) -> (score: Option<u16>)
        requires
            haystack@.len() <= u32::MAX,
        ensures
            *final(self) == *old(self),
            score == greedy_result(old(self).weights(), haystack@, needle@),
            score is Some <==> matchable(old(self).weights(), haystack@, needle@),
            needle@.len() == 0 || needle@.len() > haystack@.len() ==> score is None,
            score is Some ==> optimal_result(old(self).weights(), haystack@, needle@) is Some
                && score->0 <= optimal_result(old(self).weights(), haystack@, needle@)->0,
            score is None ==> final(indices)@ == old(indices)@,
            score is Some ==> {
                let placed = greedy_placement(old(self).weights(), haystack@, needle@);
                &&& final(indices)@ == old(indices)@ + as_indices(placed)
                &&& is_placement(old(self).weights(), haystack@, needle@, placed)
                &&& score->0 == clamp_score(placement_score(old(self).weights(), haystack@, placed))
            },
    {
        self.fuzzy_match_greedy_impl::<true>(haystack, needle, indices)
    }

    /// The greedy match, by the form of the two texts.
    pub fn fuzzy_match_greedy_impl<const INDICES: bool>(
        &mut self,
        haystack: Utf32Str<'_>,
        needle_: Utf32Str<'_>,
        indices: &mut Vec<u32>,
    ) -> (score: Option<u16>)
        requires
            haystack@.len() <= u32::MAX,
        ensures
            *final(self) == *old(self),
            score == greedy_result(old(self).weights(), haystack@, needle_@),
            score is Some <==> matchable(old(self).weights(), haystack@, needle_@),
            needle_@.len() == 0 || needle_@.len() > haystack@.len() ==> score is None,
            score is Some ==> optimal_result(old(self).weights(), haystack@, needle_@) is Some
                && score->0 <= optimal_result(old(self).weights(), haystack@, needle_@)->0,
            !INDICES || score is None ==> final(indices)@ == old(indices)@,
            score is Some ==> {
                let placed = greedy_placement(old(self).weights(), haystack@, needle_@);
                &&& INDICES ==> final(indices)@ == old(indices)@ + as_indices(placed)
                &&& is_placement(old(self).weights(), haystack@, needle_@, placed)
                &&& score->0 == clamp_score(placement_score(old(self).weights(), haystack@, placed))
            },
    {
        let config: MatcherConfig = self.config;
        proof {
            use_type_invariant(&haystack);
            use_type_invariant(&needle_);
            haystack.lemma_forms();
            needle_.lemma_forms();
            lemma_matchable_iff_greedy(config, haystack@, needle_@);
            if matchable(config, haystack@, needle_@) {
                lemma_matchable_lengths(config, haystack@, needle_@);
                lemma_greedy_is_placement(config, haystack@, needle_@);
                lemma_optimal_bounds_greedy(config, haystack@, needle_@);
            }
        }
        if needle_.len() > haystack.len() || needle_.is_empty() {
            return None;
        }
        match (haystack.text, needle_.text) {
            (Text::Ascii(haystack), Text::Ascii(needle)) => {
                match prefilter(&config, haystack, needle, true) {
                    Some((start, _, _)) => fuzzy_match_greedy_::<INDICES, u8, u8>(
                        &config,
                        haystack,
                        needle,
                        start,
                        indices,
                    ),
                    None => None,
                }
            },
            (Text::Ascii(_), Text::Unicode(_)) => {
                proof {
                    lemma_narrow_haystack_wide_needle(config, haystack@, needle_@);
                }
                None
            },
            (Text::Unicode(haystack), Text::Ascii(needle)) => {
                match prefilter(&config, haystack, needle, true) {
                    Some((start, _, _)) => fuzzy_match_greedy_::<INDICES, char, u8>(
                        &config,
                        haystack,
                        needle,
                        start,
                        indices,
                    ),
                    None => None,
                }
            },
            (Text::Unicode(haystack), Text::Unicode(needle)) => {
                match prefilter(&config, haystack, needle, true) {
                    Some((start, _, _)) => fuzzy_match_greedy_::<INDICES, char, char>(
                        &config,
                        haystack,
                        needle,
                        start,
                        indices,
                    ),
                    None => None,
                }
            },
        }
    }
}

} // verus!
