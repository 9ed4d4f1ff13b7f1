use fuzzy_matcher::config::CaseMatching;
use fuzzy_matcher::config::MatcherConfig;
use fuzzy_matcher::utf32_str::Utf32Str;
use fuzzy_matcher::Matcher;

fn config(case_matching: CaseMatching) -> MatcherConfig {
    MatcherConfig::default().with_case_matching(case_matching)
}

fn flat() -> MatcherConfig {
    MatcherConfig {
        bonus_start: 0,
        bonus_boundary: 0,
        bonus_boundary_white: 0,
        bonus_camel: 0,
        bonus_consecutive: 0,
        bonus_consecutive_step: 0,
        bonus_consecutive_max: 0,
        penalty_gap_start: 0,
        penalty_gap_extension: 0,
        case_matching: CaseMatching::Respect,
    }
}

fn optimal(config: MatcherConfig, haystack: &str, needle: &str) -> Option<(u16, Vec<u32>)> {
    let mut matcher = Matcher::new(config);
    let mut hbuf = Vec::new();
    let mut nbuf = Vec::new();
    let h = Utf32Str::new(haystack, &mut hbuf);
    let n = Utf32Str::new(needle, &mut nbuf);
    let mut indices = Vec::new();
    let score = matcher.fuzzy_indices(h, n, &mut indices);
    let plain = matcher.fuzzy_match(h, n);
    assert_eq!(score, plain);
    if score.is_none() {
        assert!(indices.is_empty());
    }
    score.map(|s| (s, indices))
}

fn greedy(config: MatcherConfig, haystack: &str, needle: &str) -> Option<(u16, Vec<u32>)> {
    let mut matcher = Matcher::new(config);
    let mut hbuf = Vec::new();
    let mut nbuf = Vec::new();
    let h = Utf32Str::new(haystack, &mut hbuf);
    let n = Utf32Str::new(needle, &mut nbuf);
    let mut indices = Vec::new();
    let score = matcher.fuzzy_indices_greedy(h, n, &mut indices);
    let plain = matcher.fuzzy_match_greedy(h, n);
    assert_eq!(score, plain);
    if score.is_none() {
        assert!(indices.is_empty());
    }
    score.map(|s| (s, indices))
}

#[test]
fn default_weights() {
    let c = MatcherConfig::default();
    assert_eq!(c.bonus_start, 6);
    assert_eq!(c.bonus_boundary, 8);
    assert_eq!(c.bonus_boundary_white, 10);
    assert_eq!(c.bonus_camel, 5);
    assert_eq!(c.bonus_consecutive, 4);
    assert_eq!(c.bonus_consecutive_step, 1);
    assert_eq!(c.bonus_consecutive_max, 8);
    assert_eq!(c.penalty_gap_start, 3);
    assert_eq!(c.penalty_gap_extension, 1);
    assert_eq!(c.case_matching, CaseMatching::Smart);
    assert!(c.bonus_start < c.bonus_boundary);
    assert!(c.bonus_boundary < c.bonus_boundary_white);
}

#[test]
fn with_case_matching_keeps_weights() {
    let c = MatcherConfig::default().with_case_matching(CaseMatching::Ignore);
    assert_eq!(c.case_matching, CaseMatching::Ignore);
    assert_eq!(
        c.with_case_matching(CaseMatching::Smart),
        MatcherConfig::default()
    );
}

#[test]
fn needle_longer_than_haystack_is_absent() {
    assert_eq!(optimal(config(CaseMatching::Smart), "abc", "abcd"), None);
    assert_eq!(greedy(config(CaseMatching::Smart), "abc", "abcd"), None);
    assert_eq!(optimal(config(CaseMatching::Ignore), "", "a"), None);
    assert_eq!(greedy(config(CaseMatching::Ignore), "", "a"), None);
    assert_eq!(optimal(config(CaseMatching::Smart), "ñ", "ñandú"), None);
}

#[test]
fn empty_needle_is_absent() {
    assert_eq!(optimal(config(CaseMatching::Smart), "abc", ""), None);
    assert_eq!(greedy(config(CaseMatching::Smart), "abc", ""), None);
    assert_eq!(optimal(config(CaseMatching::Smart), "", ""), None);
    assert_eq!(greedy(config(CaseMatching::Smart), "", ""), None);
    assert_eq!(optimal(config(CaseMatching::Smart), "añb", ""), None);
}

#[test]
fn three_boundaries_two_gaps() {
    // 6 at the start; 8 less a gap of three (3 + 2) twice.
    let expected = Some((12, vec![0, 4, 8]));
    assert_eq!(optimal(config(CaseMatching::Smart), "foo_bar_baz", "fbb"), expected);
    assert_eq!(greedy(config(CaseMatching::Smart), "foo_bar_baz", "fbb"), expected);
}

#[test]
fn run_of_three() {
    // No bonus for 'e'; 4 and 5 for the second and third character of the run.
    let expected = Some((9, vec![1, 2, 3]));
    assert_eq!(optimal(config(CaseMatching::Smart), "hello world", "ell"), expected);
    assert_eq!(greedy(config(CaseMatching::Smart), "hello world", "ell"), expected);
}

#[test]
fn smart_case_rule() {
    assert_eq!(optimal(config(CaseMatching::Smart), "xxabcxx", "Abc"), None);
    assert_eq!(greedy(config(CaseMatching::Smart), "xxabcxx", "Abc"), None);
    let (_, found) = optimal(config(CaseMatching::Smart), "xxAbCxx", "abc").unwrap();
    assert_eq!(found, vec![2, 3, 4]);
    let (_, found) = greedy(config(CaseMatching::Smart), "xxAbCxx", "abc").unwrap();
    assert_eq!(found, vec![2, 3, 4]);
    // An uppercase needle character matches itself.
    let (_, found) = optimal(config(CaseMatching::Smart), "xaAbc", "Abc").unwrap();
    assert_eq!(found, vec![2, 3, 4]);
}

#[test]
fn respect_case_rule() {
    assert_eq!(optimal(config(CaseMatching::Respect), "xxAbCxx", "abc"), None);
    assert_eq!(greedy(config(CaseMatching::Respect), "xxAbCxx", "abc"), None);
    let (_, found) = optimal(config(CaseMatching::Respect), "xxAbCxx", "AbC").unwrap();
    assert_eq!(found, vec![2, 3, 4]);
    assert_eq!(optimal(config(CaseMatching::Respect), "abc", "A"), None);
}

#[test]
fn ignore_case_rule() {
    let (_, found) = optimal(config(CaseMatching::Ignore), "xxabcxx", "ABC").unwrap();
    assert_eq!(found, vec![2, 3, 4]);
    let (_, found) = greedy(config(CaseMatching::Ignore), "xxAbCxx", "aBc").unwrap();
    assert_eq!(found, vec![2, 3, 4]);
    assert_eq!(optimal(config(CaseMatching::Ignore), "abc", "A").map(|r| r.1), Some(vec![0]));
}

#[test]
fn optimal_beats_greedy() {
    // Greedy takes the first 'a' and 'b' and pays for the way to 'c'.
    assert_eq!(
        greedy(config(CaseMatching::Smart), "xab_abc", "abc"),
        Some((0, vec![1, 2, 6]))
    );
    // 8 behind the separator, then 4 and 5 for the run.
    assert_eq!(
        optimal(config(CaseMatching::Smart), "xab_abc", "abc"),
        Some((17, vec![4, 5, 6]))
    );
}

#[test]
fn optimal_is_never_below_greedy() {
    let haystacks = [
        "foo_bar_baz",
        "hello world",
        "xab_abc",
        "aXbXc abc",
        "src/fuzzy/matcher.rs",
        "FooBarBaz2Qux",
        "a a a a b b b c",
        "néé_nèe ne",
    ];
    let needles = ["a", "ab", "abc", "fbb", "ell", "ne", "fmr", "b2q", "aab", "o"];
    for mode in [CaseMatching::Smart, CaseMatching::Respect, CaseMatching::Ignore] {
        for h in haystacks {
            for n in needles {
                let best = optimal(config(mode), h, n);
                let first = greedy(config(mode), h, n);
                assert_eq!(best.is_some(), first.is_some());
                if let (Some((b, _)), Some((g, _))) = (best, first) {
                    assert!(b >= g, "{h:?} {n:?}: {b} < {g}");
                }
            }
        }
    }
}

#[test]
fn indices_rise_and_spell_the_needle() {
    let haystacks = ["Foo_Bar_baz", "hello World", "xAb_abC", "src/Fuzzy/matcher.rs"];
    let needles = ["fbb", "lo", "abc", "sfm", "o", "W"];
    for mode in [CaseMatching::Smart, CaseMatching::Respect, CaseMatching::Ignore] {
        for h in haystacks {
            for n in needles {
                for found in [optimal(config(mode), h, n), greedy(config(mode), h, n)] {
                    let Some((_, found)) = found else { continue };
                    assert_eq!(found.len(), n.len());
                    assert!(found.windows(2).all(|w| w[0] < w[1]));
                    let hay: Vec<char> = h.chars().collect();
                    for (at, want) in found.iter().zip(n.chars()) {
                        let got = hay[*at as usize];
                        match mode {
                            CaseMatching::Respect => assert_eq!(got, want),
                            CaseMatching::Ignore => {
                                assert_eq!(got.to_ascii_lowercase(), want.to_ascii_lowercase())
                            }
                            CaseMatching::Smart => {
                                if want.is_ascii_uppercase() {
                                    assert_eq!(got, want)
                                } else {
                                    assert_eq!(got.to_ascii_lowercase(), want)
                                }
                            }
                        }
                    }
                }
            }
        }
    }
}

#[test]
fn run_scores_above_scattered_placement() {
    // "abc" occurs as a run at 4..=6 and scattered at 0, 2 and 6;
    // no position earns a bonus but the first.
    let c = MatcherConfig { bonus_start: 0, ..config(CaseMatching::Smart) };
    assert_eq!(optimal(c, "axbxabc", "abc"), Some((9, vec![4, 5, 6])));
    assert_eq!(greedy(c, "axbxabc", "abc"), Some((0, vec![0, 2, 6])));
}

#[test]
fn bonuses_can_outweigh_a_run() {
    // The run at 1..=2 earns 4; the boundaries behind the spaces earn 10 each,
    // less 3 for the gap.
    assert_eq!(
        optimal(config(CaseMatching::Smart), "xab a b", "ab"),
        Some((17, vec![4, 6]))
    );
}

#[test]
fn ties_prefer_the_run() {
    // With flat weights every placement scores nothing. The best cell is the
    // leftmost of the last row, and the way back extends a run where it can.
    assert_eq!(optimal(flat(), "aab", "ab"), Some((0, vec![1, 2])));
    assert_eq!(optimal(flat(), "abab", "ab"), Some((0, vec![0, 1])));
    assert_eq!(optimal(flat(), "aabxb", "ab"), Some((0, vec![1, 2])));
}

#[test]
fn ties_prefer_the_nearer_gap() {
    assert_eq!(optimal(flat(), "aaxb", "ab"), Some((0, vec![1, 3])));
    assert_eq!(greedy(flat(), "aaxb", "ab"), Some((0, vec![0, 3])));
}

#[test]
fn single_character_takes_best_bonus() {
    assert_eq!(optimal(config(CaseMatching::Smart), "foo_bar", "b"), Some((8, vec![4])));
    assert_eq!(optimal(config(CaseMatching::Smart), "abca_a", "a"), Some((8, vec![5])));
    assert_eq!(optimal(config(CaseMatching::Smart), "_a_a", "a"), Some((8, vec![1])));
    assert_eq!(optimal(config(CaseMatching::Smart), "xyz", "a"), None);
    // Greedy takes the first.
    assert_eq!(greedy(config(CaseMatching::Smart), "abca_a", "a"), Some((6, vec![0])));
    assert_eq!(greedy(config(CaseMatching::Smart), "xa a", "a"), Some((0, vec![1])));
    assert_eq!(optimal(config(CaseMatching::Smart), "xa a", "a"), Some((10, vec![3])));
}

#[test]
fn needle_as_long_as_window() {
    // 8 behind the separator, then 4, 5 and 6 for the run.
    assert_eq!(
        optimal(config(CaseMatching::Smart), "xx_abcd_yy", "abcd"),
        Some((23, vec![3, 4, 5, 6]))
    );
    // 6 at the start, then 4 and 5.
    assert_eq!(optimal(config(CaseMatching::Smart), "abc", "abc"), Some((15, vec![0, 1, 2])));
    assert_eq!(greedy(config(CaseMatching::Smart), "abc", "abc"), Some((15, vec![0, 1, 2])));
}

#[test]
fn run_bonus_rises_to_its_cap() {
    // 6 + (4 + 5 + 6 + 7 + 8 + 8 + 8)
    assert_eq!(
        optimal(config(CaseMatching::Smart), "abcdefgh", "abcdefgh").map(|r| r.0),
        Some(52)
    );
    // The same run inside a longer window goes through the grid.
    assert_eq!(
        optimal(config(CaseMatching::Smart), "abcdefgh..h", "abcdefgh"),
        Some((52, vec![0, 1, 2, 3, 4, 5, 6, 7]))
    );
    let capped = MatcherConfig {
        bonus_consecutive: 9,
        bonus_consecutive_max: 5,
        ..config(CaseMatching::Smart)
    };
    assert_eq!(optimal(capped, "abc", "abc").map(|r| r.0), Some(16));
}

#[test]
fn gap_penalty_grows_with_the_gap() {
    let c = MatcherConfig { bonus_start: 100, ..config(CaseMatching::Smart) };
    assert_eq!(optimal(c, "ab", "ab").map(|r| r.0), Some(104));
    assert_eq!(optimal(c, "a.b", "ab").map(|r| r.0), Some(100 - 3 + 8));
    assert_eq!(optimal(c, "axb", "ab").map(|r| r.0), Some(100 - 3));
    assert_eq!(optimal(c, "axxb", "ab").map(|r| r.0), Some(100 - 4));
    assert_eq!(optimal(c, "axxxxxb", "ab").map(|r| r.0), Some(100 - 7));
    assert_eq!(greedy(c, "axxxxxb", "ab").map(|r| r.0), Some(100 - 7));
}

#[test]
fn total_stops_at_zero() {
    let c = MatcherConfig { penalty_gap_start: 1000, ..config(CaseMatching::Smart) };
    // The penalty takes the 6 of the start and no more.
    assert_eq!(optimal(c, "axb", "ab"), Some((0, vec![0, 2])));
    assert_eq!(optimal(c, "ax_b", "ab"), Some((8, vec![0, 3])));
    assert_eq!(greedy(c, "ax_b", "ab"), Some((8, vec![0, 3])));
}

#[test]
fn score_stops_at_top_of_range() {
    let c = MatcherConfig {
        bonus_start: 65535,
        bonus_consecutive: 65535,
        bonus_consecutive_max: 65535,
        ..config(CaseMatching::Smart)
    };
    assert_eq!(optimal(c, "abc", "abc").map(|r| r.0), Some(65535));
    assert_eq!(greedy(c, "abc", "abc").map(|r| r.0), Some(65535));
    assert_eq!(optimal(c, "abc..c", "abc"), Some((65535, vec![0, 1, 2])));
    assert_eq!(optimal(c, "a", "a").map(|r| r.0), Some(65535));
}

#[test]
fn position_bonuses() {
    let c = config(CaseMatching::Smart);
    // First character of the haystack.
    assert_eq!(optimal(c, "b", "b").map(|r| r.0), Some(6));
    // Behind a separator, behind whitespace.
    assert_eq!(optimal(c, "a/b", "b").map(|r| r.0), Some(8));
    assert_eq!(optimal(c, "a-b", "b").map(|r| r.0), Some(8));
    assert_eq!(optimal(c, "a b", "b").map(|r| r.0), Some(10));
    assert_eq!(optimal(c, "a\tb", "b").map(|r| r.0), Some(10));
    // Camel case and the two ways between letters and digits.
    assert_eq!(optimal(c, "aB", "B").map(|r| r.0), Some(5));
    assert_eq!(optimal(c, "a1", "1").map(|r| r.0), Some(5));
    assert_eq!(optimal(c, "1a", "a").map(|r| r.0), Some(5));
    // Inside a word, and on a character that is no word character.
    assert_eq!(optimal(c, "ab", "b").map(|r| r.0), Some(0));
    assert_eq!(optimal(c, "AB", "B").map(|r| r.0), Some(0));
    assert_eq!(optimal(c, "Ab", "b").map(|r| r.0), Some(0));
    assert_eq!(optimal(c, "12", "2").map(|r| r.0), Some(0));
    assert_eq!(optimal(c, "a _", "_").map(|r| r.0), Some(0));
    assert_eq!(optimal(c, "a  ", " ").map(|r| r.0), Some(0));
}

#[test]
fn leading_characters_cost_nothing() {
    let c = config(CaseMatching::Smart);
    assert_eq!(optimal(c, "xxxxxxxxxx_ab", "ab"), Some((12, vec![11, 12])));
    assert_eq!(optimal(c, "_ab", "ab"), Some((12, vec![1, 2])));
    assert_eq!(greedy(c, "xxxxxxxxxx_ab", "ab"), Some((12, vec![11, 12])));
}

#[test]
fn wide_haystack_wide_needle() {
    let c = config(CaseMatching::Smart);
    // A run over the whole haystack: 6 + (4 + 5 + 6 + 7 + 8).
    assert_eq!(optimal(c, "Привет", "привет"), Some((36, vec![0, 1, 2, 3, 4, 5])));
    assert_eq!(greedy(c, "Привет", "привет"), Some((36, vec![0, 1, 2, 3, 4, 5])));
    assert_eq!(optimal(c, "привет", "Привет"), None);
    assert_eq!(
        optimal(config(CaseMatching::Ignore), "привет", "ПРИВЕТ").map(|r| r.1),
        Some(vec![0, 1, 2, 3, 4, 5])
    );
    assert_eq!(optimal(config(CaseMatching::Respect), "Привет", "привет"), None);
    // 8 behind the separator, 3 off for the gap, 8 behind the next.
    assert_eq!(optimal(c, "x_é_ö", "éö"), Some((13, vec![2, 4])));
    assert_eq!(optimal(c, "ÀB", "àb").map(|r| r.1), Some(vec![0, 1]));
    assert_eq!(optimal(c, "ΑΒΓ αβγ", "αβγ"), Some((19, vec![4, 5, 6])));
    assert_eq!(greedy(c, "ΑΒΓ αβγ", "αβγ"), Some((15, vec![0, 1, 2])));
    // The two operators among the Latin-1 letters have no case.
    assert_eq!(optimal(config(CaseMatching::Ignore), "a÷", "a×"), None);
}

#[test]
fn wide_haystack_narrow_needle() {
    let c = config(CaseMatching::Smart);
    assert_eq!(optimal(c, "héllo", "hl"), Some((3, vec![0, 2])));
    assert_eq!(greedy(c, "héllo", "hl"), Some((3, vec![0, 2])));
    assert_eq!(optimal(c, "é_l", "l"), Some((8, vec![2])));
    assert_eq!(greedy(c, "é_l", "l"), Some((8, vec![2])));
    assert_eq!(optimal(c, "héllo", "x"), None);
    assert_eq!(optimal(c, "héllo", "hx"), None);
    assert_eq!(greedy(c, "héllo", "hx"), None);
    assert_eq!(optimal(c, "é x_ab", "ab"), Some((12, vec![4, 5])));
}

#[test]
fn narrow_haystack_wide_needle() {
    for mode in [CaseMatching::Smart, CaseMatching::Respect, CaseMatching::Ignore] {
        assert_eq!(optimal(config(mode), "hello", "é"), None);
        assert_eq!(optimal(config(mode), "hello", "hé"), None);
        assert_eq!(greedy(config(mode), "hello", "hé"), None);
        assert_eq!(greedy(config(mode), "hello", "É"), None);
    }
}

#[test]
fn matcher_is_reusable() {
    let mut matcher = Matcher::new(config(CaseMatching::Smart));
    let pairs = [
        // 6, then 8 less 5 for a gap of three, then 8 less 7 for a gap of five.
        ("src/fuzzy/matcher.rs", "sfm", Some(10)),
        ("ab", "ab", Some(10)),
        ("xab_abc", "abc", Some(17)),
        // The gap before 'w' takes all that 'l' and 'h' earned.
        ("a_long_haystack_with_many_words_in_it", "lhw", Some(8)),
        ("xab_abc", "abc", Some(17)),
        ("ab", "ba", None),
    ];
    for _ in 0..3 {
        for (h, n, expected) in pairs {
            let mut hbuf = Vec::new();
            let mut nbuf = Vec::new();
            let h = Utf32Str::new(h, &mut hbuf);
            let n = Utf32Str::new(n, &mut nbuf);
            assert_eq!(matcher.fuzzy_match(h, n), expected);
        }
    }
}

#[test]
fn indices_are_appended() {
    let mut matcher = Matcher::new(config(CaseMatching::Smart));
    let mut hbuf = Vec::new();
    let mut nbuf = Vec::new();
    let h = Utf32Str::new("foo_bar_baz", &mut hbuf);
    let n = Utf32Str::new("fbb", &mut nbuf);
    let mut indices = vec![77];
    assert_eq!(matcher.fuzzy_indices(h, n, &mut indices), Some(12));
    assert_eq!(indices, vec![77, 0, 4, 8]);
    assert_eq!(matcher.fuzzy_indices_greedy(h, n, &mut indices), Some(12));
    assert_eq!(indices, vec![77, 0, 4, 8, 0, 4, 8]);
    let mut nbuf = Vec::new();
    let n = Utf32Str::new("fbz_", &mut nbuf);
    assert_eq!(matcher.fuzzy_indices(h, n, &mut indices), None);
    assert_eq!(matcher.fuzzy_indices_greedy(h, n, &mut indices), None);
    assert_eq!(indices, vec![77, 0, 4, 8, 0, 4, 8]);
}

#[test]
fn config_can_change_between_calls() {
    let mut matcher = Matcher::new(config(CaseMatching::Respect));
    let mut hbuf = Vec::new();
    let mut nbuf = Vec::new();
    let h = Utf32Str::new("Foo", &mut hbuf);
    let n = Utf32Str::new("foo", &mut nbuf);
    assert_eq!(matcher.fuzzy_match(h, n), None);
    matcher.config.case_matching = CaseMatching::Ignore;
    assert_eq!(matcher.fuzzy_match(h, n), Some(15));
    assert_eq!(matcher.fuzzy_match_greedy(h, n), Some(15));
}

#[test]
fn no_placement_in_order() {
    let c = config(CaseMatching::Smart);
    assert_eq!(optimal(c, "cba", "abc"), None);
    assert_eq!(greedy(c, "cba", "abc"), None);
    assert_eq!(optimal(c, "abab", "bba"), None);
    assert_eq!(optimal(c, "aab", "aaa"), None);
    assert_eq!(optimal(c, "ab", "ba"), None);
}

#[test]
fn repeated_characters() {
    let c = config(CaseMatching::Smart);
    assert_eq!(optimal(c, "aaaa", "aa"), Some((10, vec![0, 1])));
    assert_eq!(optimal(c, "aaaa", "aaaa"), Some((21, vec![0, 1, 2, 3])));
    assert_eq!(optimal(c, "xaaa aa", "aa"), Some((14, vec![5, 6])));
    assert_eq!(greedy(c, "xaaa aa", "aa"), Some((4, vec![1, 2])));
}

#[test]
fn cell_keeps_the_higher_total() {
    // At 'b' the way from the 'a' behind the blank is worth 10 - 5, the way
    // from the 'a' before it 4; the cell keeps the first, and the run starts there.
    assert_eq!(
        optimal(config(CaseMatching::Smart), " axxabcd", "abcd"),
        Some((14, vec![1, 5, 6, 7]))
    );
    // With flat runs no placement scores above the optimal alignment.
    let even = MatcherConfig { bonus_consecutive_step: 0, ..config(CaseMatching::Smart) };
    assert_eq!(optimal(even, " axxabcd", "abcd"), Some((13, vec![1, 5, 6, 7])));
    assert_eq!(greedy(even, " axxabcd", "abcd"), Some((13, vec![1, 5, 6, 7])));
}
