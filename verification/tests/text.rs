use fuzzy_matcher::chars::classify;
use fuzzy_matcher::chars::fold;
use fuzzy_matcher::chars::lower;
use fuzzy_matcher::chars::upper;
use fuzzy_matcher::chars::Char;
use fuzzy_matcher::chars::CharClass;
use fuzzy_matcher::config::CaseMatching;
use fuzzy_matcher::config::MatcherConfig;
use fuzzy_matcher::exact::contiguous_match;
use fuzzy_matcher::exact::run_score;
use fuzzy_matcher::exact::substring_match_1;
use fuzzy_matcher::fuzzy_greedy::fuzzy_match_greedy_;
use fuzzy_matcher::fuzzy_greedy::scan_forward;
use fuzzy_matcher::fuzzy_optimal::fuzzy_match_optimal;
use fuzzy_matcher::matrix::blank_cell;
use fuzzy_matcher::matrix::Cell;
use fuzzy_matcher::matrix::MatrixSlab;
use fuzzy_matcher::matrix::Step;
use fuzzy_matcher::prefilter::prefilter;
use fuzzy_matcher::score::charge;
use fuzzy_matcher::score::consecutive_bonus;
use fuzzy_matcher::score::may_match;
use fuzzy_matcher::score::position_bonus;
use fuzzy_matcher::score::skip_penalty;
use fuzzy_matcher::score::to_score;
use fuzzy_matcher::utf32_str::Utf32Str;

#[test]
fn case_of_letters() {
    for c in 'A'..='Z' {
        assert!(upper(c as u32) && !lower(c as u32));
        assert_eq!(fold(c as u32), c.to_ascii_lowercase() as u32);
    }
    for c in 'a'..='z' {
        assert!(lower(c as u32) && !upper(c as u32));
        assert_eq!(fold(c as u32), c as u32);
    }
    for (up, low) in [('À', 'à'), ('Þ', 'þ'), ('Ö', 'ö'), ('Α', 'α'), ('Ω', 'ω'), ('А', 'а'), ('Я', 'я')] {
        assert!(upper(up as u32));
        assert!(lower(low as u32));
        assert_eq!(fold(up as u32), low as u32);
        assert_eq!(fold(low as u32), low as u32);
    }
    for c in ['×', '÷', '0', '_', ' ', '中', '@', '[', '`', '{'] {
        assert!(!upper(c as u32));
        assert_eq!(fold(c as u32), c as u32);
    }
    assert!(lower('ß' as u32));
    assert!(lower('ς' as u32));
    assert!(!lower('÷' as u32));
}

#[test]
fn classes_of_characters() {
    assert_eq!(classify(' ' as u32), CharClass::Whitespace);
    assert_eq!(classify('\t' as u32), CharClass::Whitespace);
    assert_eq!(classify('\n' as u32), CharClass::Whitespace);
    assert_eq!(classify(0xA0), CharClass::Whitespace);
    assert_eq!(classify(0x3000), CharClass::Whitespace);
    assert_eq!(classify('7' as u32), CharClass::Number);
    assert_eq!(classify('Q' as u32), CharClass::Upper);
    assert_eq!(classify('q' as u32), CharClass::Lower);
    assert_eq!(classify('É' as u32), CharClass::Upper);
    assert_eq!(classify('é' as u32), CharClass::Lower);
    for c in ['_', '/', '-', '.', ':', '\\', '(', '\0', '×', '÷', '«'] {
        assert_eq!(classify(c as u32), CharClass::Separator);
    }
    assert_eq!(classify('中' as u32), CharClass::Letter);
    assert_eq!(classify('ł' as u32), CharClass::Letter);
}

#[test]
fn codepoints_of_both_widths() {
    assert_eq!(b'a'.codepoint(), 97);
    assert_eq!(255u8.codepoint(), 255);
    assert_eq!('a'.codepoint(), 97);
    assert_eq!('中'.codepoint(), 0x4E2D);
}

#[test]
fn text_forms() {
    let mut buf = Vec::new();
    let t = Utf32Str::new("hello", &mut buf);
    assert!(t.is_ascii());
    assert_eq!(t.len(), 5);
    assert!(!t.is_empty());
    assert_eq!(t.get(1), 'e' as u32);
    let mut buf = vec!['x'];
    let t = Utf32Str::new("héllo", &mut buf);
    assert!(!t.is_ascii());
    assert_eq!(t.len(), 5);
    assert_eq!(t.get(1), 'é' as u32);
    assert_eq!(t.get(4), 'o' as u32);
    let mut buf = Vec::new();
    let t = Utf32Str::new("", &mut buf);
    assert!(t.is_ascii());
    assert!(t.is_empty());
    assert_eq!(t.len(), 0);
}

#[test]
fn single_characters_under_each_rule() {
    assert!(may_match(CaseMatching::Respect, b'a', b'a'));
    assert!(!may_match(CaseMatching::Respect, b'A', b'a'));
    assert!(!may_match(CaseMatching::Respect, b'a', b'A'));
    assert!(may_match(CaseMatching::Ignore, b'A', b'a'));
    assert!(may_match(CaseMatching::Ignore, b'a', b'A'));
    assert!(may_match(CaseMatching::Ignore, 'É', 'é'));
    assert!(!may_match(CaseMatching::Ignore, b'a', b'b'));
    assert!(may_match(CaseMatching::Smart, b'A', b'a'));
    assert!(may_match(CaseMatching::Smart, b'a', b'a'));
    assert!(!may_match(CaseMatching::Smart, b'a', b'A'));
    assert!(may_match(CaseMatching::Smart, b'A', b'A'));
    assert!(may_match(CaseMatching::Smart, 'É', b'\xE9'));
    assert!(may_match(CaseMatching::Smart, b'1', '1'));
    assert!(!may_match(CaseMatching::Smart, b'1', b'2'));
}

#[test]
fn score_formulas() {
    let c = MatcherConfig::default();
    assert_eq!(consecutive_bonus(&c, 0), 0);
    assert_eq!(consecutive_bonus(&c, 1), 0);
    assert_eq!(consecutive_bonus(&c, 2), 4);
    assert_eq!(consecutive_bonus(&c, 3), 5);
    assert_eq!(consecutive_bonus(&c, 6), 8);
    assert_eq!(consecutive_bonus(&c, 7), 8);
    assert_eq!(consecutive_bonus(&c, u32::MAX), 8);
    assert_eq!(skip_penalty(&c, 0), 0);
    assert_eq!(skip_penalty(&c, 1), 3);
    assert_eq!(skip_penalty(&c, 2), 4);
    assert_eq!(skip_penalty(&c, 10), 12);
    let steep = MatcherConfig {
        penalty_gap_start: 65535,
        penalty_gap_extension: 65535,
        bonus_consecutive_step: 65535,
        bonus_consecutive_max: 65535,
        ..c
    };
    assert_eq!(skip_penalty(&steep, u32::MAX), 65535 * u32::MAX as u64);
    assert_eq!(consecutive_bonus(&steep, u32::MAX), 65535);
    assert_eq!(consecutive_bonus(&steep, 3), 65535);
    assert_eq!(charge(10, 3), 7);
    assert_eq!(charge(3, 3), 0);
    assert_eq!(charge(3, 10), 0);
    assert_eq!(to_score(0), 0);
    assert_eq!(to_score(65534), 65534);
    assert_eq!(to_score(65535), 65535);
    assert_eq!(to_score(65536), 65535);
    assert_eq!(to_score(u64::MAX), 65535);
    let h: Vec<char> = "a_b Cd9".chars().collect();
    let got: Vec<u16> = (0..h.len()).map(|j| position_bonus(&c, &h, j)).collect();
    assert_eq!(got, vec![6, 0, 8, 0, 10, 0, 5]);
}

#[test]
fn forward_scan() {
    let c = MatcherConfig::default();
    let h = b"abcABC";
    assert_eq!(scan_forward(&c, h, b"c", 0, 0), 2);
    assert_eq!(scan_forward(&c, h, b"c", 0, 3), 5);
    assert_eq!(scan_forward(&c, h, b"C", 0, 0), 5);
    assert_eq!(scan_forward(&c, h, b"xc", 1, 2), 2);
    assert_eq!(scan_forward(&c, h, b"x", 0, 0), 6);
    assert_eq!(scan_forward(&c, h, b"a", 0, 6), 6);
    assert_eq!(scan_forward(&c, h, b"a", 0, 100), 6);
}

#[test]
fn window_of_prefilter() {
    let c = MatcherConfig::default();
    assert_eq!(prefilter(&c, b"xxabxcxbxcxx", b"abc", false), Some((2, 6, 10)));
    assert_eq!(prefilter(&c, b"xxabxcxbxcxx", b"abc", true), Some((2, 6, 6)));
    assert_eq!(prefilter(&c, b"abc", b"abc", false), Some((0, 3, 3)));
    assert_eq!(prefilter(&c, b"abc", b"c", false), Some((2, 3, 3)));
    assert_eq!(prefilter(&c, b"cabcc", b"c", false), Some((0, 1, 5)));
    assert_eq!(prefilter(&c, b"abc", b"cb", false), None);
    assert_eq!(prefilter(&c, b"abc", b"abcd", false), None);
    assert_eq!(prefilter(&c, b"abc", b"", false), None);
    assert_eq!(prefilter(&c, b"", b"a", true), None);
    let h: Vec<char> = "xÄbä".chars().collect();
    let n: Vec<char> = "ä".chars().collect();
    assert_eq!(prefilter(&c, &h, &n, false), Some((1, 2, 4)));
    assert_eq!(
        prefilter(&c.with_case_matching(CaseMatching::Respect), &h, &n, false),
        Some((3, 4, 4))
    );
}

#[test]
fn grid_grows_and_keeps_its_size() {
    let mut slab = MatrixSlab::new();
    slab.reserve(2, 3);
    for r in 0..2 {
        for c in 0..3 {
            assert!(matches!(slab.get(r, c).step, Step::Unreached));
        }
    }
    slab.set(1, 2, Cell { score: 9, run: 2, step: Step::Skip(4) });
    let cell = slab.get(1, 2);
    assert_eq!(cell.score, 9);
    assert_eq!(cell.run, 2);
    assert!(matches!(cell.step, Step::Skip(4)));
    assert!(matches!(slab.get(0, 2).step, Step::Unreached));
    slab.reserve(1, 1);
    // Outside what was asked for the grid is as it was.
    assert_eq!(slab.get(1, 2).score, 9);
    slab.reserve(3, 2);
    assert!(matches!(slab.get(2, 1).step, Step::Unreached));
    assert!(matches!(slab.get(1, 1).step, Step::Unreached));
    assert_eq!(slab.get(1, 2).score, 9);
    slab.reserve(2, 3);
    assert!(matches!(slab.get(1, 2).step, Step::Unreached));
    assert_eq!(slab.get(1, 2).score, 0);
    let blank = blank_cell();
    assert_eq!((blank.score, blank.run), (0, 0));
}

#[test]
fn aligners_on_slices() {
    let c = MatcherConfig::default();
    let h = b"xab_abc";
    let n = b"abc";
    let mut indices = Vec::new();
    assert_eq!(fuzzy_match_greedy_::<true, u8, u8>(&c, h, n, 0, &mut indices), Some(0));
    assert_eq!(indices, vec![1, 2, 6]);
    assert_eq!(fuzzy_match_greedy_::<false, u8, u8>(&c, h, n, 1, &mut indices), Some(0));
    assert_eq!(indices, vec![1, 2, 6]);
    assert_eq!(fuzzy_match_greedy_::<true, u8, u8>(&c, h, b"abd", 0, &mut indices), None);
    assert_eq!(indices, vec![1, 2, 6]);
    let mut slab = MatrixSlab::new();
    let (start, greedy_end, end) = prefilter(&c, h, n, false).unwrap();
    assert_eq!((start, greedy_end, end), (1, 7, 7));
    let mut indices = Vec::new();
    assert_eq!(
        fuzzy_match_optimal::<true, u8, u8>(&mut slab, &c, h, n, start, greedy_end, end, &mut indices),
        Some(17)
    );
    assert_eq!(indices, vec![4, 5, 6]);
    assert_eq!(
        fuzzy_match_optimal::<false, u8, u8>(&mut slab, &c, h, n, start, greedy_end, end, &mut indices),
        Some(17)
    );
    assert_eq!(indices, vec![4, 5, 6]);
}

#[test]
fn fast_paths_on_slices() {
    let c = MatcherConfig::default();
    let mut indices = Vec::new();
    assert_eq!(substring_match_1::<true, u8, u8>(&c, b"a_a a", b"a", 0, &mut indices), Some(10));
    assert_eq!(indices, vec![4]);
    assert_eq!(substring_match_1::<false, u8, u8>(&c, b"a_a a", b"a", 0, &mut indices), Some(10));
    assert_eq!(substring_match_1::<true, u8, u8>(&c, b"a_a a", b"b", 0, &mut indices), None);
    assert_eq!(indices, vec![4]);
    assert_eq!(run_score(&c, b"x_abc", 2, 3), 17);
    assert_eq!(run_score(&c, b"x_abc", 0, 1), 6);
    assert_eq!(run_score(&c, b"x_abc", 1, 2), 12);
    let mut indices = vec![9];
    assert_eq!(contiguous_match::<true, u8, u8>(&c, b"x_abc", b"abc", 2, &mut indices), 17);
    assert_eq!(indices, vec![9, 2, 3, 4]);
    assert_eq!(contiguous_match::<false, u8, u8>(&c, b"x_abc", b"abc", 2, &mut indices), 17);
    assert_eq!(indices, vec![9, 2, 3, 4]);
}
