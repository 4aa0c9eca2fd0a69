use fileql::commands::search::{
    context_bounds, entry_selected, find_exact_matches, find_fuzzy_matches, find_occurrences,
    fuzzy_accepts, fuzzy_block, fuzzy_matches_from_scores, matches_word, search_mode, FuzzyLineMatcher, SearchMode,
};
use fuzzy_matcher::skim::SkimMatcherV2;
use fuzzy_matcher::FuzzyMatcher;

fn chars(s: &str) -> Vec<char> {
    s.chars().collect()
}

fn lines(v: &[&str]) -> Vec<String> {
    v.iter().map(|s| s.to_string()).collect()
}

#[test]
fn occurrences_are_leftmost_and_disjoint() {
    assert_eq!(find_occurrences(&chars("aaaa"), &chars("aa")), vec![0, 2]);
    assert_eq!(find_occurrences(&chars("abcabc"), &chars("bc")), vec![1, 4]);
    assert_eq!(find_occurrences(&chars("abc"), &chars("x")), Vec::<usize>::new());
    assert_eq!(find_occurrences(&chars("ab"), &chars("")), vec![0, 1, 2]);
    assert_eq!(find_occurrences(&chars(""), &chars("a")), Vec::<usize>::new());
}

#[test]
fn occurrences_agree_with_str_replace() {
    for (line, pat) in [("aaaa", "aa"), ("abcabc", "bc"), ("xyz", "q"), ("a-b-c", "-"), ("ab", "")] {
        let hits = find_occurrences(&chars(line), &chars(pat));
        let line_chars = chars(line);
        let mut rebuilt = String::new();
        let mut k = 0;
        for &h in &hits {
            rebuilt.extend(&line_chars[k..h]);
            rebuilt.push('<');
            rebuilt.push_str(pat);
            rebuilt.push('>');
            k = h + pat.chars().count();
        }
        rebuilt.extend(&line_chars[k..]);
        assert_eq!(rebuilt, line.replace(pat, &format!("<{}>", pat)), "{:?} {:?}", line, pat);
    }
}

#[test]
fn context_bounds_saturate() {
    assert_eq!(context_bounds(0, 5, 2), (0, 2));
    assert_eq!(context_bounds(3, 5, 2), (1, 4));
    assert_eq!(context_bounds(4, 5, 1), (3, 4));
    assert_eq!(context_bounds(2, 5, 0), (2, 2));
    assert_eq!(context_bounds(1, 3, usize::MAX), (0, 2));
}

#[test]
fn exact_matches_of_a_file() {
    let ls = lines(&["alpha", "beta", "alphabet", "gamma"]);
    let found = find_exact_matches(&ls, "alpha", 1);
    assert_eq!(found.len(), 2);
    assert_eq!((found[0].line, found[0].context_start, found[0].context_end), (0, 0, 1));
    assert_eq!(found[0].hits, vec![0]);
    assert_eq!((found[1].line, found[1].context_start, found[1].context_end), (2, 1, 3));
    assert!(find_exact_matches(&ls, "zeta", 3).is_empty());
    assert_eq!(find_exact_matches(&ls, "", 0).len(), 4);
    assert!(find_exact_matches(&Vec::new(), "a", 1).is_empty());
}

#[test]
fn fuzzy_scores_come_from_the_skim_matcher() {
    let m = FuzzyLineMatcher::new();
    let reference = SkimMatcherV2::default();
    for (line, pat) in [("src/main.rs", "smr"), ("hello world", "hw"), ("abc", "xyz"), ("abc", "")] {
        assert_eq!(m.score(line, pat), reference.fuzzy_match(line, pat));
        assert_eq!(m.positions(line, pat), reference.fuzzy_indices(line, pat));
    }
    assert_eq!(m.score("abc", ""), Some(0));
    assert_eq!(m.positions("abc", ""), Some((0, vec![])));
}

#[test]
fn fuzzy_threshold_and_blocks() {
    assert_eq!(fuzzy_accepts(Some(30), 30), Some(30));
    assert_eq!(fuzzy_accepts(Some(29), 30), None);
    assert_eq!(fuzzy_accepts(None, i64::MIN), None);
    let b = fuzzy_block(1, 4, 1, 42, Some((42, vec![0, 3])));
    assert_eq!((b.line, b.context_start, b.context_end, b.score), (1, 0, 2, 42));
    assert_eq!(b.highlighted, vec![0, 3]);
    let b = fuzzy_block(3, 4, 5, 7, None);
    assert_eq!((b.context_start, b.context_end), (0, 3));
    assert!(b.highlighted.is_empty());
}

#[test]
fn fuzzy_matches_of_a_file() {
    let m = FuzzyLineMatcher::new();
    let ls = lines(&["fn main() {}", "let x = 1;", "fn helper() {}", "xyz"]);
    let found = find_fuzzy_matches(&m, &ls, "fn", 0, 30);
    assert!(!found.is_empty());
    let mut last = None;
    for f in &found {
        assert!(f.score >= 30);
        assert!(ls[f.line].contains('f') && ls[f.line].contains('n'));
        assert!(f.highlighted.windows(2).all(|w| w[0] < w[1]));
        assert!(f.highlighted.iter().all(|&p| p < ls[f.line].chars().count()));
        assert!(last.map_or(true, |l| l < f.line));
        last = Some(f.line);
    }
    assert!(found.iter().all(|f| f.line != 1 && f.line != 3));
    assert_eq!(find_fuzzy_matches(&m, &ls, "", 0, 1).len(), 0);
    let all = find_fuzzy_matches(&m, &ls, "", 0, 0);
    assert_eq!(all.iter().map(|f| f.line).collect::<Vec<_>>(), vec![0, 1, 2, 3]);
    assert!(all.iter().all(|f| f.score == 0 && f.highlighted.is_empty()));
}

#[test]
fn fuzzy_matcher_finds_subsequences_with_smart_case() {
    let m = FuzzyLineMatcher::new();
    assert_eq!(m.score("abc", "xyz"), None);
    assert!(m.score("ABC", "abc").is_some());
    assert_eq!(m.score("abc", "Abc"), None);
    assert!(m.score("xAbc", "Abc").is_some());
    assert_eq!(m.positions("abc", "ac").map(|p| p.1.len()), Some(2));
}

#[test]
fn fuzzy_report_from_given_scores() {
    let scores = vec![Some(40), None, Some(10), Some(35)];
    let positions = vec![Some((40, vec![0, 2])), None, Some((10, vec![1])), None];
    let found = fuzzy_matches_from_scores(&scores, &positions, 1, 30);
    assert_eq!(found.len(), 2);
    assert_eq!((found[0].line, found[0].context_start, found[0].context_end, found[0].score), (0, 0, 1, 40));
    assert_eq!(found[0].highlighted, vec![0, 2]);
    assert_eq!((found[1].line, found[1].context_start, found[1].context_end, found[1].score), (3, 2, 3, 35));
    assert!(found[1].highlighted.is_empty());
    let lower = fuzzy_matches_from_scores(&scores, &positions, 1, 10);
    assert_eq!(lower.iter().map(|f| f.line).collect::<Vec<_>>(), vec![0, 2, 3]);
    assert!(fuzzy_matches_from_scores(&Vec::new(), &Vec::new(), 3, 0).is_empty());
}

#[test]
fn entry_selection() {
    assert!(entry_selected(Some("a.txt"), Some("txt"), Some("txt")));
    assert!(entry_selected(Some("a.txt"), Some("txt"), Some(".txt")));
    assert!(!entry_selected(Some("a.txt"), Some("txt"), Some("..txt")));
    assert!(!entry_selected(Some("a.txt"), Some("txt"), Some(".rs")));
    assert!(!entry_selected(Some("a.rs"), Some("rs"), Some("txt")));
    assert!(!entry_selected(Some("a"), None, Some("txt")));
    assert!(!entry_selected(Some(".hidden"), None, None));
    assert!(entry_selected(Some("a"), None, None));
    assert!(entry_selected(None, None, None));
}

#[test]
fn search_mode_and_words() {
    assert_eq!(search_mode(false, Some(5)), SearchMode::Exact);
    assert_eq!(search_mode(true, Some(5)), SearchMode::Fuzzy { threshold: 5 });
    assert_eq!(search_mode(true, None), SearchMode::Fuzzy { threshold: 30 });
    assert_eq!(matches_word(1), "match");
    assert_eq!(matches_word(0), "matches");
    assert_eq!(matches_word(2), "matches");
}
