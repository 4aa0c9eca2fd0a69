use fileql::commands::report::{exact_file_report, fuzzy_file_report, signed_decimal_string, Segment, Tone};
use fileql::commands::search::FuzzyLineMatcher;

fn text(segments: &[Segment]) -> String {
    segments.iter().map(|s| s.text.as_str()).collect()
}

fn lines(v: &[&str]) -> Vec<String> {
    v.iter().map(|s| s.to_string()).collect()
}

#[test]
fn exact_report_of_a_single_match() {
    let (count, segs) = exact_file_report("d/a.txt", &lines(&["foo"]), "foo", 1);
    assert_eq!(count, 1);
    assert_eq!(
        text(&segs),
        format!("\n{}\nFile: d/a.txt\n  1:MATCH: foo\n", "-".repeat(40))
    );
    assert!(segs.iter().any(|s| s.tone == Tone::Blue && s.text == "d/a.txt"));
    assert!(segs.iter().any(|s| s.tone == Tone::GreenBold && s.text == "foo"));
    assert!(segs.iter().any(|s| s.tone == Tone::Red && s.text == "MATCH"));
}

#[test]
fn exact_report_with_context_and_two_matches() {
    let ls = lines(&["foo", "bar foo foo", "baz"]);
    let (count, segs) = exact_file_report("f", &ls, "foo", 1);
    assert_eq!(count, 2);
    assert_eq!(
        text(&segs),
        format!(
            "\n{}\nFile: f\n  1:MATCH: foo\n    2 | bar foo foo\n\n    1 | foo\n  2:MATCH: bar foo foo\n    3 | baz\n",
            "-".repeat(40)
        )
    );
    let greens = segs.iter().filter(|s| s.tone == Tone::GreenBold).count();
    assert_eq!(greens, 3);
    let (count, segs) = exact_file_report("f", &ls, "zzz", 1);
    assert_eq!((count, segs.len()), (0, 0));
}

#[test]
fn fuzzy_report_labels_scores() {
    let m = FuzzyLineMatcher::new();
    let ls = lines(&["abc", "xyz"]);
    let (count, segs) = fuzzy_file_report(&m, "p", &ls, "ac", 0, i64::MIN).unwrap();
    assert_eq!(count, 1);
    let t = text(&segs);
    assert!(t.starts_with(&format!("\n{}\nFile: p\n  1:SCORE: ", "-".repeat(40))));
    assert!(t.ends_with(": abc\n"));
    let greens: Vec<&str> = segs
        .iter()
        .filter(|s| s.tone == Tone::GreenBold)
        .map(|s| s.text.as_str())
        .collect();
    assert_eq!(greens, vec!["a", "c"]);
    let (count, segs) = fuzzy_file_report(&m, "p", &ls, "q", 0, 0).unwrap();
    assert_eq!((count, segs.len()), (0, 0));
}

#[test]
fn fuzzy_report_reads_positions_as_byte_offsets() {
    let m = FuzzyLineMatcher::new();
    // The matcher finds "abc" at characters 2, 3 and 4; as byte offsets they
    // fall on the space, the 'a' and the 'b', since 'é' takes two bytes.
    let ls = lines(&["\u{e9} abc"]);
    let (count, segs) = fuzzy_file_report(&m, "p", &ls, "abc", 0, i64::MIN).unwrap();
    assert_eq!(count, 1);
    let greens: Vec<&str> = segs
        .iter()
        .filter(|s| s.tone == Tone::GreenBold)
        .map(|s| s.text.as_str())
        .collect();
    assert_eq!(greens, vec![" ", "a", "b"]);
    assert!(text(&segs).ends_with(": \u{e9} abc\n"));
}

#[test]
fn fuzzy_report_refuses_positions_off_ascii_characters() {
    let m = FuzzyLineMatcher::new();
    // Character 1 of "éa" is byte 1, inside the 'é'.
    let ls = lines(&["xyz", "\u{e9}a"]);
    assert!(matches!(fuzzy_file_report(&m, "p", &ls, "a", 0, i64::MIN), Err(1)));
    // Character 1 of "aé" is byte 1, where the two-byte 'é' starts.
    let ls = lines(&["a\u{e9}"]);
    assert!(matches!(fuzzy_file_report(&m, "p", &ls, "\u{e9}", 0, i64::MIN), Err(0)));
}

#[test]
fn signed_decimals() {
    assert_eq!(signed_decimal_string(0), "0");
    assert_eq!(signed_decimal_string(-5), "-5");
    assert_eq!(signed_decimal_string(42), "42");
    assert_eq!(signed_decimal_string(i64::MIN), i64::MIN.to_string());
}

#[test]
fn exact_and_fuzzy_blocks_share_their_layout() {
    let m = FuzzyLineMatcher::new();
    let ls = lines(&["abc", "xyz", "abd", "q"]);
    let (n1, exact) = exact_file_report("p", &ls, "ab", 1);
    let (n2, fuzzy) = fuzzy_file_report(&m, "p", &ls, "ab", 1, i64::MIN).unwrap();
    assert_eq!((n1, n2), (2, 2));
    let scores = regex::Regex::new("SCORE: -?[0-9]+").unwrap();
    assert_eq!(scores.replace_all(&text(&fuzzy), "MATCH"), text(&exact));
    assert_eq!(
        text(&exact),
        format!(
            "\n{}\nFile: p\n  1:MATCH: abc\n    2 | xyz\n\n    2 | xyz\n  3:MATCH: abd\n    4 | q\n",
            "-".repeat(40)
        )
    );
}
