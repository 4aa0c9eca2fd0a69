use fileql::text::{decimal_string, same_text, split_commands};

#[test]
fn split_commands_trims_and_drops_empty_parts() {
    assert_eq!(split_commands(" a ; b;;c "), vec!["a", "b", "c"]);
    assert_eq!(split_commands(""), Vec::<String>::new());
    assert_eq!(split_commands(";;  ;"), Vec::<String>::new());
    assert_eq!(split_commands("\u{a0}x y\u{2003}"), vec!["x y"]);
    assert_eq!(split_commands("one"), vec!["one"]);
}

#[test]
fn decimal_numerals() {
    assert_eq!(decimal_string(0), "0");
    assert_eq!(decimal_string(7), "7");
    assert_eq!(decimal_string(1234567890), "1234567890");
    assert_eq!(decimal_string(u64::MAX), u64::MAX.to_string());
}

#[test]
fn same_text_compares_characters() {
    assert!(same_text("abc", "abc"));
    assert!(!same_text("abc", "abd"));
    assert!(!same_text("ab", "abc"));
    assert!(same_text("", ""));
}

#[test]
fn commands_are_trimmed_and_free_of_separators() {
    for query in [" a ; b c ;; d", "x;y", "  ", "\tone\t;\ttwo\t"] {
        for c in split_commands(query) {
            assert!(!c.is_empty());
            assert_eq!(c.trim(), c);
            assert!(!c.contains(';'));
        }
        let joined: Vec<&str> = query.split(';').collect();
        assert_eq!(joined.join(";"), query);
    }
}

#[test]
fn commands_distribute_over_semicolons() {
    for (a, b) in [("x; y", " z "), ("", "a"), (" ; ", ""), ("p", "q;r")] {
        let mut both = split_commands(a);
        both.extend(split_commands(b));
        assert_eq!(split_commands(&format!("{};{}", a, b)), both);
    }
}
