use fileql::query_language::ql::{parse_command, parse_query, Command};
use regex::Regex;

/// The command as a kind and its fields, for comparison.
fn flatten(c: &Command) -> (String, Vec<Option<String>>) {
    match c {
        Command::List { show_size } => ("LIST".into(), vec![Some(show_size.to_string())]),
        Command::Search { pattern, path, condition } => (
            "SEARCH".into(),
            vec![Some(pattern.clone()), Some(path.clone()), condition.clone()],
        ),
        Command::Create { kind, name, path } => (
            "CREATE".into(),
            vec![Some(kind.clone()), Some(name.clone()), Some(path.clone())],
        ),
        Command::Delete { pattern, path, force } => (
            "DELETE".into(),
            vec![Some(pattern.clone()), Some(path.clone()), Some(force.to_string())],
        ),
        Command::Move { pattern, from, to } => (
            "MOVE".into(),
            vec![Some(pattern.clone()), Some(from.clone()), Some(to.clone())],
        ),
        Command::Copy { pattern, from, to } => (
            "COPY".into(),
            vec![Some(pattern.clone()), Some(from.clone()), Some(to.clone())],
        ),
    }
}

/// What the regular expressions of the query grammar make of a line.
fn by_regex(command: &str) -> Option<(String, Vec<Option<String>>)> {
    let search_re =
        Regex::new(r"^SEARCH name: \'(.+?)\' IN \'(.+?)\'(?: WHERE (.+))?$").unwrap();
    let create_re = Regex::new(r"^CREATE (file|folder): \'(.+?)\' IN: \'(.+?)\'$").unwrap();
    let delete_re = Regex::new(r"^DELETE name: \'(.+?)\' IN \'(.+?)\'( FORCE)?$").unwrap();
    let move_re = Regex::new(r"^MOVE name: \'(.+?)\' FROM \'(.+?)\' TO \'(.+?)\'$").unwrap();
    let copy_re = Regex::new(r"^COPY name: \'(.+?)\' FROM \'(.+?)\' TO \'(.+?)\'$").unwrap();
    let g = |caps: &regex::Captures, i: usize| caps.get(i).map(|m| m.as_str().to_string());
    if let Some(c) = search_re.captures(command) {
        Some(("SEARCH".into(), vec![g(&c, 1), g(&c, 2), g(&c, 3)]))
    } else if let Some(c) = create_re.captures(command) {
        Some(("CREATE".into(), vec![g(&c, 1), g(&c, 2), g(&c, 3)]))
    } else if let Some(c) = delete_re.captures(command) {
        Some(("DELETE".into(), vec![g(&c, 1), g(&c, 2), Some(c.get(3).is_some().to_string())]))
    } else if let Some(c) = move_re.captures(command) {
        Some(("MOVE".into(), vec![g(&c, 1), g(&c, 2), g(&c, 3)]))
    } else if let Some(c) = copy_re.captures(command) {
        Some(("COPY".into(), vec![g(&c, 1), g(&c, 2), g(&c, 3)]))
    } else {
        None
    }
}

#[test]
fn parse_search_command() {
    match parse_command("SEARCH name: 'foo' IN '/tmp'").unwrap() {
        Command::Search { pattern, path, condition } => {
            assert_eq!(pattern, "foo");
            assert_eq!(path, "/tmp");
            assert_eq!(condition, None);
        }
        other => panic!("unexpected {:?}", other),
    }
    match parse_command("SEARCH name: 'foo' IN '/tmp' WHERE size > 10").unwrap() {
        Command::Search { condition, .. } => assert_eq!(condition.as_deref(), Some("size > 10")),
        other => panic!("unexpected {:?}", other),
    }
}

#[test]
fn parse_create_delete_move_copy() {
    assert_eq!(
        flatten(&parse_command("CREATE file: 'a.txt' IN: 'dir'").unwrap()),
        ("CREATE".to_string(), vec![Some("file".into()), Some("a.txt".into()), Some("dir".into())])
    );
    assert_eq!(
        flatten(&parse_command("CREATE folder: 'new' IN: '.'").unwrap()).1[0].as_deref(),
        Some("folder")
    );
    assert_eq!(
        flatten(&parse_command("DELETE name: '*.log' IN 'logs' FORCE").unwrap()),
        ("DELETE".to_string(), vec![Some("*.log".into()), Some("logs".into()), Some("true".into())])
    );
    assert_eq!(
        flatten(&parse_command("DELETE name: '*.log' IN 'logs'").unwrap()).1[2].as_deref(),
        Some("false")
    );
    assert_eq!(
        flatten(&parse_command("MOVE name: 'a' FROM 'b' TO 'c'").unwrap()),
        ("MOVE".to_string(), vec![Some("a".into()), Some("b".into()), Some("c".into())])
    );
    assert_eq!(
        flatten(&parse_command("COPY name: 'a' FROM 'b' TO 'c'").unwrap()).0,
        "COPY"
    );
}

#[test]
fn parse_command_groups_are_lazy() {
    assert_eq!(
        flatten(&parse_command("MOVE name: 'a' FROM 'b' TO 'c' TO 'd'").unwrap()).1,
        vec![Some("a".into()), Some("b".into()), Some("c' TO 'd".into())]
    );
    assert_eq!(
        flatten(&parse_command("DELETE name: 'a' IN 'b' FORCE'").unwrap()).1,
        vec![Some("a".into()), Some("b' FORCE".into()), Some("false".into())]
    );
}

#[test]
fn parse_command_rejects_other_lines() {
    for line in [
        "",
        "LIST",
        "SEARCH name: '' IN 'x'",
        "SEARCH name: 'a' IN 'b' FORCE",
        "SEARCH name: 'a\nb' IN 'c'",
        "CREATE link: 'a' IN: 'b'",
        "search name: 'a' IN 'b'",
        "MOVE name: 'a' FROM 'b'",
        " SEARCH name: 'a' IN 'b'",
    ] {
        assert_eq!(parse_command(line).unwrap_err(), "Invalid command syntax", "{:?}", line);
    }
}

#[test]
fn parse_command_agrees_with_the_regular_expressions() {
    let lines = [
        "SEARCH name: 'foo' IN '/tmp'",
        "SEARCH name: 'foo' IN '/tmp' WHERE size > 10",
        "SEARCH name: 'a' IN 'b' WHERE ",
        "SEARCH name: 'a' IN 'b' WHERE x' IN 'y'",
        "SEARCH name: 'a' IN 'b'' IN 'c'",
        "SEARCH name: 'a' IN 'b' WHERE c\nd",
        "SEARCH name: ''' IN ''",
        "SEARCH name: '' IN '''",
        "CREATE file: 'x' IN: 'y'",
        "CREATE folder: 'x' IN: 'y' IN: 'z'",
        "CREATE files: 'x' IN: 'y'",
        "DELETE name: 'a' IN 'b' FORCE",
        "DELETE name: 'a' IN 'b' FORCE FORCE'",
        "DELETE name: 'a' IN 'b'",
        "DELETE name: 'a' IN 'b",
        "MOVE name: 'a' FROM 'b' TO 'c'",
        "MOVE name: 'a' FROM 'b' FROM 'c' TO 'd'",
        "MOVE name: 'x' FROM 'y' TO ''",
        "COPY name: 'é' FROM '名' TO '→'",
        "COPY name: 'a' FROM 'b' TO 'c'\n",
        "DELETE name: 'a' IN 'b' WHERE c",
        "SEARCH name: 'a' IN 'b' FORCE'",
    ];
    for line in lines {
        let ours = parse_command(line).ok().map(|c| flatten(&c));
        assert_eq!(ours, by_regex(line), "{:?}", line);
    }
}

#[test]
fn parse_query_splits_trims_and_parses() {
    let parsed = parse_query("  SEARCH name: 'a' IN 'b' ; ;\n\tLIST  ;MOVE name: 'a' FROM 'b' TO 'c'");
    assert_eq!(parsed.len(), 3);
    assert_eq!(parsed[0].0, "SEARCH name: 'a' IN 'b'");
    assert!(parsed[0].1.is_ok());
    assert_eq!(parsed[1].0, "LIST");
    assert_eq!(parsed[1].1.as_ref().unwrap_err(), "Invalid command syntax");
    assert_eq!(parsed[2].0, "MOVE name: 'a' FROM 'b' TO 'c'");
    assert!(matches!(parsed[2].1, Ok(Command::Move { .. })));
    assert!(parse_query("").is_empty());
    assert!(parse_query(" ; ;; ").is_empty());
}

/// The line that spells a command, as the query grammar writes it.
fn line_of(c: &Command) -> String {
    match c {
        Command::Search { pattern, path, condition } => format!(
            "SEARCH name: '{}' IN '{}'{}",
            pattern,
            path,
            condition.as_ref().map(|w| format!(" WHERE {}", w)).unwrap_or_default()
        ),
        Command::Create { kind, name, path } => format!("CREATE {}: '{}' IN: '{}'", kind, name, path),
        Command::Delete { pattern, path, force } => format!(
            "DELETE name: '{}' IN '{}'{}",
            pattern,
            path,
            if *force { " FORCE" } else { "" }
        ),
        Command::Move { pattern, from, to } => format!("MOVE name: '{}' FROM '{}' TO '{}'", pattern, from, to),
        Command::Copy { pattern, from, to } => format!("COPY name: '{}' FROM '{}' TO '{}'", pattern, from, to),
        Command::List { .. } => String::new(),
    }
}

#[test]
fn parsed_commands_spell_their_lines() {
    for line in [
        "SEARCH name: 'a' IN 'b' WHERE c' IN 'd",
        "MOVE name: 'a' FROM 'b' TO 'c' TO 'd'",
        "DELETE name: 'x' IN 'y' FORCE",
        "CREATE folder: 'n' IN: 'p'",
        "COPY name: ''' FROM 'b' TO 'c'",
    ] {
        let c = parse_command(line).unwrap();
        assert_eq!(line_of(&c), line);
    }
}

#[test]
fn written_commands_parse_back() {
    let commands = vec![
        Command::Search { pattern: "*.rs".into(), path: "src".into(), condition: None },
        Command::Search { pattern: "a b".into(), path: "/x/y".into(), condition: Some("size > 'big'".into()) },
        Command::Create { kind: "file".into(), name: "n.txt".into(), path: "d".into() },
        Command::Create { kind: "folder".into(), name: "new".into(), path: ".".into() },
        Command::Delete { pattern: "tmp".into(), path: "/".into(), force: true },
        Command::Delete { pattern: "tmp".into(), path: "/".into(), force: false },
        Command::Move { pattern: "a".into(), from: "FROM".into(), to: "TO".into() },
        Command::Copy { pattern: "é".into(), from: "名".into(), to: "→".into() },
    ];
    for c in commands {
        let back = parse_command(&line_of(&c)).unwrap();
        assert_eq!(flatten(&back), flatten(&c));
    }
}
