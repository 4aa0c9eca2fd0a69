//! The line-oriented query language: `;`-separated commands such as
//! `SEARCH name: 'x' IN 'dir'` or `MOVE name: 'a' FROM 'b' TO 'c'`.

use vstd::prelude::*;

use crate::query_language::pattern::{
    captures_fit, captures_view, group_kinds, lemma_lazy_stops_at, lemma_literal_mismatch,
    lemma_match_renders, lemma_match_shape, match_at, match_pieces, opt_text, pattern_match,
    pieces_view, render, starts_at, Captures, Piece, PieceView,
};
use crate::text::{chars_of, commands_spec, split_commands, string_from_chars, strings_view};

verus! {

/// A command of the query language.
#[derive(Debug)]
pub enum Command {
    List { show_size: bool },
    Search { pattern: String, path: String, condition: Option<String> },
    Create { kind: String, name: String, path: String },
    Delete { pattern: String, path: String, force: bool },
    Move { pattern: String, from: String, to: String },
    Copy { pattern: String, from: String, to: String },
}

/// The mathematical value of a query command.
#[allow(inconsistent_fields)]
pub enum CommandView {
    List { show_size: bool },
    Search { pattern: Seq<char>, path: Seq<char>, condition: Option<Seq<char>> },
    Create { kind: Seq<char>, name: Seq<char>, path: Seq<char> },
    Delete { pattern: Seq<char>, path: Seq<char>, force: bool },
    Move { pattern: Seq<char>, from: Seq<char>, to: Seq<char> },
    Copy { pattern: Seq<char>, from: Seq<char>, to: Seq<char> },
}

impl View for Command {
    type V = CommandView;

    open spec fn view(&self) -> CommandView {
        match self {
            Command::List { show_size } => CommandView::List { show_size: *show_size },
            Command::Search { pattern, path, condition } => CommandView::Search {
                pattern: pattern@,
                path: path@,
                condition: match condition {
                    Some(c) => Some(c@),
                    None => None,
                },
            },
            Command::Create { kind, name, path } => CommandView::Create {
                kind: kind@,
                name: name@,
                path: path@,
            },
            Command::Delete { pattern, path, force } => CommandView::Delete {
                pattern: pattern@,
                path: path@,
                force: *force,
            },
            Command::Move { pattern, from, to } => CommandView::Move {
                pattern: pattern@,
                from: from@,
                to: to@,
            },
            Command::Copy { pattern, from, to } => CommandView::Copy {
                pattern: pattern@,
                from: from@,
                to: to@,
            },
        }
    }
}

/// `SEARCH name: '<pattern>' IN '<path>'`, optionally followed by
/// ` WHERE <condition>`.
pub open spec fn search_pattern() -> Seq<PieceView> {
    seq![
        PieceView::Literal("SEARCH name: '"@),
        PieceView::Lazy,
        PieceView::Literal("' IN '"@),
        PieceView::Lazy,
        PieceView::Literal("'"@),
        PieceView::OptionalTail(" WHERE "@),
    ]
}

/// `CREATE file: '<name>' IN: '<path>'` or `CREATE folder: ...`.
pub open spec fn create_pattern() -> Seq<PieceView> {
    seq![
        PieceView::Literal("CREATE "@),
        PieceView::Choice(seq!["file"@, "folder"@]),
        PieceView::Literal(": '"@),
        PieceView::Lazy,
        PieceView::Literal("' IN: '"@),
        PieceView::Lazy,
        PieceView::Literal("'"@),
    ]
}

/// `DELETE name: '<pattern>' IN '<path>'`, optionally followed by ` FORCE`.
pub open spec fn delete_pattern() -> Seq<PieceView> {
    seq![
        PieceView::Literal("DELETE name: '"@),
        PieceView::Lazy,
        PieceView::Literal("' IN '"@),
        PieceView::Lazy,
        PieceView::Literal("'"@),
        PieceView::Optional(" FORCE"@),
    ]
}

/// `<head><pattern>' FROM '<from>' TO '<to>'`, where `head` is
/// `MOVE name: '` or `COPY name: '`.
pub open spec fn transfer_pattern(head: Seq<char>) -> Seq<PieceView> {
    seq![
        PieceView::Literal(head),
        PieceView::Lazy,
        PieceView::Literal("' FROM '"@),
        PieceView::Lazy,
        PieceView::Literal("' TO '"@),
        PieceView::Lazy,
        PieceView::Literal("'"@),
    ]
}

/// The text of a present capture.
pub open spec fn cap(c: Captures, k: int) -> Seq<char> {
    c[k]->Some_0
}

/// The command that a line spells, tried against the patterns in the order
/// `SEARCH`, `CREATE`, `DELETE`, `MOVE`, `COPY`.
pub open spec fn parse_command_spec(s: Seq<char>) -> Result<CommandView, Seq<char>> {
    match pattern_match(search_pattern(), s) {
        Some(c) => Ok(CommandView::Search { pattern: cap(c, 0), path: cap(c, 1), condition: c[2] }),
        None => match pattern_match(create_pattern(), s) {
            Some(c) => Ok(CommandView::Create { kind: cap(c, 0), name: cap(c, 1), path: cap(c, 2) }),
            None => match pattern_match(delete_pattern(), s) {
                Some(c) => Ok(
                    CommandView::Delete { pattern: cap(c, 0), path: cap(c, 1), force: c[2] is Some },
                ),
                None => match pattern_match(transfer_pattern("MOVE name: '"@), s) {
                    Some(c) => Ok(
                        CommandView::Move { pattern: cap(c, 0), from: cap(c, 1), to: cap(c, 2) },
                    ),
                    None => match pattern_match(transfer_pattern("COPY name: '"@), s) {
                        Some(c) => Ok(
                            CommandView::Copy { pattern: cap(c, 0), from: cap(c, 1), to: cap(c, 2) },
                        ),
                        None => Err("Invalid command syntax"@),
                    },
                },
            },
        },
    }
}

fn search_pieces() -> (r: Vec<Piece>)
    ensures
        pieces_view(r@) == search_pattern(),
{
    let r = vec![
        Piece::Literal(chars_of("SEARCH name: '")),
        Piece::Lazy,
        Piece::Literal(chars_of("' IN '")),
        Piece::Lazy,
        Piece::Literal(chars_of("'")),
        Piece::OptionalTail(chars_of(" WHERE ")),
    ];
    assert(pieces_view(r@) =~= search_pattern());
    r
}

fn create_pieces() -> (r: Vec<Piece>)
    ensures
        pieces_view(r@) == create_pattern(),
{
    let alts = vec![chars_of("file"), chars_of("folder")];
    assert(crate::query_language::pattern::texts_view(alts@) =~= seq!["file"@, "folder"@]);
    let r = vec![
        Piece::Literal(chars_of("CREATE ")),
        Piece::Choice(alts),
        Piece::Literal(chars_of(": '")),
        Piece::Lazy,
        Piece::Literal(chars_of("' IN: '")),
        Piece::Lazy,
        Piece::Literal(chars_of("'")),
    ];
    assert(pieces_view(r@) =~= create_pattern());
    r
}

fn delete_pieces() -> (r: Vec<Piece>)
    ensures
        pieces_view(r@) == delete_pattern(),
{
    let r = vec![
        Piece::Literal(chars_of("DELETE name: '")),
        Piece::Lazy,
        Piece::Literal(chars_of("' IN '")),
        Piece::Lazy,
        Piece::Literal(chars_of("'")),
        Piece::Optional(chars_of(" FORCE")),
    ];
    assert(pieces_view(r@) =~= delete_pattern());
    r
}

fn transfer_pieces(head: &str) -> (r: Vec<Piece>)
    ensures
        pieces_view(r@) == transfer_pattern(head@),
{
    let r = vec![
        Piece::Literal(chars_of(head)),
        Piece::Lazy,
        Piece::Literal(chars_of("' FROM '")),
        Piece::Lazy,
        Piece::Literal(chars_of("' TO '")),
        Piece::Lazy,
        Piece::Literal(chars_of("'")),
    ];
    assert(pieces_view(r@) =~= transfer_pattern(head@));
    r
}

/// The text of capture `k`, which is present.
fn capture_text(c: &Vec<Option<Vec<char>>>, k: usize) -> (r: String)
    requires
        k < c@.len(),
        captures_view(c@)[k as int] is Some,
    ensures
        r@ == cap(captures_view(c@), k as int),
{
    match &c[k] {
        Some(v) => string_from_chars(v),
        None => {
            assert(false);
            String::new()
        },
    }
}

/// The text of capture `k`, if present.
fn capture_opt_text(c: &Vec<Option<Vec<char>>>, k: usize) -> (r: Option<String>)
    requires
        k < c@.len(),
    ensures
        match r {
            Some(x) => captures_view(c@)[k as int] == Some(x@),
            None => captures_view(c@)[k as int] is None,
        },
{
    match &c[k] {
        Some(v) => Some(string_from_chars(v)),
        None => None,
    }
}

/// Parses one query command.
///
/// Fails with `Invalid command syntax` when the line fits none of the
/// command patterns.
pub fn parse_command(command: &str) -> (r: Result<Command, String>)
    ensures
        match parse_command_spec(command@) {
            Ok(c) => r matches Ok(x) && x@ == c,
            Err(e) => r matches Err(m) && m@ == e,
        },
{
    let s = chars_of(command);
    let ghost three: Seq<bool> = seq![true, true, false];
    let ghost all_three: Seq<bool> = seq![true, true, true];

    let p = search_pieces();
    if let Some(c) = match_pieces(&p, 0, &s, 0) {
        proof {
            lemma_match_shape(search_pattern(), 0, s@, 0);
            reveal_with_fuel(group_kinds, 7);
            assert(group_kinds(search_pattern(), 0) =~= three);
            assert(three[0] && three[1]);
        }
        return Ok(
            Command::Search {
                pattern: capture_text(&c, 0),
                path: capture_text(&c, 1),
                condition: capture_opt_text(&c, 2),
            },
        );
    }
    let p = create_pieces();
    if let Some(c) = match_pieces(&p, 0, &s, 0) {
        proof {
            lemma_match_shape(create_pattern(), 0, s@, 0);
            reveal_with_fuel(group_kinds, 8);
            assert(group_kinds(create_pattern(), 0) =~= all_three);
            assert(all_three[0] && all_three[1] && all_three[2]);
        }
        return Ok(
            Command::Create {
                kind: capture_text(&c, 0),
                name: capture_text(&c, 1),
                path: capture_text(&c, 2),
            },
        );
    }
    let p = delete_pieces();
    if let Some(c) = match_pieces(&p, 0, &s, 0) {
        proof {
            lemma_match_shape(delete_pattern(), 0, s@, 0);
            reveal_with_fuel(group_kinds, 7);
            assert(group_kinds(delete_pattern(), 0) =~= three);
            assert(three[0] && three[1]);
        }
        let force = capture_opt_text(&c, 2).is_some();
        return Ok(
            Command::Delete { pattern: capture_text(&c, 0), path: capture_text(&c, 1), force },
        );
    }
    let p = transfer_pieces("MOVE name: '");
    if let Some(c) = match_pieces(&p, 0, &s, 0) {
        proof {
            lemma_match_shape(transfer_pattern("MOVE name: '"@), 0, s@, 0);
            reveal_with_fuel(group_kinds, 8);
            assert(group_kinds(transfer_pattern("MOVE name: '"@), 0) =~= all_three);
            assert(all_three[0] && all_three[1] && all_three[2]);
        }
        return Ok(
            Command::Move {
                pattern: capture_text(&c, 0),
                from: capture_text(&c, 1),
                to: capture_text(&c, 2),
            },
        );
    }
    let p = transfer_pieces("COPY name: '");
    if let Some(c) = match_pieces(&p, 0, &s, 0) {
        proof {
            lemma_match_shape(transfer_pattern("COPY name: '"@), 0, s@, 0);
            reveal_with_fuel(group_kinds, 8);
            assert(group_kinds(transfer_pattern("COPY name: '"@), 0) =~= all_three);
            assert(all_three[0] && all_three[1] && all_three[2]);
        }
        return Ok(
            Command::Copy {
                pattern: capture_text(&c, 0),
                from: capture_text(&c, 1),
                to: capture_text(&c, 2),
            },
        );
    }
    Err(String::from_str("Invalid command syntax"))
}

/// The line that spells a command (`List` has no line form).
pub open spec fn command_text(c: CommandView) -> Seq<char> {
    match c {
        CommandView::Search { pattern, path, condition } => "SEARCH name: '"@ + pattern
            + "' IN '"@ + path + "'"@ + match condition {
            Some(w) => " WHERE "@ + w,
            None => seq![],
        },
        CommandView::Create { kind, name, path } => "CREATE "@ + kind + ": '"@ + name + "' IN: '"@
            + path + "'"@,
        CommandView::Delete { pattern, path, force } => "DELETE name: '"@ + pattern + "' IN '"@
            + path + "'"@ + if force {
            " FORCE"@
        } else {
            seq![]
        },
        CommandView::Move { pattern, from, to } => "MOVE name: '"@ + pattern + "' FROM '"@ + from
            + "' TO '"@ + to + "'"@,
        CommandView::Copy { pattern, from, to } => "COPY name: '"@ + pattern + "' FROM '"@ + from
            + "' TO '"@ + to + "'"@,
        CommandView::List { .. } => seq![],
    }
}

proof fn lemma_pattern_spells(p: Seq<PieceView>, s: Seq<char>, kinds: Seq<bool>)
    requires
        group_kinds(p, 0) == kinds,
    ensures
        pattern_match(p, s) matches Some(c) ==> s == render(p, 0, c) && captures_fit(c, kinds),
{
    lemma_match_renders(p, 0, s, 0);
    lemma_match_shape(p, 0, s, 0);
    assert(s.subrange(0, s.len() as int) =~= s);
}

proof fn lemma_search_spells(s: Seq<char>)
    ensures
        pattern_match(search_pattern(), s) matches Some(c) ==> s == command_text(
            CommandView::Search { pattern: cap(c, 0), path: cap(c, 1), condition: c[2] },
        ),
{
    let p = search_pattern();
    let kinds: Seq<bool> = seq![true, true, false];
    assert(group_kinds(p, 0) =~= kinds) by {
        reveal_with_fuel(group_kinds, 7);
    }
    lemma_pattern_spells(p, s, kinds);
    if let Some(c) = pattern_match(p, s) {
        assert(kinds[0] && kinds[1]);
        let c1 = c.drop_first();
        let c2 = c1.drop_first();
        let c3 = c2.drop_first();
        let tail = if c2[0] is Some {
            " WHERE "@ + opt_text(c2[0])
        } else {
            seq![]
        };
        assert(render(p, 6, c3) =~= Seq::<char>::empty());
        assert(render(p, 5, c2) =~= tail);
        assert(render(p, 4, c2) == "'"@ + render(p, 5, c2));
        assert(render(p, 3, c1) == opt_text(c1[0]) + render(p, 4, c2));
        assert(render(p, 2, c1) == "' IN '"@ + render(p, 3, c1));
        assert(render(p, 1, c) == opt_text(c[0]) + render(p, 2, c1));
        assert(render(p, 0, c) == "SEARCH name: '"@ + render(p, 1, c));
        assert(c1[0] == c[1] && c2[0] == c[2]);
        assert(render(p, 0, c) =~= command_text(
            CommandView::Search { pattern: cap(c, 0), path: cap(c, 1), condition: c[2] },
        ));
    }
}

proof fn lemma_create_spells(s: Seq<char>)
    ensures
        pattern_match(create_pattern(), s) matches Some(c) ==> s == command_text(
            CommandView::Create { kind: cap(c, 0), name: cap(c, 1), path: cap(c, 2) },
        ),
{
    let p = create_pattern();
    let kinds: Seq<bool> = seq![true, true, true];
    assert(group_kinds(p, 0) =~= kinds) by {
        reveal_with_fuel(group_kinds, 8);
    }
    lemma_pattern_spells(p, s, kinds);
    if let Some(c) = pattern_match(p, s) {
        assert(kinds[0] && kinds[1] && kinds[2]);
        let c1 = c.drop_first();
        let c2 = c1.drop_first();
        let c3 = c2.drop_first();
        assert(render(p, 7, c3) =~= Seq::<char>::empty());
        assert(render(p, 6, c3) == "'"@ + render(p, 7, c3));
        assert(render(p, 5, c2) == opt_text(c2[0]) + render(p, 6, c3));
        assert(render(p, 4, c2) == "' IN: '"@ + render(p, 5, c2));
        assert(render(p, 3, c1) == opt_text(c1[0]) + render(p, 4, c2));
        assert(render(p, 2, c1) == ": '"@ + render(p, 3, c1));
        assert(render(p, 1, c) == opt_text(c[0]) + render(p, 2, c1));
        assert(render(p, 0, c) == "CREATE "@ + render(p, 1, c));
        assert(c1[0] == c[1] && c2[0] == c[2]);
        assert(render(p, 0, c) =~= command_text(
            CommandView::Create { kind: cap(c, 0), name: cap(c, 1), path: cap(c, 2) },
        ));
    }
}

proof fn lemma_delete_spells(s: Seq<char>)
    ensures
        pattern_match(delete_pattern(), s) matches Some(c) ==> s == command_text(
            CommandView::Delete { pattern: cap(c, 0), path: cap(c, 1), force: c[2] is Some },
        ),
{
    let p = delete_pattern();
    let kinds: Seq<bool> = seq![true, true, false];
    assert(group_kinds(p, 0) =~= kinds) by {
        reveal_with_fuel(group_kinds, 7);
    }
    lemma_pattern_spells(p, s, kinds);
    if let Some(c) = pattern_match(p, s) {
        assert(kinds[0] && kinds[1]);
        let c1 = c.drop_first();
        let c2 = c1.drop_first();
        let c3 = c2.drop_first();
        let tail = if c2[0] is Some {
            " FORCE"@
        } else {
            seq![]
        };
        assert(render(p, 6, c3) =~= Seq::<char>::empty());
        assert(render(p, 5, c2) =~= tail);
        assert(render(p, 4, c2) == "'"@ + render(p, 5, c2));
        assert(render(p, 3, c1) == opt_text(c1[0]) + render(p, 4, c2));
        assert(render(p, 2, c1) == "' IN '"@ + render(p, 3, c1));
        assert(render(p, 1, c) == opt_text(c[0]) + render(p, 2, c1));
        assert(render(p, 0, c) == "DELETE name: '"@ + render(p, 1, c));
        assert(c1[0] == c[1] && c2[0] == c[2]);
        assert(render(p, 0, c) =~= command_text(
            CommandView::Delete { pattern: cap(c, 0), path: cap(c, 1), force: c[2] is Some },
        ));
    }
}

proof fn lemma_transfer_spells(head: Seq<char>, s: Seq<char>)
    ensures
        pattern_match(transfer_pattern(head), s) matches Some(c) ==> s == head + cap(c, 0)
            + "' FROM '"@ + cap(c, 1) + "' TO '"@ + cap(c, 2) + "'"@,
{
    let p = transfer_pattern(head);
    let kinds: Seq<bool> = seq![true, true, true];
    assert(group_kinds(p, 0) =~= kinds) by {
        reveal_with_fuel(group_kinds, 8);
    }
    lemma_pattern_spells(p, s, kinds);
    if let Some(c) = pattern_match(p, s) {
        assert(kinds[0] && kinds[1] && kinds[2]);
        let c1 = c.drop_first();
        let c2 = c1.drop_first();
        let c3 = c2.drop_first();
        assert(render(p, 7, c3) =~= Seq::<char>::empty());
        assert(render(p, 6, c3) == "'"@ + render(p, 7, c3));
        assert(render(p, 5, c2) == opt_text(c2[0]) + render(p, 6, c3));
        assert(render(p, 4, c2) == "' TO '"@ + render(p, 5, c2));
        assert(render(p, 3, c1) == opt_text(c1[0]) + render(p, 4, c2));
        assert(render(p, 2, c1) == "' FROM '"@ + render(p, 3, c1));
        assert(render(p, 1, c) == opt_text(c[0]) + render(p, 2, c1));
        assert(render(p, 0, c) == head + render(p, 1, c));
        assert(c1[0] == c[1] && c2[0] == c[2]);
        assert(render(p, 0, c) =~= head + cap(c, 0) + "' FROM '"@ + cap(c, 1) + "' TO '"@ + cap(
            c,
            2,
        ) + "'"@);
    }
}

/// A parsed command is exactly the line that spells it: its fields are the
/// parts of the line between the fixed words of its pattern.
pub proof fn lemma_parsed_command_spells_line(s: Seq<char>)
    ensures
        parse_command_spec(s) matches Ok(c) ==> command_text(c) == s,
{
    lemma_search_spells(s);
    lemma_create_spells(s);
    lemma_delete_spells(s);
    lemma_transfer_spells("MOVE name: '"@, s);
    lemma_transfer_spells("COPY name: '"@, s);
}

/// A field that can stand between quotes: non-empty, without `'` and
/// without a line break.
pub open spec fn quoted_field_ok(f: Seq<char>) -> bool {
    f.len() > 0 && forall|k: int| 0 <= k < f.len() ==> f[k] != '\'' && f[k] != '\n'
}

/// A field that can end a line: non-empty and without a line break.
pub open spec fn tail_field_ok(f: Seq<char>) -> bool {
    f.len() > 0 && forall|k: int| 0 <= k < f.len() ==> f[k] != '\n'
}

proof fn lemma_field_chars(s: Seq<char>, from: int, f: Seq<char>)
    requires
        0 <= from,
        from + f.len() <= s.len(),
        s.subrange(from, from + f.len()) == f,
    ensures
        forall|k: int| from <= k < from + f.len() ==> s[k] == f[k - from],
{
    assert forall|k: int| from <= k < from + f.len() implies s[k] == f[k - from] by {
        assert(s.subrange(from, from + f.len())[k - from] == s[k]);
    }
}

proof fn lemma_transfer_matches(head: Seq<char>, a: Seq<char>, b: Seq<char>, c: Seq<char>)
    requires
        quoted_field_ok(a),
        quoted_field_ok(b),
        quoted_field_ok(c),
    ensures
        pattern_match(
            transfer_pattern(head),
            head + a + "' FROM '"@ + b + "' TO '"@ + c + "'"@,
        ) == Some(seq![Some(a), Some(b), Some(c)]),
{
    reveal_strlit("' FROM '");
    reveal_strlit("' TO '");
    reveal_strlit("'");
    let p = transfer_pattern(head);
    let q = "'"@;
    let fr = "' FROM '"@;
    let tt = "' TO '"@;
    let s = head + a + fr + b + tt + c + q;
    let p1 = head.len() as int;
    let e1 = p1 + a.len();
    let p2 = e1 + fr.len();
    let e2 = p2 + b.len();
    let p3 = e2 + tt.len();
    let e3 = p3 + c.len();
    assert(s.len() == e3 + 1);
    assert(s.subrange(0, p1) =~= head);
    assert(s.subrange(p1, e1) =~= a);
    assert(s.subrange(e1, p2) =~= fr);
    assert(s.subrange(p2, e2) =~= b);
    assert(s.subrange(e2, p3) =~= tt);
    assert(s.subrange(p3, e3) =~= c);
    assert(s.subrange(e3, e3 + 1) =~= q);
    lemma_field_chars(s, p1, a);
    lemma_field_chars(s, p2, b);
    lemma_field_chars(s, p3, c);
    let empty = Seq::<Option<Seq<char>>>::empty();
    assert(match_at(p, 7, s, e3 + 1) == Some(empty));
    assert(match_at(p, 6, s, e3) == Some(empty));
    lemma_lazy_stops_at(p, 5, s, p3, p3 + 1, e3);
    let r5 = seq![Some(c)] + empty;
    assert(s.subrange(p3, e3) == c);
    assert(match_at(p, 5, s, p3) == Some(r5));
    assert(match_at(p, 4, s, e2) == Some(r5));
    lemma_lazy_stops_at(p, 3, s, p2, p2 + 1, e2);
    let r3 = seq![Some(b)] + r5;
    assert(match_at(p, 3, s, p2) == Some(r3));
    assert(match_at(p, 2, s, e1) == Some(r3));
    lemma_lazy_stops_at(p, 1, s, p1, p1 + 1, e1);
    let r1 = seq![Some(a)] + r3;
    assert(match_at(p, 1, s, p1) == Some(r1));
    assert(match_at(p, 0, s, 0) == Some(r1));
    assert(r1 =~= seq![Some(a), Some(b), Some(c)]);
}

proof fn lemma_line_runs_to_end(s: Seq<char>, from: int)
    requires
        0 <= from <= s.len(),
        forall|k: int| from <= k < s.len() ==> s[k] != '\n',
    ensures
        crate::query_language::pattern::line_end(s, from) == s.len(),
{
    crate::query_language::pattern::lemma_line_end_bounds(s, from);
}

/// The text after the path of a `SEARCH` line.
pub open spec fn where_text(condition: Option<Seq<char>>) -> Seq<char> {
    match condition {
        Some(w) => " WHERE "@ + w,
        None => seq![],
    }
}

proof fn lemma_search_matches(a: Seq<char>, b: Seq<char>, condition: Option<Seq<char>>)
    requires
        quoted_field_ok(a),
        quoted_field_ok(b),
        condition matches Some(w) ==> tail_field_ok(w),
    ensures
        pattern_match(
            search_pattern(),
            "SEARCH name: '"@ + a + "' IN '"@ + b + "'"@ + where_text(condition),
        ) == Some(seq![Some(a), Some(b), condition]),
{
    reveal_strlit("' IN '");
    reveal_strlit("'");
    reveal_strlit(" WHERE ");
    let p = search_pattern();
    let head = "SEARCH name: '"@;
    let q = "'"@;
    let inn = "' IN '"@;
    let wt = " WHERE "@;
    let tail = where_text(condition);
    let s = head + a + inn + b + q + tail;
    let p1 = head.len() as int;
    let e1 = p1 + a.len();
    let p2 = e1 + inn.len();
    let e2 = p2 + b.len();
    let p5 = e2 + 1;
    assert(s.len() == p5 + tail.len());
    assert(s.subrange(0, p1) =~= head);
    assert(s.subrange(p1, e1) =~= a);
    assert(s.subrange(e1, p2) =~= inn);
    assert(s.subrange(p2, e2) =~= b);
    assert(s.subrange(e2, p5) =~= q);
    assert(s.subrange(p5, s.len() as int) =~= tail);
    lemma_field_chars(s, p1, a);
    lemma_field_chars(s, p2, b);
    let empty = Seq::<Option<Seq<char>>>::empty();
    assert(match_at(p, 6, s, s.len() as int) == Some(empty));
    let r5 = seq![condition];
    match condition {
        Some(w) => {
            let q5 = p5 + wt.len();
            assert(s.subrange(p5, q5) =~= wt);
            assert(s.subrange(q5, s.len() as int) =~= w);
            lemma_field_chars(s, q5, w);
            lemma_line_runs_to_end(s, q5);
            assert(starts_at(s, p5, wt));
            assert(crate::query_language::pattern::greedy_at(p, 5, s, q5, s.len() as int) == Some(
                seq![Some(w)] + empty,
            ));
            assert(seq![Some(w)] + empty =~= r5);
        },
        None => {
            assert(!starts_at(s, p5, wt));
            assert(seq![None] + empty =~= r5);
        },
    }
    assert(match_at(p, 5, s, p5) == Some(r5));
    assert(match_at(p, 4, s, e2) == Some(r5));
    lemma_lazy_stops_at(p, 3, s, p2, p2 + 1, e2);
    let r3 = seq![Some(b)] + r5;
    assert(match_at(p, 3, s, p2) == Some(r3));
    assert(match_at(p, 2, s, e1) == Some(r3));
    lemma_lazy_stops_at(p, 1, s, p1, p1 + 1, e1);
    let r1 = seq![Some(a)] + r3;
    assert(match_at(p, 1, s, p1) == Some(r1));
    assert(match_at(p, 0, s, 0) == Some(r1));
    assert(r1 =~= seq![Some(a), Some(b), condition]);
}

/// The text after the path of a `DELETE` line.
pub open spec fn force_text(force: bool) -> Seq<char> {
    if force {
        " FORCE"@
    } else {
        seq![]
    }
}

proof fn lemma_delete_matches(a: Seq<char>, b: Seq<char>, force: bool)
    requires
        quoted_field_ok(a),
        quoted_field_ok(b),
    ensures
        pattern_match(
            delete_pattern(),
            "DELETE name: '"@ + a + "' IN '"@ + b + "'"@ + force_text(force),
        ) == Some(seq![Some(a), Some(b), if force {
            Some(" FORCE"@)
        } else {
            None
        }]),
{
    reveal_strlit("' IN '");
    reveal_strlit("'");
    reveal_strlit(" FORCE");
    let p = delete_pattern();
    let head = "DELETE name: '"@;
    let q = "'"@;
    let inn = "' IN '"@;
    let tail = force_text(force);
    let s = head + a + inn + b + q + tail;
    let p1 = head.len() as int;
    let e1 = p1 + a.len();
    let p2 = e1 + inn.len();
    let e2 = p2 + b.len();
    let p5 = e2 + 1;
    assert(s.len() == p5 + tail.len());
    assert(s.subrange(0, p1) =~= head);
    assert(s.subrange(p1, e1) =~= a);
    assert(s.subrange(e1, p2) =~= inn);
    assert(s.subrange(p2, e2) =~= b);
    assert(s.subrange(e2, p5) =~= q);
    assert(s.subrange(p5, s.len() as int) =~= tail);
    lemma_field_chars(s, p1, a);
    lemma_field_chars(s, p2, b);
    let empty = Seq::<Option<Seq<char>>>::empty();
    assert(match_at(p, 6, s, s.len() as int) == Some(empty));
    let f: Option<Seq<char>> = if force {
        Some(" FORCE"@)
    } else {
        None
    };
    let r5 = seq![f];
    if force {
        assert(starts_at(s, p5, " FORCE"@));
        assert(seq![Some(" FORCE"@)] + empty =~= r5);
    } else {
        assert(!starts_at(s, p5, " FORCE"@));
        assert(seq![None] + empty =~= r5);
    }
    assert(match_at(p, 5, s, p5) == Some(r5));
    assert(match_at(p, 4, s, e2) == Some(r5));
    lemma_lazy_stops_at(p, 3, s, p2, p2 + 1, e2);
    let r3 = seq![Some(b)] + r5;
    assert(match_at(p, 3, s, p2) == Some(r3));
    assert(match_at(p, 2, s, e1) == Some(r3));
    lemma_lazy_stops_at(p, 1, s, p1, p1 + 1, e1);
    let r1 = seq![Some(a)] + r3;
    assert(match_at(p, 1, s, p1) == Some(r1));
    assert(match_at(p, 0, s, 0) == Some(r1));
    assert(r1 =~= seq![Some(a), Some(b), f]);
}

proof fn lemma_create_matches(kind: Seq<char>, a: Seq<char>, b: Seq<char>)
    requires
        kind == "file"@ || kind == "folder"@,
        quoted_field_ok(a),
        quoted_field_ok(b),
    ensures
        pattern_match(create_pattern(), "CREATE "@ + kind + ": '"@ + a + "' IN: '"@ + b + "'"@)
            == Some(seq![Some(kind), Some(a), Some(b)]),
{
    reveal_strlit("' IN: '");
    reveal_strlit("'");
    reveal_strlit(": '");
    reveal_strlit("file");
    reveal_strlit("folder");
    let p = create_pattern();
    let head = "CREATE "@;
    let q = "'"@;
    let col = ": '"@;
    let inn = "' IN: '"@;
    let s = head + kind + col + a + inn + b + q;
    let k1 = head.len() as int;
    let p1 = k1 + kind.len();
    let p2 = p1 + col.len();
    let e2 = p2 + a.len();
    let p3 = e2 + inn.len();
    let e3 = p3 + b.len();
    assert(s.len() == e3 + 1);
    assert(s.subrange(0, k1) =~= head);
    assert(s.subrange(k1, p1) =~= kind);
    assert(s.subrange(p1, p2) =~= col);
    assert(s.subrange(p2, e2) =~= a);
    assert(s.subrange(e2, p3) =~= inn);
    assert(s.subrange(p3, e3) =~= b);
    assert(s.subrange(e3, e3 + 1) =~= q);
    lemma_field_chars(s, p2, a);
    lemma_field_chars(s, p3, b);
    let empty = Seq::<Option<Seq<char>>>::empty();
    assert(match_at(p, 7, s, e3 + 1) == Some(empty));
    assert(match_at(p, 6, s, e3) == Some(empty));
    lemma_lazy_stops_at(p, 5, s, p3, p3 + 1, e3);
    let r5 = seq![Some(b)] + empty;
    assert(match_at(p, 5, s, p3) == Some(r5));
    assert(match_at(p, 4, s, e2) == Some(r5));
    lemma_lazy_stops_at(p, 3, s, p2, p2 + 1, e2);
    let r3 = seq![Some(a)] + r5;
    assert(match_at(p, 3, s, p2) == Some(r3));
    assert(match_at(p, 2, s, p1) == Some(r3));
    let alts = seq!["file"@, "folder"@];
    let r1 = seq![Some(kind)] + r3;
    if kind == "file"@ {
        assert(starts_at(s, k1, alts[0]));
        assert(crate::query_language::pattern::choice_at(p, 1, s, k1, alts, 0) == Some(r1));
    } else {
        assert(s[k1 + 1] == kind[1]);
        assert(!starts_at(s, k1, alts[0])) by {
            if starts_at(s, k1, alts[0]) {
                assert(s.subrange(k1, k1 + 4)[1] == s[k1 + 1]);
            }
        }
        assert(starts_at(s, k1, alts[1]));
        assert(crate::query_language::pattern::choice_at(p, 1, s, k1, alts, 1) == Some(r1));
        assert(crate::query_language::pattern::choice_at(p, 1, s, k1, alts, 0) == Some(r1));
    }
    assert(match_at(p, 1, s, k1) == Some(r1));
    assert(match_at(p, 0, s, 0) == Some(r1));
    assert(r1 =~= seq![Some(kind), Some(a), Some(b)]);
}

proof fn lemma_head_excludes(p: Seq<PieceView>, s: Seq<char>, k: int)
    requires
        p.len() > 0,
        p[0] matches PieceView::Literal(l) && 0 <= k < l.len() && k < s.len() && s[k] != l[k],
    ensures
        pattern_match(p, s) is None,
{
    lemma_literal_mismatch(s, p[0]->Literal_0, k);
}

/// The fields of a command can be written as a line: each quoted field is
/// non-empty and holds neither `'` nor a line break, a `WHERE` condition is
/// non-empty and holds no line break, and a created kind is `file` or
/// `folder`. `List` has no line form.
pub open spec fn command_fields_ok(c: CommandView) -> bool {
    match c {
        CommandView::Search { pattern, path, condition } => quoted_field_ok(pattern)
            && quoted_field_ok(path) && (condition matches Some(w) ==> tail_field_ok(w)),
        CommandView::Create { kind, name, path } => (kind == "file"@ || kind == "folder"@)
            && quoted_field_ok(name) && quoted_field_ok(path),
        CommandView::Delete { pattern, path, .. } => quoted_field_ok(pattern) && quoted_field_ok(
            path,
        ),
        CommandView::Move { pattern, from, to } => quoted_field_ok(pattern) && quoted_field_ok(from)
            && quoted_field_ok(to),
        CommandView::Copy { pattern, from, to } => quoted_field_ok(pattern) && quoted_field_ok(from)
            && quoted_field_ok(to),
        CommandView::List { .. } => false,
    }
}

/// Writing a command as a line and parsing that line gives the command back,
/// whenever its fields can be written (see `command_fields_ok`).
pub proof fn lemma_command_text_parses_back(c: CommandView)
    requires
        command_fields_ok(c),
    ensures
        parse_command_spec(command_text(c)) == Ok::<CommandView, Seq<char>>(c),
{
    reveal_strlit("SEARCH name: '");
    reveal_strlit("CREATE ");
    reveal_strlit("DELETE name: '");
    reveal_strlit("MOVE name: '");
    reveal_strlit("COPY name: '");
    let s = command_text(c);
    match c {
        CommandView::Search { pattern, path, condition } => {
            assert(s =~= "SEARCH name: '"@ + pattern + "' IN '"@ + path + "'"@ + where_text(
                condition,
            ));
            lemma_search_matches(pattern, path, condition);
        },
        CommandView::Create { kind, name, path } => {
            let head = "CREATE "@;
            assert(s[0] == head[0]);
            lemma_head_excludes(search_pattern(), s, 0);
            lemma_create_matches(kind, name, path);
        },
        CommandView::Delete { pattern, path, force } => {
            let head = "DELETE name: '"@;
            assert(s =~= head + pattern + "' IN '"@ + path + "'"@ + force_text(force));
            assert(s[0] == head[0]);
            lemma_head_excludes(search_pattern(), s, 0);
            lemma_head_excludes(create_pattern(), s, 0);
            lemma_delete_matches(pattern, path, force);
        },
        CommandView::Move { pattern, from, to } => {
            let head = "MOVE name: '"@;
            assert(s[0] == head[0]);
            lemma_head_excludes(search_pattern(), s, 0);
            lemma_head_excludes(create_pattern(), s, 0);
            lemma_head_excludes(delete_pattern(), s, 0);
            lemma_transfer_matches(head, pattern, from, to);
        },
        CommandView::Copy { pattern, from, to } => {
            let head = "COPY name: '"@;
            assert(s[0] == head[0] && s[1] == head[1]);
            lemma_head_excludes(search_pattern(), s, 0);
            lemma_head_excludes(create_pattern(), s, 1);
            lemma_head_excludes(delete_pattern(), s, 0);
            lemma_head_excludes(transfer_pattern("MOVE name: '"@), s, 0);
            lemma_transfer_matches(head, pattern, from, to);
        },
        CommandView::List { .. } => {},
    }
}

/// The commands of a query, each with the result of parsing it.
pub open spec fn parsed_query_spec(query: Seq<char>) -> Seq<(Seq<char>, Result<CommandView, Seq<char>>)> {
    commands_spec(query).map_values(
        |c: Seq<char>| (c, parse_command_spec(c)),
    )
}

/// The view of a parsed command.
pub open spec fn parsed_view(r: Result<Command, String>) -> Result<CommandView, Seq<char>> {
    match r {
        Ok(c) => Ok(c@),
        Err(e) => Err(e@),
    }
}

/// Splits a query into its commands (the `;`-separated parts, trimmed, without
/// the empty ones) and parses each.
pub fn parse_query(query: &str) -> (r: Vec<(String, Result<Command, String>)>)
    ensures
        r@.len() == parsed_query_spec(query@).len(),
        forall|k: int|
            0 <= k < r@.len() ==> (#[trigger] r@[k]).0@ == parsed_query_spec(query@)[k].0
                && parsed_view(r@[k].1) == parsed_query_spec(query@)[k].1,
{
    let commands = split_commands(query);
    let mut out: Vec<(String, Result<Command, String>)> = Vec::new();
    let mut k: usize = 0;
    while k < commands.len()
        invariant
            strings_view(commands@) == commands_spec(query@),
            k <= commands@.len(),
            out@.len() == k,
            forall|m: int|
                0 <= m < k ==> (#[trigger] out@[m]).0@ == parsed_query_spec(query@)[m].0
                    && parsed_view(out@[m].1) == parsed_query_spec(query@)[m].1,
        decreases commands.len() - k,
    {
        let text = commands[k].clone();
        assert(strings_view(commands@)[k as int] == commands@[k as int]@);
        let parsed = parse_command(text.as_str());
        out.push((text, parsed));
        k = k + 1;
    }
    out
}

} // verus!
