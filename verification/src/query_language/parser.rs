//! The token parser of the query language: `SEARCH`, `DELETE` and `ADD`
//! commands followed by `key "value"` clauses.

use vstd::prelude::*;

use crate::query_language::lexer::{is_lexer_token, lemma_lex_token_kinds, lex_spec, Token, TokenView};

verus! {

/// A parsed token command.
#[derive(Debug)]
#[allow(inconsistent_fields)]
pub enum Command {
    Search { name: Option<String>, in_path: String },
    Delete { name: Option<String>, in_path: String },
    Add { name: String, content: Option<String> },
}

/// The mathematical value of a `Command`.
#[allow(inconsistent_fields)]
pub enum CommandView {
    Search { name: Option<Seq<char>>, in_path: Seq<char> },
    Delete { name: Option<Seq<char>>, in_path: Seq<char> },
    Add { name: Seq<char>, content: Option<Seq<char>> },
}

/// The view of an optional string.
pub open spec fn opt_view(o: Option<String>) -> Option<Seq<char>> {
    match o {
        Some(s) => Some(s@),
        None => None,
    }
}

impl View for Command {
    type V = CommandView;

    open spec fn view(&self) -> CommandView {
        match self {
            Command::Search { name, in_path } => CommandView::Search {
                name: opt_view(*name),
                in_path: in_path@,
            },
            Command::Delete { name, in_path } => CommandView::Delete {
                name: opt_view(*name),
                in_path: in_path@,
            },
            Command::Add { name, content } => CommandView::Add {
                name: name@,
                content: opt_view(*content),
            },
        }
    }
}

/// The values of a command's two clauses, in the order of its two keys.
pub type ClauseValues = (Option<Seq<char>>, Option<Seq<char>>);

/// The message for a key that is not followed by a string literal.
pub open spec fn expected_literal_message(key: Seq<char>) -> Seq<char> {
    "Expected a string literal after '"@ + key + "'"@
}

/// The message for a token that does not fit the command's clauses.
pub open spec fn unexpected_token_message(command: Seq<char>) -> Seq<char> {
    "Unexpected token in "@ + command + " command"@
}

/// Whether `t` is the identifier `key`.
pub open spec fn is_key(t: TokenView, key: Seq<char>) -> bool {
    t matches TokenView::Identifier(k) && k == key
}

/// Reading clauses from token `i` on: `key1 "v"` and `key2 "v"` in any order
/// and number (a later value replaces an earlier one), up to a `;` or the
/// end of the tokens.
pub open spec fn clauses_from(
    t: Seq<TokenView>,
    i: int,
    key1: Seq<char>,
    key2: Seq<char>,
    command: Seq<char>,
    vals: ClauseValues,
) -> Result<ClauseValues, Seq<char>>
    decreases t.len() - i,
{
    if i < 0 || i >= t.len() {
        Ok(vals)
    } else if is_key(t[i], key1) {
        if i + 1 < t.len() && t[i + 1] is StringLiteral {
            clauses_from(t, i + 2, key1, key2, command, (Some(t[i + 1]->StringLiteral_0), vals.1))
        } else {
            Err(expected_literal_message(key1))
        }
    } else if is_key(t[i], key2) {
        if i + 1 < t.len() && t[i + 1] is StringLiteral {
            clauses_from(t, i + 2, key1, key2, command, (vals.0, Some(t[i + 1]->StringLiteral_0)))
        } else {
            Err(expected_literal_message(key2))
        }
    } else if t[i] is Semicolon {
        Ok(vals)
    } else {
        Err(unexpected_token_message(command))
    }
}

/// The result of parsing a token sequence.
///
/// `SEARCH` takes the clauses `name` (optional) and `IN` (required). The
/// clauses of `DELETE` (`name` optional, `IN` required) and of `ADD` (`name`
/// required, `content` optional) and their messages are this library's own
/// choice, read in the same way as those of `SEARCH`.
pub open spec fn parse_spec(t: Seq<TokenView>) -> Result<CommandView, Seq<char>> {
    if t.len() == 0 || !(t[0] is Command) {
        Err("Expected a command"@)
    } else {
        let cmd = t[0]->Command_0;
        if cmd == "SEARCH"@ {
            match clauses_from(t, 1, "name"@, "IN"@, cmd, (None, None)) {
                Ok((name, Some(in_path))) => Ok(CommandView::Search { name, in_path }),
                Ok((_, None)) => Err("SEARCH command requires an 'IN' clause"@),
                Err(e) => Err(e),
            }
        } else if cmd == "DELETE"@ {
            match clauses_from(t, 1, "name"@, "IN"@, cmd, (None, None)) {
                Ok((name, Some(in_path))) => Ok(CommandView::Delete { name, in_path }),
                Ok((_, None)) => Err("DELETE command requires an 'IN' clause"@),
                Err(e) => Err(e),
            }
        } else if cmd == "ADD"@ {
            match clauses_from(t, 1, "name"@, "content"@, cmd, (None, None)) {
                Ok((Some(name), content)) => Ok(CommandView::Add { name, content }),
                Ok((None, _)) => Err("ADD command requires a 'name' clause"@),
                Err(e) => Err(e),
            }
        } else {
            Err("Unknown command: "@ + cmd)
        }
    }
}

/// `"<prefix><middle><suffix>"` as a `String`.
fn message3(prefix: &str, middle: &String, suffix: &str) -> (r: String)
    ensures
        r@ == prefix@ + middle@ + suffix@,
{
    let mut r = String::from_str(prefix);
    r.append(middle.as_str());
    r.append(suffix);
    r
}

/// Whether `t` is the identifier `key`.
fn token_is_key(t: &Token, key: &String) -> (r: bool)
    ensures
        r == is_key(t@, key@),
{
    match t {
        Token::Identifier(k) => k.eq(key),
        _ => false,
    }
}

/// Reads the clauses that follow the command word; see `clauses_from`.
fn parse_clauses(tokens: &Vec<Token>, key1: &str, key2: &str, command: &String) -> (r: Result<
    (Option<String>, Option<String>),
    String,
>)
    ensures
        match clauses_from(
            crate::query_language::lexer::tokens_view(tokens@),
            1,
            key1@,
            key2@,
            command@,
            (None, None),
        ) {
            Ok((a, b)) => r matches Ok((x, y)) && opt_view(x) == a && opt_view(y) == b,
            Err(e) => r matches Err(m) && m@ == e,
        },
{
    let ghost t = crate::query_language::lexer::tokens_view(tokens@);
    let k1 = String::from_str(key1);
    let k2 = String::from_str(key2);
    let mut first: Option<String> = None;
    let mut second: Option<String> = None;
    let mut i: usize = 1;
    while i < tokens.len()
        invariant
            t == crate::query_language::lexer::tokens_view(tokens@),
            t.len() == tokens@.len(),
            1 <= i,
            k1@ == key1@,
            k2@ == key2@,
            clauses_from(t, 1, key1@, key2@, command@, (None, None)) == clauses_from(
                t,
                i as int,
                key1@,
                key2@,
                command@,
                (opt_view(first), opt_view(second)),
            ),
        decreases tokens.len() - i,
    {
        let tok = &tokens[i];
        assert(t[i as int] == tok@);
        if token_is_key(tok, &k1) || token_is_key(tok, &k2) {
            let is_first = token_is_key(tok, &k1);
            if i + 1 < tokens.len() {
                assert(t[i + 1] == tokens@[i + 1]@);
                match &tokens[i + 1] {
                    Token::StringLiteral(v) => {
                        if is_first {
                            first = Some(v.clone());
                        } else {
                            second = Some(v.clone());
                        }
                        i = i + 2;
                        continue ;
                    },
                    _ => {},
                }
            }
            let key = if is_first {
                &k1
            } else {
                &k2
            };
            return Err(message3("Expected a string literal after '", key, "'"));
        }
        match tok {
            Token::Semicolon => {
                return Ok((first, second));
            },
            _ => {
                return Err(message3("Unexpected token in ", command, " command"));
            },
        }
    }
    Ok((first, second))
}

/// Parses a token sequence into a command.
///
/// The first token must be a word naming the command (`SEARCH`, `DELETE` or
/// `ADD`); the clauses that follow are read by `clauses_from`. How the
/// clauses of `DELETE` and `ADD` are read is this library's own choice (see
/// `parse_spec`).
pub fn parse(tokens: Vec<Token>) -> (r: Result<Command, String>)
    ensures
        match parse_spec(crate::query_language::lexer::tokens_view(tokens@)) {
            Ok(c) => r matches Ok(x) && x@ == c,
            Err(e) => r matches Err(m) && m@ == e,
        },
{
    let ghost t = crate::query_language::lexer::tokens_view(tokens@);
    if tokens.len() == 0 {
        return Err(String::from_str("Expected a command"));
    }
    assert(t[0] == tokens@[0]@);
    match &tokens[0] {
        Token::Command(cmd) => {
            if cmd.eq(&String::from_str("SEARCH")) {
                match parse_clauses(&tokens, "name", "IN", cmd) {
                    Ok((name, Some(in_path))) => Ok(Command::Search { name, in_path }),
                    Ok((_, None)) => Err(String::from_str("SEARCH command requires an 'IN' clause")),
                    Err(e) => Err(e),
                }
            } else if cmd.eq(&String::from_str("DELETE")) {
                match parse_clauses(&tokens, "name", "IN", cmd) {
                    Ok((name, Some(in_path))) => Ok(Command::Delete { name, in_path }),
                    Ok((_, None)) => Err(String::from_str("DELETE command requires an 'IN' clause")),
                    Err(e) => Err(e),
                }
            } else if cmd.eq(&String::from_str("ADD")) {
                match parse_clauses(&tokens, "name", "content", cmd) {
                    Ok((Some(name), content)) => Ok(Command::Add { name, content }),
                    Ok((None, _)) => Err(String::from_str("ADD command requires a 'name' clause")),
                    Err(e) => Err(e),
                }
            } else {
                let mut msg = String::from_str("Unknown command: ");
                msg.append(cmd.as_str());
                Err(msg)
            }
        },
        _ => Err(String::from_str("Expected a command")),
    }
}

proof fn lemma_clauses_same_suffix(
    t1: Seq<TokenView>,
    t2: Seq<TokenView>,
    j: int,
    key1: Seq<char>,
    key2: Seq<char>,
    command: Seq<char>,
    vals: ClauseValues,
)
    requires
        t1.len() == t2.len(),
        forall|k: int| j <= k < t1.len() ==> t1[k] == t2[k],
    ensures
        clauses_from(t1, j, key1, key2, command, vals) == clauses_from(
            t2,
            j,
            key1,
            key2,
            command,
            vals,
        ),
    decreases t1.len() - j,
{
    if 0 <= j < t1.len() {
        if j + 1 < t1.len() {
            assert(t1[j + 1] == t2[j + 1]);
        }
        if is_key(t1[j], key1) && j + 1 < t1.len() && t1[j + 1] is StringLiteral {
            lemma_clauses_same_suffix(
                t1,
                t2,
                j + 2,
                key1,
                key2,
                command,
                (Some(t1[j + 1]->StringLiteral_0), vals.1),
            );
        }
        if is_key(t1[j], key2) && j + 1 < t1.len() && t1[j + 1] is StringLiteral {
            lemma_clauses_same_suffix(
                t1,
                t2,
                j + 2,
                key1,
                key2,
                command,
                (vals.0, Some(t1[j + 1]->StringLiteral_0)),
            );
        }
    }
}

/// The tokens `t` with the clause pairs at `i..i + 2` and `i + 2..i + 4`
/// swapped.
pub open spec fn swap_clauses(t: Seq<TokenView>, i: int) -> Seq<TokenView> {
    t.update(i, t[i + 2]).update(i + 1, t[i + 3]).update(i + 2, t[i]).update(i + 3, t[i + 1])
}

/// The order of clauses with different keys does not matter: swapping two
/// neighbouring clauses `key1 "v" key2 "w"` gives the same values.
pub proof fn lemma_clause_order_irrelevant(
    t: Seq<TokenView>,
    i: int,
    key1: Seq<char>,
    key2: Seq<char>,
    command: Seq<char>,
    vals: ClauseValues,
)
    requires
        0 <= i,
        i + 4 <= t.len(),
        key1 != key2,
        is_key(t[i], key1) || is_key(t[i], key2),
        is_key(t[i + 2], key1) || is_key(t[i + 2], key2),
        t[i] != t[i + 2],
        t[i + 1] is StringLiteral,
        t[i + 3] is StringLiteral,
    ensures
        clauses_from(swap_clauses(t, i), i, key1, key2, command, vals) == clauses_from(
            t,
            i,
            key1,
            key2,
            command,
            vals,
        ),
{
    let t2 = swap_clauses(t, i);
    let v = t[i + 1]->StringLiteral_0;
    let w = t[i + 3]->StringLiteral_0;
    assert(t2[i] == t[i + 2] && t2[i + 1] == t[i + 3] && t2[i + 2] == t[i] && t2[i + 3] == t[i + 1]);
    let both = if is_key(t[i], key1) {
        (Some(v), Some(w))
    } else {
        (Some(w), Some(v))
    };
    assert(forall|k: int| i + 4 <= k < t.len() ==> t2[k] == t[k]);
    lemma_clauses_same_suffix(t2, t, i + 4, key1, key2, command, both);
    if is_key(t[i], key1) {
        assert(!is_key(t[i], key2));
        assert(is_key(t[i + 2], key2));
        assert(!is_key(t[i + 2], key1));
        assert(clauses_from(t, i, key1, key2, command, vals) == clauses_from(
            t,
            i + 2,
            key1,
            key2,
            command,
            (Some(v), vals.1),
        ));
        assert(clauses_from(t, i + 2, key1, key2, command, (Some(v), vals.1)) == clauses_from(
            t,
            i + 4,
            key1,
            key2,
            command,
            (Some(v), Some(w)),
        ));
        assert(clauses_from(t2, i, key1, key2, command, vals) == clauses_from(
            t2,
            i + 2,
            key1,
            key2,
            command,
            (vals.0, Some(w)),
        ));
        assert(clauses_from(t2, i + 2, key1, key2, command, (vals.0, Some(w))) == clauses_from(
            t2,
            i + 4,
            key1,
            key2,
            command,
            (Some(v), Some(w)),
        ));
    } else {
        assert(is_key(t[i + 2], key1));
        assert(!is_key(t[i + 2], key2));
        assert(clauses_from(t, i, key1, key2, command, vals) == clauses_from(
            t,
            i + 2,
            key1,
            key2,
            command,
            (vals.0, Some(v)),
        ));
        assert(clauses_from(t, i + 2, key1, key2, command, (vals.0, Some(v))) == clauses_from(
            t,
            i + 4,
            key1,
            key2,
            command,
            (Some(w), Some(v)),
        ));
        assert(clauses_from(t2, i, key1, key2, command, vals) == clauses_from(
            t2,
            i + 2,
            key1,
            key2,
            command,
            (Some(w), vals.1),
        ));
        assert(clauses_from(t2, i + 2, key1, key2, command, (Some(w), vals.1)) == clauses_from(
            t2,
            i + 4,
            key1,
            key2,
            command,
            (Some(w), Some(v)),
        ));
    }
}

/// Whether `n` clauses start at token `i`: each a `key1` or `key2`
/// identifier followed by a string literal.
pub open spec fn clause_run(t: Seq<TokenView>, i: int, n: int, key1: Seq<char>, key2: Seq<char>) -> bool {
    &&& 0 <= i
    &&& 0 <= n
    &&& i + 2 * n <= t.len()
    &&& forall|c: int|
        0 <= c < n ==> (is_key(#[trigger] t[i + 2 * c], key1) || is_key(t[i + 2 * c], key2)) && t[i
            + 2 * c + 1] is StringLiteral
}

/// Whether the tokens end, or a `;` stands, right after the `n` clauses at
/// token `i`.
pub open spec fn run_ends(t: Seq<TokenView>, i: int, n: int) -> bool {
    i + 2 * n == t.len() || t[i + 2 * n] is Semicolon
}

/// The value of the last `key` clause among the `n` clauses at token `i`, or
/// `default` when none of them has that key.
pub open spec fn last_value(
    t: Seq<TokenView>,
    i: int,
    n: int,
    key: Seq<char>,
    default: Option<Seq<char>>,
) -> Option<Seq<char>>
    decreases n,
{
    if n <= 0 {
        default
    } else if is_key(t[i + 2 * (n - 1)], key) {
        Some(t[i + 2 * (n - 1) + 1]->StringLiteral_0)
    } else {
        last_value(t, i, n - 1, key, default)
    }
}

/// Taking the first of `n` clauses off the front: the last value among the
/// other `n - 1`, with the first clause's value as the default where its key
/// matches.
proof fn lemma_last_value_front(
    t: Seq<TokenView>,
    i: int,
    n: int,
    key: Seq<char>,
    default: Option<Seq<char>>,
)
    requires
        n >= 1,
    ensures
        last_value(t, i, n, key, default) == last_value(
            t,
            i + 2,
            n - 1,
            key,
            if is_key(t[i], key) {
                Some(t[i + 1]->StringLiteral_0)
            } else {
                default
            },
        ),
    decreases n,
{
    let d2 = if is_key(t[i], key) {
        Some(t[i + 1]->StringLiteral_0)
    } else {
        default
    };
    if n > 1 {
        lemma_last_value_front(t, i, n - 1, key, default);
        assert(i + 2 * (n - 1) == (i + 2) + 2 * (n - 2));
        assert(last_value(t, i + 2, n - 1, key, d2) == if is_key(t[i + 2 * (n - 1)], key) {
            Some(t[i + 2 * (n - 1) + 1]->StringLiteral_0)
        } else {
            last_value(t, i + 2, n - 2, key, d2)
        });
    } else {
        assert(i + 2 * (n - 1) == i);
        assert(last_value(t, i, 0, key, default) == default);
        assert(last_value(t, i + 2, 0, key, d2) == d2);
    }
}

/// Clauses are read to the last: for a run of `key1` and `key2` clauses that
/// ends the tokens or stands before a `;`, the values read are, for each
/// key, that of its last clause, or the value before the run where the key
/// has no clause.
pub proof fn lemma_clauses_keep_last_values(
    t: Seq<TokenView>,
    i: int,
    n: int,
    key1: Seq<char>,
    key2: Seq<char>,
    command: Seq<char>,
    vals: ClauseValues,
)
    requires
        key1 != key2,
        clause_run(t, i, n, key1, key2),
        run_ends(t, i, n),
    ensures
        clauses_from(t, i, key1, key2, command, vals) == Ok::<ClauseValues, Seq<char>>(
            (last_value(t, i, n, key1, vals.0), last_value(t, i, n, key2, vals.1)),
        ),
    decreases n,
{
    if n > 0 {
        assert(is_key(t[i + 2 * 0], key1) || is_key(t[i + 2 * 0], key2));
        let v = t[i + 1]->StringLiteral_0;
        let next: ClauseValues = if is_key(t[i], key1) {
            (Some(v), vals.1)
        } else {
            (vals.0, Some(v))
        };
        assert(clause_run(t, i + 2, n - 1, key1, key2)) by {
            assert forall|c: int| 0 <= c < n - 1 implies (is_key(
                #[trigger] t[(i + 2) + 2 * c],
                key1,
            ) || is_key(t[(i + 2) + 2 * c], key2)) && t[(i + 2) + 2 * c + 1] is StringLiteral by {
                assert(t[i + 2 * (c + 1)] == t[(i + 2) + 2 * c]);
            }
        }
        assert(i + 2 + 2 * (n - 1) == i + 2 * n);
        lemma_clauses_keep_last_values(t, i + 2, n - 1, key1, key2, command, next);
        lemma_last_value_front(t, i, n, key1, vals.0);
        lemma_last_value_front(t, i, n, key2, vals.1);
    } else {
        if i < t.len() {
            assert(t[i] is Semicolon);
        }
    }
}

/// Reordering clauses changes nothing as long as the last clause of each key
/// keeps its value: two runs of clauses (each ending the tokens or standing
/// before a `;`) with the same last value for each key read the same.
pub proof fn lemma_clauses_reordered(
    t: Seq<TokenView>,
    u: Seq<TokenView>,
    i: int,
    n: int,
    m: int,
    key1: Seq<char>,
    key2: Seq<char>,
    command: Seq<char>,
    vals: ClauseValues,
)
    requires
        key1 != key2,
        clause_run(t, i, n, key1, key2),
        run_ends(t, i, n),
        clause_run(u, i, m, key1, key2),
        run_ends(u, i, m),
        last_value(t, i, n, key1, vals.0) == last_value(u, i, m, key1, vals.0),
        last_value(t, i, n, key2, vals.1) == last_value(u, i, m, key2, vals.1),
    ensures
        clauses_from(t, i, key1, key2, command, vals) == clauses_from(
            u,
            i,
            key1,
            key2,
            command,
            vals,
        ),
{
    lemma_clauses_keep_last_values(t, i, n, key1, key2, command, vals);
    lemma_clauses_keep_last_values(u, i, m, key1, key2, command, vals);
}

/// A `SEARCH` command followed by `name` and `IN` clauses (up to the end or a
/// `;`) searches for the last `name` value (none without a `name` clause) in
/// the last `IN` value, and is refused without an `IN` clause.
pub proof fn lemma_search_takes_last_clauses(t: Seq<TokenView>, n: int)
    requires
        t.len() >= 1,
        t[0] == TokenView::Command("SEARCH"@),
        clause_run(t, 1, n, "name"@, "IN"@),
        run_ends(t, 1, n),
    ensures
        parse_spec(t) == match last_value(t, 1, n, "IN"@, None) {
            Some(in_path) => Ok::<CommandView, Seq<char>>(
                CommandView::Search { name: last_value(t, 1, n, "name"@, None), in_path },
            ),
            None => Err("SEARCH command requires an 'IN' clause"@),
        },
{
    reveal_strlit("name");
    reveal_strlit("IN");
    assert("name"@ != "IN"@) by {
        assert("name"@.len() != "IN"@.len());
    }
    lemma_clauses_keep_last_values(t, 1, n, "name"@, "IN"@, "SEARCH"@, (None, None));
}

/// A `DELETE` command followed by `name` and `IN` clauses (up to the end or a
/// `;`) deletes the last `name` value (none without a `name` clause) in the
/// last `IN` value, and is refused without an `IN` clause.
pub proof fn lemma_delete_takes_last_clauses(t: Seq<TokenView>, n: int)
    requires
        t.len() >= 1,
        t[0] == TokenView::Command("DELETE"@),
        clause_run(t, 1, n, "name"@, "IN"@),
        run_ends(t, 1, n),
    ensures
        parse_spec(t) == match last_value(t, 1, n, "IN"@, None) {
            Some(in_path) => Ok::<CommandView, Seq<char>>(
                CommandView::Delete { name: last_value(t, 1, n, "name"@, None), in_path },
            ),
            None => Err("DELETE command requires an 'IN' clause"@),
        },
{
    reveal_strlit("name");
    reveal_strlit("IN");
    reveal_strlit("SEARCH");
    reveal_strlit("DELETE");
    assert("name"@ != "IN"@) by {
        assert("name"@.len() != "IN"@.len());
    }
    assert("DELETE"@ != "SEARCH"@) by {
        assert("DELETE"@[0] != "SEARCH"@[0]);
    }
    lemma_clauses_keep_last_values(t, 1, n, "name"@, "IN"@, "DELETE"@, (None, None));
}

/// An `ADD` command followed by `name` and `content` clauses (up to the end or
/// a `;`) adds the last `name` value with the last `content` value (none
/// without a `content` clause), and is refused without a `name` clause.
pub proof fn lemma_add_takes_last_clauses(t: Seq<TokenView>, n: int)
    requires
        t.len() >= 1,
        t[0] == TokenView::Command("ADD"@),
        clause_run(t, 1, n, "name"@, "content"@),
        run_ends(t, 1, n),
    ensures
        parse_spec(t) == match last_value(t, 1, n, "name"@, None) {
            Some(name) => Ok::<CommandView, Seq<char>>(
                CommandView::Add { name, content: last_value(t, 1, n, "content"@, None) },
            ),
            None => Err("ADD command requires a 'name' clause"@),
        },
{
    reveal_strlit("name");
    reveal_strlit("content");
    reveal_strlit("SEARCH");
    reveal_strlit("DELETE");
    reveal_strlit("ADD");
    assert("name"@ != "content"@) by {
        assert("name"@.len() != "content"@.len());
    }
    assert("ADD"@ != "SEARCH"@) by {
        assert("ADD"@.len() != "SEARCH"@.len());
    }
    assert("ADD"@ != "DELETE"@) by {
        assert("ADD"@.len() != "DELETE"@.len());
    }
    lemma_clauses_keep_last_values(t, 1, n, "name"@, "content"@, "ADD"@, (None, None));
}

/// Reading over a run of clauses: what comes after the run is read with, for
/// each key, the value of its last clause in the run (or the value before).
proof fn lemma_clauses_skip_run(
    t: Seq<TokenView>,
    i: int,
    n: int,
    key1: Seq<char>,
    key2: Seq<char>,
    command: Seq<char>,
    vals: ClauseValues,
)
    requires
        key1 != key2,
        clause_run(t, i, n, key1, key2),
    ensures
        clauses_from(t, i, key1, key2, command, vals) == clauses_from(
            t,
            i + 2 * n,
            key1,
            key2,
            command,
            (last_value(t, i, n, key1, vals.0), last_value(t, i, n, key2, vals.1)),
        ),
    decreases n,
{
    if n > 0 {
        assert(is_key(t[i + 2 * 0], key1) || is_key(t[i + 2 * 0], key2));
        let v = t[i + 1]->StringLiteral_0;
        let next: ClauseValues = if is_key(t[i], key1) {
            (Some(v), vals.1)
        } else {
            (vals.0, Some(v))
        };
        assert(clause_run(t, i + 2, n - 1, key1, key2)) by {
            assert forall|c: int| 0 <= c < n - 1 implies (is_key(
                #[trigger] t[(i + 2) + 2 * c],
                key1,
            ) || is_key(t[(i + 2) + 2 * c], key2)) && t[(i + 2) + 2 * c + 1] is StringLiteral by {
                assert(t[i + 2 * (c + 1)] == t[(i + 2) + 2 * c]);
            }
        }
        assert(i + 2 + 2 * (n - 1) == i + 2 * n);
        lemma_clauses_skip_run(t, i + 2, n - 1, key1, key2, command, next);
        lemma_last_value_front(t, i, n, key1, vals.0);
        lemma_last_value_front(t, i, n, key2, vals.1);
    }
}

/// What ends reading a run of clauses with an error: a key that is not
/// followed by a string literal gives `Expected a string literal after
/// '<key>'`, and a token that is neither a key nor `;` gives `Unexpected
/// token in <command> command`, whatever clauses came before.
pub proof fn lemma_clauses_errors(
    t: Seq<TokenView>,
    i: int,
    n: int,
    key1: Seq<char>,
    key2: Seq<char>,
    command: Seq<char>,
    vals: ClauseValues,
)
    requires
        key1 != key2,
        clause_run(t, i, n, key1, key2),
        i + 2 * n < t.len(),
    ensures
        ({
            let j = i + 2 * n;
            let no_literal = !(j + 1 < t.len() && t[j + 1] is StringLiteral);
            &&& is_key(t[j], key1) && no_literal ==> clauses_from(
                t,
                i,
                key1,
                key2,
                command,
                vals,
            ) == Err::<ClauseValues, Seq<char>>("Expected a string literal after '"@ + key1 + "'"@)
            &&& is_key(t[j], key2) && no_literal ==> clauses_from(
                t,
                i,
                key1,
                key2,
                command,
                vals,
            ) == Err::<ClauseValues, Seq<char>>("Expected a string literal after '"@ + key2 + "'"@)
            &&& !is_key(t[j], key1) && !is_key(t[j], key2) && !(t[j] is Semicolon) ==> clauses_from(
                t,
                i,
                key1,
                key2,
                command,
                vals,
            ) == Err::<ClauseValues, Seq<char>>("Unexpected token in "@ + command + " command"@)
        }),
{
    lemma_clauses_skip_run(t, i, n, key1, key2, command, vals);
}

/// A token sequence that does not start with a command word is refused with
/// `Expected a command`, and one whose command word is not `SEARCH`,
/// `DELETE` or `ADD` with `Unknown command: <word>`.
pub proof fn lemma_parse_refuses_unknown_commands(t: Seq<TokenView>)
    ensures
        (t.len() == 0 || !(t[0] is Command)) ==> parse_spec(t) == Err::<CommandView, Seq<char>>(
            "Expected a command"@,
        ),
        t.len() > 0 && t[0] is Command && t[0]->Command_0 != "SEARCH"@ && t[0]->Command_0
            != "DELETE"@ && t[0]->Command_0 != "ADD"@ ==> parse_spec(t) == Err::<
            CommandView,
            Seq<char>,
        >("Unknown command: "@ + t[0]->Command_0),
{
}

/// Without identifier tokens no clause key is ever read: the clauses come
/// back as they went in, or an error.
pub proof fn lemma_clauses_without_identifiers(
    t: Seq<TokenView>,
    i: int,
    key1: Seq<char>,
    key2: Seq<char>,
    command: Seq<char>,
    vals: ClauseValues,
)
    requires
        forall|k: int| 0 <= k < t.len() ==> !(#[trigger] t[k] is Identifier),
    ensures
        clauses_from(t, i, key1, key2, command, vals) matches Ok(v) ==> v == vals,
{
    if 0 <= i < t.len() {
        assert(!(t[i] is Identifier));
    }
}

/// Parsing what the lexer produces never yields a command: clause keys must
/// be `Identifier` tokens, which the lexer never produces, so the required
/// `IN` (or `name`) clause is always missing.
pub proof fn lemma_lexed_input_never_parses(s: Seq<char>)
    ensures
        lex_spec(s) matches Ok(ts) ==> parse_spec(ts) is Err,
{
    lemma_lex_token_kinds(s, 0);
    if let Ok(ts) = lex_spec(s) {
        assert forall|k: int| 0 <= k < ts.len() implies !(#[trigger] ts[k] is Identifier) by {
            assert(is_lexer_token(ts[k]));
        }
        if ts.len() > 0 && ts[0] is Command {
            let cmd = ts[0]->Command_0;
            lemma_clauses_without_identifiers(ts, 1, "name"@, "IN"@, cmd, (None, None));
            lemma_clauses_without_identifiers(ts, 1, "name"@, "content"@, cmd, (None, None));
        }
    }
}

} // verus!
