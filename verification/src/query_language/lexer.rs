//! The token lexer of the query language.

use vstd::prelude::*;

use crate::text::{
    char_is_alphabetic, char_is_alphanumeric, char_is_whitespace, chars_of, is_alphabetic_char,
    is_numeric_char, is_white_space_char, push_char, string_of_range,
};

verus! {

/// A token of the query language.
///
/// `NumberLiteral` carries the IEEE-754 bit pattern of its `f64` value.
#[derive(Debug)]
pub enum Token {
    Command(String),
    Identifier(String),
    Colon,
    Comma,
    Semicolon,
    StringLiteral(String),
    NumberLiteral(u64),
}

/// The mathematical value of a token: its text as a sequence of characters.
pub enum TokenView {
    Command(Seq<char>),
    Identifier(Seq<char>),
    Colon,
    Comma,
    Semicolon,
    StringLiteral(Seq<char>),
    NumberLiteral(u64),
}

impl View for Token {
    type V = TokenView;

    open spec fn view(&self) -> TokenView {
        match self {
            Token::Command(s) => TokenView::Command(s@),
            Token::Identifier(s) => TokenView::Identifier(s@),
            Token::Colon => TokenView::Colon,
            Token::Comma => TokenView::Comma,
            Token::Semicolon => TokenView::Semicolon,
            Token::StringLiteral(s) => TokenView::StringLiteral(s@),
            Token::NumberLiteral(b) => TokenView::NumberLiteral(*b),
        }
    }
}

/// Whether the bit pattern `b` encodes a NaN.
pub open spec fn f64_bits_is_nan(b: u64) -> bool {
    (b & 0x7ff0_0000_0000_0000u64) == 0x7ff0_0000_0000_0000u64 && (b & 0x000f_ffff_ffff_ffffu64)
        != 0
}

/// Whether the bit pattern `b` encodes `+0.0` or `-0.0`.
pub open spec fn f64_bits_is_zero(b: u64) -> bool {
    (b & 0x7fff_ffff_ffff_ffffu64) == 0
}

/// `f64` equality on bit patterns: a NaN equals nothing, the two zeros are
/// equal, and otherwise the patterns must agree.
pub open spec fn f64_bits_eq(a: u64, b: u64) -> bool {
    !f64_bits_is_nan(a) && !f64_bits_is_nan(b) && (a == b || (f64_bits_is_zero(a)
        && f64_bits_is_zero(b)))
}

/// Compares two `f64` values given by their bit patterns as `==` on `f64` does.
pub fn f64_bits_equal(a: u64, b: u64) -> (r: bool)
    ensures
        r == f64_bits_eq(a, b),
{
    let nan_a = (a & 0x7ff0_0000_0000_0000u64) == 0x7ff0_0000_0000_0000u64 && (a
        & 0x000f_ffff_ffff_ffffu64) != 0;
    let nan_b = (b & 0x7ff0_0000_0000_0000u64) == 0x7ff0_0000_0000_0000u64 && (b
        & 0x000f_ffff_ffff_ffffu64) != 0;
    let zeros = (a & 0x7fff_ffff_ffff_ffffu64) == 0 && (b & 0x7fff_ffff_ffff_ffffu64) == 0;
    !nan_a && !nan_b && (a == b || zeros)
}

/// Token equality: same kind and same text; number literals compare as `f64`.
pub open spec fn token_eq(a: TokenView, b: TokenView) -> bool {
    match (a, b) {
        (TokenView::Command(x), TokenView::Command(y)) => x == y,
        (TokenView::Identifier(x), TokenView::Identifier(y)) => x == y,
        (TokenView::Colon, TokenView::Colon) => true,
        (TokenView::Comma, TokenView::Comma) => true,
        (TokenView::Semicolon, TokenView::Semicolon) => true,
        (TokenView::StringLiteral(x), TokenView::StringLiteral(y)) => x == y,
        (TokenView::NumberLiteral(x), TokenView::NumberLiteral(y)) => f64_bits_eq(x, y),
        _ => false,
    }
}

impl PartialEq for Token {
    fn eq(&self, other: &Token) -> (r: bool) {
        match (self, other) {
            (Token::Command(x), Token::Command(y)) => x.eq(y),
            (Token::Identifier(x), Token::Identifier(y)) => x.eq(y),
            (Token::Colon, Token::Colon) => true,
            (Token::Comma, Token::Comma) => true,
            (Token::Semicolon, Token::Semicolon) => true,
            (Token::StringLiteral(x), Token::StringLiteral(y)) => x.eq(y),
            (Token::NumberLiteral(x), Token::NumberLiteral(y)) => f64_bits_equal(*x, *y),
            _ => false,
        }
    }
}

impl vstd::std_specs::cmp::PartialEqSpecImpl for Token {
    open spec fn obeys_eq_spec() -> bool {
        true
    }

    open spec fn eq_spec(&self, other: &Token) -> bool {
        token_eq(self@, other@)
    }
}

/// The views of a sequence of tokens.
pub open spec fn tokens_view(ts: Seq<Token>) -> Seq<TokenView> {
    ts.map_values(|t: Token| t@)
}

/// Characters that continue a word: alphanumeric or `_`.
pub open spec fn is_word_char(c: char) -> bool {
    is_alphabetic_char(c) || is_numeric_char(c) || c == '_'
}

/// The index of the first `"` at or after `k`, or `s.len()` when there is none.
pub open spec fn quote_end(s: Seq<char>, k: int) -> int
    decreases s.len() - k,
{
    if k >= s.len() {
        s.len() as int
    } else if s[k] == '"' {
        k
    } else {
        quote_end(s, k + 1)
    }
}

/// The index of the first character at or after `k` that does not continue
/// a word, or `s.len()` when there is none.
pub open spec fn word_end(s: Seq<char>, k: int) -> int
    decreases s.len() - k,
{
    if k >= s.len() {
        s.len() as int
    } else if !is_word_char(s[k]) {
        k
    } else {
        word_end(s, k + 1)
    }
}

pub proof fn lemma_quote_end_bounds(s: Seq<char>, k: int)
    requires
        k <= s.len(),
    ensures
        k <= quote_end(s, k) <= s.len(),
        quote_end(s, k) < s.len() ==> s[quote_end(s, k)] == '"',
        forall|m: int| k <= m < quote_end(s, k) ==> s[m] != '"',
    decreases s.len() - k,
{
    if k < s.len() && s[k] != '"' {
        lemma_quote_end_bounds(s, k + 1);
    }
}

pub proof fn lemma_word_end_bounds(s: Seq<char>, k: int)
    requires
        k <= s.len(),
    ensures
        k <= word_end(s, k) <= s.len(),
        word_end(s, k) < s.len() ==> !is_word_char(s[word_end(s, k)]),
        forall|m: int| k <= m < word_end(s, k) ==> is_word_char(s[m]),
    decreases s.len() - k,
{
    if k < s.len() && is_word_char(s[k]) {
        lemma_word_end_bounds(s, k + 1);
    }
}

/// `t` followed by the tokens of `rest`, or the error of `rest`.
pub open spec fn prepend_token(t: TokenView, rest: Result<Seq<TokenView>, char>) -> Result<
    Seq<TokenView>,
    char,
> {
    match rest {
        Ok(ts) => Ok(seq![t] + ts),
        Err(c) => Err(c),
    }
}

/// `prefix` followed by the tokens of `rest`, or the error of `rest`.
pub open spec fn prepend_tokens(prefix: Seq<TokenView>, rest: Result<Seq<TokenView>, char>) -> Result<
    Seq<TokenView>,
    char,
> {
    match rest {
        Ok(ts) => Ok(prefix + ts),
        Err(c) => Err(c),
    }
}

/// The smaller of two integers.
pub open spec fn min_int(a: int, b: int) -> int {
    if a <= b {
        a
    } else {
        b
    }
}

/// Lexing `s` from index `i`: the tokens found, or the first character that
/// starts no token.
///
/// A string literal runs from an opening `"` to the next `"` (or the end);
/// the closing quote and the one character after it are consumed. A word
/// starts with an alphabetic character and runs over alphanumeric characters
/// and `_`; the character that ends it is consumed too.
pub open spec fn lex_from(s: Seq<char>, i: int) -> Result<Seq<TokenView>, char>
    decreases s.len() - i,
{
    if i < 0 || i >= s.len() {
        Ok(seq![])
    } else {
        let c = s[i];
        if c == ':' {
            prepend_token(TokenView::Colon, lex_from(s, i + 1))
        } else if c == ',' {
            prepend_token(TokenView::Comma, lex_from(s, i + 1))
        } else if c == ';' {
            prepend_token(TokenView::Semicolon, lex_from(s, i + 1))
        } else if c == '"' {
            let j = quote_end(s, i + 1);
            proof {
                lemma_quote_end_bounds(s, i + 1);
            }
            prepend_token(
                TokenView::StringLiteral(s.subrange(i + 1, j)),
                lex_from(s, min_int(j + 2, s.len() as int)),
            )
        } else if is_alphabetic_char(c) {
            let j = word_end(s, i);
            proof {
                lemma_word_end_bounds(s, i);
            }
            prepend_token(
                TokenView::Command(s.subrange(i, j)),
                lex_from(s, min_int(j + 1, s.len() as int)),
            )
        } else if is_white_space_char(c) {
            lex_from(s, i + 1)
        } else {
            Err(c)
        }
    }
}

/// The result of lexing the whole of `s`.
pub open spec fn lex_spec(s: Seq<char>) -> Result<Seq<TokenView>, char> {
    lex_from(s, 0)
}

/// The message for a character that starts no token.
pub open spec fn unexpected_char_message(c: char) -> Seq<char> {
    "Unexpected character: "@.push(c)
}

/// Whether a token is of a kind that the lexer produces: a word that starts
/// with an alphabetic character and continues with word characters, `:`,
/// `,`, `;`, or a string literal without `"`.
pub open spec fn is_lexer_token(t: TokenView) -> bool {
    match t {
        TokenView::Command(w) => w.len() > 0 && is_alphabetic_char(w[0]) && forall|k: int|
            0 <= k < w.len() ==> #[trigger] is_word_char(w[k]),
        TokenView::Colon => true,
        TokenView::Comma => true,
        TokenView::Semicolon => true,
        TokenView::StringLiteral(x) => forall|k: int| 0 <= k < x.len() ==> #[trigger] x[k] != '"',
        _ => false,
    }
}

/// Every token that lexing yields is a non-empty word, `:`, `,`, `;` or a
/// string literal: the lexer never produces `Identifier` or `NumberLiteral`.
pub proof fn lemma_lex_token_kinds(s: Seq<char>, i: int)
    ensures
        lex_from(s, i) matches Ok(ts) ==> forall|k: int|
            0 <= k < ts.len() ==> #[trigger] is_lexer_token(ts[k]),
    decreases s.len() - i,
{
    if 0 <= i < s.len() {
        let c = s[i];
        if is_white_space_char(c) && c != ':' && c != ',' && c != ';' && c != '"'
            && !is_alphabetic_char(c) {
            lemma_lex_token_kinds(s, i + 1);
        } else if c == ':' || c == ',' || c == ';' || c == '"' || is_alphabetic_char(c) {
            let (t, next) = if c == ':' {
                (TokenView::Colon, i + 1)
            } else if c == ',' {
                (TokenView::Comma, i + 1)
            } else if c == ';' {
                (TokenView::Semicolon, i + 1)
            } else if c == '"' {
                lemma_quote_end_bounds(s, i + 1);
                let j = quote_end(s, i + 1);
                let x = s.subrange(i + 1, j);
                assert forall|k: int| 0 <= k < x.len() implies #[trigger] x[k] != '"' by {
                    assert(x[k] == s[i + 1 + k]);
                }
                (TokenView::StringLiteral(x), min_int(j + 2, s.len() as int))
            } else {
                lemma_word_end_bounds(s, i);
                let j = word_end(s, i);
                assert(is_word_char(s[i]));
                let w = s.subrange(i, j);
                assert forall|k: int| 0 <= k < w.len() implies #[trigger] is_word_char(w[k]) by {
                    assert(w[k] == s[i + k]);
                }
                assert(w[0] == s[i]);
                (TokenView::Command(w), min_int(j + 1, s.len() as int))
            };
            assert(lex_from(s, i) == prepend_token(t, lex_from(s, next)));
            assert(is_lexer_token(t));
            lemma_lex_token_kinds(s, next);
            if let Ok(ts) = lex_from(s, i) {
                let rts = lex_from(s, next)->Ok_0;
                assert(ts == seq![t] + rts);
                assert forall|k: int| 0 <= k < ts.len() implies #[trigger] is_lexer_token(
                    ts[k],
                ) by {
                    if k > 0 {
                        assert(ts[k] == rts[k - 1]);
                    }
                }
            }
        }
    }
}

proof fn lemma_quote_end_shift(p: Seq<char>, s: Seq<char>, k: int)
    requires
        0 <= k,
    ensures
        quote_end(p + s, p.len() + k) == p.len() + quote_end(s, k),
    decreases s.len() - k,
{
    if k < s.len() {
        assert((p + s)[p.len() + k] == s[k]);
        if s[k] != '"' {
            lemma_quote_end_shift(p, s, k + 1);
        }
    }
}

proof fn lemma_word_end_shift(p: Seq<char>, s: Seq<char>, k: int)
    requires
        0 <= k,
    ensures
        word_end(p + s, p.len() + k) == p.len() + word_end(s, k),
    decreases s.len() - k,
{
    if k < s.len() {
        assert((p + s)[p.len() + k] == s[k]);
        if is_word_char(s[k]) {
            lemma_word_end_shift(p, s, k + 1);
        }
    }
}

/// What lexing yields from a position depends only on the text from there
/// on: lexing `p + s` from where `s` starts is lexing `s`.
pub proof fn lemma_lex_from_shift(p: Seq<char>, s: Seq<char>, i: int)
    requires
        0 <= i,
    ensures
        lex_from(p + s, p.len() + i) == lex_from(s, i),
    decreases s.len() - i,
{
    let ps = p + s;
    let k = p.len() + i;
    if i < s.len() {
        let c = s[i];
        assert(ps[k] == c);
        if c == ':' || c == ',' || c == ';' || (c != '"' && !is_alphabetic_char(c)
            && is_white_space_char(c)) {
            lemma_lex_from_shift(p, s, i + 1);
            assert(p.len() + (i + 1) == k + 1);
        } else if c == '"' {
            lemma_quote_end_bounds(s, i + 1);
            lemma_quote_end_shift(p, s, i + 1);
            let j = quote_end(s, i + 1);
            assert(ps.subrange(k + 1, p.len() + j) =~= s.subrange(i + 1, j));
            let next = min_int(j + 2, s.len() as int);
            lemma_lex_from_shift(p, s, next);
            assert(min_int(p.len() + j + 2, ps.len() as int) == p.len() + next);
        } else if is_alphabetic_char(c) {
            lemma_word_end_bounds(s, i);
            lemma_word_end_shift(p, s, i);
            let j = word_end(s, i);
            assert(ps.subrange(k, p.len() + j) =~= s.subrange(i, j));
            let next = min_int(j + 1, s.len() as int);
            lemma_lex_from_shift(p, s, next);
            assert(min_int(p.len() + j + 1, ps.len() as int) == p.len() + next);
        }
    }
}

/// A `;` is one `Semicolon` token, and lexing goes on after it: wherever
/// lexing reaches a `;` followed by the text `b`, it yields `Semicolon`
/// followed by exactly the tokens of `b` lexed on its own (or fails as `b`
/// does). The same holds for `:` and `,`.
pub proof fn lemma_lex_punctuation_continues(p: Seq<char>, c: char, b: Seq<char>)
    requires
        c == ';' || c == ':' || c == ',',
    ensures
        lex_from(p + seq![c] + b, p.len() as int) == prepend_token(
            if c == ';' {
                TokenView::Semicolon
            } else if c == ':' {
                TokenView::Colon
            } else {
                TokenView::Comma
            },
            lex_spec(b),
        ),
        lex_spec(seq![c] + b) == prepend_token(
            if c == ';' {
                TokenView::Semicolon
            } else if c == ':' {
                TokenView::Colon
            } else {
                TokenView::Comma
            },
            lex_spec(b),
        ),
{
    let q = p + seq![c];
    assert(p + seq![c] + b == q + b);
    assert((q + b)[p.len() as int] == c);
    lemma_lex_from_shift(q, b, 0);
    lemma_lex_from_shift(seq![c], b, 0);
    assert((seq![c] + b)[0] == c);
}

/// A string literal: `"x"` (with no `"` inside `x`) followed by one more
/// character (which the lexer consumes with the closing quote) and the text
/// `b` yields the literal `x` followed by the tokens of `b` lexed on its own;
/// an opening `"` that is never closed takes the rest of the text.
pub proof fn lemma_lex_string_literal(x: Seq<char>, c: char, b: Seq<char>)
    requires
        forall|k: int| 0 <= k < x.len() ==> x[k] != '"',
    ensures
        lex_spec(seq!['"'] + x + seq!['"', c] + b) == prepend_token(
            TokenView::StringLiteral(x),
            lex_spec(b),
        ),
        lex_spec(seq!['"'] + x) == Ok::<Seq<TokenView>, char>(seq![TokenView::StringLiteral(x)]),
{
    let s = seq!['"'] + x + seq!['"', c] + b;
    let q = seq!['"'] + x + seq!['"', c];
    assert(s == q + b);
    assert(s[0] == '"');
    assert forall|k: int| 1 <= k < x.len() + 1 implies s[k] != '"' by {
        assert(s[k] == x[k - 1]);
    }
    assert(s[x.len() + 1int] == '"');
    lemma_quote_end_bounds(s, 1);
    assert(quote_end(s, 1) == x.len() + 1) by {
        if quote_end(s, 1) < x.len() + 1 {
            assert(s[quote_end(s, 1)] == '"');
        }
    }
    assert(s.subrange(1, x.len() + 1int) =~= x);
    lemma_lex_from_shift(q, b, 0);
    assert(min_int(x.len() + 3int, s.len() as int) == q.len());
    let u = seq!['"'] + x;
    assert(u[0] == '"');
    assert forall|k: int| 1 <= k < u.len() implies u[k] != '"' by {
        assert(u[k] == x[k - 1]);
    }
    lemma_quote_end_bounds(u, 1);
    assert(quote_end(u, 1) == u.len()) by {
        if quote_end(u, 1) < u.len() {
            assert(u[quote_end(u, 1)] == '"');
        }
    }
    assert(u.subrange(1, u.len() as int) =~= x);
    assert(lex_from(u, u.len() as int) == Ok::<Seq<TokenView>, char>(seq![]));
    assert(seq![TokenView::StringLiteral(x)] + Seq::<TokenView>::empty() =~= seq![
        TokenView::StringLiteral(x),
    ]);
}

/// A word: `w` (an alphabetic character, then word characters) ended by a
/// character `d` that does not continue it yields the word `w` followed by
/// the tokens of the text after `d` lexed on its own (`d` is consumed with
/// the word); a word at the end of the text is its last token. The premise
/// that `w[0]` is none of `:`, `,`, `;`, `"` holds of every alphabetic
/// character; it is spelled out because the character classes are named
/// rather than defined here.
pub proof fn lemma_lex_word(w: Seq<char>, d: char, b: Seq<char>)
    requires
        w.len() > 0,
        is_alphabetic_char(w[0]),
        w[0] != ':' && w[0] != ',' && w[0] != ';' && w[0] != '"',
        forall|k: int| 0 <= k < w.len() ==> is_word_char(#[trigger] w[k]),
        !is_word_char(d),
    ensures
        lex_spec(w + seq![d] + b) == prepend_token(TokenView::Command(w), lex_spec(b)),
        lex_spec(w) == Ok::<Seq<TokenView>, char>(seq![TokenView::Command(w)]),
{
    let q = w + seq![d];
    let s = q + b;
    assert(w + seq![d] + b == s);
    assert(s[0] == w[0]);
    lemma_word_end_bounds(s, 0);
    assert(s[w.len() as int] == d);
    assert forall|k: int| 0 <= k < w.len() implies is_word_char(#[trigger] s[k]) by {
        assert(s[k] == w[k]);
    }
    assert(word_end(s, 0) == w.len()) by {
        if word_end(s, 0) < w.len() {
            assert(is_word_char(s[word_end(s, 0)]));
        }
        if word_end(s, 0) > w.len() {
            assert(is_word_char(s[w.len() as int]));
        }
    }
    assert(s.subrange(0, w.len() as int) =~= w);
    lemma_lex_from_shift(q, b, 0);
    assert(min_int(w.len() + 1int, s.len() as int) == q.len());
    lemma_word_end_bounds(w, 0);
    assert(word_end(w, 0) == w.len()) by {
        if word_end(w, 0) < w.len() {
            assert(is_word_char(w[word_end(w, 0)]));
        }
    }
    assert(w.subrange(0, w.len() as int) =~= w);
    assert(lex_from(w, w.len() as int) == Ok::<Seq<TokenView>, char>(seq![]));
    assert(seq![TokenView::Command(w)] + Seq::<TokenView>::empty() =~= seq![TokenView::Command(w)]);
}

/// White space between tokens yields nothing: a white-space character (none
/// of `:`, `,`, `;`, `"`, and not alphabetic) followed by `b` lexes as `b`.
pub proof fn lemma_lex_skips_white_space(c: char, b: Seq<char>)
    requires
        is_white_space_char(c),
        !is_alphabetic_char(c),
        c != ':' && c != ',' && c != ';' && c != '"',
    ensures
        lex_spec(seq![c] + b) == lex_spec(b),
{
    assert((seq![c] + b)[0] == c);
    lemma_lex_from_shift(seq![c], b, 0);
}

/// A character that starts no token (not `:`, `,`, `;`, `"`, alphabetic or
/// white space) makes lexing fail with that character, whatever follows.
pub proof fn lemma_lex_rejects_character(c: char, b: Seq<char>)
    requires
        !is_white_space_char(c),
        !is_alphabetic_char(c),
        c != ':' && c != ',' && c != ';' && c != '"',
    ensures
        lex_spec(seq![c] + b) == Err::<Seq<TokenView>, char>(c),
{
    assert((seq![c] + b)[0] == c);
}

/// Empty text has no tokens.
pub proof fn lemma_lex_empty()
    ensures
        lex_spec(Seq::empty()) == Ok::<Seq<TokenView>, char>(Seq::empty()),
{
}

/// Splits `input` into tokens.
///
/// Fails with `Unexpected character: <c>` at the first character that is not
/// `:`, `,`, `;`, `"`, alphabetic or white space (outside string literals).
pub fn lex(input: &str) -> (r: Result<Vec<Token>, String>)
    ensures
        match lex_spec(input@) {
            Ok(ts) => r is Ok && tokens_view(r->Ok_0@) == ts,
            Err(c) => r is Err && r->Err_0@ == unexpected_char_message(c),
        },
        r matches Ok(ts) ==> forall|k: int|
            0 <= k < ts@.len() ==> #[trigger] is_lexer_token(ts@[k]@),
{
    let s = chars_of(input);
    let n = s.len();
    let mut tokens: Vec<Token> = Vec::new();
    let mut i: usize = 0;
    proof {
        assert(tokens_view(tokens@) =~= Seq::<TokenView>::empty());
        assert(prepend_tokens(Seq::empty(), lex_from(s@, 0)) =~= lex_from(s@, 0)) by {
            match lex_from(s@, 0) {
                Ok(ts) => {
                    assert(Seq::<TokenView>::empty() + ts =~= ts);
                },
                Err(_) => {},
            }
        }
    }
    while i < n
        invariant
            n == s@.len(),
            s@ == input@,
            i <= n,
            lex_spec(s@) == prepend_tokens(tokens_view(tokens@), lex_from(s@, i as int)),
        decreases n - i,
    {
        let c = s[i];
        let ghost before = tokens_view(tokens@);
        if c == ':' || c == ',' || c == ';' {
            let t = if c == ':' {
                Token::Colon
            } else if c == ',' {
                Token::Comma
            } else {
                Token::Semicolon
            };
            tokens.push(t);
            i = i + 1;
            proof {
                assert(tokens_view(tokens@) =~= before.push(t@));
                match lex_from(s@, i as int) {
                    Ok(ts) => {
                        assert(before + (seq![t@] + ts) =~= before.push(t@) + ts);
                    },
                    Err(_) => {},
                }
            }
        } else if c == '"' {
            let mut j = i + 1;
            while j < n && s[j] != '"'
                invariant
                    n == s@.len(),
                    i < j <= n,
                    quote_end(s@, i + 1) == quote_end(s@, j as int),
                decreases n - j,
            {
                j = j + 1;
            }
            let t = Token::StringLiteral(string_of_range(&s, i + 1, j));
            tokens.push(t);
            let ghost next = min_int(j + 2, n as int);
            i = if j < n && n - j >= 2 {
                j + 2
            } else {
                n
            };
            proof {
                assert(i == next);
                assert(tokens_view(tokens@) =~= before.push(t@));
                match lex_from(s@, i as int) {
                    Ok(ts) => {
                        assert(before + (seq![t@] + ts) =~= before.push(t@) + ts);
                    },
                    Err(_) => {},
                }
            }
        } else if char_is_alphabetic(c) {
            let mut j = i;
            while j < n && (char_is_alphanumeric(s[j]) || s[j] == '_')
                invariant
                    n == s@.len(),
                    i <= j <= n,
                    word_end(s@, i as int) == word_end(s@, j as int),
                decreases n - j,
            {
                j = j + 1;
            }
            let t = Token::Command(string_of_range(&s, i, j));
            tokens.push(t);
            i = if j < n {
                j + 1
            } else {
                n
            };
            proof {
                assert(tokens_view(tokens@) =~= before.push(t@));
                match lex_from(s@, i as int) {
                    Ok(ts) => {
                        assert(before + (seq![t@] + ts) =~= before.push(t@) + ts);
                    },
                    Err(_) => {},
                }
            }
        } else if char_is_whitespace(c) {
            i = i + 1;
        } else {
            let mut msg = String::from_str("Unexpected character: ");
            push_char(&mut msg, c);
            proof {
                lemma_lex_token_kinds(s@, 0);
            }
            return Err(msg);
        }
    }
    proof {
        assert(lex_from(s@, i as int) == Ok::<Seq<TokenView>, char>(Seq::empty()));
        lemma_lex_token_kinds(s@, 0);
        assert(tokens_view(tokens@) + Seq::<TokenView>::empty() =~= tokens_view(tokens@));
        assert forall|k: int| 0 <= k < tokens@.len() implies #[trigger] is_lexer_token(
            tokens@[k]@,
        ) by {
            assert(tokens_view(tokens@)[k] == tokens@[k]@);
        }
    }
    Ok(tokens)
}

} // verus!
