//! Anchored line patterns: the grammar of the query-language commands.
//!
//! A pattern is a sequence of pieces matched against a whole line, with the
//! priorities of a backtracking matcher: a lazy group takes as few
//! characters as it can, an optional piece is tried before it is skipped,
//! and the alternatives of a choice are tried in order. No group spans a
//! line break.

use vstd::prelude::*;

verus! {

/// A piece of a pattern.
pub enum Piece {
    /// Exactly this text.
    Literal(Vec<char>),
    /// One or more characters other than `\n`, as few as possible; captured.
    Lazy,
    /// The first of these texts that lets the rest match; captured.
    Choice(Vec<Vec<char>>),
    /// This text if the rest matches after it, else nothing; captured.
    Optional(Vec<char>),
    /// This text followed by one or more characters other than `\n`, as many
    /// as possible, if the rest matches after them; else nothing. The
    /// characters after the text are captured.
    OptionalTail(Vec<char>),
}

/// The mathematical value of a `Piece`.
pub enum PieceView {
    Literal(Seq<char>),
    Lazy,
    Choice(Seq<Seq<char>>),
    Optional(Seq<char>),
    OptionalTail(Seq<char>),
}

/// The views of a sequence of character vectors.
pub open spec fn texts_view(v: Seq<Vec<char>>) -> Seq<Seq<char>> {
    v.map_values(|x: Vec<char>| x@)
}

impl View for Piece {
    type V = PieceView;

    open spec fn view(&self) -> PieceView {
        match self {
            Piece::Literal(l) => PieceView::Literal(l@),
            Piece::Lazy => PieceView::Lazy,
            Piece::Choice(alts) => PieceView::Choice(texts_view(alts@)),
            Piece::Optional(l) => PieceView::Optional(l@),
            Piece::OptionalTail(l) => PieceView::OptionalTail(l@),
        }
    }
}

/// The views of a sequence of pieces.
pub open spec fn pieces_view(p: Seq<Piece>) -> Seq<PieceView> {
    p.map_values(|x: Piece| x@)
}

/// The captured groups of a match, in order; `None` for a group that took
/// no part.
pub type Captures = Seq<Option<Seq<char>>>;

/// The view of an optional character vector.
pub open spec fn opt_chars_view(x: Option<Vec<char>>) -> Option<Seq<char>> {
    match x {
        Some(v) => Some(v@),
        None => None,
    }
}

/// The view of the groups as the executable matcher returns them.
pub open spec fn captures_view(c: Seq<Option<Vec<char>>>) -> Captures {
    c.map_values(|x: Option<Vec<char>>| opt_chars_view(x))
}

/// The view of an optional match.
pub open spec fn match_view(r: Option<Vec<Option<Vec<char>>>>) -> Option<Captures> {
    match r {
        Some(c) => Some(captures_view(c@)),
        None => None,
    }
}

/// Whether `lit` occurs in `s` at `pos`.
pub open spec fn starts_at(s: Seq<char>, pos: int, lit: Seq<char>) -> bool {
    0 <= pos && pos + lit.len() <= s.len() && s.subrange(pos, pos + lit.len()) == lit
}

/// The index of the first `\n` at or after `k`, or `s.len()`.
pub open spec fn line_end(s: Seq<char>, k: int) -> int
    decreases s.len() - k,
{
    if k >= s.len() {
        s.len() as int
    } else if s[k] == '\n' {
        k
    } else {
        line_end(s, k + 1)
    }
}

pub proof fn lemma_line_end_bounds(s: Seq<char>, k: int)
    requires
        0 <= k <= s.len(),
    ensures
        k <= line_end(s, k) <= s.len(),
        forall|m: int| k <= m < line_end(s, k) ==> s[m] != '\n',
        line_end(s, k) < s.len() ==> s[line_end(s, k)] == '\n',
    decreases s.len() - k,
{
    if k < s.len() && s[k] != '\n' {
        lemma_line_end_bounds(s, k + 1);
    }
}

/// `x` in front of the groups of `r`.
pub open spec fn prepend_capture(x: Option<Seq<char>>, r: Option<Captures>) -> Option<Captures> {
    match r {
        Some(c) => Some(seq![x] + c),
        None => None,
    }
}

/// Matching pieces `i..` of `p` against `s[pos..]`, to the end of `s`.
pub open spec fn match_at(p: Seq<PieceView>, i: int, s: Seq<char>, pos: int) -> Option<Captures>
    decreases p.len() - i, s.len() - pos + 3, 0int,
{
    if i < 0 || pos < 0 || pos > s.len() {
        None
    } else if i >= p.len() {
        if pos == s.len() {
            Some(seq![])
        } else {
            None
        }
    } else {
        match p[i] {
            PieceView::Literal(l) => if starts_at(s, pos, l) {
                match_at(p, i + 1, s, pos + l.len())
            } else {
                None
            },
            PieceView::Lazy => lazy_at(p, i, s, pos, pos + 1),
            PieceView::Choice(alts) => choice_at(p, i, s, pos, alts, 0),
            PieceView::Optional(l) => {
                let taken = if starts_at(s, pos, l) {
                    match_at(p, i + 1, s, pos + l.len())
                } else {
                    None
                };
                match taken {
                    Some(c) => Some(seq![Some(l)] + c),
                    None => prepend_capture(None, match_at(p, i + 1, s, pos)),
                }
            },
            PieceView::OptionalTail(l) => {
                let taken = if starts_at(s, pos, l) {
                    let q = pos + l.len();
                    proof {
                        lemma_line_end_bounds(s, q);
                    }
                    greedy_at(p, i, s, q, line_end(s, q))
                } else {
                    None
                };
                match taken {
                    Some(c) => Some(c),
                    None => prepend_capture(None, match_at(p, i + 1, s, pos)),
                }
            },
        }
    }
}

/// The lazy group `p[i]` taking `s[start..end]`, or failing that, more.
pub open spec fn lazy_at(p: Seq<PieceView>, i: int, s: Seq<char>, start: int, end: int) -> Option<
    Captures,
>
    decreases p.len() - i, s.len() - end + 2, 0int,
{
    if !(0 <= i < p.len()) || start < 0 || end <= start || end > s.len() {
        None
    } else if s[end - 1] == '\n' {
        None
    } else {
        match match_at(p, i + 1, s, end) {
            Some(c) => Some(seq![Some(s.subrange(start, end))] + c),
            None => lazy_at(p, i, s, start, end + 1),
        }
    }
}

/// The greedy group inside `p[i]` taking `s[start..end]`, or failing that, less.
pub open spec fn greedy_at(p: Seq<PieceView>, i: int, s: Seq<char>, start: int, end: int) -> Option<
    Captures,
>
    decreases p.len() - i, end - start, 0int,
{
    if !(0 <= i < p.len()) || start < 0 || end <= start || end > s.len() {
        None
    } else {
        match match_at(p, i + 1, s, end) {
            Some(c) => Some(seq![Some(s.subrange(start, end))] + c),
            None => greedy_at(p, i, s, start, end - 1),
        }
    }
}

/// The choice `p[i]` trying its alternatives from the `j`-th on.
pub open spec fn choice_at(
    p: Seq<PieceView>,
    i: int,
    s: Seq<char>,
    pos: int,
    alts: Seq<Seq<char>>,
    j: int,
) -> Option<Captures>
    decreases p.len() - i, 0int, alts.len() - j,
{
    if !(0 <= i < p.len()) || j < 0 || j >= alts.len() {
        None
    } else {
        let a = alts[j];
        let taken = if starts_at(s, pos, a) {
            match_at(p, i + 1, s, pos + a.len())
        } else {
            None
        };
        match taken {
            Some(c) => Some(seq![Some(a)] + c),
            None => choice_at(p, i, s, pos, alts, j + 1),
        }
    }
}

/// Matching the whole pattern `p` against the whole of `s`.
pub open spec fn pattern_match(p: Seq<PieceView>, s: Seq<char>) -> Option<Captures> {
    match_at(p, 0, s, 0)
}

/// For each group of pieces `i..` of `p`, whether it always takes part in a
/// match: lazy groups and choices do, optional pieces need not.
pub open spec fn group_kinds(p: Seq<PieceView>, i: int) -> Seq<bool>
    decreases p.len() - i,
{
    if i < 0 || i >= p.len() {
        seq![]
    } else {
        match p[i] {
            PieceView::Literal(_) => group_kinds(p, i + 1),
            PieceView::Lazy => seq![true] + group_kinds(p, i + 1),
            PieceView::Choice(_) => seq![true] + group_kinds(p, i + 1),
            PieceView::Optional(_) => seq![false] + group_kinds(p, i + 1),
            PieceView::OptionalTail(_) => seq![false] + group_kinds(p, i + 1),
        }
    }
}

/// Whether the groups `c` have one entry per group of `kinds`, present
/// wherever the group always takes part.
pub open spec fn captures_fit(c: Captures, kinds: Seq<bool>) -> bool {
    c.len() == kinds.len() && forall|j: int| 0 <= j < kinds.len() && kinds[j] ==> #[trigger] c[j] is Some
}

/// A successful match has one capture per group, present for every group
/// that always takes part.
pub proof fn lemma_match_shape(p: Seq<PieceView>, i: int, s: Seq<char>, pos: int)
    ensures
        match_at(p, i, s, pos) matches Some(c) ==> captures_fit(c, group_kinds(p, i)),
    decreases p.len() - i, s.len() - pos + 3, 0int,
{
    if i < 0 || pos < 0 || pos > s.len() || i >= p.len() {
    } else {
        let k = group_kinds(p, i + 1);
        match p[i] {
            PieceView::Literal(l) => {
                if starts_at(s, pos, l) {
                    lemma_match_shape(p, i + 1, s, pos + l.len());
                }
            },
            PieceView::Lazy => {
                lemma_lazy_shape(p, i, s, pos, pos + 1);
                lemma_head_fit(match_at(p, i, s, pos), true, k);
            },
            PieceView::Choice(alts) => {
                lemma_choice_shape(p, i, s, pos, alts, 0);
                lemma_head_fit(match_at(p, i, s, pos), true, k);
            },
            PieceView::Optional(l) => {
                if starts_at(s, pos, l) {
                    lemma_match_shape(p, i + 1, s, pos + l.len());
                }
                lemma_match_shape(p, i + 1, s, pos);
                if let Some(c) = match_at(p, i, s, pos) {
                    assert(c.drop_first() =~= match_at(p, i + 1, s, if starts_at(s, pos, l)
                        && match_at(p, i + 1, s, pos + l.len()) is Some {
                        pos + l.len()
                    } else {
                        pos
                    })->Some_0);
                }
                lemma_head_fit(match_at(p, i, s, pos), false, k);
            },
            PieceView::OptionalTail(l) => {
                if starts_at(s, pos, l) {
                    lemma_line_end_bounds(s, pos + l.len());
                    lemma_greedy_shape(p, i, s, pos + l.len(), line_end(s, pos + l.len()));
                }
                lemma_match_shape(p, i + 1, s, pos);
                if let Some(c) = match_at(p, i, s, pos) {
                    if !(starts_at(s, pos, l) && greedy_at(
                        p,
                        i,
                        s,
                        pos + l.len(),
                        line_end(s, pos + l.len()),
                    ) is Some) {
                        assert(c.drop_first() =~= match_at(p, i + 1, s, pos)->Some_0);
                    }
                }
                lemma_head_fit(match_at(p, i, s, pos), false, k);
            },
        }
    }
}

/// Groups `c` whose first entry is followed by groups that fit `k` fit
/// `[head] + k`.
pub proof fn lemma_head_fit(r: Option<Captures>, head: bool, k: Seq<bool>)
    requires
        r matches Some(c) ==> c.len() >= 1 && (head ==> c[0] is Some) && captures_fit(
            c.drop_first(),
            k,
        ),
    ensures
        r matches Some(c) ==> captures_fit(c, seq![head] + k),
{
    if let Some(c) = r {
        assert forall|j: int| 0 <= j < k.len() + 1 && (seq![head] + k)[j] implies #[trigger] c[j] is Some by {
            if j > 0 {
                assert(c.drop_first()[j - 1] == c[j]);
            }
        }
    }
}

pub proof fn lemma_lazy_shape(p: Seq<PieceView>, i: int, s: Seq<char>, start: int, end: int)
    ensures
        lazy_at(p, i, s, start, end) matches Some(c) ==> c.len() >= 1 && c[0] is Some
            && captures_fit(c.drop_first(), group_kinds(p, i + 1)),
    decreases p.len() - i, s.len() - end + 2, 0int,
{
    if !(0 <= i < p.len()) || start < 0 || end <= start || end > s.len() {
    } else if s[end - 1] == '\n' {
    } else {
        lemma_match_shape(p, i + 1, s, end);
        lemma_lazy_shape(p, i, s, start, end + 1);
        if let Some(c) = match_at(p, i + 1, s, end) {
            assert((seq![Some(s.subrange(start, end))] + c).drop_first() =~= c);
        }
    }
}

pub proof fn lemma_greedy_shape(p: Seq<PieceView>, i: int, s: Seq<char>, start: int, end: int)
    ensures
        greedy_at(p, i, s, start, end) matches Some(c) ==> c.len() >= 1 && c[0] is Some
            && captures_fit(c.drop_first(), group_kinds(p, i + 1)),
    decreases p.len() - i, end - start, 0int,
{
    if !(0 <= i < p.len()) || start < 0 || end <= start || end > s.len() {
    } else {
        lemma_match_shape(p, i + 1, s, end);
        lemma_greedy_shape(p, i, s, start, end - 1);
        if let Some(c) = match_at(p, i + 1, s, end) {
            assert((seq![Some(s.subrange(start, end))] + c).drop_first() =~= c);
        }
    }
}

pub proof fn lemma_choice_shape(
    p: Seq<PieceView>,
    i: int,
    s: Seq<char>,
    pos: int,
    alts: Seq<Seq<char>>,
    j: int,
)
    ensures
        choice_at(p, i, s, pos, alts, j) matches Some(c) ==> c.len() >= 1 && c[0] is Some
            && captures_fit(c.drop_first(), group_kinds(p, i + 1)),
    decreases p.len() - i, 0int, alts.len() - j,
{
    if !(0 <= i < p.len()) || j < 0 || j >= alts.len() {
    } else {
        let a = alts[j];
        if starts_at(s, pos, a) {
            lemma_match_shape(p, i + 1, s, pos + a.len());
            if let Some(c) = match_at(p, i + 1, s, pos + a.len()) {
                assert((seq![Some(a)] + c).drop_first() =~= c);
            }
        }
        lemma_choice_shape(p, i, s, pos, alts, j + 1);
    }
}

/// The text of a capture, empty when the group took no part.
pub open spec fn opt_text(x: Option<Seq<char>>) -> Seq<char> {
    match x {
        Some(t) => t,
        None => seq![],
    }
}

/// The text that pieces `i..` of `p` spell with the groups `c`.
pub open spec fn render(p: Seq<PieceView>, i: int, c: Captures) -> Seq<char>
    decreases p.len() - i,
{
    if i < 0 || i >= p.len() {
        seq![]
    } else {
        match p[i] {
            PieceView::Literal(l) => l + render(p, i + 1, c),
            PieceView::Lazy => opt_text(c[0]) + render(p, i + 1, c.drop_first()),
            PieceView::Choice(_) => opt_text(c[0]) + render(p, i + 1, c.drop_first()),
            PieceView::Optional(l) => (if c[0] is Some {
                l
            } else {
                seq![]
            }) + render(p, i + 1, c.drop_first()),
            PieceView::OptionalTail(l) => (if c[0] is Some {
                l + opt_text(c[0])
            } else {
                seq![]
            }) + render(p, i + 1, c.drop_first()),
        }
    }
}

/// A match spells the matched text: the rest of `s` from `pos` is what the
/// pieces spell with the captured groups.
pub proof fn lemma_match_renders(p: Seq<PieceView>, i: int, s: Seq<char>, pos: int)
    ensures
        match_at(p, i, s, pos) matches Some(c) ==> s.subrange(pos, s.len() as int) == render(
            p,
            i,
            c,
        ),
    decreases p.len() - i, s.len() - pos + 3, 0int,
{
    if i < 0 || pos < 0 || pos > s.len() {
    } else if i >= p.len() {
        if pos == s.len() {
            assert(s.subrange(pos, s.len() as int) =~= Seq::<char>::empty());
        }
    } else {
        match p[i] {
            PieceView::Literal(l) => {
                if starts_at(s, pos, l) {
                    lemma_match_renders(p, i + 1, s, pos + l.len());
                    assert(s.subrange(pos, s.len() as int) =~= l + s.subrange(
                        pos + l.len(),
                        s.len() as int,
                    ));
                }
            },
            PieceView::Lazy => {
                lemma_lazy_renders(p, i, s, pos, pos + 1);
            },
            PieceView::Choice(alts) => {
                lemma_choice_renders(p, i, s, pos, alts, 0);
            },
            PieceView::Optional(l) => {
                if starts_at(s, pos, l) {
                    lemma_match_renders(p, i + 1, s, pos + l.len());
                    if let Some(c) = match_at(p, i + 1, s, pos + l.len()) {
                        let c2 = seq![Some(l)] + c;
                        assert(c2.drop_first() =~= c);
                        assert(s.subrange(pos, s.len() as int) =~= l + s.subrange(
                            pos + l.len(),
                            s.len() as int,
                        ));
                    }
                }
                lemma_match_renders(p, i + 1, s, pos);
                if let Some(c) = match_at(p, i + 1, s, pos) {
                    let c2 = seq![None] + c;
                    assert(c2.drop_first() =~= c);
                    assert(s.subrange(pos, s.len() as int) =~= Seq::<char>::empty() + s.subrange(
                        pos,
                        s.len() as int,
                    ));
                }
            },
            PieceView::OptionalTail(l) => {
                if starts_at(s, pos, l) {
                    let q = pos + l.len();
                    lemma_line_end_bounds(s, q);
                    lemma_greedy_renders(p, i, s, q, line_end(s, q));
                    if let Some(c) = greedy_at(p, i, s, q, line_end(s, q)) {
                        assert(s.subrange(pos, s.len() as int) =~= l + s.subrange(
                            q,
                            s.len() as int,
                        ));
                    }
                }
                lemma_match_renders(p, i + 1, s, pos);
                if let Some(c) = match_at(p, i + 1, s, pos) {
                    let c2 = seq![None] + c;
                    assert(c2.drop_first() =~= c);
                    assert(s.subrange(pos, s.len() as int) =~= Seq::<char>::empty() + s.subrange(
                        pos,
                        s.len() as int,
                    ));
                }
            },
        }
    }
}

pub proof fn lemma_lazy_renders(p: Seq<PieceView>, i: int, s: Seq<char>, start: int, end: int)
    ensures
        lazy_at(p, i, s, start, end) matches Some(c) ==> c.len() >= 1 && s.subrange(
            start,
            s.len() as int,
        ) == opt_text(c[0]) + render(p, i + 1, c.drop_first()),
    decreases p.len() - i, s.len() - end + 2, 0int,
{
    if !(0 <= i < p.len()) || start < 0 || end <= start || end > s.len() {
    } else if s[end - 1] == '\n' {
    } else {
        lemma_match_renders(p, i + 1, s, end);
        lemma_lazy_renders(p, i, s, start, end + 1);
        if let Some(c) = match_at(p, i + 1, s, end) {
            let c2 = seq![Some(s.subrange(start, end))] + c;
            assert(c2.drop_first() =~= c);
            assert(s.subrange(start, s.len() as int) =~= s.subrange(start, end) + s.subrange(
                end,
                s.len() as int,
            ));
        }
    }
}

pub proof fn lemma_greedy_renders(p: Seq<PieceView>, i: int, s: Seq<char>, start: int, end: int)
    ensures
        greedy_at(p, i, s, start, end) matches Some(c) ==> c.len() >= 1 && c[0] is Some
            && s.subrange(start, s.len() as int) == opt_text(c[0]) + render(
            p,
            i + 1,
            c.drop_first(),
        ),
    decreases p.len() - i, end - start, 0int,
{
    if !(0 <= i < p.len()) || start < 0 || end <= start || end > s.len() {
    } else {
        lemma_match_renders(p, i + 1, s, end);
        lemma_greedy_renders(p, i, s, start, end - 1);
        if let Some(c) = match_at(p, i + 1, s, end) {
            let c2 = seq![Some(s.subrange(start, end))] + c;
            assert(c2.drop_first() =~= c);
            assert(s.subrange(start, s.len() as int) =~= s.subrange(start, end) + s.subrange(
                end,
                s.len() as int,
            ));
        }
    }
}

pub proof fn lemma_choice_renders(
    p: Seq<PieceView>,
    i: int,
    s: Seq<char>,
    pos: int,
    alts: Seq<Seq<char>>,
    j: int,
)
    ensures
        choice_at(p, i, s, pos, alts, j) matches Some(c) ==> c.len() >= 1 && s.subrange(
            pos,
            s.len() as int,
        ) == opt_text(c[0]) + render(p, i + 1, c.drop_first()),
    decreases p.len() - i, 0int, alts.len() - j,
{
    if !(0 <= i < p.len()) || j < 0 || j >= alts.len() {
    } else {
        let a = alts[j];
        if starts_at(s, pos, a) {
            lemma_match_renders(p, i + 1, s, pos + a.len());
            if let Some(c) = match_at(p, i + 1, s, pos + a.len()) {
                let c2 = seq![Some(a)] + c;
                assert(c2.drop_first() =~= c);
                assert(s.subrange(pos, s.len() as int) =~= a + s.subrange(
                    pos + a.len(),
                    s.len() as int,
                ));
            }
        }
        lemma_choice_renders(p, i, s, pos, alts, j + 1);
    }
}

/// A lazy group whose text `s[start..e]` holds neither a line break nor the
/// first character of the literal that follows it stops exactly at `e`, when
/// the rest matches from there.
pub proof fn lemma_lazy_stops_at(p: Seq<PieceView>, i: int, s: Seq<char>, start: int, end: int, e: int)
    requires
        0 <= i,
        i + 1 < p.len(),
        p[i + 1] matches PieceView::Literal(l) && l.len() > 0 && forall|k: int|
            start <= k < e ==> s[k] != l[0] && s[k] != '\n',
        0 <= start < end <= e <= s.len(),
        match_at(p, i + 1, s, e) is Some,
    ensures
        lazy_at(p, i, s, start, end) == Some(
            seq![Some(s.subrange(start, e))] + match_at(p, i + 1, s, e)->Some_0,
        ),
    decreases e - end,
{
    assert(s[end - 1] != '\n');
    if end < e {
        let l = p[i + 1]->Literal_0;
        assert(s[end] != l[0]);
        assert(!starts_at(s, end, l)) by {
            if starts_at(s, end, l) {
                assert(s.subrange(end, end + l.len())[0] == s[end]);
            }
        }
        assert(match_at(p, i + 1, s, end) is None);
        lemma_lazy_stops_at(p, i, s, start, end + 1, e);
    }
}

/// A literal that differs from `s` at some index does not occur at its start.
pub proof fn lemma_literal_mismatch(s: Seq<char>, l: Seq<char>, k: int)
    requires
        0 <= k < l.len(),
        k < s.len(),
        s[k] != l[k],
    ensures
        !starts_at(s, 0, l),
{
    if starts_at(s, 0, l) {
        assert(s.subrange(0, l.len() as int)[k] == s[k]);
    }
}

/// `v[from..to]` as a new vector.
pub fn sub_chars(v: &Vec<char>, from: usize, to: usize) -> (r: Vec<char>)
    requires
        from <= to <= v@.len(),
    ensures
        r@ == v@.subrange(from as int, to as int),
{
    let mut r: Vec<char> = Vec::new();
    let mut k = from;
    while k < to
        invariant
            from <= k <= to <= v@.len(),
            r@ == v@.subrange(from as int, k as int),
        decreases to - k,
    {
        r.push(v[k]);
        k = k + 1;
        assert(r@ =~= v@.subrange(from as int, k as int));
    }
    r
}

/// A copy of `v`.
pub fn copy_chars(v: &Vec<char>) -> (r: Vec<char>)
    ensures
        r@ == v@,
{
    let r = sub_chars(v, 0, v.len());
    assert(v@.subrange(0, v@.len() as int) =~= v@);
    r
}

/// Whether `lit` occurs in `s` at `pos`.
pub fn occurs_at(s: &Vec<char>, pos: usize, lit: &Vec<char>) -> (r: bool)
    ensures
        r == starts_at(s@, pos as int, lit@),
{
    let n = s.len();
    if pos > n || lit.len() > n - pos {
        return false;
    }
    let mut k: usize = 0;
    while k < lit.len()
        invariant
            n == s@.len(),
            pos + lit@.len() <= s@.len(),
            k <= lit@.len(),
            forall|m: int| 0 <= m < k ==> s@[pos + m] == lit@[m],
        decreases lit.len() - k,
    {
        if s[pos + k] != lit[k] {
            assert(s@.subrange(pos as int, pos + lit@.len())[k as int] != lit@[k as int]);
            return false;
        }
        k = k + 1;
    }
    assert(s@.subrange(pos as int, pos + lit@.len()) =~= lit@);
    true
}

/// `x` in front of `c`.
fn push_front(x: Option<Vec<char>>, c: Vec<Option<Vec<char>>>) -> (r: Vec<Option<Vec<char>>>)
    ensures
        captures_view(r@) == seq![opt_chars_view(x)] + captures_view(c@),
{
    let ghost xv = opt_chars_view(x);
    let ghost cv = captures_view(c@);
    let mut r = c;
    r.insert(0, x);
    assert(captures_view(r@) =~= seq![xv] + cv);
    r
}

/// Matches pieces `i..` of `p` against `s[pos..]`; see `match_at`.
pub fn match_pieces(p: &Vec<Piece>, i: usize, s: &Vec<char>, pos: usize) -> (r: Option<
    Vec<Option<Vec<char>>>,
>)
    ensures
        match_view(r) == match_at(pieces_view(p@), i as int, s@, pos as int),
    decreases p@.len() - i, s@.len() - pos + 3, 0int,
{
    let ghost pv = pieces_view(p@);
    if pos > s.len() {
        return None;
    }
    if i >= p.len() {
        if pos == s.len() {
            let r: Vec<Option<Vec<char>>> = Vec::new();
            assert(captures_view(r@) =~= seq![]);
            return Some(r);
        } else {
            return None;
        }
    }
    assert(pv[i as int] == p@[i as int]@);
    match &p[i] {
        Piece::Literal(l) => {
            if occurs_at(s, pos, l) {
                match_pieces(p, i + 1, s, pos + l.len())
            } else {
                assert(match_at(pv, i as int, s@, pos as int) is None);
                None
            }
        },
        Piece::Lazy => {
            if pos < s.len() {
                match_lazy(p, i, s, pos, pos + 1)
            } else {
                assert(lazy_at(pv, i as int, s@, pos as int, pos + 1) is None);
                None
            }
        },
        Piece::Choice(alts) => {
            let r = match_choice(p, i, s, pos, alts, 0);
            assert(match_view(r) == match_at(pv, i as int, s@, pos as int));
            r
        },
        Piece::Optional(l) => {
            if occurs_at(s, pos, l) {
                match match_pieces(p, i + 1, s, pos + l.len()) {
                    Some(c) => {
                        return Some(push_front(Some(copy_chars(l)), c));
                    },
                    None => {},
                }
            }
            match match_pieces(p, i + 1, s, pos) {
                Some(c) => Some(push_front(None, c)),
                None => None,
            }
        },
        Piece::OptionalTail(l) => {
            if occurs_at(s, pos, l) {
                let q = pos + l.len();
                let mut e = q;
                while e < s.len() && s[e] != '\n'
                    invariant
                        q <= e <= s@.len(),
                        line_end(s@, q as int) == line_end(s@, e as int),
                    decreases s.len() - e,
                {
                    e = e + 1;
                }
                proof {
                    lemma_line_end_bounds(s@, q as int);
                }
                match match_greedy(p, i, s, q, e) {
                    Some(c) => {
                        return Some(c);
                    },
                    None => {},
                }
            }
            match match_pieces(p, i + 1, s, pos) {
                Some(c) => Some(push_front(None, c)),
                None => None,
            }
        },
    }
}

/// The lazy group `p[i]`; see `lazy_at`.
fn match_lazy(p: &Vec<Piece>, i: usize, s: &Vec<char>, start: usize, end: usize) -> (r: Option<
    Vec<Option<Vec<char>>>,
>)
    requires
        i < p@.len(),
        start < end <= s@.len(),
    ensures
        match_view(r) == lazy_at(pieces_view(p@), i as int, s@, start as int, end as int),
    decreases p@.len() - i, s@.len() - end + 2, 0int,
{
    // The lengths of both vectors fit in `usize`.
    let _ = p.len();
    let _ = s.len();
    if s[end - 1] == '\n' {
        return None;
    }
    match match_pieces(p, i + 1, s, end) {
        Some(c) => Some(push_front(Some(sub_chars(s, start, end)), c)),
        None => {
            if end < s.len() {
                match_lazy(p, i, s, start, end + 1)
            } else {
                None
            }
        },
    }
}

/// The greedy group inside `p[i]`; see `greedy_at`.
fn match_greedy(p: &Vec<Piece>, i: usize, s: &Vec<char>, start: usize, end: usize) -> (r: Option<
    Vec<Option<Vec<char>>>,
>)
    requires
        i < p@.len(),
        start <= end <= s@.len(),
    ensures
        match_view(r) == greedy_at(pieces_view(p@), i as int, s@, start as int, end as int),
    decreases p@.len() - i, end - start, 0int,
{
    // The lengths of both vectors fit in `usize`.
    let _ = p.len();
    let _ = s.len();
    if end <= start {
        return None;
    }
    match match_pieces(p, i + 1, s, end) {
        Some(c) => Some(push_front(Some(sub_chars(s, start, end)), c)),
        None => match_greedy(p, i, s, start, end - 1),
    }
}

/// The choice `p[i]`; see `choice_at`.
fn match_choice(
    p: &Vec<Piece>,
    i: usize,
    s: &Vec<char>,
    pos: usize,
    alts: &Vec<Vec<char>>,
    j: usize,
) -> (r: Option<Vec<Option<Vec<char>>>>)
    requires
        i < p@.len(),
        pos <= s@.len(),
    ensures
        match_view(r) == choice_at(pieces_view(p@), i as int, s@, pos as int, texts_view(alts@), j as int),
    decreases p@.len() - i, 0int, alts@.len() - j,
{
    // The lengths of both vectors fit in `usize`.
    let _ = p.len();
    let _ = s.len();
    if j >= alts.len() {
        return None;
    }
    let a = &alts[j];
    assert(texts_view(alts@)[j as int] == a@);
    if occurs_at(s, pos, a) {
        match match_pieces(p, i + 1, s, pos + a.len()) {
            Some(c) => {
                return Some(push_front(Some(copy_chars(a)), c));
            },
            None => {},
        }
    }
    match_choice(p, i, s, pos, alts, j + 1)
}

} // verus!
