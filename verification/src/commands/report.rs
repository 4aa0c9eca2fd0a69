//! The text of a search report: one block per matching line, as segments
//! of text that the caller prints in their tones.

use vstd::prelude::*;

use crate::commands::search::{
    exact_matches_spec, exact_matches_view, find_exact_matches, find_fuzzy_matches,
    fuzzy_answers_fit, fuzzy_matches_spec, fuzzy_matches_view, lemma_exact_matches_are_the_containing_lines,
    lemma_fuzzy_matches_are_the_accepted_lines,
    lemma_occurrences_disjoint, occurrences, positions_view, ExactMatchView, FuzzyLineMatcher,
    FuzzyMatchView,
};
use crate::query_language::pattern::starts_at;
use crate::text::{
    byte_offset, byte_offsets, chars_of, decimal, decimal_string, push_char, string_of_range,
    strings_view,
};

verus! {

/// How a segment of a report is shown.
#[derive(Debug, Clone, Copy, PartialEq, Eq, Structural)]
pub enum Tone {
    Plain,
    Dimmed,
    Blue,
    Yellow,
    Red,
    GreenBold,
}

/// A piece of report text with its tone.
#[derive(Debug)]
pub struct Segment {
    pub text: String,
    pub tone: Tone,
}

/// The mathematical value of a `Segment`.
pub struct SegmentView {
    pub text: Seq<char>,
    pub tone: Tone,
}

impl View for Segment {
    type V = SegmentView;

    open spec fn view(&self) -> SegmentView {
        SegmentView { text: self.text@, tone: self.tone }
    }
}

/// The views of a sequence of segments.
pub open spec fn segments_view(v: Seq<Segment>) -> Seq<SegmentView> {
    v.map_values(|x: Segment| x@)
}

/// A segment.
pub open spec fn sv(text: Seq<char>, tone: Tone) -> SegmentView {
    SegmentView { text, tone }
}

/// The rule above a file's first block: forty dashes.
pub open spec fn dashes() -> Seq<char> {
    Seq::new(40, |i: int| '-')
}

/// The decimal numeral of an integer, with `-` before a negative one.
pub open spec fn signed_decimal(s: int) -> Seq<char> {
    if s < 0 {
        "-"@ + decimal((-s) as nat)
    } else {
        decimal(s as nat)
    }
}

/// What opens a block: the file header before a file's first block, a blank
/// line before the others.
pub open spec fn block_header(path: Seq<char>, first: bool) -> Seq<SegmentView> {
    if first {
        seq![
            sv("\n"@, Tone::Plain),
            sv(dashes(), Tone::Dimmed),
            sv("\nFile: "@, Tone::Plain),
            sv(path, Tone::Blue),
            sv("\n"@, Tone::Plain),
        ]
    } else {
        seq![sv("\n"@, Tone::Plain)]
    }
}

/// A context line: `    <number> | <line>`.
pub open spec fn context_line(lines: Seq<Seq<char>>, idx: int) -> Seq<SegmentView> {
    seq![
        sv("    "@, Tone::Plain),
        sv(decimal((idx + 1) as nat), Tone::Dimmed),
        sv(" | "@, Tone::Plain),
        sv(lines[idx], Tone::Dimmed),
        sv("\n"@, Tone::Plain),
    ]
}

/// The context lines `from..to`.
pub open spec fn context_range(lines: Seq<Seq<char>>, from: int, to: int) -> Seq<SegmentView>
    decreases to - from,
{
    if to <= from {
        seq![]
    } else {
        context_range(lines, from, to - 1) + context_line(lines, to - 1)
    }
}

/// What opens a block, up to its label: the header, the context before the
/// matching line, and `  <number>:`.
pub open spec fn block_lead(
    path: Seq<char>,
    lines: Seq<Seq<char>>,
    first: bool,
    context_start: int,
    line: int,
) -> Seq<SegmentView> {
    block_header(path, first) + context_range(lines, context_start, line) + seq![
        sv("  "@, Tone::Plain),
        sv(decimal((line + 1) as nat), Tone::Yellow),
        sv(":"@, Tone::Plain),
    ]
}

/// What closes a block after the matching line's body: the end of that line
/// and the context after it.
pub open spec fn block_tail(lines: Seq<Seq<char>>, line: int, context_end: int) -> Seq<SegmentView> {
    seq![sv("\n"@, Tone::Plain)] + context_range(lines, line + 1, context_end + 1)
}

/// One block of a report: its header, the context before the matching line,
/// the matching line `  <number>:<label>: <body>`, and the context after it.
/// Exact and fuzzy reports share this layout and differ in label and body.
pub open spec fn report_block(
    path: Seq<char>,
    lines: Seq<Seq<char>>,
    first: bool,
    context_start: int,
    line: int,
    context_end: int,
    label: SegmentView,
    body: Seq<SegmentView>,
) -> Seq<SegmentView> {
    block_header(path, first) + context_range(lines, context_start, line) + seq![
        sv("  "@, Tone::Plain),
        sv(decimal((line + 1) as nat), Tone::Yellow),
        sv(":"@, Tone::Plain),
        label,
        sv(": "@, Tone::Plain),
    ] + body + seq![sv("\n"@, Tone::Plain)] + context_range(lines, line + 1, context_end + 1)
}

/// A matching line with the occurrences at `hits[j..]` (from `k` on) in
/// green.
pub open spec fn highlight_from(line: Seq<char>, pat: Seq<char>, hits: Seq<int>, j: int, k: int) -> Seq<
    SegmentView,
>
    decreases hits.len() - j,
{
    if j < 0 || j >= hits.len() {
        seq![sv(line.subrange(k, line.len() as int), Tone::Plain)]
    } else {
        seq![sv(line.subrange(k, hits[j]), Tone::Plain), sv(pat, Tone::GreenBold)] + highlight_from(
            line,
            pat,
            hits,
            j + 1,
            hits[j] + pat.len(),
        )
    }
}

/// The block of exact match `ms[a]`, labelled `MATCH`, with the pattern's
/// occurrences in green.
pub open spec fn exact_report_block(
    path: Seq<char>,
    lines: Seq<Seq<char>>,
    pat: Seq<char>,
    ms: Seq<ExactMatchView>,
    a: int,
) -> Seq<SegmentView> {
    let m = ms[a];
    report_block(
        path,
        lines,
        a == 0,
        m.context_start,
        m.line,
        m.context_end,
        sv("MATCH"@, Tone::Red),
        highlight_from(lines[m.line], pat, m.hits, 0, 0),
    )
}

/// The exact report of a file: one block per match, the pattern's
/// occurrences in green, labelled `MATCH`.
pub open spec fn exact_report_upto(
    path: Seq<char>,
    lines: Seq<Seq<char>>,
    pat: Seq<char>,
    ms: Seq<ExactMatchView>,
    k: int,
) -> Seq<SegmentView>
    decreases k,
{
    if k <= 0 {
        seq![]
    } else {
        exact_report_upto(path, lines, pat, ms, k - 1) + exact_report_block(path, lines, pat, ms, k - 1)
    }
}

/// Whether `b` is among the positions `hl`.
pub open spec fn has_offset(hl: Seq<usize>, b: int) -> bool {
    exists|k: int| 0 <= k < hl.len() && hl[k] as int == b
}

/// Whether an ASCII character of `line` starts at byte `b` of its UTF-8
/// encoding.
pub open spec fn ascii_at_byte(line: Seq<char>, b: int) -> bool {
    exists|i: int| 0 <= i < line.len() && byte_offset(line, i) == b && (line[i] as u32) < 0x80
}

/// Whether every position in `hl`, read as a byte offset into the UTF-8
/// encoding of `line`, is where an ASCII character starts: exactly when each
/// can be cut out of the line as a one-byte slice.
pub open spec fn positions_on_ascii(line: Seq<char>, hl: Seq<usize>) -> bool {
    forall|k: int| 0 <= k < hl.len() ==> ascii_at_byte(line, #[trigger] hl[k] as int)
}

/// A matching line, with the characters that start at the byte offsets `hl`
/// in green (the matcher's positions are taken as byte offsets into the line).
pub open spec fn fuzzy_highlight(line: Seq<char>, hl: Seq<usize>) -> Seq<SegmentView> {
    Seq::new(
        line.len(),
        |i: int|
            sv(
                seq![line[i]],
                if has_offset(hl, byte_offset(line, i) as int) {
                    Tone::GreenBold
                } else {
                    Tone::Plain
                },
            ),
    )
}

/// The block of fuzzy match `ms[a]`, labelled `SCORE: <score>`, with the
/// matched characters in green.
pub open spec fn fuzzy_report_block(
    path: Seq<char>,
    lines: Seq<Seq<char>>,
    ms: Seq<FuzzyMatchView>,
    a: int,
) -> Seq<SegmentView> {
    let m = ms[a];
    report_block(
        path,
        lines,
        a == 0,
        m.context_start,
        m.line,
        m.context_end,
        sv("SCORE: "@ + signed_decimal(m.score as int), Tone::Red),
        fuzzy_highlight(lines[m.line], m.highlighted),
    )
}

/// The fuzzy report of a file: one block per match, the matched characters
/// in green, labelled `SCORE: <score>`.
pub open spec fn fuzzy_report_upto(
    path: Seq<char>,
    lines: Seq<Seq<char>>,
    ms: Seq<FuzzyMatchView>,
    k: int,
) -> Seq<SegmentView>
    decreases k,
{
    if k <= 0 {
        seq![]
    } else {
        fuzzy_report_upto(path, lines, ms, k - 1) + fuzzy_report_block(path, lines, ms, k - 1)
    }
}

/// Every block is its lead, the label, `: `, the body and its tail.
pub proof fn lemma_block_layout(
    path: Seq<char>,
    lines: Seq<Seq<char>>,
    first: bool,
    context_start: int,
    line: int,
    context_end: int,
    label: SegmentView,
    body: Seq<SegmentView>,
)
    ensures
        report_block(path, lines, first, context_start, line, context_end, label, body)
            == block_lead(path, lines, first, context_start, line) + seq![
            label,
            sv(": "@, Tone::Plain),
        ] + body + block_tail(lines, line, context_end),
{
    assert(report_block(path, lines, first, context_start, line, context_end, label, body)
        =~= block_lead(path, lines, first, context_start, line) + seq![
        label,
        sv(": "@, Tone::Plain),
    ] + body + block_tail(lines, line, context_end));
}

/// An exact and a fuzzy search of the same lines with the same context show a
/// line that both report in blocks of the same layout: the same context
/// lines before and after it and the same line number, and they differ only
/// in the label (`MATCH` or `SCORE: <score>`), in the highlighting of the
/// matching line, and in the file header, which opens a file's first block.
pub proof fn lemma_exact_and_fuzzy_blocks_share_layout(
    path: Seq<char>,
    lines: Seq<Seq<char>>,
    pat: Seq<char>,
    context: int,
    scores: Seq<Option<i64>>,
    positions: Seq<Option<(i64, Seq<usize>)>>,
    threshold: i64,
    a: int,
    b: int,
)
    requires
        context >= 0,
        scores.len() == lines.len(),
        0 <= a < exact_matches_spec(lines, pat, context).len(),
        0 <= b < fuzzy_matches_spec(scores, positions, context, threshold).len(),
        exact_matches_spec(lines, pat, context)[a].line == fuzzy_matches_spec(
            scores,
            positions,
            context,
            threshold,
        )[b].line,
    ensures
        ({
            let e = exact_matches_spec(lines, pat, context)[a];
            let f = fuzzy_matches_spec(scores, positions, context, threshold)[b];
            &&& e.context_start == f.context_start
            &&& e.context_end == f.context_end
            &&& exact_report_block(path, lines, pat, exact_matches_spec(lines, pat, context), a)
                == block_lead(path, lines, a == 0, e.context_start, e.line) + seq![
                sv("MATCH"@, Tone::Red),
                sv(": "@, Tone::Plain),
            ] + highlight_from(lines[e.line], pat, e.hits, 0, 0) + block_tail(
                lines,
                e.line,
                e.context_end,
            )
            &&& fuzzy_report_block(
                path,
                lines,
                fuzzy_matches_spec(scores, positions, context, threshold),
                b,
            ) == block_lead(path, lines, b == 0, e.context_start, e.line) + seq![
                sv("SCORE: "@ + signed_decimal(f.score as int), Tone::Red),
                sv(": "@, Tone::Plain),
            ] + fuzzy_highlight(lines[e.line], f.highlighted) + block_tail(
                lines,
                e.line,
                e.context_end,
            )
        }),
{
    lemma_exact_matches_are_the_containing_lines(lines, pat, context);
    lemma_fuzzy_matches_are_the_accepted_lines(scores, positions, context, threshold);
    let e = exact_matches_spec(lines, pat, context)[a];
    let f = fuzzy_matches_spec(scores, positions, context, threshold)[b];
    lemma_block_layout(
        path,
        lines,
        a == 0,
        e.context_start,
        e.line,
        e.context_end,
        sv("MATCH"@, Tone::Red),
        highlight_from(lines[e.line], pat, e.hits, 0, 0),
    );
    lemma_block_layout(
        path,
        lines,
        b == 0,
        f.context_start,
        f.line,
        f.context_end,
        sv("SCORE: "@ + signed_decimal(f.score as int), Tone::Red),
        fuzzy_highlight(lines[f.line], f.highlighted),
    );
}

fn push_segment(out: &mut Vec<Segment>, text: String, tone: Tone)
    ensures
        segments_view(final(out)@) == segments_view(old(out)@).push(sv(text@, tone)),
{
    let ghost before = segments_view(out@);
    let s = Segment { text, tone };
    out.push(s);
    assert(segments_view(out@) =~= before.push(sv(s.text@, tone)));
}

fn push_literal(out: &mut Vec<Segment>, text: &str, tone: Tone)
    ensures
        segments_view(final(out)@) == segments_view(old(out)@).push(sv(text@, tone)),
{
    push_segment(out, String::from_str(text), tone);
}

fn append_segments(out: &mut Vec<Segment>, more: Vec<Segment>)
    ensures
        segments_view(final(out)@) == segments_view(old(out)@) + segments_view(more@),
{
    let ghost before = segments_view(out@);
    let ghost added = segments_view(more@);
    let mut more = more;
    out.append(&mut more);
    assert(segments_view(out@) =~= before + added);
}

/// The decimal numeral of `s`, with `-` before a negative one.
pub fn signed_decimal_string(s: i64) -> (r: String)
    ensures
        r@ == signed_decimal(s as int),
{
    if s < 0 {
        let u: u64 = ((-(s + 1)) as u64) + 1;
        let mut r = String::from_str("-");
        r.append(decimal_string(u).as_str());
        r
    } else {
        decimal_string(s as u64)
    }
}

fn push_header(out: &mut Vec<Segment>, path: &str, first: bool)
    ensures
        segments_view(final(out)@) == segments_view(old(out)@) + block_header(path@, first),
{
    let ghost before = segments_view(out@);
    if first {
        push_literal(out, "\n", Tone::Plain);
        let mut d = String::new();
        let mut k: usize = 0;
        while k < 40
            invariant
                k <= 40,
                d@ == Seq::new(k as nat, |i: int| '-'),
            decreases 40 - k,
        {
            push_char(&mut d, '-');
            k = k + 1;
            assert(d@ =~= Seq::new(k as nat, |i: int| '-'));
        }
        push_segment(out, d, Tone::Dimmed);
        push_literal(out, "\nFile: ", Tone::Plain);
        push_literal(out, path, Tone::Blue);
        push_literal(out, "\n", Tone::Plain);
        assert(segments_view(out@) =~= before + block_header(path@, first));
    } else {
        push_literal(out, "\n", Tone::Plain);
        assert(segments_view(out@) =~= before + block_header(path@, first));
    }
}

fn push_context(out: &mut Vec<Segment>, lines: &Vec<String>, from: usize, to: usize)
    requires
        from <= to <= lines@.len(),
    ensures
        segments_view(final(out)@) == segments_view(old(out)@) + context_range(
            strings_view(lines@),
            from as int,
            to as int,
        ),
{
    let ghost ls = strings_view(lines@);
    let ghost before = segments_view(out@);
    let mut k = from;
    assert(context_range(ls, from as int, from as int) =~= Seq::<SegmentView>::empty());
    assert(before + Seq::<SegmentView>::empty() =~= before);
    while k < to
        invariant
            from <= k <= to <= lines@.len(),
            ls == strings_view(lines@),
            segments_view(out@) == before + context_range(ls, from as int, k as int),
        decreases to - k,
    {
        let ghost mid = segments_view(out@);
        push_literal(out, "    ", Tone::Plain);
        push_segment(out, decimal_string((k as u64) + 1), Tone::Dimmed);
        push_literal(out, " | ", Tone::Plain);
        let text = lines[k].clone();
        assert(ls[k as int] == lines@[k as int]@);
        push_segment(out, text, Tone::Dimmed);
        push_literal(out, "\n", Tone::Plain);
        assert(segments_view(out@) =~= mid + context_line(ls, k as int));
        k = k + 1;
        assert(context_range(ls, from as int, k as int) == context_range(ls, from as int, k - 1)
            + context_line(ls, k - 1));
    }
}

/// Pushes one block; see `report_block`.
fn push_block(
    out: &mut Vec<Segment>,
    path: &str,
    lines: &Vec<String>,
    first: bool,
    context_start: usize,
    line: usize,
    context_end: usize,
    label: String,
    body: Vec<Segment>,
)
    requires
        context_start <= line <= context_end < lines@.len(),
    ensures
        segments_view(final(out)@) == segments_view(old(out)@) + report_block(
            path@,
            strings_view(lines@),
            first,
            context_start as int,
            line as int,
            context_end as int,
            sv(label@, Tone::Red),
            segments_view(body@),
        ),
{
    let ghost before = segments_view(out@);
    let ghost ls = strings_view(lines@);
    let n = lines.len();
    assert(line + 1 <= n);
    push_header(out, path, first);
    let ghost a = segments_view(out@);
    push_context(out, lines, context_start, line);
    let ghost b = segments_view(out@);
    push_literal(out, "  ", Tone::Plain);
    push_segment(out, decimal_string((line as u64) + 1), Tone::Yellow);
    push_literal(out, ":", Tone::Plain);
    push_segment(out, label, Tone::Red);
    push_literal(out, ": ", Tone::Plain);
    let ghost c = segments_view(out@);
    let ghost bv = segments_view(body@);
    append_segments(out, body);
    push_literal(out, "\n", Tone::Plain);
    let ghost d = segments_view(out@);
    push_context(out, lines, line + 1, context_end + 1);
    assert(segments_view(out@) =~= before + report_block(
        path@,
        ls,
        first,
        context_start as int,
        line as int,
        context_end as int,
        sv(label@, Tone::Red),
        bv,
    ));
}

/// The segments of an exact matching line; see `highlight_from`.
fn exact_highlight(line: &Vec<char>, pattern: &str, hits: &Vec<usize>) -> (r: Vec<Segment>)
    requires
        forall|j: int| 0 <= j < hits@.len() ==> hits@[j] + pattern@.len() <= line@.len(),
        forall|j: int, l: int|
            0 <= j < l < hits@.len() ==> #[trigger] hits@[j] + pattern@.len() <= #[trigger] hits@[l],
    ensures
        segments_view(r@) == highlight_from(line@, pattern@, positions_view(hits@), 0, 0),
{
    let ghost hv = positions_view(hits@);
    let plen = pattern.unicode_len();
    let n = line.len();
    let mut out: Vec<Segment> = Vec::new();
    let mut j: usize = 0;
    let mut k: usize = 0;
    assert(segments_view(out@) + highlight_from(line@, pattern@, hv, 0, 0) =~= highlight_from(
        line@,
        pattern@,
        hv,
        0,
        0,
    ));
    while j < hits.len()
        invariant
            plen == pattern@.len(),
            n == line@.len(),
            hv == positions_view(hits@),
            j <= hits@.len(),
            k <= line@.len(),
            j < hits@.len() ==> k <= hits@[j as int],
            forall|a: int| 0 <= a < hits@.len() ==> hits@[a] + pattern@.len() <= line@.len(),
            forall|a: int, l: int|
                0 <= a < l < hits@.len() ==> #[trigger] hits@[a] + pattern@.len()
                    <= #[trigger] hits@[l],
            segments_view(out@) + highlight_from(line@, pattern@, hv, j as int, k as int)
                == highlight_from(line@, pattern@, hv, 0, 0),
        decreases hits.len() - j,
    {
        let h = hits[j];
        let ghost mid = segments_view(out@);
        let ghost rest = highlight_from(line@, pattern@, hv, j + 1, h + plen);
        push_segment(&mut out, string_of_range(line, k, h), Tone::Plain);
        push_segment(&mut out, String::from_str(pattern), Tone::GreenBold);
        assert(highlight_from(line@, pattern@, hv, j as int, k as int) == seq![
            sv(line@.subrange(k as int, h as int), Tone::Plain),
            sv(pattern@, Tone::GreenBold),
        ] + rest);
        assert(segments_view(out@) + rest =~= mid + highlight_from(
            line@,
            pattern@,
            hv,
            j as int,
            k as int,
        ));
        k = h + plen;
        j = j + 1;
    }
    let ghost mid = segments_view(out@);
    push_segment(&mut out, string_of_range(line, k, line.len()), Tone::Plain);
    assert(segments_view(out@) =~= mid + highlight_from(line@, pattern@, hv, j as int, k as int));
    out
}

/// Whether the byte offset `b` is among the positions `v`.
fn has_byte_offset(v: &Vec<usize>, b: u128) -> (r: bool)
    ensures
        r == has_offset(v@, b as int),
{
    let mut k: usize = 0;
    while k < v.len()
        invariant
            k <= v@.len(),
            forall|a: int| 0 <= a < k ==> v@[a] as int != b as int,
        decreases v.len() - k,
    {
        if v[k] as u128 == b {
            return true;
        }
        k = k + 1;
    }
    false
}

/// Whether an ASCII character of `chars` starts at byte `b`, given the byte
/// offsets `offs` of its characters.
fn ascii_at(chars: &Vec<char>, offs: &Vec<u128>, b: u128) -> (r: bool)
    requires
        offs@.len() == chars@.len(),
        forall|i: int| 0 <= i < chars@.len() ==> offs@[i] == byte_offset(chars@, i),
    ensures
        r == ascii_at_byte(chars@, b as int),
{
    let mut i: usize = 0;
    while i < chars.len()
        invariant
            i <= chars@.len(),
            offs@.len() == chars@.len(),
            forall|a: int| 0 <= a < chars@.len() ==> offs@[a] == byte_offset(chars@, a),
            forall|a: int|
                0 <= a < i ==> !(byte_offset(chars@, a) == b as int && (#[trigger] chars@[a] as u32)
                    < 0x80),
        decreases chars.len() - i,
    {
        if offs[i] == b && (chars[i] as u32) < 0x80 {
            return true;
        }
        i = i + 1;
    }
    false
}

/// The segments of a fuzzy matching line (see `fuzzy_highlight`), or `None`
/// where a position is not the start of an ASCII character.
fn fuzzy_line_highlight(line: &str, hl: &Vec<usize>) -> (r: Option<Vec<Segment>>)
    ensures
        r is Some <==> positions_on_ascii(line@, hl@),
        r matches Some(v) ==> segments_view(v@) == fuzzy_highlight(line@, hl@),
{
    let chars = chars_of(line);
    let offs = byte_offsets(&chars);
    let mut k: usize = 0;
    while k < hl.len()
        invariant
            chars@ == line@,
            offs@.len() == chars@.len(),
            forall|i: int| 0 <= i < chars@.len() ==> offs@[i] == byte_offset(chars@, i),
            k <= hl@.len(),
            forall|a: int| 0 <= a < k ==> ascii_at_byte(line@, #[trigger] hl@[a] as int),
        decreases hl.len() - k,
    {
        if !ascii_at(&chars, &offs, hl[k] as u128) {
            return None;
        }
        k = k + 1;
    }
    let mut out: Vec<Segment> = Vec::new();
    let mut i: usize = 0;
    while i < chars.len()
        invariant
            chars@ == line@,
            offs@.len() == chars@.len(),
            forall|a: int| 0 <= a < chars@.len() ==> offs@[a] == byte_offset(chars@, a),
            i <= chars@.len(),
            segments_view(out@) == fuzzy_highlight(line@, hl@).subrange(0, i as int),
        decreases chars.len() - i,
    {
        let tone = if has_byte_offset(hl, offs[i]) {
            Tone::GreenBold
        } else {
            Tone::Plain
        };
        let mut t = String::new();
        push_char(&mut t, chars[i]);
        push_segment(&mut out, t, tone);
        assert(t@ =~= seq![line@[i as int]]);
        i = i + 1;
        assert(segments_view(out@) =~= fuzzy_highlight(line@, hl@).subrange(0, i as int));
    }
    assert(fuzzy_highlight(line@, hl@).subrange(0, i as int) =~= fuzzy_highlight(line@, hl@));
    Some(out)
}

/// Searches the lines of a file for `pattern` exactly and writes the report:
/// the number of matches, and the report's segments (see
/// `exact_report_upto`; `path` is the file's name as shown).
pub fn exact_file_report(path: &str, lines: &Vec<String>, pattern: &str, context: usize) -> (r: (
    usize,
    Vec<Segment>,
))
    ensures
        r.0 == exact_matches_spec(strings_view(lines@), pattern@, context as int).len(),
        segments_view(r.1@) == exact_report_upto(
            path@,
            strings_view(lines@),
            pattern@,
            exact_matches_spec(strings_view(lines@), pattern@, context as int),
            r.0 as int,
        ),
{
    let ghost ls = strings_view(lines@);
    let found = find_exact_matches(lines, pattern, context);
    let ghost ms = exact_matches_view(found@);
    proof {
        lemma_exact_matches_are_the_containing_lines(ls, pattern@, context as int);
    }
    let mut out: Vec<Segment> = Vec::new();
    let mut k: usize = 0;
    while k < found.len()
        invariant
            ls == strings_view(lines@),
            ms == exact_matches_view(found@),
            ms == exact_matches_spec(ls, pattern@, context as int),
            k <= found@.len(),
            forall|a: int|
                0 <= a < ms.len() ==> {
                    let m = #[trigger] ms[a];
                    &&& 0 <= m.context_start <= m.line <= m.context_end < ls.len()
                    &&& m.hits == occurrences(ls[m.line], pattern@)
                },
            segments_view(out@) == exact_report_upto(path@, ls, pattern@, ms, k as int),
        decreases found.len() - k,
    {
        let m = &found[k];
        assert(ms[k as int] == m@);
        let line = chars_of(lines[m.line].as_str());
        assert(ls[m.line as int] == line@);
        proof {
            lemma_occurrences_disjoint(line@, pattern@);
            assert forall|j: int| 0 <= j < m.hits@.len() implies m.hits@[j] + pattern@.len()
                <= line@.len() by {
                assert(positions_view(m.hits@)[j] == m.hits@[j] as int);
                assert(starts_at(line@, occurrences(line@, pattern@)[j], pattern@));
            }
            assert forall|j: int, l: int| 0 <= j < l < m.hits@.len() implies #[trigger] m.hits@[j]
                + pattern@.len() <= #[trigger] m.hits@[l] by {
                assert(positions_view(m.hits@)[j] == m.hits@[j] as int);
                assert(positions_view(m.hits@)[l] == m.hits@[l] as int);
            }
        }
        let body = exact_highlight(&line, pattern, &m.hits);
        push_block(
            &mut out,
            path,
            lines,
            k == 0,
            m.context_start,
            m.line,
            m.context_end,
            String::from_str("MATCH"),
            body,
        );
        k = k + 1;
    }
    (found.len(), out)
}

/// Whether every reported match's positions start ASCII characters of its
/// line (see `positions_on_ascii`).
pub open spec fn fuzzy_positions_on_ascii(lines: Seq<Seq<char>>, ms: Seq<FuzzyMatchView>) -> bool {
    forall|a: int|
        0 <= a < ms.len() ==> positions_on_ascii(lines[#[trigger] ms[a].line], ms[a].highlighted)
}

/// What the fuzzy report of a file is for the matches `ms`: the number of
/// matches and the segments of `fuzzy_report_upto` when every match's
/// positions start ASCII characters; otherwise the line of the first match
/// whose positions do not, where the highlighting cannot cut the line.
pub open spec fn fuzzy_report_outcome(
    path: Seq<char>,
    lines: Seq<Seq<char>>,
    ms: Seq<FuzzyMatchView>,
    r: Result<(nat, Seq<SegmentView>), int>,
) -> bool {
    match r {
        Ok((n, segs)) => {
            &&& fuzzy_positions_on_ascii(lines, ms)
            &&& n == ms.len()
            &&& segs == fuzzy_report_upto(path, lines, ms, n as int)
        },
        Err(l) => exists|a: int|
            0 <= a < ms.len() && ms[a].line == l && !positions_on_ascii(
                lines[ms[a].line],
                ms[a].highlighted,
            ) && fuzzy_positions_on_ascii(lines, ms.take(a)),
    }
}

/// Searches the lines of a file fuzzily and writes the report (see
/// `fuzzy_report_outcome`) for the matches found from some answers that the
/// skim matcher can give (see `find_fuzzy_matches`). The matcher's positions
/// are used as byte offsets into the line; `Err` gives the line of the first
/// match where one of them is not the start of an ASCII character.
pub fn fuzzy_file_report(
    matcher: &FuzzyLineMatcher,
    path: &str,
    lines: &Vec<String>,
    pattern: &str,
    context: usize,
    threshold: i64,
) -> (r: Result<(usize, Vec<Segment>), usize>)
    ensures
        exists|scores: Seq<Option<i64>>, positions: Seq<Option<(i64, Seq<usize>)>>|
            fuzzy_answers_fit(strings_view(lines@), pattern@, threshold, scores, positions)
                && fuzzy_report_outcome(
                path@,
                strings_view(lines@),
                fuzzy_matches_spec(scores, positions, context as int, threshold),
                match r {
                    Ok((n, segs)) => Ok((n as nat, segments_view(segs@))),
                    Err(l) => Err(l as int),
                },
            ),
{
    let ghost ls = strings_view(lines@);
    let found = find_fuzzy_matches(matcher, lines, pattern, context, threshold);
    let ghost ms = fuzzy_matches_view(found@);
    let ghost (sc, ps) = choose|
        scores: Seq<Option<i64>>,
        positions: Seq<Option<(i64, Seq<usize>)>>,
    |
        fuzzy_answers_fit(ls, pattern@, threshold, scores, positions) && ms == fuzzy_matches_spec(
            scores,
            positions,
            context as int,
            threshold,
        );
    let mut out: Vec<Segment> = Vec::new();
    let mut k: usize = 0;
    while k < found.len()
        invariant
            ls == strings_view(lines@),
            ms == fuzzy_matches_view(found@),
            fuzzy_answers_fit(ls, pattern@, threshold, sc, ps),
            ms == fuzzy_matches_spec(sc, ps, context as int, threshold),
            k <= found@.len(),
            forall|a: int|
                0 <= a < found@.len() ==> {
                    let m = (#[trigger] found@[a])@;
                    &&& 0 <= m.context_start <= m.line <= m.context_end < lines@.len()
                },
            fuzzy_positions_on_ascii(ls, ms.take(k as int)),
            segments_view(out@) == fuzzy_report_upto(path@, ls, ms, k as int),
        decreases found.len() - k,
    {
        let m = &found[k];
        assert(ms[k as int] == m@);
        assert(ls[m.line as int] == lines@[m.line as int]@);
        let body = match fuzzy_line_highlight(lines[m.line].as_str(), &m.highlighted) {
            Some(b) => b,
            None => {
                return Err(m.line);
            },
        };
        let label = {
            let mut l = String::from_str("SCORE: ");
            l.append(signed_decimal_string(m.score).as_str());
            l
        };
        push_block(
            &mut out,
            path,
            lines,
            k == 0,
            m.context_start,
            m.line,
            m.context_end,
            label,
            body,
        );
        proof {
            let t = ms.take(k + 1);
            assert forall|a: int| 0 <= a < t.len() implies positions_on_ascii(
                ls[#[trigger] t[a].line],
                t[a].highlighted,
            ) by {
                if a < k {
                    assert(t[a] == ms.take(k as int)[a]);
                }
            }
        }
        k = k + 1;
    }
    assert(ms.take(k as int) =~= ms);
    Ok((found.len(), out))
}

} // verus!
