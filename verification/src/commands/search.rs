//! Searching the lines of files for a pattern, exactly or fuzzily, with
//! context lines around each match.

use vstd::prelude::*;

use fuzzy_matcher::skim::SkimMatcherV2;
use fuzzy_matcher::FuzzyMatcher;

use crate::commands::list::{is_hidden_name, is_hidden_spec};
use crate::query_language::pattern::{occurs_at, starts_at};
use crate::text::{chars_of, same_text, strings_view};

verus! {

/// Which search `search_pattern_recursive` runs.
#[derive(Debug, PartialEq, Eq, Structural)]
pub enum SearchMode {
    /// Lines that contain the pattern.
    Exact,
    /// Lines that the fuzzy matcher scores at least `threshold` against the
    /// pattern.
    Fuzzy { threshold: i64 },
}

/// The fuzzy threshold used when none is given.
pub const DEFAULT_FUZZY_THRESHOLD: i64 = 30;

/// The given fuzzy threshold, or `DEFAULT_FUZZY_THRESHOLD`.
pub open spec fn threshold_or_default(t: Option<i64>) -> i64 {
    match t {
        Some(t) => t,
        None => DEFAULT_FUZZY_THRESHOLD,
    }
}

/// A threshold that is given is used as it is, whatever its value; 30 is
/// used only when none is given.
pub proof fn lemma_given_threshold_is_kept(t: i64)
    ensures
        threshold_or_default(Some(t)) == t,
        threshold_or_default(None) == 30,
{
}

/// Chooses the search: fuzzy when asked for, with the given threshold or
/// `DEFAULT_FUZZY_THRESHOLD`; exact otherwise.
pub fn search_mode(use_fuzzy: bool, fuzzy_threshold: Option<i64>) -> (r: SearchMode)
    ensures
        !use_fuzzy ==> r == SearchMode::Exact,
        use_fuzzy ==> r == (SearchMode::Fuzzy { threshold: threshold_or_default(fuzzy_threshold) }),
        use_fuzzy && fuzzy_threshold is Some ==> r == (SearchMode::Fuzzy {
            threshold: fuzzy_threshold->Some_0,
        }),
        use_fuzzy && fuzzy_threshold is None ==> r == (SearchMode::Fuzzy { threshold: 30 }),
{
    if use_fuzzy {
        SearchMode::Fuzzy {
            threshold: match fuzzy_threshold {
                Some(t) => t,
                None => DEFAULT_FUZZY_THRESHOLD,
            },
        }
    } else {
        SearchMode::Exact
    }
}

/// The word after the total number of matches.
pub fn matches_word(count: usize) -> (r: &'static str)
    ensures
        count == 1 ==> r@ == "match"@,
        count != 1 ==> r@ == "matches"@,
{
    if count == 1 {
        "match"
    } else {
        "matches"
    }
}

/// The view of an optional string slice.
pub open spec fn opt_str_view(o: Option<&str>) -> Option<Seq<char>> {
    match o {
        Some(s) => Some(s@),
        None => None,
    }
}

/// The extension asked for, without one leading `.`: it may be written
/// `.txt` (as the command's help text shows) or `txt`, while a path's
/// extension has no dot.
pub open spec fn wanted_extension(w: Seq<char>) -> Seq<char> {
    if w.len() > 0 && w[0] == '.' {
        w.drop_first()
    } else {
        w
    }
}

/// Whether a directory entry is searched: its name is not hidden, and when
/// an extension is asked for, the entry has that extension.
pub open spec fn entry_selected_spec(
    file_name: Option<Seq<char>>,
    extension: Option<Seq<char>>,
    wanted: Option<Seq<char>>,
) -> bool {
    &&& !(file_name matches Some(n) && is_hidden_spec(n))
    &&& (wanted matches Some(w) ==> extension == Some(wanted_extension(w)))
}

/// Whether a directory entry with this file name and extension is searched
/// (before checking that it is a regular file).
pub fn entry_selected(file_name: Option<&str>, extension: Option<&str>, wanted: Option<&str>) -> (r:
    bool)
    ensures
        r == entry_selected_spec(
            opt_str_view(file_name),
            opt_str_view(extension),
            opt_str_view(wanted),
        ),
        file_name matches Some(n) && n@.len() > 0 && n@[0] == '.' ==> !r,
        r && wanted is Some ==> opt_str_view(extension) == Some(
            wanted_extension(wanted->Some_0@),
        ),
{
    if let Some(name) = file_name {
        if is_hidden_name(name) {
            return false;
        }
    }
    match wanted {
        Some(w) => match extension {
            Some(e) => {
                let n = w.unicode_len();
                if n > 0 && w.get_char(0) == '.' {
                    let bare = w.substring_char(1, n);
                    assert(bare@ =~= wanted_extension(w@));
                    same_text(e, bare)
                } else {
                    same_text(e, w)
                }
            },
            None => false,
        },
        None => true,
    }
}

/// A name that starts with `.` is never searched, whatever its extension and
/// whether or not an extension is asked for; without an extension filter
/// every other name is searched, and with one exactly the names with that
/// extension (given with or without its leading `.`).
pub proof fn lemma_hidden_entries_never_selected(
    name: Seq<char>,
    extension: Option<Seq<char>>,
    wanted: Option<Seq<char>>,
)
    ensures
        name.len() > 0 && name[0] == '.' ==> !entry_selected_spec(Some(name), extension, wanted),
        !(name.len() > 0 && name[0] == '.') ==> (entry_selected_spec(
            Some(name),
            extension,
            None,
        ) && (entry_selected_spec(Some(name), extension, wanted) <==> match wanted {
            None => true,
            Some(w) => if w.len() > 0 && w[0] == '.' {
                extension == Some(w.subrange(1, w.len() as int))
            } else {
                extension == Some(w)
            },
        })),
{
    if let Some(w) = wanted {
        if w.len() > 0 && w[0] == '.' {
            assert(w.drop_first() =~= w.subrange(1, w.len() as int));
        }
    }
}

/// Whether `pat` occurs in `line`.
pub open spec fn contains_spec(line: Seq<char>, pat: Seq<char>) -> bool {
    exists|i: int| #[trigger] starts_at(line, i, pat)
}

/// The positions of the occurrences of `pat` in `line` from `pos` on, taken
/// from left to right without overlap; for an empty `pat`, every position
/// from `pos` to `line.len()`.
pub open spec fn occurrences_from(line: Seq<char>, pat: Seq<char>, pos: int) -> Seq<int>
    decreases line.len() - pos,
{
    if pos < 0 || pos > line.len() {
        seq![]
    } else if pat.len() == 0 {
        Seq::new((line.len() - pos + 1) as nat, |k: int| pos + k)
    } else if pos + pat.len() > line.len() {
        seq![]
    } else if starts_at(line, pos, pat) {
        seq![pos] + occurrences_from(line, pat, pos + pat.len())
    } else {
        occurrences_from(line, pat, pos + 1)
    }
}

/// The positions that `str::replace` rewrites: the occurrences of `pat` in
/// `line`, from left to right without overlap.
pub open spec fn occurrences(line: Seq<char>, pat: Seq<char>) -> Seq<int> {
    occurrences_from(line, pat, 0)
}

/// The view of a vector of positions.
pub open spec fn positions_view(v: Seq<usize>) -> Seq<int> {
    v.map_values(|x: usize| x as int)
}

/// With a non-empty pattern, no occurrence found from `pos` means none
/// starts at `pos` or later; a found one is the first such occurrence.
pub proof fn lemma_occurrences_from(line: Seq<char>, pat: Seq<char>, pos: int)
    requires
        0 <= pos <= line.len(),
        pat.len() > 0,
    ensures
        occurrences_from(line, pat, pos).len() == 0 <==> forall|i: int|
            pos <= i ==> !#[trigger] starts_at(line, i, pat),
        occurrences_from(line, pat, pos).len() > 0 ==> starts_at(
            line,
            occurrences_from(line, pat, pos)[0],
            pat,
        ),
    decreases line.len() - pos,
{
    if pos + pat.len() > line.len() {
    } else if starts_at(line, pos, pat) {
    } else {
        lemma_occurrences_from(line, pat, pos + 1);
        assert forall|i: int| pos <= i && !(pos + 1 <= i) implies !#[trigger] starts_at(
            line,
            i,
            pat,
        ) by {}
    }
}

/// Some occurrence is found exactly when the pattern occurs in the line.
pub proof fn lemma_occurrences_iff_contains(line: Seq<char>, pat: Seq<char>)
    ensures
        occurrences(line, pat).len() > 0 <==> contains_spec(line, pat),
{
    if pat.len() == 0 {
        assert(line.subrange(0, 0) =~= pat);
        assert(starts_at(line, 0, pat));
    } else {
        lemma_occurrences_from(line, pat, 0);
        if occurrences(line, pat).len() > 0 {
            assert(starts_at(line, occurrences(line, pat)[0], pat));
        }
    }
}

proof fn lemma_occurrences_from_facts(line: Seq<char>, pat: Seq<char>, pos: int)
    requires
        0 <= pos <= line.len(),
    ensures
        forall|k: int|
            0 <= k < occurrences_from(line, pat, pos).len() ==> pos <= #[trigger] occurrences_from(
                line,
                pat,
                pos,
            )[k] && starts_at(line, occurrences_from(line, pat, pos)[k], pat),
        forall|k: int, j: int|
            0 <= k < j < occurrences_from(line, pat, pos).len() ==> #[trigger] occurrences_from(
                line,
                pat,
                pos,
            )[k] + pat.len() <= #[trigger] occurrences_from(line, pat, pos)[j],
    decreases line.len() - pos,
{
    let o = occurrences_from(line, pat, pos);
    if pat.len() == 0 {
        assert(o == Seq::new((line.len() - pos + 1) as nat, |k: int| pos + k));
        assert forall|k: int| 0 <= k < o.len() implies pos <= #[trigger] o[k] && starts_at(
            line,
            o[k],
            pat,
        ) by {
            assert(o[k] == pos + k);
            assert(line.subrange(o[k], o[k]) =~= pat);
        }
        assert forall|k: int, j: int| 0 <= k < j < o.len() implies #[trigger] o[k] + pat.len()
            <= #[trigger] o[j] by {
            assert(o[k] == pos + k);
            assert(o[j] == pos + j);
        }
    } else if pos + pat.len() > line.len() {
    } else if starts_at(line, pos, pat) {
        lemma_occurrences_from_facts(line, pat, pos + pat.len());
        let r = occurrences_from(line, pat, pos + pat.len());
        assert(o == seq![pos] + r);
        assert forall|k: int| 0 <= k < o.len() implies pos <= #[trigger] o[k] && starts_at(
            line,
            o[k],
            pat,
        ) by {
            if k > 0 {
                assert(o[k] == r[k - 1]);
            }
        }
        assert forall|k: int, j: int| 0 <= k < j < o.len() implies #[trigger] o[k] + pat.len()
            <= #[trigger] o[j] by {
            assert(o[j] == r[j - 1]);
            if k > 0 {
                assert(o[k] == r[k - 1]);
            }
        }
    } else {
        lemma_occurrences_from_facts(line, pat, pos + 1);
        assert(o == occurrences_from(line, pat, pos + 1));
    }
}

/// The occurrences that a line is searched for are real occurrences of the
/// pattern, from left to right, and do not overlap.
pub proof fn lemma_occurrences_disjoint(line: Seq<char>, pat: Seq<char>)
    ensures
        forall|k: int|
            0 <= k < occurrences(line, pat).len() ==> starts_at(
                line,
                #[trigger] occurrences(line, pat)[k],
                pat,
            ),
        forall|k: int, j: int|
            0 <= k < j < occurrences(line, pat).len() ==> #[trigger] occurrences(line, pat)[k]
                + pat.len() <= #[trigger] occurrences(line, pat)[j],
{
    lemma_occurrences_from_facts(line, pat, 0);
}

/// Finds the positions of the occurrences of `pat` in `line`; see
/// `occurrences`.
pub fn find_occurrences(line: &Vec<char>, pat: &Vec<char>) -> (r: Vec<usize>)
    ensures
        positions_view(r@) == occurrences(line@, pat@),
{
    let n = line.len();
    let m = pat.len();
    let mut r: Vec<usize> = Vec::new();
    if m == 0 {
        let mut k: usize = 0;
        while k < n
            invariant
                n == line@.len(),
                k <= n,
                positions_view(r@) =~= Seq::new(k as nat, |j: int| j),
            decreases n - k,
        {
            let ghost before = r@;
            r.push(k);
            assert(r@ == before.push(k));
            assert(positions_view(r@) =~= positions_view(before).push(k as int));
            assert(positions_view(r@) =~= Seq::new((k + 1) as nat, |j: int| j));
            k = k + 1;
        }
        let ghost before = r@;
        r.push(n);
        assert(positions_view(r@) =~= positions_view(before).push(n as int));
        assert(positions_view(r@) =~= Seq::new((n + 1) as nat, |j: int| j));
        assert(positions_view(r@) =~= occurrences(line@, pat@));
        return r;
    }
    let mut pos: usize = 0;
    while pos <= n && m <= n - pos
        invariant
            n == line@.len(),
            m == pat@.len(),
            m > 0,
            pos <= n,
            occurrences(line@, pat@) == positions_view(r@) + occurrences_from(
                line@,
                pat@,
                pos as int,
            ),
        decreases n - pos,
    {
        let ghost before = positions_view(r@);
        if occurs_at(line, pos, pat) {
            r.push(pos);
            assert(positions_view(r@) =~= before.push(pos as int));
            assert(before + (seq![pos as int] + occurrences_from(line@, pat@, pos + m)) =~= before.push(
                pos as int,
            ) + occurrences_from(line@, pat@, pos + m));
            pos = pos + m;
        } else {
            pos = pos + 1;
        }
    }
    assert(occurrences_from(line@, pat@, pos as int) =~= Seq::<int>::empty());
    assert(positions_view(r@) + Seq::<int>::empty() =~= positions_view(r@));
    r
}

/// The first line shown before match line `i` with `context` lines of
/// context: `i - context`, or `0` when that is negative.
pub open spec fn context_start_spec(i: int, context: int) -> int {
    if i >= context {
        i - context
    } else {
        0
    }
}

/// The last line shown after match line `i` of `n` lines: `i + context`, or
/// the last line when that is beyond it.
pub open spec fn context_end_spec(i: int, context: int, n: int) -> int {
    if i + context <= n - 1 {
        i + context
    } else {
        n - 1
    }
}

/// The context window around line `i` of `n` lines: `context` lines before
/// it, or all the lines before it when there are fewer, and `context` lines
/// after it, or all the lines after it when there are fewer.
pub proof fn lemma_context_window(i: int, context: int, n: int)
    requires
        0 <= i < n,
        0 <= context,
    ensures
        0 <= context_start_spec(i, context) <= i <= context_end_spec(i, context, n) < n,
        i - context_start_spec(i, context) == if context <= i {
            context
        } else {
            i
        },
        context_end_spec(i, context, n) - i == if context <= n - 1 - i {
            context
        } else {
            n - 1 - i
        },
{
}

/// The context bounds of match line `line` of `line_count` lines.
pub fn context_bounds(line: usize, line_count: usize, context: usize) -> (r: (usize, usize))
    requires
        line < line_count,
    ensures
        r.0 == context_start_spec(line as int, context as int),
        r.1 == context_end_spec(line as int, context as int, line_count as int),
        r.0 <= line <= r.1 < line_count,
        line - r.0 == if context <= line {
            context as int
        } else {
            line as int
        },
        r.1 - line == if context <= line_count - 1 - line {
            context as int
        } else {
            line_count - 1 - line
        },
{
    let start = if line >= context {
        line - context
    } else {
        0
    };
    let end = if context <= (line_count - 1) - line {
        line + context
    } else {
        line_count - 1
    };
    (start, end)
}

/// A line that contains the pattern, with its context and the positions
/// (in characters) of the occurrences to highlight.
#[derive(Debug)]
pub struct ExactMatch {
    pub line: usize,
    pub context_start: usize,
    pub context_end: usize,
    pub hits: Vec<usize>,
}

/// The mathematical value of an `ExactMatch`.
pub struct ExactMatchView {
    pub line: int,
    pub context_start: int,
    pub context_end: int,
    pub hits: Seq<int>,
}

impl View for ExactMatch {
    type V = ExactMatchView;

    open spec fn view(&self) -> ExactMatchView {
        ExactMatchView {
            line: self.line as int,
            context_start: self.context_start as int,
            context_end: self.context_end as int,
            hits: positions_view(self.hits@),
        }
    }
}

/// The views of a sequence of exact matches.
pub open spec fn exact_matches_view(v: Seq<ExactMatch>) -> Seq<ExactMatchView> {
    v.map_values(|x: ExactMatch| x@)
}

/// The exact matches among the first `k` of `lines`, in line order.
pub open spec fn exact_matches_upto(
    lines: Seq<Seq<char>>,
    pat: Seq<char>,
    context: int,
    k: int,
) -> Seq<ExactMatchView>
    decreases k,
{
    if k <= 0 {
        seq![]
    } else {
        let r = exact_matches_upto(lines, pat, context, k - 1);
        let i = k - 1;
        if contains_spec(lines[i], pat) {
            r.push(
                ExactMatchView {
                    line: i,
                    context_start: context_start_spec(i, context),
                    context_end: context_end_spec(i, context, lines.len() as int),
                    hits: occurrences(lines[i], pat),
                },
            )
        } else {
            r
        }
    }
}

/// The exact matches of `pat` in `lines`: one per line that contains it, in
/// line order.
pub open spec fn exact_matches_spec(lines: Seq<Seq<char>>, pat: Seq<char>, context: int) -> Seq<
    ExactMatchView,
> {
    exact_matches_upto(lines, pat, context, lines.len() as int)
}

proof fn lemma_exact_upto_facts(lines: Seq<Seq<char>>, pat: Seq<char>, context: int, n: int)
    requires
        0 <= n <= lines.len(),
        context >= 0,
    ensures
        forall|k: int|
            0 <= k < exact_matches_upto(lines, pat, context, n).len() ==> {
                let m = #[trigger] exact_matches_upto(lines, pat, context, n)[k];
                &&& 0 <= m.context_start <= m.line <= m.context_end < lines.len()
                &&& m.context_start == context_start_spec(m.line, context)
                &&& m.context_end == context_end_spec(m.line, context, lines.len() as int)
                &&& m.line < n
                &&& contains_spec(lines[m.line], pat)
            },
        forall|k: int, j: int|
            0 <= k < j < exact_matches_upto(lines, pat, context, n).len() ==> (
            #[trigger] exact_matches_upto(lines, pat, context, n)[k]).line < (
            #[trigger] exact_matches_upto(lines, pat, context, n)[j]).line,
        forall|i: int|
            0 <= i < n && contains_spec(lines[i], pat) ==> exists|k: int|
                0 <= k < exact_matches_upto(lines, pat, context, n).len() && (
                #[trigger] exact_matches_upto(lines, pat, context, n)[k]).line == i,
    decreases n,
{
    if n > 0 {
        lemma_exact_upto_facts(lines, pat, context, n - 1);
        let r = exact_matches_upto(lines, pat, context, n - 1);
        let o = exact_matches_upto(lines, pat, context, n);
        if contains_spec(lines[n - 1], pat) {
            assert(o == r.push(o[r.len() as int]));
            assert forall|i: int| 0 <= i < n && contains_spec(lines[i], pat) implies exists|k: int|
                0 <= k < o.len() && (#[trigger] o[k]).line == i by {
                if i == n - 1 {
                    assert(o[r.len() as int].line == i);
                } else {
                    let k = choose|k: int| 0 <= k < r.len() && (#[trigger] r[k]).line == i;
                    assert(o[k] == r[k]);
                }
            }
        }
    }
}

/// An exact search reports exactly the lines that contain the pattern, in
/// increasing order, each with the context range `context_start_spec` to
/// `context_end_spec` around it.
pub proof fn lemma_exact_matches_are_the_containing_lines(
    lines: Seq<Seq<char>>,
    pat: Seq<char>,
    context: int,
)
    requires
        context >= 0,
    ensures
        forall|k: int|
            0 <= k < exact_matches_spec(lines, pat, context).len() ==> {
                let m = #[trigger] exact_matches_spec(lines, pat, context)[k];
                &&& 0 <= m.context_start <= m.line <= m.context_end < lines.len()
                &&& m.context_start == context_start_spec(m.line, context)
                &&& m.context_end == context_end_spec(m.line, context, lines.len() as int)
                &&& contains_spec(lines[m.line], pat)
                &&& m.hits == occurrences(lines[m.line], pat)
            },
        forall|k: int, j: int|
            0 <= k < j < exact_matches_spec(lines, pat, context).len() ==> (
            #[trigger] exact_matches_spec(lines, pat, context)[k]).line < (
            #[trigger] exact_matches_spec(lines, pat, context)[j]).line,
        forall|i: int|
            0 <= i < lines.len() && contains_spec(lines[i], pat) ==> exists|k: int|
                0 <= k < exact_matches_spec(lines, pat, context).len() && (
                #[trigger] exact_matches_spec(lines, pat, context)[k]).line == i,
{
    lemma_exact_upto_facts(lines, pat, context, lines.len() as int);
    lemma_exact_upto_hits(lines, pat, context, lines.len() as int);
    let o = exact_matches_spec(lines, pat, context);
    assert forall|i: int| 0 <= i < lines.len() && contains_spec(lines[i], pat) implies exists|k: int|
        0 <= k < o.len() && (#[trigger] o[k]).line == i by {
        let k = choose|k: int|
            0 <= k < exact_matches_upto(lines, pat, context, lines.len() as int).len() && (
            #[trigger] exact_matches_upto(lines, pat, context, lines.len() as int)[k]).line == i;
        assert(o[k].line == i);
    }
}

proof fn lemma_exact_upto_hits(lines: Seq<Seq<char>>, pat: Seq<char>, context: int, n: int)
    requires
        0 <= n <= lines.len(),
    ensures
        forall|k: int|
            0 <= k < exact_matches_upto(lines, pat, context, n).len() ==> (
            #[trigger] exact_matches_upto(lines, pat, context, n)[k]).hits == occurrences(
                lines[exact_matches_upto(lines, pat, context, n)[k].line],
                pat,
            ),
    decreases n,
{
    if n > 0 {
        lemma_exact_upto_hits(lines, pat, context, n - 1);
        let r = exact_matches_upto(lines, pat, context, n - 1);
        let o = exact_matches_upto(lines, pat, context, n);
        if contains_spec(lines[n - 1], pat) {
            assert(o == r.push(o[r.len() as int]));
            assert forall|k: int| 0 <= k < o.len() implies (#[trigger] o[k]).hits == occurrences(
                lines[o[k].line],
                pat,
            ) by {
                if k < r.len() {
                    assert(o[k] == r[k]);
                }
            }
        } else {
            assert(o == r);
        }
    }
}

/// Finds the lines of a file that contain `pattern`, with `context` lines of
/// context around each.
pub fn find_exact_matches(lines: &Vec<String>, pattern: &str, context: usize) -> (r: Vec<
    ExactMatch,
>)
    ensures
        exact_matches_view(r@) == exact_matches_spec(
            strings_view(lines@),
            pattern@,
            context as int,
        ),
{
    let ghost ls = strings_view(lines@);
    let pat = chars_of(pattern);
    let n = lines.len();
    let mut out: Vec<ExactMatch> = Vec::new();
    let mut i: usize = 0;
    while i < n
        invariant
            n == lines@.len(),
            ls == strings_view(lines@),
            pat@ == pattern@,
            i <= n,
            exact_matches_view(out@) == exact_matches_upto(ls, pat@, context as int, i as int),
        decreases n - i,
    {
        let line = chars_of(lines[i].as_str());
        assert(ls[i as int] == line@);
        let hits = find_occurrences(&line, &pat);
        proof {
            lemma_occurrences_iff_contains(line@, pat@);
        }
        if hits.len() > 0 {
            let (start, end) = context_bounds(i, n, context);
            let m = ExactMatch { line: i, context_start: start, context_end: end, hits };
            let ghost before = exact_matches_view(out@);
            out.push(m);
            assert(exact_matches_view(out@) =~= before.push(m@));
        }
        i = i + 1;
    }
    out
}

/// A default-configured `SkimMatcherV2` of `fuzzy_matcher`.
#[verifier::external_type_specification]
#[verifier::external_body]
pub struct ExSkimMatcherV2(SkimMatcherV2);

/// `c` with an ASCII capital letter turned into the small letter.
pub open spec fn ascii_lower(c: char) -> char {
    if 'A' <= c && c <= 'Z' {
        ((c as u32) + 32) as char
    } else {
        c
    }
}

/// Whether `p` holds an ASCII capital letter; the skim matcher then matches
/// case-sensitively ("smart case").
pub open spec fn has_ascii_capital(p: Seq<char>) -> bool {
    exists|k: int| 0 <= k < p.len() && 'A' <= #[trigger] p[k] && p[k] <= 'Z'
}

/// Character equality of the skim matcher: exact, or up to ASCII case.
pub open spec fn skim_char_equal(a: char, b: char, case_sensitive: bool) -> bool {
    if case_sensitive {
        a == b
    } else {
        ascii_lower(a) == ascii_lower(b)
    }
}

/// Whether `pattern` is a subsequence of `choice` under `skim_char_equal`,
/// found greedily from the left.
pub open spec fn skim_subsequence(pattern: Seq<char>, choice: Seq<char>, case_sensitive: bool) -> bool
    decreases choice.len(),
{
    if pattern.len() == 0 {
        true
    } else if choice.len() == 0 {
        false
    } else if skim_char_equal(choice[0], pattern[0], case_sensitive) {
        skim_subsequence(pattern.drop_first(), choice.drop_first(), case_sensitive)
    } else {
        skim_subsequence(pattern, choice.drop_first(), case_sensitive)
    }
}

/// Whether the skim matcher finds `pattern` in `choice` at all.
pub open spec fn skim_finds(choice: Seq<char>, pattern: Seq<char>) -> bool {
    skim_subsequence(pattern, choice, has_ascii_capital(pattern))
}

/// Strictly increasing positions, each below `n`.
pub open spec fn increasing_below(v: Seq<usize>, n: int) -> bool {
    &&& forall|k: int| 0 <= k < v.len() ==> #[trigger] v[k] < n
    &&& forall|k: int, j: int| 0 <= k < j < v.len() ==> #[trigger] v[k] < #[trigger] v[j]
}

/// What holds of every score the skim matcher gives to `choice` against
/// `pattern`: `Some(0)` for an empty pattern, and `None` exactly when the
/// pattern is not found.
pub open spec fn possible_score(choice: Seq<char>, pattern: Seq<char>, r: Option<i64>) -> bool {
    &&& pattern.len() == 0 ==> r == Some(0i64)
    &&& (r is Some <==> skim_finds(choice, pattern))
}

/// What holds of every score with positions that the skim matcher gives to
/// `choice` against `pattern`: no positions and a score of 0 for an empty
/// pattern, `None` exactly when the pattern is not found, and positions that
/// increase strictly and stay inside the choice.
pub open spec fn possible_positions(
    choice: Seq<char>,
    pattern: Seq<char>,
    r: Option<(i64, Seq<usize>)>,
) -> bool {
    &&& pattern.len() == 0 ==> r == Some((0i64, Seq::<usize>::empty()))
    &&& (r is Some <==> skim_finds(choice, pattern))
    &&& (r matches Some((_, v)) ==> increasing_below(v, choice.len() as int))
}

/// The view of a score with positions.
pub open spec fn scored_positions_view(r: Option<(i64, Vec<usize>)>) -> Option<(i64, Seq<usize>)> {
    match r {
        Some((s, v)) => Some((s, v@)),
        None => None,
    }
}

/// `SkimMatcherV2::default()`: a matcher with the default score
/// configuration, smart case and no element limit. Nothing is stated of the
/// value; the matcher is only ever handed to `skim_fuzzy_match` and
/// `skim_fuzzy_indices`.
#[verifier::external_body]
fn default_skim_matcher() -> SkimMatcherV2 {
    SkimMatcherV2::default()
}

/// `FuzzyMatcher::fuzzy_match` of a default-configured `SkimMatcherV2`
/// (`SkimMatcherV2::fuzzy` without positions). The source returns `Some(0)`
/// for an empty pattern, and `None` exactly when `cheap_matches` finds no
/// greedy subsequence under `char_equal`, case-sensitive only when the
/// pattern holds an ASCII capital; otherwise it always returns a score. The
/// score itself is left unsaid: it comes from a score matrix kept per thread
/// between calls, so it is not a function of the arguments alone.
#[verifier::external_body]
fn skim_fuzzy_match(m: &SkimMatcherV2, choice: &str, pattern: &str) -> (r: Option<i64>)
    ensures
        pattern@.len() == 0 ==> r == Some(0i64),
        r is Some <==> skim_finds(choice@, pattern@),
{
    m.fuzzy_match(choice, pattern)
}

/// `FuzzyMatcher::fuzzy_indices` of a default-configured `SkimMatcherV2`
/// (`SkimMatcherV2::fuzzy` with positions). As for `skim_fuzzy_match`, the
/// source returns a score of 0 and no positions for an empty pattern and
/// `None` exactly when the pattern is not found; the positions it collects
/// while tracing back through the matrix decrease strictly and are reversed,
/// each one below the number of characters of the choice. The score and which
/// positions are chosen are left unsaid (they depend on per-thread state).
#[verifier::external_body]
fn skim_fuzzy_indices(m: &SkimMatcherV2, choice: &str, pattern: &str) -> (r: Option<
    (i64, Vec<usize>),
>)
    ensures
        pattern@.len() == 0 ==> scored_positions_view(r) == Some((0i64, Seq::<usize>::empty())),
        r is Some <==> skim_finds(choice@, pattern@),
        r matches Some((_, v)) ==> increasing_below(v@, choice@.len() as int),
{
    m.fuzzy_indices(choice, pattern)
}

/// A fuzzy matcher for lines: a default-configured skim matcher.
pub struct FuzzyLineMatcher {
    matcher: SkimMatcherV2,
}

impl FuzzyLineMatcher {
    /// A matcher with the default configuration.
    pub fn new() -> (r: FuzzyLineMatcher) {
        FuzzyLineMatcher { matcher: default_skim_matcher() }
    }

    /// The score of `line` against `pattern`; see `possible_score`.
    pub fn score(&self, line: &str, pattern: &str) -> (r: Option<i64>)
        ensures
            possible_score(line@, pattern@, r),
    {
        skim_fuzzy_match(&self.matcher, line, pattern)
    }

    /// The score of `line` against `pattern` with the matched positions; see
    /// `possible_positions`.
    pub fn positions(&self, line: &str, pattern: &str) -> (r: Option<(i64, Vec<usize>)>)
        ensures
            possible_positions(line@, pattern@, scored_positions_view(r)),
    {
        skim_fuzzy_indices(&self.matcher, line, pattern)
    }
}

/// A score that reaches the threshold, or `None`.
pub open spec fn accepted_score(score: Option<i64>, threshold: i64) -> Option<i64> {
    match score {
        Some(s) => if s >= threshold {
            Some(s)
        } else {
            None
        },
        None => None,
    }
}

/// Keeps a fuzzy score when it reaches the threshold.
pub fn fuzzy_accepts(score: Option<i64>, threshold: i64) -> (r: Option<i64>)
    ensures
        r == accepted_score(score, threshold),
{
    match score {
        Some(s) => if s >= threshold {
            Some(s)
        } else {
            None
        },
        None => None,
    }
}

/// A line that the fuzzy matcher accepts, with its context, its score and
/// the character positions to highlight.
#[derive(Debug)]
pub struct FuzzyMatch {
    pub line: usize,
    pub context_start: usize,
    pub context_end: usize,
    pub score: i64,
    pub highlighted: Vec<usize>,
}

/// The mathematical value of a `FuzzyMatch`.
pub struct FuzzyMatchView {
    pub line: int,
    pub context_start: int,
    pub context_end: int,
    pub score: i64,
    pub highlighted: Seq<usize>,
}

impl View for FuzzyMatch {
    type V = FuzzyMatchView;

    open spec fn view(&self) -> FuzzyMatchView {
        FuzzyMatchView {
            line: self.line as int,
            context_start: self.context_start as int,
            context_end: self.context_end as int,
            score: self.score,
            highlighted: self.highlighted@,
        }
    }
}

/// The views of a sequence of fuzzy matches.
pub open spec fn fuzzy_matches_view(v: Seq<FuzzyMatch>) -> Seq<FuzzyMatchView> {
    v.map_values(|x: FuzzyMatch| x@)
}

/// The report of accepted line `line` of `line_count` lines: its context, its
/// score, and the positions that the matcher reported (none if it reported
/// no match).
pub open spec fn fuzzy_block_spec(
    line: int,
    line_count: int,
    context: int,
    score: i64,
    positions: Option<(i64, Seq<usize>)>,
) -> FuzzyMatchView {
    FuzzyMatchView {
        line,
        context_start: context_start_spec(line, context),
        context_end: context_end_spec(line, context, line_count),
        score,
        highlighted: match positions {
            Some((_, p)) => p,
            None => seq![],
        },
    }
}

/// Builds the report of an accepted line from its score and the positions
/// that the matcher reported.
pub fn fuzzy_block(
    line: usize,
    line_count: usize,
    context: usize,
    score: i64,
    positions: Option<(i64, Vec<usize>)>,
) -> (r: FuzzyMatch)
    requires
        line < line_count,
    ensures
        r@ == fuzzy_block_spec(
            line as int,
            line_count as int,
            context as int,
            score,
            scored_positions_view(positions),
        ),
{
    let (start, end) = context_bounds(line, line_count, context);
    let highlighted = match positions {
        Some((_, p)) => p,
        None => Vec::new(),
    };
    FuzzyMatch { line, context_start: start, context_end: end, score, highlighted }
}

/// The views of the matcher's answers for each line.
pub open spec fn positions_views(v: Seq<Option<(i64, Vec<usize>)>>) -> Seq<
    Option<(i64, Seq<usize>)>,
> {
    v.map_values(|x: Option<(i64, Vec<usize>)>| scored_positions_view(x))
}

/// The fuzzy matches among the first `k` lines, given the score of each line
/// and, for the accepted ones, the positions the matcher reported.
pub open spec fn fuzzy_matches_upto(
    scores: Seq<Option<i64>>,
    positions: Seq<Option<(i64, Seq<usize>)>>,
    context: int,
    threshold: i64,
    k: int,
) -> Seq<FuzzyMatchView>
    decreases k,
{
    if k <= 0 {
        seq![]
    } else {
        let r = fuzzy_matches_upto(scores, positions, context, threshold, k - 1);
        let i = k - 1;
        match accepted_score(scores[i], threshold) {
            Some(s) => r.push(
                fuzzy_block_spec(i, scores.len() as int, context, s, positions[i]),
            ),
            None => r,
        }
    }
}

/// The fuzzy matches of a file whose lines have the given scores: one per
/// line whose score reaches the threshold, in line order.
pub open spec fn fuzzy_matches_spec(
    scores: Seq<Option<i64>>,
    positions: Seq<Option<(i64, Seq<usize>)>>,
    context: int,
    threshold: i64,
) -> Seq<FuzzyMatchView> {
    fuzzy_matches_upto(scores, positions, context, threshold, scores.len() as int)
}

/// A copy of a score with positions.
fn copy_positions(p: &Option<(i64, Vec<usize>)>) -> (r: Option<(i64, Vec<usize>)>)
    ensures
        scored_positions_view(r) == scored_positions_view(*p),
{
    match p {
        Some((s, v)) => {
            let mut c: Vec<usize> = Vec::new();
            let mut k: usize = 0;
            while k < v.len()
                invariant
                    k <= v@.len(),
                    c@ == v@.subrange(0, k as int),
                decreases v.len() - k,
            {
                c.push(v[k]);
                k = k + 1;
                assert(c@ =~= v@.subrange(0, k as int));
            }
            assert(c@ =~= v@);
            Some((*s, c))
        },
        None => None,
    }
}

/// Reports the lines whose score reaches `threshold`, given the score of each
/// line and the positions reported for it, with `context` lines of context.
pub fn fuzzy_matches_from_scores(
    scores: &Vec<Option<i64>>,
    positions: &Vec<Option<(i64, Vec<usize>)>>,
    context: usize,
    threshold: i64,
) -> (r: Vec<FuzzyMatch>)
    requires
        scores@.len() == positions@.len(),
    ensures
        fuzzy_matches_view(r@) == fuzzy_matches_spec(
            scores@,
            positions_views(positions@),
            context as int,
            threshold,
        ),
{
    let ghost ps = positions_views(positions@);
    let n = scores.len();
    let mut out: Vec<FuzzyMatch> = Vec::new();
    let mut i: usize = 0;
    while i < n
        invariant
            n == scores@.len(),
            n == positions@.len(),
            ps == positions_views(positions@),
            i <= n,
            fuzzy_matches_view(out@) == fuzzy_matches_upto(
                scores@,
                ps,
                context as int,
                threshold,
                i as int,
            ),
        decreases n - i,
    {
        if let Some(s) = fuzzy_accepts(scores[i], threshold) {
            let p = copy_positions(&positions[i]);
            assert(ps[i as int] == scored_positions_view(positions@[i as int]));
            let m = fuzzy_block(i, n, context, s, p);
            let ghost before = fuzzy_matches_view(out@);
            out.push(m);
            assert(fuzzy_matches_view(out@) =~= before.push(m@));
        }
        i = i + 1;
    }
    out
}

proof fn lemma_fuzzy_upto_facts(
    scores: Seq<Option<i64>>,
    positions: Seq<Option<(i64, Seq<usize>)>>,
    context: int,
    threshold: i64,
    n: int,
)
    requires
        0 <= n <= scores.len(),
        context >= 0,
    ensures
        forall|k: int|
            0 <= k < fuzzy_matches_upto(scores, positions, context, threshold, n).len() ==> {
                let m = #[trigger] fuzzy_matches_upto(scores, positions, context, threshold, n)[k];
                &&& 0 <= m.context_start <= m.line <= m.context_end < scores.len()
                &&& m.context_start == context_start_spec(m.line, context)
                &&& m.context_end == context_end_spec(m.line, context, scores.len() as int)
                &&& m.line < n
                &&& scores[m.line] == Some(m.score)
                &&& m.score >= threshold
                &&& m.highlighted == match positions[m.line] {
                    Some((_, p)) => p,
                    None => seq![],
                }
            },
        forall|k: int, j: int|
            0 <= k < j < fuzzy_matches_upto(scores, positions, context, threshold, n).len() ==> (
            #[trigger] fuzzy_matches_upto(scores, positions, context, threshold, n)[k]).line < (
            #[trigger] fuzzy_matches_upto(scores, positions, context, threshold, n)[j]).line,
        forall|i: int|
            0 <= i < n && accepted_score(scores[i], threshold) is Some ==> exists|k: int|
                0 <= k < fuzzy_matches_upto(scores, positions, context, threshold, n).len() && (
                #[trigger] fuzzy_matches_upto(scores, positions, context, threshold, n)[k]).line
                    == i,
    decreases n,
{
    if n > 0 {
        lemma_fuzzy_upto_facts(scores, positions, context, threshold, n - 1);
        let r = fuzzy_matches_upto(scores, positions, context, threshold, n - 1);
        let o = fuzzy_matches_upto(scores, positions, context, threshold, n);
        if accepted_score(scores[n - 1], threshold) is Some {
            assert(o == r.push(o[r.len() as int]));
            assert forall|i: int|
                0 <= i < n && accepted_score(
                    scores[i],
                    threshold,
                ) is Some implies exists|k: int| 0 <= k < o.len() && (#[trigger] o[k]).line == i by {
                if i == n - 1 {
                    assert(o[r.len() as int].line == i);
                } else {
                    let k = choose|k: int| 0 <= k < r.len() && (#[trigger] r[k]).line == i;
                    assert(o[k] == r[k]);
                }
            }
        } else {
            assert(o == r);
        }
    }
}

/// The fuzzy report of a file holds exactly the lines whose score reaches
/// the threshold, in increasing order, each with its score, the positions
/// reported for it and the context range `context_start_spec` to
/// `context_end_spec` around it.
pub proof fn lemma_fuzzy_matches_are_the_accepted_lines(
    scores: Seq<Option<i64>>,
    positions: Seq<Option<(i64, Seq<usize>)>>,
    context: int,
    threshold: i64,
)
    requires
        context >= 0,
    ensures
        forall|k: int|
            0 <= k < fuzzy_matches_spec(scores, positions, context, threshold).len() ==> {
                let m = #[trigger] fuzzy_matches_spec(scores, positions, context, threshold)[k];
                &&& 0 <= m.context_start <= m.line <= m.context_end < scores.len()
                &&& m.context_start == context_start_spec(m.line, context)
                &&& m.context_end == context_end_spec(m.line, context, scores.len() as int)
                &&& scores[m.line] == Some(m.score)
                &&& m.score >= threshold
                &&& m.highlighted == match positions[m.line] {
                    Some((_, p)) => p,
                    None => seq![],
                }
            },
        forall|k: int, j: int|
            0 <= k < j < fuzzy_matches_spec(scores, positions, context, threshold).len() ==> (
            #[trigger] fuzzy_matches_spec(scores, positions, context, threshold)[k]).line < (
            #[trigger] fuzzy_matches_spec(scores, positions, context, threshold)[j]).line,
        forall|i: int|
            0 <= i < scores.len() && accepted_score(scores[i], threshold) is Some ==> exists|k: int|
                0 <= k < fuzzy_matches_spec(scores, positions, context, threshold).len() && (
                #[trigger] fuzzy_matches_spec(scores, positions, context, threshold)[k]).line == i,
{
    lemma_fuzzy_upto_facts(scores, positions, context, threshold, scores.len() as int);
}

/// Whether a report holds line `i`.
pub open spec fn reports_line(o: Seq<FuzzyMatchView>, i: int) -> bool {
    exists|j: int| 0 <= j < o.len() && (#[trigger] o[j]).line == i
}

/// Raising the threshold only removes lines: with the same scores, every
/// line reported at `t2` is reported at `t1 <= t2`.
pub proof fn lemma_fuzzy_threshold_monotone(
    scores: Seq<Option<i64>>,
    positions: Seq<Option<(i64, Seq<usize>)>>,
    context: int,
    t1: i64,
    t2: i64,
)
    requires
        context >= 0,
        t1 <= t2,
    ensures
        forall|k: int|
            0 <= k < fuzzy_matches_spec(scores, positions, context, t2).len() ==> reports_line(
                fuzzy_matches_spec(scores, positions, context, t1),
                (#[trigger] fuzzy_matches_spec(scores, positions, context, t2)[k]).line,
            ),
{
    lemma_fuzzy_matches_are_the_accepted_lines(scores, positions, context, t1);
    lemma_fuzzy_matches_are_the_accepted_lines(scores, positions, context, t2);
    let o1 = fuzzy_matches_spec(scores, positions, context, t1);
    let o2 = fuzzy_matches_spec(scores, positions, context, t2);
    assert forall|k: int| 0 <= k < o2.len() implies reports_line(o1, (#[trigger] o2[k]).line) by {
        let i = o2[k].line;
        assert(0 <= i < scores.len());
        assert(accepted_score(scores[i], t1) is Some);
        let j = choose|j: int| 0 <= j < o1.len() && (#[trigger] o1[j]).line == i;
        assert(o1[j].line == o2[k].line);
    }
}

/// Whether the scores and positions are answers the skim matcher can give
/// for `lines` against `pattern`: a possible score for every line, and
/// possible positions for every line whose score reaches the threshold.
pub open spec fn fuzzy_answers_fit(
    lines: Seq<Seq<char>>,
    pattern: Seq<char>,
    threshold: i64,
    scores: Seq<Option<i64>>,
    positions: Seq<Option<(i64, Seq<usize>)>>,
) -> bool {
    &&& scores.len() == lines.len()
    &&& positions.len() == lines.len()
    &&& forall|i: int|
        0 <= i < lines.len() ==> possible_score(lines[i], pattern, #[trigger] scores[i])
            && (accepted_score(scores[i], threshold) is Some ==> possible_positions(
            lines[i],
            pattern,
            positions[i],
        ))
}

/// Finds the lines of a file that the fuzzy matcher scores at least
/// `threshold` against `pattern`, with `context` lines of context around
/// each.
///
/// The scores come from the skim matcher and are not a function of the line
/// alone; what holds whatever they are: the report is `fuzzy_matches_spec`
/// over some answers the matcher can give, so every reported line holds the
/// pattern as a subsequence (see `skim_finds`), has a score of at least the
/// threshold and strictly increasing positions inside the line; lines come
/// in increasing order; and an empty pattern reports every line (score 0, no
/// positions) when the threshold is at most 0, and none otherwise.
pub fn find_fuzzy_matches(
    matcher: &FuzzyLineMatcher,
    lines: &Vec<String>,
    pattern: &str,
    context: usize,
    threshold: i64,
) -> (r: Vec<FuzzyMatch>)
    ensures
        exists|scores: Seq<Option<i64>>, positions: Seq<Option<(i64, Seq<usize>)>>|
            fuzzy_answers_fit(strings_view(lines@), pattern@, threshold, scores, positions)
                && fuzzy_matches_view(r@) == fuzzy_matches_spec(
                scores,
                positions,
                context as int,
                threshold,
            ),
        forall|k: int|
            0 <= k < r@.len() ==> {
                let m = (#[trigger] r@[k])@;
                &&& 0 <= m.context_start <= m.line <= m.context_end < lines@.len()
                &&& m.score >= threshold
                &&& skim_finds(lines@[m.line]@, pattern@)
                &&& increasing_below(m.highlighted, lines@[m.line]@.len() as int)
            },
        forall|k: int, j: int| 0 <= k < j < r@.len() ==> #[trigger] r@[k].line < #[trigger] r@[j].line,
        pattern@.len() == 0 && threshold <= 0 ==> r@.len() == lines@.len() && forall|k: int|
            0 <= k < r@.len() ==> (#[trigger] r@[k]).line == k && r@[k].score == 0
                && r@[k].highlighted@.len() == 0,
        pattern@.len() == 0 && threshold > 0 ==> r@.len() == 0,
{
    let ghost ls = strings_view(lines@);
    let n = lines.len();
    let mut scores: Vec<Option<i64>> = Vec::new();
    let mut positions: Vec<Option<(i64, Vec<usize>)>> = Vec::new();
    let mut i: usize = 0;
    while i < n
        invariant
            n == lines@.len(),
            ls == strings_view(lines@),
            i <= n,
            scores@.len() == i,
            positions@.len() == i,
            forall|j: int|
                0 <= j < i ==> possible_score(ls[j], pattern@, #[trigger] scores@[j]) && (
                accepted_score(scores@[j], threshold) is Some ==> possible_positions(
                    ls[j],
                    pattern@,
                    scored_positions_view(positions@[j]),
                )),
        decreases n - i,
    {
        let line = lines[i].as_str();
        assert(ls[i as int] == line@);
        let score = matcher.score(line, pattern);
        let found = if fuzzy_accepts(score, threshold).is_some() {
            matcher.positions(line, pattern)
        } else {
            None
        };
        scores.push(score);
        positions.push(found);
        i = i + 1;
    }
    let r = fuzzy_matches_from_scores(&scores, &positions, context, threshold);
    proof {
        let sc = scores@;
        let ps = positions_views(positions@);
        assert forall|j: int| 0 <= j < ls.len() implies possible_score(
            ls[j],
            pattern@,
            #[trigger] sc[j],
        ) && (accepted_score(sc[j], threshold) is Some ==> possible_positions(
            ls[j],
            pattern@,
            ps[j],
        )) by {
            assert(ps[j] == scored_positions_view(positions@[j]));
        }
        assert(fuzzy_answers_fit(ls, pattern@, threshold, sc, ps));
        lemma_fuzzy_matches_are_the_accepted_lines(sc, ps, context as int, threshold);
        let o = fuzzy_matches_spec(sc, ps, context as int, threshold);
        assert forall|k: int| 0 <= k < r@.len() implies {
            let m = (#[trigger] r@[k])@;
            &&& 0 <= m.context_start <= m.line <= m.context_end < lines@.len()
            &&& m.score >= threshold
            &&& skim_finds(lines@[m.line]@, pattern@)
            &&& increasing_below(m.highlighted, lines@[m.line]@.len() as int)
        } by {
            assert(fuzzy_matches_view(r@)[k] == r@[k]@);
            let m = o[k];
            assert(ls[m.line] == lines@[m.line]@);
            assert(possible_score(ls[m.line], pattern@, sc[m.line]));
            assert(accepted_score(sc[m.line], threshold) is Some);
            assert(possible_positions(ls[m.line], pattern@, ps[m.line]));
        }
        assert forall|k: int, j: int| 0 <= k < j < r@.len() implies #[trigger] r@[k].line
            < #[trigger] r@[j].line by {
            assert(fuzzy_matches_view(r@)[k] == r@[k]@);
            assert(fuzzy_matches_view(r@)[j] == r@[j]@);
        }
        if pattern@.len() == 0 {
            assert forall|j: int| 0 <= j < sc.len() implies sc[j] == Some(0i64) by {
                assert(possible_score(ls[j], pattern@, sc[j]));
            }
            if threshold <= 0 {
                assert forall|j: int| 0 <= j < sc.len() implies ps[j] == Some(
                    (0i64, Seq::<usize>::empty()),
                ) by {
                    assert(possible_score(ls[j], pattern@, sc[j]));
                    assert(accepted_score(sc[j], threshold) is Some);
                    assert(possible_positions(ls[j], pattern@, ps[j]));
                }
            }
            lemma_fuzzy_none_or_all(sc, ps, context as int, threshold);
            if threshold <= 0 {
                assert forall|k: int| 0 <= k < r@.len() implies (#[trigger] r@[k]).line == k
                    && r@[k].score == 0 && r@[k].highlighted@.len() == 0 by {
                    assert(fuzzy_matches_view(r@)[k] == r@[k]@);
                    let m = o[k];
                    assert(sc[m.line] == Some(0i64));
                }
            }
        }
    }
    r
}

proof fn lemma_fuzzy_none_or_all(
    scores: Seq<Option<i64>>,
    positions: Seq<Option<(i64, Seq<usize>)>>,
    context: int,
    threshold: i64,
)
    requires
        forall|i: int| 0 <= i < scores.len() ==> scores[i] == Some(0i64),
        threshold <= 0 ==> forall|i: int|
            0 <= i < scores.len() ==> positions[i] == Some((0i64, Seq::<usize>::empty())),
    ensures
        threshold <= 0 ==> fuzzy_matches_spec(scores, positions, context, threshold).len()
            == scores.len() && forall|k: int|
            0 <= k < scores.len() ==> (#[trigger] fuzzy_matches_spec(
                scores,
                positions,
                context,
                threshold,
            )[k]).line == k,
        threshold > 0 ==> fuzzy_matches_spec(scores, positions, context, threshold).len() == 0,
{
    lemma_fuzzy_zero_scores(scores, positions, context, threshold, scores.len() as int);
}

proof fn lemma_fuzzy_zero_scores(
    scores: Seq<Option<i64>>,
    positions: Seq<Option<(i64, Seq<usize>)>>,
    context: int,
    threshold: i64,
    n: int,
)
    requires
        0 <= n <= scores.len(),
        forall|i: int| 0 <= i < scores.len() ==> scores[i] == Some(0i64),
    ensures
        threshold <= 0 ==> fuzzy_matches_upto(scores, positions, context, threshold, n).len() == n
            && forall|k: int|
            0 <= k < n ==> (#[trigger] fuzzy_matches_upto(
                scores,
                positions,
                context,
                threshold,
                n,
            )[k]).line == k,
        threshold > 0 ==> fuzzy_matches_upto(scores, positions, context, threshold, n).len() == 0,
    decreases n,
{
    if n > 0 {
        lemma_fuzzy_zero_scores(scores, positions, context, threshold, n - 1);
        let r = fuzzy_matches_upto(scores, positions, context, threshold, n - 1);
        let o = fuzzy_matches_upto(scores, positions, context, threshold, n);
        assert(scores[n - 1] == Some(0i64));
        if threshold <= 0 {
            assert(o == r.push(o[n - 1]));
            assert forall|k: int| 0 <= k < n implies (#[trigger] o[k]).line == k by {
                if k < n - 1 {
                    assert(o[k] == r[k]);
                }
            }
        }
    }
}

} // verus!
