//! Character classes, string building and trimming shared by the lexer,
//! the command grammar and the search reports.

use vstd::prelude::*;

verus! {

/// Whether `c` has the Unicode `Alphabetic` property.
pub uninterp spec fn is_alphabetic_char(c: char) -> bool;

/// Whether `c` is in one of the Unicode numeric categories (`Nd`, `Nl`, `No`).
pub uninterp spec fn is_numeric_char(c: char) -> bool;

/// Whether `c` has the Unicode `White_Space` property.
pub uninterp spec fn is_white_space_char(c: char) -> bool;

/// `char::is_alphabetic`: true exactly when `c` has the `Alphabetic`
/// property, which is what `is_alphabetic_char` names.
#[verifier::external_body]
pub fn char_is_alphabetic(c: char) -> (r: bool)
    ensures
        r == is_alphabetic_char(c),
{
    c.is_alphabetic()
}

/// `char::is_alphanumeric`: its documentation defines it as
/// `is_alphabetic() || is_numeric()`, which is what the contract states.
#[verifier::external_body]
pub fn char_is_alphanumeric(c: char) -> (r: bool)
    ensures
        r == (is_alphabetic_char(c) || is_numeric_char(c)),
{
    c.is_alphanumeric()
}

/// `char::is_whitespace`: true exactly when `c` has the `White_Space`
/// property, which is what `is_white_space_char` names.
#[verifier::external_body]
pub fn char_is_whitespace(c: char) -> (r: bool)
    ensures
        r == is_white_space_char(c),
{
    c.is_whitespace()
}

/// `String::push`: appends one character.
#[verifier::external_body]
pub fn push_char(s: &mut String, c: char)
    ensures
        final(s)@ == old(s)@.push(c),
{
    s.push(c);
}

/// The characters of `s`, in order.
pub fn chars_of(s: &str) -> (v: Vec<char>)
    ensures
        v@ == s@,
{
    let mut v: Vec<char> = Vec::new();
    for c in it: s.chars()
        invariant
            it.seq() == s@,
            v@ == it.seq().take(it.index()),
    {
        v.push(c);
    }
    v
}

/// A `String` holding `v[from..to]`.
pub fn string_of_range(v: &Vec<char>, from: usize, to: usize) -> (r: String)
    requires
        from <= to <= v@.len(),
    ensures
        r@ == v@.subrange(from as int, to as int),
{
    let mut r = String::new();
    let mut k = from;
    while k < to
        invariant
            from <= k <= to <= v@.len(),
            r@ == v@.subrange(from as int, k as int),
        decreases to - k,
    {
        push_char(&mut r, v[k]);
        k = k + 1;
        assert(r@ =~= v@.subrange(from as int, k as int));
    }
    r
}

/// A `String` holding the literal text `prefix` followed by `tail`.
pub fn string_with_tail(prefix: &str, tail: &String) -> (r: String)
    ensures
        r@ == prefix@ + tail@,
{
    let mut r = String::from_str(prefix);
    r.append(tail.as_str());
    r
}

/// A `String` holding the characters of `v`.
pub fn string_from_chars(v: &Vec<char>) -> (r: String)
    ensures
        r@ == v@,
{
    let r = string_of_range(v, 0, v.len());
    assert(v@.subrange(0, v@.len() as int) =~= v@);
    r
}

/// Whether `a` and `b` hold the same characters.
pub fn same_text(a: &str, b: &str) -> (r: bool)
    ensures
        r == (a@ == b@),
{
    let x = chars_of(a);
    let y = chars_of(b);
    if x.len() != y.len() {
        return false;
    }
    let mut k: usize = 0;
    while k < x.len()
        invariant
            x@ == a@,
            y@ == b@,
            x@.len() == y@.len(),
            k <= x@.len(),
            forall|m: int| 0 <= m < k ==> x@[m] == y@[m],
        decreases x.len() - k,
    {
        if x[k] != y[k] {
            assert(x@[k as int] != y@[k as int]);
            return false;
        }
        k = k + 1;
    }
    assert(x@ =~= y@);
    true
}

/// The decimal digit for `d` (`0 <= d < 10`).
pub open spec fn digit_char(d: int) -> char {
    if d == 0 {
        '0'
    } else if d == 1 {
        '1'
    } else if d == 2 {
        '2'
    } else if d == 3 {
        '3'
    } else if d == 4 {
        '4'
    } else if d == 5 {
        '5'
    } else if d == 6 {
        '6'
    } else if d == 7 {
        '7'
    } else if d == 8 {
        '8'
    } else {
        '9'
    }
}

/// The decimal numeral of `n`, without leading zeros.
pub open spec fn decimal(n: nat) -> Seq<char>
    decreases n,
{
    if n < 10 {
        seq![digit_char(n as int)]
    } else {
        decimal(n / 10).push(digit_char((n % 10) as int))
    }
}

fn digit(d: u64) -> (c: char)
    requires
        d < 10,
    ensures
        c == digit_char(d as int),
{
    if d == 0 {
        '0'
    } else if d == 1 {
        '1'
    } else if d == 2 {
        '2'
    } else if d == 3 {
        '3'
    } else if d == 4 {
        '4'
    } else if d == 5 {
        '5'
    } else if d == 6 {
        '6'
    } else if d == 7 {
        '7'
    } else if d == 8 {
        '8'
    } else {
        '9'
    }
}

/// The decimal numeral of `n`.
pub fn decimal_string(n: u64) -> (r: String)
    ensures
        r@ == decimal(n as nat),
{
    let mut acc: Vec<char> = Vec::new();
    let mut q = n;
    if q == 0 {
        acc.push('0');
        assert(acc@ =~= decimal(0));
    }
    while q > 0
        invariant
            q > 0 ==> decimal(n as nat) == decimal(q as nat) + acc@,
            q == 0 ==> decimal(n as nat) == acc@,
        decreases q,
    {
        let d = q % 10;
        let c = digit(d);
        let ghost old_acc = acc@;
        acc.insert(0, c);
        assert(acc@ =~= seq![c] + old_acc);
        if q >= 10 {
            assert(decimal(q as nat) == decimal((q / 10) as nat).push(c));
            assert(decimal((q / 10) as nat).push(c) + old_acc =~= decimal((q / 10) as nat) + acc@);
        } else {
            assert(decimal(q as nat) =~= seq![c]);
            assert(seq![c] + old_acc =~= acc@);
        }
        q = q / 10;
    }
    string_from_chars(&acc)
}

/// `s` without its leading white space.
pub open spec fn trim_start_spec(s: Seq<char>) -> Seq<char>
    decreases s.len(),
{
    if s.len() > 0 && is_white_space_char(s[0]) {
        trim_start_spec(s.drop_first())
    } else {
        s
    }
}

/// `s` without its trailing white space.
pub open spec fn trim_end_spec(s: Seq<char>) -> Seq<char>
    decreases s.len(),
{
    if s.len() > 0 && is_white_space_char(s.last()) {
        trim_end_spec(s.drop_last())
    } else {
        s
    }
}

/// `s` without its leading and trailing white space.
pub open spec fn trim_spec(s: Seq<char>) -> Seq<char> {
    trim_end_spec(trim_start_spec(s))
}

proof fn lemma_trim_start_facts(s: Seq<char>)
    ensures
        trim_start_spec(s).len() > 0 ==> !is_white_space_char(trim_start_spec(s)[0]),
        trim_start_spec(s).len() <= s.len(),
    decreases s.len(),
{
    if s.len() > 0 && is_white_space_char(s[0]) {
        lemma_trim_start_facts(s.drop_first());
    }
}

proof fn lemma_trim_end_facts(s: Seq<char>)
    ensures
        trim_end_spec(s).len() > 0 ==> !is_white_space_char(trim_end_spec(s).last()),
        trim_end_spec(s).len() <= s.len(),
        trim_end_spec(s) == s.subrange(0, trim_end_spec(s).len() as int),
    decreases s.len(),
{
    if s.len() > 0 && is_white_space_char(s.last()) {
        lemma_trim_end_facts(s.drop_last());
        let t = trim_end_spec(s.drop_last());
        assert(s.drop_last().subrange(0, t.len() as int) =~= s.subrange(0, t.len() as int));
    } else {
        assert(s.subrange(0, s.len() as int) =~= s);
    }
}

/// Trimming leaves neither leading nor trailing white space, so trimming
/// again changes nothing.
pub proof fn lemma_trim_idempotent(s: Seq<char>)
    ensures
        trim_spec(s).len() > 0 ==> !is_white_space_char(trim_spec(s)[0])
            && !is_white_space_char(trim_spec(s).last()),
        trim_spec(trim_spec(s)) == trim_spec(s),
{
    let a = trim_start_spec(s);
    let t = trim_spec(s);
    lemma_trim_start_facts(s);
    lemma_trim_end_facts(a);
    if t.len() > 0 {
        assert(t[0] == a[0]);
        assert(trim_start_spec(t) == t);
        assert(trim_end_spec(t) == t);
    } else {
        assert(trim_start_spec(t) == t);
        assert(trim_end_spec(t) == t);
    }
}

/// `v[from..to]` without its leading and trailing white space, as a `String`.
pub fn trimmed_range(v: &Vec<char>, from: usize, to: usize) -> (r: String)
    requires
        from <= to <= v@.len(),
    ensures
        r@ == trim_spec(v@.subrange(from as int, to as int)),
{
    let mut a = from;
    while a < to && char_is_whitespace(v[a])
        invariant
            from <= a <= to <= v@.len(),
            trim_start_spec(v@.subrange(from as int, to as int)) == trim_start_spec(
                v@.subrange(a as int, to as int),
            ),
        decreases to - a,
    {
        assert(v@.subrange(a as int, to as int).drop_first() =~= v@.subrange(a + 1, to as int));
        a = a + 1;
    }
    let mut b = to;
    while b > a && char_is_whitespace(v[b - 1])
        invariant
            from <= a <= b <= to <= v@.len(),
            trim_end_spec(v@.subrange(a as int, to as int)) == trim_end_spec(
                v@.subrange(a as int, b as int),
            ),
        decreases b - a,
    {
        assert(v@.subrange(a as int, b as int).drop_last() =~= v@.subrange(a as int, b - 1));
        b = b - 1;
    }
    string_of_range(v, a, b)
}

/// The pieces of `s` between occurrences of `sep`, in order; there is one
/// more piece than there are separators.
pub open spec fn split_on(s: Seq<char>, sep: char) -> Seq<Seq<char>>
    decreases s.len(),
{
    if s.len() == 0 {
        seq![seq![]]
    } else {
        let r = split_on(s.drop_last(), sep);
        if s.last() == sep {
            r.push(seq![])
        } else {
            r.update(r.len() - 1, r.last().push(s.last()))
        }
    }
}

pub proof fn lemma_split_on_nonempty(s: Seq<char>, sep: char)
    ensures
        split_on(s, sep).len() >= 1,
    decreases s.len(),
{
    if s.len() > 0 {
        lemma_split_on_nonempty(s.drop_last(), sep);
    }
}

/// The pieces joined with `sep` between each two.
pub open spec fn join_with(pieces: Seq<Seq<char>>, sep: char) -> Seq<char>
    decreases pieces.len(),
{
    if pieces.len() == 0 {
        seq![]
    } else if pieces.len() == 1 {
        pieces[0]
    } else {
        join_with(pieces.drop_last(), sep).push(sep) + pieces.last()
    }
}

/// Splitting loses nothing: joining the pieces with the separator gives the
/// text back, and no piece holds the separator.
pub proof fn lemma_split_join(s: Seq<char>, sep: char)
    ensures
        join_with(split_on(s, sep), sep) == s,
        forall|k: int, j: int|
            0 <= k < split_on(s, sep).len() && 0 <= j < split_on(s, sep)[k].len() ==> #[trigger] split_on(
                s,
                sep,
            )[k][j] != sep,
    decreases s.len(),
{
    if s.len() == 0 {
        assert(join_with(seq![seq![]], sep) == Seq::<char>::empty());
    } else {
        let d = s.drop_last();
        let c = s.last();
        lemma_split_join(d, sep);
        lemma_split_on_nonempty(d, sep);
        let r = split_on(d, sep);
        let o = split_on(s, sep);
        if c == sep {
            assert(o == r.push(seq![]));
            assert(o.drop_last() =~= r);
            assert(join_with(o, sep) == join_with(r, sep).push(sep) + Seq::<char>::empty());
            assert(s =~= d.push(sep) + Seq::<char>::empty());
            assert forall|k: int, j: int| 0 <= k < o.len() && 0 <= j < o[k].len() implies #[trigger] o[k][j]
                != sep by {
                assert(k < r.len());
                assert(o[k] == r[k]);
            }
        } else {
            let last = r.last().push(c);
            assert(o == r.update(r.len() - 1, last));
            if r.len() == 1 {
                assert(join_with(r, sep) == r[0]);
                assert(o.len() == 1);
                assert(join_with(o, sep) == o[0]);
                assert(o[0] == last);
                assert(s =~= d.push(c));
            } else {
                assert(o.drop_last() =~= r.drop_last());
                assert(join_with(r, sep) == join_with(r.drop_last(), sep).push(sep) + r.last());
                assert(join_with(o, sep) == join_with(o.drop_last(), sep).push(sep) + o.last());
                assert(join_with(o, sep) =~= join_with(r, sep).push(c));
                assert(s =~= d.push(c));
            }
            assert forall|k: int, j: int| 0 <= k < o.len() && 0 <= j < o[k].len() implies #[trigger] o[k][j]
                != sep by {
                if k < r.len() - 1 {
                    assert(o[k] == r[k]);
                } else {
                    assert(o[k] == last);
                    if j < r.last().len() {
                        assert(last[j] == r[r.len() - 1][j]);
                    }
                }
            }
        }
    }
}

/// The trimmed pieces that are not empty, in order.
pub open spec fn nonempty_trimmed(pieces: Seq<Seq<char>>) -> Seq<Seq<char>>
    decreases pieces.len(),
{
    if pieces.len() == 0 {
        seq![]
    } else {
        let r = nonempty_trimmed(pieces.drop_last());
        let t = trim_spec(pieces.last());
        if t.len() > 0 {
            r.push(t)
        } else {
            r
        }
    }
}

/// The commands of a query: its `;`-separated parts, trimmed, without the
/// empty ones.
pub open spec fn commands_spec(s: Seq<char>) -> Seq<Seq<char>> {
    nonempty_trimmed(split_on(s, ';'))
}

proof fn lemma_nonempty_trimmed_facts(pieces: Seq<Seq<char>>)
    ensures
        forall|k: int|
            0 <= k < nonempty_trimmed(pieces).len() ==> (#[trigger] nonempty_trimmed(pieces)[k]).len()
                > 0 && trim_spec(nonempty_trimmed(pieces)[k]) == nonempty_trimmed(pieces)[k],
    decreases pieces.len(),
{
    if pieces.len() > 0 {
        lemma_nonempty_trimmed_facts(pieces.drop_last());
        lemma_trim_idempotent(pieces.last());
        let r = nonempty_trimmed(pieces.drop_last());
        let o = nonempty_trimmed(pieces);
        assert forall|k: int| 0 <= k < o.len() implies (#[trigger] o[k]).len() > 0 && trim_spec(o[k])
            == o[k] by {
            if k < r.len() {
                assert(o[k] == r[k]);
            }
        }
    }
}

/// Every command of a query is non-empty and has neither leading nor
/// trailing white space.
pub proof fn lemma_commands_are_trimmed(s: Seq<char>)
    ensures
        forall|k: int|
            0 <= k < commands_spec(s).len() ==> {
                let c = #[trigger] commands_spec(s)[k];
                &&& c.len() > 0
                &&& !is_white_space_char(c[0])
                &&& !is_white_space_char(c.last())
            },
{
    lemma_nonempty_trimmed_facts(split_on(s, ';'));
    assert forall|k: int| 0 <= k < commands_spec(s).len() implies {
        let c = #[trigger] commands_spec(s)[k];
        &&& c.len() > 0
        &&& !is_white_space_char(c[0])
        &&& !is_white_space_char(c.last())
    } by {
        lemma_trim_idempotent(commands_spec(s)[k]);
    }
}

proof fn lemma_split_on_concat(a: Seq<char>, b: Seq<char>, sep: char)
    ensures
        split_on(a.push(sep) + b, sep) == split_on(a, sep) + split_on(b, sep),
    decreases b.len(),
{
    let x = a.push(sep) + b;
    lemma_split_on_nonempty(a, sep);
    if b.len() == 0 {
        assert(x =~= a.push(sep));
        assert(a.push(sep).drop_last() =~= a);
        assert(split_on(a, sep).push(seq![]) =~= split_on(a, sep) + seq![seq![]]);
    } else {
        let d = b.drop_last();
        let c = b.last();
        lemma_split_on_concat(a, d, sep);
        lemma_split_on_nonempty(d, sep);
        assert(x.drop_last() =~= a.push(sep) + d);
        assert(x.last() == c);
        let l = split_on(a, sep);
        let r = split_on(d, sep);
        let whole = split_on(x.drop_last(), sep);
        assert(whole == l + r);
        if c == sep {
            assert(split_on(x, sep) == whole.push(seq![]));
            assert((l + r).push(seq![]) =~= l + r.push(seq![]));
        } else {
            assert(split_on(x, sep) == whole.update(whole.len() - 1, whole.last().push(c)));
            assert(whole.last() == r.last());
            assert((l + r).update(whole.len() - 1, r.last().push(c)) =~= l + r.update(
                r.len() - 1,
                r.last().push(c),
            ));
        }
    }
}

proof fn lemma_nonempty_trimmed_concat(p: Seq<Seq<char>>, q: Seq<Seq<char>>)
    ensures
        nonempty_trimmed(p + q) == nonempty_trimmed(p) + nonempty_trimmed(q),
    decreases q.len(),
{
    if q.len() == 0 {
        assert(p + q =~= p);
        assert(nonempty_trimmed(p) + Seq::<Seq<char>>::empty() =~= nonempty_trimmed(p));
    } else {
        lemma_nonempty_trimmed_concat(p, q.drop_last());
        assert((p + q).drop_last() =~= p + q.drop_last());
        assert((p + q).last() == q.last());
        let t = trim_spec(q.last());
        if t.len() > 0 {
            assert((nonempty_trimmed(p) + nonempty_trimmed(q.drop_last())).push(t) =~= nonempty_trimmed(
                p,
            ) + nonempty_trimmed(q.drop_last()).push(t));
        }
    }
}

/// Commands distribute over `;`: the commands of `a;b` are those of `a`
/// followed by those of `b`.
pub proof fn lemma_commands_of_joined_query(a: Seq<char>, b: Seq<char>)
    ensures
        commands_spec(a.push(';') + b) == commands_spec(a) + commands_spec(b),
{
    lemma_split_on_concat(a, b, ';');
    lemma_nonempty_trimmed_concat(split_on(a, ';'), split_on(b, ';'));
}

/// The number of bytes that `c` takes in UTF-8, the encoding of a `String`.
pub open spec fn char_width(c: char) -> nat {
    if (c as u32) < 0x80 {
        1
    } else if (c as u32) < 0x800 {
        2
    } else if (c as u32) < 0x10000 {
        3
    } else {
        4
    }
}

/// The byte offset of the character `s[i]` in the UTF-8 encoding of `s`.
pub open spec fn byte_offset(s: Seq<char>, i: int) -> nat
    decreases i,
{
    if i <= 0 {
        0
    } else {
        byte_offset(s, i - 1) + char_width(s[i - 1])
    }
}

/// The byte offset of each character of `v` in its UTF-8 encoding.
pub fn byte_offsets(v: &Vec<char>) -> (r: Vec<u128>)
    ensures
        r@.len() == v@.len(),
        forall|i: int| 0 <= i < v@.len() ==> r@[i] == byte_offset(v@, i),
{
    let mut r: Vec<u128> = Vec::new();
    let mut off: u128 = 0;
    let mut i: usize = 0;
    while i < v.len()
        invariant
            i <= v@.len(),
            r@.len() == i,
            off == byte_offset(v@, i as int),
            off <= 4 * i,
            forall|a: int| 0 <= a < i ==> r@[a] == byte_offset(v@, a),
        decreases v.len() - i,
    {
        r.push(off);
        let code = v[i] as u32;
        let w: u128 = if code < 0x80 {
            1
        } else if code < 0x800 {
            2
        } else if code < 0x10000 {
            3
        } else {
            4
        };
        assert(w == char_width(v@[i as int]));
        off = off + w;
        i = i + 1;
    }
    r
}

/// The views of a sequence of strings.
pub open spec fn strings_view(v: Seq<String>) -> Seq<Seq<char>> {
    v.map_values(|x: String| x@)
}

/// Splits a query into its commands: the `;`-separated parts, trimmed, without
/// the empty ones.
pub fn split_commands(query: &str) -> (r: Vec<String>)
    ensures
        strings_view(r@) == commands_spec(query@),
{
    let s = chars_of(query);
    let n = s.len();
    let mut out: Vec<String> = Vec::new();
    let mut start: usize = 0;
    let mut i: usize = 0;
    let ghost mut done: Seq<Seq<char>> = seq![];
    assert(s@.take(0) =~= Seq::<char>::empty());
    assert(split_on(s@.take(0), ';') =~= done.push(s@.subrange(0, 0)));
    while i < n
        invariant
            n == s@.len(),
            s@ == query@,
            start <= i <= n,
            split_on(s@.take(i as int), ';') == done.push(s@.subrange(start as int, i as int)),
            strings_view(out@) == nonempty_trimmed(done),
        decreases n - i,
    {
        let ghost prefix = s@.take(i as int);
        assert(s@.take(i + 1).drop_last() =~= prefix);
        assert(s@.take(i + 1).last() == s@[i as int]);
        if s[i] == ';' {
            let piece = trimmed_range(&s, start, i);
            let ghost cur = s@.subrange(start as int, i as int);
            proof {
                assert(done.push(cur).drop_last() =~= done);
                assert(split_on(s@.take(i + 1), ';') == split_on(prefix, ';').push(seq![]));
                assert(s@.subrange(i + 1, i + 1) =~= Seq::<char>::empty());
            }
            if piece.unicode_len() > 0 {
                out.push(piece);
                assert(strings_view(out@) =~= nonempty_trimmed(done).push(trim_spec(cur)));
            }
            proof {
                done = done.push(cur);
            }
            start = i + 1;
            i = i + 1;
        } else {
            let ghost cur = s@.subrange(start as int, i as int);
            let ghost r = split_on(prefix, ';');
            assert(r == done.push(cur));
            assert(split_on(s@.take(i + 1), ';') == r.update(r.len() - 1, r.last().push(s@[i as int])));
            assert(cur.push(s@[i as int]) =~= s@.subrange(start as int, i + 1));
            assert(r.update(r.len() - 1, r.last().push(s@[i as int])) =~= done.push(s@.subrange(start as int, i + 1)));
            i = i + 1;
        }
    }
    let piece = trimmed_range(&s, start, n);
    let ghost last = s@.subrange(start as int, n as int);
    assert(s@.take(n as int) =~= s@);
    assert(done.push(last).drop_last() =~= done);
    if piece.unicode_len() > 0 {
        out.push(piece);
        assert(strings_view(out@) =~= nonempty_trimmed(done).push(trim_spec(last)));
    }
    out
}

} // verus!
