//! Characters, words, lines and fields of a text.
//!
//! Positions count characters, not bytes. White space is what Unicode calls
//! `White_Space`, so that words and trimmed fields are those that `str`'s own
//! methods give.

use vstd::prelude::*;
use vstd::string::*;

verus! {

/// The characters with the Unicode property `White_Space`.
pub open spec fn is_space(c: char) -> bool {
    let u = c as u32;
    ||| 0x09 <= u <= 0x0d
    ||| u == 0x20
    ||| u == 0x85
    ||| u == 0xa0
    ||| u == 0x1680
    ||| 0x2000 <= u <= 0x200a
    ||| u == 0x2028
    ||| u == 0x2029
    ||| u == 0x202f
    ||| u == 0x205f
    ||| u == 0x3000
}

/// How many characters of `s` stand before the first `c`; all of them if there is none.
pub open spec fn until_char(s: Seq<char>, c: char) -> nat
    decreases s.len(),
{
    if s.len() == 0 || s[0] == c {
        0
    } else {
        1 + until_char(s.drop_first(), c)
    }
}

/// How many characters of `s` stand before the first white space; all of them if there is none.
pub open spec fn until_space(s: Seq<char>) -> nat
    decreases s.len(),
{
    if s.len() == 0 || is_space(s[0]) {
        0
    } else {
        1 + until_space(s.drop_first())
    }
}

/// The words of `s`: its longest runs without white space, in order.
pub open spec fn words(s: Seq<char>) -> Seq<Seq<char>>
    decreases s.len(),
{
    if s.len() == 0 {
        seq![]
    } else if is_space(s[0]) {
        words(s.drop_first())
    } else {
        let n = until_space(s) as int;
        if n >= s.len() {
            seq![s]
        } else {
            seq![s.take(n)] + words(s.skip(n + 1))
        }
    }
}

/// `s` without the carriage return that ends it, if one does.
pub open spec fn without_cr(s: Seq<char>) -> Seq<char> {
    if s.len() > 0 && s.last() == '\r' {
        s.drop_last()
    } else {
        s
    }
}

/// The lines of `s`, without the `\n` or `\r\n` that ends them. Nothing stands
/// after a final line end, and a final line without one keeps its `\r`.
pub open spec fn lines(s: Seq<char>) -> Seq<Seq<char>>
    decreases s.len(),
{
    if s.len() == 0 {
        seq![]
    } else {
        let n = until_char(s, '\n') as int;
        if n >= s.len() {
            seq![s]
        } else {
            seq![without_cr(s.take(n))] + lines(s.skip(n + 1))
        }
    }
}

/// The pieces of `s` between its `c`s. There is one more of them than of `c`s.
pub open spec fn pieces(s: Seq<char>, c: char) -> Seq<Seq<char>>
    decreases s.len(),
{
    let n = until_char(s, c) as int;
    if n >= s.len() {
        seq![s]
    } else {
        seq![s.take(n)] + pieces(s.skip(n + 1), c)
    }
}

/// What stands before the first `c` of `s` and what stands after it.
pub open spec fn halves(s: Seq<char>, c: char) -> Option<(Seq<char>, Seq<char>)> {
    let n = until_char(s, c) as int;
    if n >= s.len() {
        None
    } else {
        Some((s.take(n), s.skip(n + 1)))
    }
}

/// `s` without the white space that it begins with.
pub open spec fn trimmed_start(s: Seq<char>) -> Seq<char>
    decreases s.len(),
{
    if s.len() > 0 && is_space(s[0]) {
        trimmed_start(s.drop_first())
    } else {
        s
    }
}

/// `s` without the white space that it ends with.
pub open spec fn trimmed_end(s: Seq<char>) -> Seq<char>
    decreases s.len(),
{
    if s.len() > 0 && is_space(s.last()) {
        trimmed_end(s.drop_last())
    } else {
        s
    }
}

/// `s` without the white space around it.
pub open spec fn trimmed(s: Seq<char>) -> Seq<char> {
    trimmed_end(trimmed_start(s))
}

/// Whether `pat` stands in `s` at position `i`.
pub open spec fn stands_at(s: Seq<char>, pat: Seq<char>, i: int) -> bool {
    0 <= i && i + pat.len() <= s.len() && s.subrange(i, i + pat.len()) == pat
}

/// The first position from `i` on at which `pat` stands in `s`.
pub open spec fn found_from(s: Seq<char>, pat: Seq<char>, i: int) -> Option<int>
    decreases s.len() + 1 - i,
{
    if i < 0 || i + pat.len() > s.len() {
        None
    } else if stands_at(s, pat, i) {
        Some(i)
    } else {
        found_from(s, pat, i + 1)
    }
}

/// The texts that a sequence of string slices holds.
pub open spec fn texts(v: Seq<&str>) -> Seq<Seq<char>> {
    v.map_values(|t: &str| t@)
}

/// `until_char` counts up to the first `c`: none stands before it.
pub proof fn lemma_until_char(s: Seq<char>, c: char)
    ensures
        until_char(s, c) <= s.len(),
        forall|i: int| 0 <= i < until_char(s, c) ==> s[i] != c,
        until_char(s, c) < s.len() ==> s[until_char(s, c) as int] == c,
    decreases s.len(),
{
    if s.len() > 0 && s[0] != c {
        let t = s.drop_first();
        lemma_until_char(t, c);
        assert forall|i: int| 0 <= i < until_char(s, c) implies s[i] != c by {
            if i > 0 {
                assert(s[i] == t[i - 1]);
            }
        }
    }
}

/// A position with no `c` before it and a `c` or the end at it is what `until_char` gives.
pub proof fn lemma_until_char_is(s: Seq<char>, c: char, n: int)
    requires
        0 <= n <= s.len(),
        forall|i: int| 0 <= i < n ==> s[i] != c,
        n < s.len() ==> s[n] == c,
    ensures
        until_char(s, c) == n,
{
    lemma_until_char(s, c);
}

/// `until_space` counts up to the first white space: none stands before it.
pub proof fn lemma_until_space(s: Seq<char>)
    ensures
        until_space(s) <= s.len(),
        forall|i: int| 0 <= i < until_space(s) ==> !is_space(s[i]),
        until_space(s) < s.len() ==> is_space(s[until_space(s) as int]),
    decreases s.len(),
{
    if s.len() > 0 && !is_space(s[0]) {
        let t = s.drop_first();
        lemma_until_space(t);
        assert forall|i: int| 0 <= i < until_space(s) implies !is_space(s[i]) by {
            if i > 0 {
                assert(s[i] == t[i - 1]);
            }
        }
    }
}

/// A position with no white space before it and white space or the end at it is what
/// `until_space` gives.
pub proof fn lemma_until_space_is(s: Seq<char>, n: int)
    requires
        0 <= n <= s.len(),
        forall|i: int| 0 <= i < n ==> !is_space(s[i]),
        n < s.len() ==> is_space(s[n]),
    ensures
        until_space(s) == n,
{
    lemma_until_space(s);
}

/// Where `found_from` finds `pat`, `pat` stands, and nowhere before.
pub proof fn lemma_found_from(s: Seq<char>, pat: Seq<char>, i: int)
    requires
        0 <= i,
    ensures
        match found_from(s, pat, i) {
            Some(k) => i <= k && stands_at(s, pat, k) && forall|j: int|
                i <= j < k ==> !#[trigger] stands_at(s, pat, j),
            None => forall|j: int| i <= j ==> !#[trigger] stands_at(s, pat, j),
        },
    decreases s.len() + 1 - i,
{
    if i + pat.len() <= s.len() && !stands_at(s, pat, i) {
        lemma_found_from(s, pat, i + 1);
    }
}

/// There is at least one piece.
pub proof fn lemma_pieces_len(s: Seq<char>, c: char)
    ensures
        pieces(s, c).len() > 0,
{
}

/// The characters of a string.
pub fn chars_of(s: &str) -> (v: Vec<char>)
    ensures
        v@ == s@,
{
    let mut v: Vec<char> = Vec::new();
    for c in it: s.chars()
        invariant
            v@ == s@.take(it.index()),
            it.seq() == s@,
    {
        v.push(c);
    }
    v
}

/// Whether two strings hold the same text.
pub fn same_text(a: &str, b: &str) -> (r: bool)
    ensures
        r == (a@ == b@),
{
    let x = chars_of(a);
    let y = chars_of(b);
    if x.len() != y.len() {
        return false;
    }
    let mut i: usize = 0;
    while i < x.len()
        invariant
            x@ == a@,
            y@ == b@,
            x.len() == y.len(),
            i <= x.len(),
            forall|j: int| 0 <= j < i ==> x@[j] == y@[j],
        decreases x.len() - i,
    {
        if x[i] != y[i] {
            return false;
        }
        i += 1;
    }
    assert(a@ =~= b@);
    true
}

/// Whether `c` is white space.
pub fn is_whitespace(c: char) -> (r: bool)
    ensures
        r == is_space(c),
{
    let u = c as u32;
    (0x09 <= u && u <= 0x0d) || u == 0x20 || u == 0x85 || u == 0xa0 || u == 0x1680 || (0x2000 <= u
        && u <= 0x200a) || u == 0x2028 || u == 0x2029 || u == 0x202f || u == 0x205f || u == 0x3000
}

/// The position of the first `c` of `v` from `from` on, or the length of `v` if there is none.
pub fn index_of_char(v: &Vec<char>, from: usize, c: char) -> (r: usize)
    requires
        from <= v.len(),
    ensures
        from <= r <= v.len(),
        r - from == until_char(v@.skip(from as int), c),
{
    let mut i: usize = from;
    while i < v.len()
        invariant_except_break
            forall|j: int| from <= j < i ==> v@[j] != c,
        invariant
            from <= i <= v.len(),
        ensures
            forall|j: int| from <= j < i ==> v@[j] != c,
            i < v.len() ==> v@[i as int] == c,
        decreases v.len() - i,
    {
        if v[i] == c {
            break;
        }
        i += 1;
    }
    proof {
        lemma_until_char_is(v@.skip(from as int), c, i - from);
    }
    i
}

/// The words of `s`.
pub fn split_words(s: &str) -> (out: Vec<&str>)
    ensures
        texts(out@) == words(s@),
{
    let v = chars_of(s);
    let mut out: Vec<&str> = Vec::new();
    let mut i: usize = 0;
    assert(s@.skip(0) =~= s@);
    assert(texts(out@) + words(s@) =~= words(s@));
    while i < v.len()
        invariant
            v@ == s@,
            i <= v.len(),
            texts(out@) + words(s@.skip(i as int)) == words(s@),
        decreases v.len() - i,
    {
        let ghost rest = s@.skip(i as int);
        if is_whitespace(v[i]) {
            assert(rest.drop_first() =~= s@.skip(i + 1));
            i += 1;
        } else {
            let start = i;
            while i < v.len() && !is_whitespace(v[i])
                invariant
                    v@ == s@,
                    start <= i <= v.len(),
                    forall|j: int| start <= j < i ==> !is_space(v@[j]),
                decreases v.len() - i,
            {
                i += 1;
            }
            proof {
                lemma_until_space_is(rest, i - start);
            }
            let ghost before = out@;
            out.push(s.substring_char(start, i));
            assert(texts(out@) =~= texts(before).push(s@.subrange(start as int, i as int)));
            if i < v.len() {
                assert(rest.take(i - start) =~= s@.subrange(start as int, i as int));
                assert(rest.skip(i - start + 1) =~= s@.skip(i + 1));
                assert(texts(before) + (seq![rest.take(i - start)] + words(s@.skip(i + 1)))
                    =~= texts(out@) + words(s@.skip(i + 1)));
                i += 1;
            } else {
                assert(rest =~= s@.subrange(start as int, i as int));
                assert(words(s@.skip(i as int)) =~= seq![]);
                assert(texts(before) + seq![rest] =~= texts(out@) + words(s@.skip(i as int)));
            }
        }
    }
    assert(words(s@.skip(i as int)) =~= seq![]);
    assert(texts(out@) + words(s@.skip(i as int)) =~= texts(out@));
    out
}

/// The lines of `s`.
pub fn split_lines(s: &str) -> (out: Vec<&str>)
    ensures
        texts(out@) == lines(s@),
{
    let v = chars_of(s);
    let mut out: Vec<&str> = Vec::new();
    let mut i: usize = 0;
    assert(s@.skip(0) =~= s@);
    assert(texts(out@) + lines(s@) =~= lines(s@));
    while i < v.len()
        invariant
            v@ == s@,
            i <= v.len(),
            texts(out@) + lines(s@.skip(i as int)) == lines(s@),
        decreases v.len() - i,
    {
        let ghost rest = s@.skip(i as int);
        let ghost before = out@;
        let end = index_of_char(&v, i, '\n');
        if end < v.len() {
            let ghost line = rest.take(end - i);
            assert(line =~= s@.subrange(i as int, end as int));
            let stop = if end > i && v[end - 1] == '\r' {
                end - 1
            } else {
                end
            };
            out.push(s.substring_char(i, stop));
            assert(without_cr(line) =~= s@.subrange(i as int, stop as int));
            assert(texts(out@) =~= texts(before).push(without_cr(line)));
            assert(rest.skip(end - i + 1) =~= s@.skip(end + 1));
            assert(texts(before) + (seq![without_cr(line)] + lines(s@.skip(end + 1))) =~= texts(
                out@,
            ) + lines(s@.skip(end + 1)));
            i = end + 1;
        } else {
            out.push(s.substring_char(i, end));
            assert(rest =~= s@.subrange(i as int, end as int));
            assert(texts(out@) =~= texts(before).push(rest));
            assert(lines(s@.skip(end as int)) =~= seq![]);
            assert(texts(before) + seq![rest] =~= texts(out@) + lines(s@.skip(end as int)));
            i = end;
        }
    }
    assert(lines(s@.skip(i as int)) =~= seq![]);
    assert(texts(out@) + lines(s@.skip(i as int)) =~= texts(out@));
    out
}

/// The pieces of `s` between its `c`s.
pub fn split_pieces(s: &str, c: char) -> (out: Vec<&str>)
    ensures
        texts(out@) == pieces(s@, c),
{
    let v = chars_of(s);
    let mut out: Vec<&str> = Vec::new();
    let mut i: usize = 0;
    assert(s@.skip(0) =~= s@);
    assert(texts(out@) + pieces(s@, c) =~= pieces(s@, c));
    loop
        invariant
            v@ == s@,
            i <= v.len(),
            texts(out@) + pieces(s@.skip(i as int), c) == pieces(s@, c),
        decreases v.len() - i,
    {
        let ghost rest = s@.skip(i as int);
        let ghost before = out@;
        let end = index_of_char(&v, i, c);
        out.push(s.substring_char(i, end));
        if end < v.len() {
            assert(rest.take(end - i) =~= s@.subrange(i as int, end as int));
            assert(texts(out@) =~= texts(before).push(rest.take(end - i)));
            assert(rest.skip(end - i + 1) =~= s@.skip(end + 1));
            assert(texts(before) + (seq![rest.take(end - i)] + pieces(s@.skip(end + 1), c))
                =~= texts(out@) + pieces(s@.skip(end + 1), c));
            i = end + 1;
        } else {
            assert(rest =~= s@.subrange(i as int, end as int));
            assert(texts(out@) =~= texts(before).push(rest));
            assert(texts(before) + seq![rest] =~= texts(out@));
            return out;
        }
    }
}

/// What stands before and after the first `c` of `s`.
pub fn split_half(s: &str, c: char) -> (r: Option<(&str, &str)>)
    ensures
        match r {
            Some(p) => halves(s@, c) == Some((p.0@, p.1@)),
            None => halves(s@, c) is None,
        },
{
    let v = chars_of(s);
    let n = index_of_char(&v, 0, c);
    assert(s@.skip(0) =~= s@);
    if n < v.len() {
        let before = s.substring_char(0, n);
        let after = s.substring_char(n + 1, v.len());
        assert(before@ =~= s@.take(n as int));
        assert(after@ =~= s@.skip(n + 1));
        Some((before, after))
    } else {
        None
    }
}

/// `s` without the white space around it.
pub fn trim(s: &str) -> (r: &str)
    ensures
        r@ == trimmed(s@),
{
    let v = chars_of(s);
    let mut from: usize = 0;
    assert(s@.skip(0) =~= s@);
    while from < v.len() && is_whitespace(v[from])
        invariant
            v@ == s@,
            from <= v.len(),
            trimmed_start(s@.skip(from as int)) == trimmed_start(s@),
        decreases v.len() - from,
    {
        assert(s@.skip(from as int).drop_first() =~= s@.skip(from + 1));
        from += 1;
    }
    let ghost start = s@.skip(from as int);
    let mut to: usize = v.len();
    assert(start =~= s@.subrange(from as int, to as int));
    while from < to && is_whitespace(v[to - 1])
        invariant
            v@ == s@,
            from <= to <= v.len(),
            trimmed_end(s@.subrange(from as int, to as int)) == trimmed_end(start),
        decreases to,
    {
        assert(s@.subrange(from as int, to as int).drop_last() =~= s@.subrange(
            from as int,
            to - 1,
        ));
        to -= 1;
    }
    s.substring_char(from, to)
}

/// The first position from `from` on at which no white space stands in `v`, or
/// the length of `v` if there is none.
pub fn skip_space(v: &Vec<char>, from: usize) -> (r: usize)
    requires
        from <= v.len(),
    ensures
        from <= r <= v.len(),
        v@.skip(r as int) == trimmed_start(v@.skip(from as int)),
{
    let mut i: usize = from;
    while i < v.len() && is_whitespace(v[i])
        invariant
            from <= i <= v.len(),
            trimmed_start(v@.skip(i as int)) == trimmed_start(v@.skip(from as int)),
        decreases v.len() - i,
    {
        assert(v@.skip(i as int).drop_first() =~= v@.skip(i + 1));
        i += 1;
    }
    i
}

/// Whether `pat` stands in `v` at position `i`.
pub fn is_at(v: &Vec<char>, pat: &str, i: usize) -> (r: bool)
    requires
        i <= v.len(),
    ensures
        r == stands_at(v@, pat@, i as int),
{
    let p = chars_of(pat);
    if p.len() > v.len() - i {
        return false;
    }
    let mut k: usize = 0;
    while k < p.len()
        invariant
            k <= p.len(),
            p@ == pat@,
            i + p.len() <= v.len(),
            forall|j: int| 0 <= j < k ==> v@[i + j] == p@[j],
        decreases p.len() - k,
    {
        if v[i + k] != p[k] {
            assert(v@.subrange(i as int, i + p@.len())[k as int] != p@[k as int]);
            return false;
        }
        k += 1;
    }
    assert(v@.subrange(i as int, i + p@.len()) =~= p@);
    true
}

/// The first position from `from` on at which `pat` stands in `v`.
pub fn find_from(v: &Vec<char>, pat: &str, from: usize) -> (r: Option<usize>)
    requires
        from <= v.len(),
    ensures
        match r {
            Some(i) => found_from(v@, pat@, from as int) == Some(i as int),
            None => found_from(v@, pat@, from as int) is None,
        },
{
    let mut i: usize = from;
    while i < v.len()
        invariant
            from <= i <= v.len(),
            found_from(v@, pat@, i as int) == found_from(v@, pat@, from as int),
        decreases v.len() - i,
    {
        assert(i + pat@.len() > v.len() ==> found_from(v@, pat@, i + 1) is None);
        if is_at(v, pat, i) {
            return Some(i);
        }
        i += 1;
    }
    assert(found_from(v@, pat@, i + 1) is None);
    if is_at(v, pat, i) {
        Some(i)
    } else {
        None
    }
}

} // verus!
