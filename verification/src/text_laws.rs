//! What holds of the parts of a text, however they are found.

use crate::text;
use vstd::prelude::*;

verus! {

/// Whether no white space stands in `s`.
pub open spec fn has_no_space(s: Seq<char>) -> bool {
    forall|i: int| 0 <= i < s.len() ==> !text::is_space(#[trigger] s[i])
}

/// Whether `s` is white space and nothing else.
pub open spec fn is_all_space(s: Seq<char>) -> bool {
    forall|i: int| 0 <= i < s.len() ==> text::is_space(#[trigger] s[i])
}

/// Whether `c` does not stand in `s`.
pub open spec fn lacks(s: Seq<char>, c: char) -> bool {
    forall|i: int| 0 <= i < s.len() ==> #[trigger] s[i] != c
}

/// White space is the blank and the other spaces of Unicode, the tabs, and
/// whatever ends a line, a paragraph or a page; letters, digits and signs are
/// not.
pub proof fn law_white_space_is_what_shows_as_space(c: char)
    ensures
        text::is_space(c) <==> seq![
            '\t',
            '\n',
            '\u{b}',
            '\u{c}',
            '\r',
            ' ',
            '\u{85}',
            '\u{a0}',
            '\u{1680}',
            '\u{2000}',
            '\u{2001}',
            '\u{2002}',
            '\u{2003}',
            '\u{2004}',
            '\u{2005}',
            '\u{2006}',
            '\u{2007}',
            '\u{2008}',
            '\u{2009}',
            '\u{200a}',
            '\u{2028}',
            '\u{2029}',
            '\u{202f}',
            '\u{205f}',
            '\u{3000}',
        ].contains(c),
        '!' <= c <= '~' ==> !text::is_space(c),
{
    let all = seq![
        '\t',
        '\n',
        '\u{b}',
        '\u{c}',
        '\r',
        ' ',
        '\u{85}',
        '\u{a0}',
        '\u{1680}',
        '\u{2000}',
        '\u{2001}',
        '\u{2002}',
        '\u{2003}',
        '\u{2004}',
        '\u{2005}',
        '\u{2006}',
        '\u{2007}',
        '\u{2008}',
        '\u{2009}',
        '\u{200a}',
        '\u{2028}',
        '\u{2029}',
        '\u{202f}',
        '\u{205f}',
        '\u{3000}',
    ];
    if text::is_space(c) {
        let u = c as u32;
        let i: int = if u <= 0x0d {
            u - 9
        } else if u == 0x20 {
            5
        } else if u == 0x85 {
            6
        } else if u == 0xa0 {
            7
        } else if u == 0x1680 {
            8
        } else if u <= 0x200a {
            u - 0x2000 + 9
        } else if u == 0x2028 {
            20
        } else if u == 0x2029 {
            21
        } else if u == 0x202f {
            22
        } else if u == 0x205f {
            23
        } else {
            24
        };
        assert(all[i] == c);
    }
}

/// A text without white space is one word, and the empty text has none.
pub proof fn law_a_word_is_one_word(w: Seq<char>)
    requires
        has_no_space(w),
    ensures
        w.len() > 0 ==> text::words(w) == seq![w],
        w.len() == 0 ==> text::words(w) == Seq::<Seq<char>>::empty(),
{
    if w.len() > 0 {
        assert(!text::is_space(w[0]));
        text::lemma_until_space_is(w, w.len() as int);
    }
}

/// White space parts words: the words of two texts with white space between
/// them are those of the one and then those of the other.
pub proof fn law_white_space_parts_words(a: Seq<char>, c: char, b: Seq<char>)
    requires
        text::is_space(c),
    ensures
        text::words(a + seq![c] + b) == text::words(a) + text::words(b),
    decreases a.len(),
{
    let s = a + seq![c] + b;
    if a.len() == 0 {
        assert(s.drop_first() =~= b);
        assert(text::words(s) =~= text::words(a) + text::words(b));
    } else if text::is_space(a[0]) {
        assert(s.drop_first() =~= a.drop_first() + seq![c] + b);
        law_white_space_parts_words(a.drop_first(), c, b);
    } else {
        text::lemma_until_space(a);
        let n = text::until_space(a) as int;
        assert forall|i: int| 0 <= i < n implies !text::is_space(#[trigger] s[i]) by {
            assert(s[i] == a[i]);
        }
        text::lemma_until_space_is(s, n);
        assert(s.take(n) =~= a.take(n));
        if n >= a.len() {
            assert(a.take(n) =~= a);
            assert(s.skip(n + 1) =~= b);
            assert(text::words(s) =~= text::words(a) + text::words(b));
        } else {
            let rest = a.skip(n + 1);
            assert(s.skip(n + 1) =~= rest + seq![c] + b);
            law_white_space_parts_words(rest, c, b);
            assert(text::words(s) =~= text::words(a) + text::words(b));
        }
    }
}

/// A line end parts lines: the line before it, without a carriage return at
/// its end, is the first, and the lines of what follows are the others. A text
/// without a line end is one line, and the empty text has none.
pub proof fn law_line_ends_part_lines(line: Seq<char>, rest: Seq<char>)
    requires
        lacks(line, '\n'),
    ensures
        text::lines(line + seq!['\n'] + rest) == seq![
            if line.len() > 0 && line.last() == '\r' {
                line.drop_last()
            } else {
                line
            },
        ] + text::lines(rest),
        line.len() > 0 ==> text::lines(line) == seq![line],
        text::lines(seq![]) == Seq::<Seq<char>>::empty(),
{
    let s = line + seq!['\n'] + rest;
    let n = line.len() as int;
    assert forall|i: int| 0 <= i < n implies s[i] != '\n' by {
        assert(s[i] == line[i]);
    }
    text::lemma_until_char_is(s, '\n', n);
    text::lemma_until_char_is(line, '\n', n);
    assert(s.take(n) =~= line);
    assert(s.skip(n + 1) =~= rest);
}

/// The pieces of a text are what stands before, between and after its `c`s.
pub proof fn law_separators_part_pieces(piece: Seq<char>, c: char, rest: Seq<char>)
    requires
        lacks(piece, c),
    ensures
        text::pieces(piece + seq![c] + rest, c) == seq![piece] + text::pieces(rest, c),
        text::pieces(piece, c) == seq![piece],
        text::halves(piece + seq![c] + rest, c) == Some((piece, rest)),
        text::halves(piece, c) is None,
{
    let s = piece + seq![c] + rest;
    let n = piece.len() as int;
    assert forall|i: int| 0 <= i < n implies s[i] != c by {
        assert(s[i] == piece[i]);
    }
    text::lemma_until_char_is(s, c, n);
    text::lemma_until_char_is(piece, c, n);
    assert(s.take(n) =~= piece);
    assert(s.skip(n + 1) =~= rest);
}

/// White space before a text that begins with none is trimmed.
pub proof fn lemma_trimmed_start(space: Seq<char>, s: Seq<char>)
    requires
        is_all_space(space),
        s.len() == 0 || !text::is_space(s[0]),
    ensures
        text::trimmed_start(space + s) == s,
    decreases space.len(),
{
    let t = space + s;
    if space.len() > 0 {
        assert(text::is_space(space[0]));
        assert(t.drop_first() =~= space.drop_first() + s);
        assert forall|i: int| 0 <= i < space.drop_first().len() implies text::is_space(
            #[trigger] space.drop_first()[i],
        ) by {
            assert(text::is_space(space[i + 1]));
        }
        lemma_trimmed_start(space.drop_first(), s);
    } else {
        assert(t =~= s);
    }
}

proof fn lemma_trimmed_end(s: Seq<char>, space: Seq<char>)
    requires
        is_all_space(space),
        s.len() == 0 || !text::is_space(s.last()),
    ensures
        text::trimmed_end(s + space) == s,
    decreases space.len(),
{
    let t = s + space;
    if space.len() > 0 {
        assert(text::is_space(space[space.len() - 1]));
        assert(t.drop_last() =~= s + space.drop_last());
        assert forall|i: int| 0 <= i < space.drop_last().len() implies text::is_space(
            #[trigger] space.drop_last()[i],
        ) by {
            assert(text::is_space(space[i]));
        }
        lemma_trimmed_end(s, space.drop_last());
    } else {
        assert(t =~= s);
    }
}

/// What is left of a text when it is trimmed is the text without the white
/// space before and after it.
pub proof fn law_white_space_around_is_trimmed(before: Seq<char>, s: Seq<char>, after: Seq<char>)
    requires
        is_all_space(before),
        is_all_space(after),
        s.len() > 0 ==> !text::is_space(s[0]) && !text::is_space(s.last()),
    ensures
        text::trimmed(before + s + after) == s,
{
    if s.len() > 0 {
        assert((s + after)[0] == s[0]);
        lemma_trimmed_start(before, s + after);
        assert(before + s + after =~= before + (s + after));
        lemma_trimmed_end(s, after);
    } else {
        let all = before + s + after;
        assert forall|i: int| 0 <= i < all.len() implies text::is_space(#[trigger] all[i]) by {
            if i < before.len() {
                assert(text::is_space(before[i]));
            } else {
                assert(text::is_space(after[i - before.len()]));
            }
        }
        lemma_trimmed_start(all, s);
        assert(all + s =~= all);
        lemma_trimmed_end(s, Seq::empty());
        assert(s + Seq::<char>::empty() =~= s);
    }
}

/// A pattern stands where it parts a text into what is before and what is
/// after it, and is found at the first such place from a position on.
pub proof fn law_patterns_are_found_where_they_stand(
    before: Seq<char>,
    pat: Seq<char>,
    after: Seq<char>,
    i: int,
)
    requires
        0 <= i <= before.len(),
    ensures
        text::stands_at(before + pat + after, pat, before.len() as int),
        match text::found_from(before + pat + after, pat, i) {
            Some(k) => {
                &&& i <= k <= before.len()
                &&& (before + pat + after).subrange(k, k + pat.len()) == pat
                &&& forall|j: int|
                    i <= j < k ==> #[trigger] (before + pat + after).subrange(j, j + pat.len())
                        != pat
            },
            None => false,
        },
{
    let s = before + pat + after;
    let n = before.len() as int;
    assert(s.subrange(n, n + pat.len()) =~= pat);
    assert(text::stands_at(s, pat, n));
    text::lemma_found_from(s, pat, i);
    if let Some(k) = text::found_from(s, pat, i) {
        assert forall|j: int| i <= j < k implies #[trigger] s.subrange(j, j + pat.len()) != pat by {
            assert(!text::stands_at(s, pat, j));
        }
    }
}

} // verus!
