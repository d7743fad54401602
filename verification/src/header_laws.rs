//! What the header of a `.npy` file says, however it is written down.

use crate::dataset::{self, FormatError};
use crate::dataset_laws;
use crate::number;
use crate::text;
use crate::text_laws;
use vstd::prelude::*;
use vstd::string::*;

verus! {

/// A header around one of its entries: what stands before the entry, its key
/// with the colon, its value, and what stands after the value.
pub struct Entry {
    pub before: Seq<char>,
    pub key: Seq<char>,
    pub value: Seq<char>,
    pub after: Seq<char>,
}

/// Whether `word` stands nowhere in `s`.
pub open spec fn lacks_word(s: Seq<char>, word: Seq<char>) -> bool {
    forall|i: int| !#[trigger] text::stands_at(s, word, i)
}

/// The key `name` between two `q`, and a colon between `left` and `right`.
pub open spec fn key_text(q: char, name: Seq<char>, left: Seq<char>, right: Seq<char>) -> Seq<
    char,
> {
    seq![q] + name + seq![q] + left + seq![':'] + right
}

/// Whether `key` is `name` in single or double quotes, with a colon that may
/// have white space around it.
pub open spec fn is_key(key: Seq<char>, name: Seq<char>) -> bool {
    exists|q: char, left: Seq<char>, right: Seq<char>|
        (q == '\'' || q == '"') && text_laws::is_all_space(left) && text_laws::is_all_space(right)
            && key == #[trigger] key_text(q, name, left, right)
}

/// Whether `e` is the one entry for `name` in the header `h`, with five
/// characters for its value.
pub open spec fn is_entry(h: Seq<char>, name: Seq<char>, e: Entry) -> bool {
    &&& h == e.before + (e.key + (e.value + e.after))
    &&& is_key(e.key, name)
    &&& e.value.len() == 5
    &&& !text::is_space(e.value[0])
    &&& lacks_word(e.before, name)
    &&& lacks_word(e.value + e.after, name)
}

/// Whether the first that stands in `s`, but for white space, is a comma or a
/// closing brace, if anything does.
pub open spec fn ends_value(s: Seq<char>) -> bool {
    forall|i: int|
        0 <= i < s.len() && text_laws::is_all_space(s.take(i)) && !text::is_space(#[trigger] s[i])
            ==> s[i] == ',' || s[i] == '}'
}

/// Whether an entry has the value `<f4`, in single or double quotes.
pub open spec fn is_f4(e: Entry) -> bool {
    (e.value == "'<f4'"@ || e.value == "\"<f4\""@) && ends_value(e.after)
}

/// Whether the header `h` has the entry `e`, which says that its items are
/// little-endian float32.
pub open spec fn has_f4(h: Seq<char>, e: Entry) -> bool {
    is_entry(h, "descr"@, e) && is_f4(e)
}

/// Whether the header `h` says nothing of the order of its items, or has the
/// entry `e`, which says that they are in C order.
pub open spec fn has_c_order(h: Seq<char>, e: Entry) -> bool {
    lacks_word(h, "fortran_order"@) || (is_entry(h, "fortran_order"@, e) && e.value == "False"@)
}

proof fn lemma_trimmed_start_is(s: Seq<char>) -> (i: int)
    ensures
        0 <= i <= s.len(),
        text_laws::is_all_space(s.take(i)),
        i < s.len() ==> !text::is_space(s[i]),
        text::trimmed_start(s) == s.skip(i),
    decreases s.len(),
{
    if s.len() > 0 && text::is_space(s[0]) {
        let t = s.drop_first();
        let i = lemma_trimmed_start_is(t);
        assert forall|j: int| 0 <= j < s.take(i + 1).len() implies text::is_space(
            #[trigger] s.take(i + 1)[j],
        ) by {
            if j > 0 {
                assert(text::is_space(t.take(i)[j - 1]));
            }
        }
        assert(t.skip(i) =~= s.skip(i + 1));
        i + 1
    } else {
        assert(s.skip(0) =~= s);
        0
    }
}

proof fn lemma_value_after(
    before: Seq<char>,
    q: char,
    name: Seq<char>,
    left: Seq<char>,
    right: Seq<char>,
    v: Seq<char>,
)
    requires
        q == '\'' || q == '"',
        text_laws::is_all_space(left),
        text_laws::is_all_space(right),
        v.len() > 0,
        !text::is_space(v[0]),
    ensures
        dataset::value_after(before + (key_text(q, name, left, right) + v), name, before.len() as int)
            == Some(v),
{
    let h = before + (key_text(q, name, left, right) + v);
    let n = before.len() as int;
    reveal_strlit("'");
    reveal_strlit("\"");
    let quoted = seq![q] + name + seq![q];
    assert("'"@ =~= seq!['\'']);
    assert("\""@ =~= seq!['"']);
    assert(h.subrange(n, n + name.len() + 2) =~= quoted);
    assert(text::stands_at(h, quoted, n));
    let colon = seq![':'] + (right + v);
    assert(h.skip(n + name.len() + 2) =~= left + colon);
    text_laws::lemma_trimmed_start(left, colon);
    assert(colon.drop_first() =~= right + v);
    text_laws::lemma_trimmed_start(right, v);
}

proof fn lemma_only_there(before: Seq<char>, q: char, name: Seq<char>, rest: Seq<char>)
    requires
        name.len() > 0,
        text_laws::lacks(name, q),
        lacks_word(before, name),
        lacks_word(rest, name),
    ensures
        forall|j: int| #[trigger]
            text::stands_at(before + (seq![q] + name + seq![q] + rest), name, j) ==> j
                == before.len() + 1,
{
    let h = before + (seq![q] + name + seq![q] + rest);
    let a = before.len() as int;
    let n = name.len() as int;
    let p = a + 1 + n;
    assert(h[a] == q && h[p] == q);
    assert forall|j: int| #[trigger] text::stands_at(h, name, j) implies j == a + 1 by {
        let t = h.subrange(j, j + n);
        if j + n <= a {
            assert(before.subrange(j, j + n) =~= t);
            assert(text::stands_at(before, name, j));
        } else if j <= a {
            assert(t[a - j] == h[a]);
            assert(name[a - j] == q);
        } else if a + 1 < j <= p {
            assert(t[p - j] == h[p]);
            assert(name[p - j] == q);
        } else if j > p {
            let k = j - p - 1;
            assert(rest.subrange(k, k + n) =~= t);
            assert(text::stands_at(rest, name, k));
        }
    }
}

proof fn lemma_not_before(m: Seq<char>, s: Seq<char>, name: Seq<char>)
    requires
        name.len() > 0,
        text_laws::lacks(m, name[0]),
        lacks_word(s, name),
    ensures
        lacks_word(m + s, name),
{
    let h = m + s;
    let n = name.len() as int;
    assert forall|j: int| !#[trigger] text::stands_at(h, name, j) by {
        if text::stands_at(h, name, j) {
            let t = h.subrange(j, j + n);
            assert(t[0] == h[j]);
            if j < m.len() {
                assert(h[j] == m[j]);
            } else {
                let k = j - m.len();
                assert(s.subrange(k, k + n) =~= t);
                assert(text::stands_at(s, name, k));
            }
        }
    }
}

/// The value of the one entry for a key is what follows its colon, and there
/// is no other.
proof fn lemma_entry(h: Seq<char>, name: Seq<char>, e: Entry)
    requires
        is_entry(h, name, e),
        name.len() > 0,
        text_laws::lacks(name, '\''),
        text_laws::lacks(name, '"'),
        name[0] != ':',
        !text::is_space(name[0]),
    ensures
        dataset::value_after(h, name, e.before.len() as int) == Some(e.value + e.after),
        forall|i: int| #[trigger]
            dataset::value_after(h, name, i) is Some ==> i == e.before.len(),
{
    let (q, left, right) = choose|q: char, left: Seq<char>, right: Seq<char>|
        (q == '\'' || q == '"') && text_laws::is_all_space(left) && text_laws::is_all_space(right)
            && e.key == #[trigger] key_text(q, name, left, right);
    let v = e.value + e.after;
    assert(v[0] == e.value[0]);
    lemma_value_after(e.before, q, name, left, right, v);
    let m = left + seq![':'] + right;
    assert forall|i: int| 0 <= i < m.len() implies #[trigger] m[i] != name[0] by {
        if i < left.len() {
            assert(text::is_space(left[i]));
        } else if i > left.len() {
            assert(text::is_space(right[i - left.len() - 1]));
        }
    }
    lemma_not_before(m, v, name);
    lemma_only_there(e.before, q, name, m + v);
    assert(h =~= e.before + (seq![q] + name + seq![q] + (m + v)));
    assert forall|i: int| #[trigger] dataset::value_after(h, name, i) is Some implies i
        == e.before.len() by {
        lemma_quoted(h, name, i);
        assert(text::stands_at(h, name, i + 1));
    }
}

proof fn lemma_quoted(h: Seq<char>, name: Seq<char>, i: int)
    requires
        dataset::value_after(h, name, i) is Some,
    ensures
        text::stands_at(h, name, i + 1),
{
    reveal_strlit("'");
    reveal_strlit("\"");
    let t = h.subrange(i, i + name.len() + 2);
    let single = "'"@ + name + "'"@;
    let double = "\""@ + name + "\""@;
    assert(single.subrange(1, name.len() as int + 1) =~= name);
    assert(double.subrange(1, name.len() as int + 1) =~= name);
    assert(h.subrange(i + 1, i + 1 + name.len()) =~= t.subrange(1, name.len() as int + 1));
}

proof fn lemma_f4(e: Entry)
    requires
        e.value.len() == 5,
    ensures
        dataset::begins_with_f4(e.value + e.after) == is_f4(e),
{
    let v = e.value + e.after;
    reveal_strlit("'");
    reveal_strlit("\"");
    reveal_strlit("<f4");
    reveal_strlit("'<f4'");
    reveal_strlit("\"<f4\"");
    assert("'"@ + "<f4"@ + "'"@ =~= "'<f4'"@);
    assert("\""@ + "<f4"@ + "\""@ =~= "\"<f4\""@);
    assert(v.subrange(0, 5) =~= e.value);
    assert(v.skip(5) =~= e.after);
    let i = lemma_trimmed_start_is(e.after);
    let rest = e.after.skip(i);
    if i < e.after.len() {
        assert(rest[0] == e.after[i]);
        assert forall|j: int|
            0 <= j < e.after.len() && text_laws::is_all_space(e.after.take(j)) && !text::is_space(
                #[trigger] e.after[j],
            ) implies j == i by {
            if j < i {
                assert(text::is_space(e.after.take(i)[j]));
            } else if j > i {
                assert(text::is_space(e.after.take(j)[i]));
            }
        }
    } else {
        assert forall|j: int| 0 <= j < e.after.len() implies text::is_space(
            #[trigger] e.after[j],
        ) by {
            assert(text::is_space(e.after.take(i)[j]));
        }
    }
}

proof fn lemma_float32(h: Seq<char>, e: Entry)
    requires
        is_entry(h, "descr"@, e),
    ensures
        dataset::is_float32(h) == is_f4(e),
{
    reveal_strlit("descr");
    lemma_entry(h, "descr"@, e);
    lemma_f4(e);
}

proof fn lemma_c_order(h: Seq<char>, e: Entry)
    ensures
        is_entry(h, "fortran_order"@, e) ==> dataset::is_c_order(h) == (e.value == "False"@),
        lacks_word(h, "fortran_order"@) ==> dataset::is_c_order(h),
{
    reveal_strlit("fortran_order");
    reveal_strlit("False");
    if is_entry(h, "fortran_order"@, e) {
        lemma_entry(h, "fortran_order"@, e);
        assert((e.value + e.after).subrange(0, 5) =~= e.value);
    }
    if lacks_word(h, "fortran_order"@) {
        assert forall|i: int| #[trigger] dataset::value_after(h, "fortran_order"@, i) is None by {
            if dataset::value_after(h, "fortran_order"@, i) is Some {
                lemma_quoted(h, "fortran_order"@, i);
            }
        }
    }
}

/// What a header says of its items decides first: it is refused for them
/// exactly if the value of `descr` is not `<f4`, in whichever quotes, or if
/// nothing is said of them.
pub proof fn law_items_are_told_by_their_entry(h: Seq<char>, e: Entry)
    ensures
        is_entry(h, "descr"@, e) ==> (dataset::npy_shape(h) == Err::<(nat, nat), FormatError>(
            FormatError::NotFloat32,
        ) <==> !is_f4(e)),
        lacks_word(h, "descr"@) ==> dataset::npy_shape(h) == Err::<(nat, nat), FormatError>(
            FormatError::NotFloat32,
        ),
{
    if is_entry(h, "descr"@, e) {
        lemma_float32(h, e);
    }
    if lacks_word(h, "descr"@) {
        assert forall|i: int| #[trigger] dataset::value_after(h, "descr"@, i) is None by {
            if dataset::value_after(h, "descr"@, i) is Some {
                lemma_quoted(h, "descr"@, i);
            }
        }
    }
}

/// What a header of float32 items says of their order decides next: it is
/// refused for it exactly if the value of `fortran_order` is not `False`.
pub proof fn law_order_is_told_by_its_entry(h: Seq<char>, items: Entry, e: Entry)
    requires
        has_f4(h, items),
        is_entry(h, "fortran_order"@, e),
    ensures
        dataset::npy_shape(h) == Err::<(nat, nat), FormatError>(FormatError::FortranOrder)
            <==> e.value != "False"@,
{
    lemma_float32(h, items);
    lemma_c_order(h, e);
}

proof fn lemma_shape_key_not_before(before: Seq<char>, rest: Seq<char>, j: int)
    requires
        lacks_word(before, "'shape':"@),
        0 <= j < before.len(),
    ensures
        !text::stands_at(before + ("'shape':"@ + rest), "'shape':"@, j),
{
    let key = "'shape':"@;
    let h = before + (key + rest);
    let a = before.len() as int;
    reveal_strlit("'shape':");
    if text::stands_at(h, key, j) {
        let t = h.subrange(j, j + 8);
        if j + 8 <= a {
            assert(before.subrange(j, j + 8) =~= t);
            assert(text::stands_at(before, key, j));
        } else {
            let k = a - j;
            assert(key[k] == '\'') by {
                assert(t[k] == h[a]);
                assert(h[a] == key[0]);
            }
            assert(k == 6);
            assert(t[7] == h[a + 1]);
            assert(h[a + 1] == key[1]);
        }
    }
}

proof fn lemma_shape_key(before: Seq<char>, rest: Seq<char>)
    requires
        lacks_word(before, "'shape':"@),
    ensures
        text::found_from(before + ("'shape':"@ + rest), "'shape':"@, 0) == Some(
            before.len() as int,
        ),
{
    let key = "'shape':"@;
    let h = before + (key + rest);
    let a = before.len() as int;
    assert(h.subrange(a, a + key.len()) =~= key);
    assert(text::stands_at(h, key, a));
    text::lemma_found_from(h, key, 0);
    assert forall|j: int| 0 <= j < a implies !#[trigger] text::stands_at(h, key, j) by {
        lemma_shape_key_not_before(before, rest, j);
    }
}

/// A header whose items and order are accepted has to say what their shape is:
/// it is refused if it does not, and if what follows `'shape':` is not in
/// parentheses.
pub proof fn law_shapes_are_tuples(
    h: Seq<char>,
    items: Entry,
    order: Entry,
    before: Seq<char>,
    space: Seq<char>,
    rest: Seq<char>,
)
    requires
        has_f4(h, items),
        has_c_order(h, order),
    ensures
        lacks_word(h, "'shape':"@) ==> dataset::npy_shape(h) == Err::<(nat, nat), FormatError>(
            FormatError::NoNpyShape,
        ),
        h == before + ("'shape':"@ + (space + rest)) && lacks_word(before, "'shape':"@)
            && text_laws::is_all_space(space) && (rest.len() == 0 || (!text::is_space(rest[0]) && (
        rest[0] != '(' || text_laws::lacks(rest, ')')))) ==> dataset::npy_shape(h) == Err::<
            (nat, nat),
            FormatError,
        >(FormatError::MalformedNpyShape),
{
    lemma_float32(h, items);
    lemma_c_order(h, order);
    if lacks_word(h, "'shape':"@) {
        text::lemma_found_from(h, "'shape':"@, 0);
    }
    if h == before + ("'shape':"@ + (space + rest)) && lacks_word(before, "'shape':"@)
        && text_laws::is_all_space(space) && (rest.len() == 0 || (!text::is_space(rest[0]) && (
    rest[0] != '(' || text_laws::lacks(rest, ')')))) {
        lemma_shape_key(before, space + rest);
        assert(h.skip(before.len() + "'shape':"@.len() as int) =~= space + rest);
        text_laws::lemma_trimmed_start(space, rest);
        if text_laws::lacks(rest, ')') {
            text::lemma_until_char_is(rest, ')', rest.len() as int);
        }
    }
}

/// A shape of two fields is read as the two numbers that they write, with or
/// without white space around them and a comma after the second; if one of
/// them writes none, and if there is only one field, the header is refused.
#[verifier::rlimit(40)]
pub proof fn law_shapes_are_two_numbers(
    h: Seq<char>,
    items: Entry,
    order: Entry,
    before: Seq<char>,
    space: Seq<char>,
    first: Seq<char>,
    second: Seq<char>,
    last: Seq<char>,
    after: Seq<char>,
)
    requires
        has_f4(h, items),
        has_c_order(h, order),
        lacks_word(before, "'shape':"@),
        text_laws::is_all_space(space),
        text_laws::is_all_space(last),
        text_laws::lacks(first, ',') && text_laws::lacks(first, ')'),
        text_laws::lacks(second, ',') && text_laws::lacks(second, ')'),
    ensures
        text::trimmed(second).len() > 0 && (h == before + ("'shape':"@ + (space + (seq!['('] + (first
            + seq![','] + second) + seq![')'] + after))) || h == before + ("'shape':"@ + (space + (
        seq!['('] + (first + seq![','] + second + seq![','] + last) + seq![')'] + after))))
            ==> dataset::npy_shape(h) == (match (
            number::uint_of(text::trimmed(first), usize::MAX as nat),
            number::uint_of(text::trimmed(second), usize::MAX as nat),
        ) {
            (Some(n), Some(dim)) => Ok::<(nat, nat), FormatError>((n, dim)),
            _ => Err::<(nat, nat), FormatError>(FormatError::NotTwoDimensional),
        }),
        h == before + ("'shape':"@ + (space + (seq!['('] + first + seq![')'] + after)))
            ==> dataset::npy_shape(h) == Err::<(nat, nat), FormatError>(
            FormatError::NotTwoDimensional,
        ),
{
    lemma_float32(h, items);
    lemma_c_order(h, order);
    let two = first + seq![','] + second;
    let more = two + seq![','] + last;
    text_laws::law_separators_part_pieces(first, ',', second);
    text_laws::law_separators_part_pieces(second, ',', Seq::empty());
    assert forall|i: int| 0 <= i < last.len() implies #[trigger] last[i] != ',' && last[i] != ')' by {
        assert(text::is_space(last[i]));
    }
    dataset_laws::lemma_pieces_push(two, ',', last);
    let fields = seq![first] + seq![second];
    assert(fields.last() == second);
    assert(text::pieces(two, ',') == fields);
    text_laws::law_white_space_around_is_trimmed(last, Seq::empty(), Seq::empty());
    assert(last + Seq::<char>::empty() + Seq::<char>::empty() =~= last);
    assert(fields.push(last).drop_last() =~= fields);
    assert(fields.push(last).last() == last);
    assert(text_laws::lacks(two, ')'));
    assert(text_laws::lacks(more, ')'));
    if h == before + ("'shape':"@ + (space + (seq!['('] + first + seq![')'] + after))) {
        lemma_shape_tuple(before, space, first, after);
        dataset_laws::lemma_dims_of_len(seq![first]);
    }
    if text::trimmed(second).len() > 0 && (h == before + ("'shape':"@ + (space + (seq!['('] + two
        + seq![')'] + after))) || h == before + ("'shape':"@ + (space + (seq!['('] + more + seq![
        ')',
    ] + after)))) {
        if h == before + ("'shape':"@ + (space + (seq!['('] + two + seq![')'] + after))) {
            lemma_shape_tuple(before, space, two, after);
        } else {
            lemma_shape_tuple(before, space, more, after);
        }
        assert(dataset::tuple_fields(dataset::shape_tuple(h)->Ok_0) == fields);
        dataset_laws::lemma_dims_of_len(fields);
        let a = number::uint_of(text::trimmed(first), usize::MAX as nat);
        let b = number::uint_of(text::trimmed(second), usize::MAX as nat);
        assert(fields[0] == first && fields[1] == second);
        if a is Some && b is Some {
            dataset_laws::law_only_two_dimensional_float32(h, a->0, b->0);
        } else if dataset::npy_shape(h) is Ok {
            let shape = dataset::npy_shape(h)->Ok_0;
            dataset_laws::law_only_two_dimensional_float32(h, shape.0, shape.1);
        }
    }
}

proof fn lemma_shape_tuple(
    before: Seq<char>,
    space: Seq<char>,
    inner: Seq<char>,
    after: Seq<char>,
)
    requires
        lacks_word(before, "'shape':"@),
        text_laws::is_all_space(space),
        text_laws::lacks(inner, ')'),
    ensures
        dataset::shape_tuple(
            before + ("'shape':"@ + (space + (seq!['('] + inner + seq![')'] + after))),
        ) == Ok::<Seq<char>, FormatError>(inner),
{
    let value = seq!['('] + inner + seq![')'] + after;
    let h = before + ("'shape':"@ + (space + value));
    lemma_shape_key(before, space + value);
    assert(h.skip(before.len() + "'shape':"@.len() as int) =~= space + value);
    text_laws::lemma_trimmed_start(space, value);
    let close = inner.len() as int + 1;
    assert forall|i: int| 0 <= i < close implies value[i] != ')' by {
        if i > 0 {
            assert(value[i] == inner[i - 1]);
        }
    }
    text::lemma_until_char_is(value, ')', close);
    assert(value.subrange(1, close) =~= inner);
}

} // verus!
