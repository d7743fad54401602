//! What holds of reading datasets as a whole.

use crate::dataset::{self, DatasetError, Format, FormatError};
use crate::encoding;
use crate::number;
use crate::text;
use crate::text_laws;
use vstd::prelude::*;
use vstd::string::*;
use vstd::utf8;

verus! {

/// The first `k` bytes of `b`, or all of it if it is shorter.
pub open spec fn first_bytes(b: Seq<u8>, k: nat) -> Seq<u8> {
    if k <= b.len() {
        b.take(k as int)
    } else {
        b
    }
}

/// A file's header is found without its vectors: what `header_span` says of
/// the first ten bytes either fails as reading the header of the whole file
/// does, or tells how many bytes give the same header as the whole file, and
/// where the vectors begin.
pub proof fn law_header_needs_no_payload(format: Format, b: Seq<u8>)
    ensures
        match dataset::span_of(format, first_bytes(b, 10)) {
            Err(e) => dataset::header_of(format, b) == Err::<(nat, nat, nat), FormatError>(e),
            Ok(k) => dataset::header_of(format, first_bytes(b, k)) == dataset::header_of(format, b),
        },
        dataset::header_of(format, b) matches Ok(h) ==> dataset::span_of(format, first_bytes(b, 10))
            == Ok::<nat, FormatError>(h.0),
{
    let p = first_bytes(b, 10);
    match format {
        Format::Npy => {
            if b.len() >= 10 {
                assert(p.take(6) =~= b.take(6));
                assert(encoding::le16(p, 8) == encoding::le16(b, 8));
                assert(dataset::npy_span(p) == dataset::npy_span(b));
                match dataset::npy_span(b) {
                    Ok(k) => {
                        let q = first_bytes(b, k);
                        assert(q.take(6) =~= b.take(6));
                        assert(encoding::le16(q, 8) == encoding::le16(b, 8));
                        if k <= b.len() {
                            assert(q.subrange(10, k as int) =~= b.subrange(10, k as int));
                        }
                    },
                    Err(e) => {},
                }
            }
        },
        Format::Fbin => {
            if b.len() >= 8 {
                let q = first_bytes(b, 8);
                assert(encoding::le32(q, 0) == encoding::le32(b, 0));
                assert(encoding::le32(q, 4) == encoding::le32(b, 4));
            }
        },
    }
}

/// The vectors of a file are those that its header announces: there are
/// `n * dim` components, and they stand in the file from the byte offset on.
pub proof fn law_vectors_are_what_the_header_says(format: Format, b: Seq<u8>)
    ensures
        match dataset::vectors_of(format, b) {
            Ok(v) => match dataset::header_of(format, b) {
                Ok(h) => {
                    &&& v.1 == h.1
                    &&& v.2 == h.2
                    &&& v.0.len() == v.1 * v.2
                    &&& h.0 + 4 * v.0.len() <= b.len()
                    &&& forall|i: int|
                        0 <= i < v.0.len() ==> (#[trigger] v.0[i]) as nat == encoding::le32(
                            b,
                            h.0 + 4 * i,
                        )
                },
                Err(e) => false,
            },
            Err(e) => true,
        },
{
}

/// Bytes after the last vector of a file do not matter.
pub proof fn law_trailing_bytes_do_not_matter(format: Format, b: Seq<u8>, tail: Seq<u8>)
    requires
        dataset::vectors_of(format, b) is Ok,
    ensures
        dataset::vectors_of(format, b + tail) == dataset::vectors_of(format, b),
{
    let c = b + tail;
    if format == Format::Npy {
        assert(c.take(6) =~= b.take(6));
        assert(encoding::le16(c, 8) == encoding::le16(b, 8));
        let span = dataset::npy_span(b)->Ok_0;
        assert(c.subrange(10, span as int) =~= b.subrange(10, span as int));
    } else {
        assert(encoding::le32(c, 0) == encoding::le32(b, 0));
        assert(encoding::le32(c, 4) == encoding::le32(b, 4));
    }
    let h = dataset::header_of(format, b)->Ok_0;
    assert(dataset::header_of(format, c) == dataset::header_of(format, b));
    assert(dataset::components(c, h.0, h.1 * h.2) =~= dataset::components(b, h.0, h.1 * h.2));
}

pub proof fn lemma_dims_of_len(fields: Seq<Seq<char>>)
    ensures
        dataset::dims_of(fields) matches Some(dims) ==> dims.len() == fields.len(),
    decreases fields.len(),
{
    if fields.len() > 0 {
        lemma_dims_of_len(fields.drop_last());
    }
}

/// Nothing but a two-dimensional array of little-endian float32 in C order is
/// accepted: a header gives the shape `(n, dim)` exactly where it says so of
/// the items and of their order, and where its shape has two fields, which
/// write `n` and `dim`.
pub proof fn law_only_two_dimensional_float32(h: Seq<char>, n: nat, dim: nat)
    ensures
        dataset::npy_shape(h) == Ok::<(nat, nat), FormatError>((n, dim)) <==> {
            &&& dataset::is_float32(h)
            &&& dataset::is_c_order(h)
            &&& dataset::shape_tuple(h) is Ok
            &&& {
                let fields = dataset::tuple_fields(dataset::shape_tuple(h)->Ok_0);
                &&& fields.len() == 2
                &&& number::uint_of(text::trimmed(fields[0]), usize::MAX as nat) == Some(n)
                &&& number::uint_of(text::trimmed(fields[1]), usize::MAX as nat) == Some(dim)
            }
        },
{
    if dataset::shape_tuple(h) is Ok {
        let fields = dataset::tuple_fields(dataset::shape_tuple(h)->Ok_0);
        lemma_dims_of_len(fields);
        if fields.len() == 2 {
            let first = fields.drop_last();
            assert(first.drop_last() =~= seq![]);
            assert(dataset::dims_of(first.drop_last()) == Some(Seq::<nat>::empty()));
            assert(first.last() == fields[0]);
            assert(fields.last() == fields[1]);
            let a = number::uint_of(text::trimmed(fields[0]), usize::MAX as nat);
            let b = number::uint_of(text::trimmed(fields[1]), usize::MAX as nat);
            if a is Some {
                assert(dataset::dims_of(first) == Some(Seq::<nat>::empty().push(a->0)));
                if b is Some {
                    let dims = Seq::<nat>::empty().push(a->0).push(b->0);
                    assert(dataset::dims_of(fields) == Some(dims));
                    assert(dims[0] == a->0 && dims[1] == b->0);
                }
            }
        }
    }
}

/// The bytes of vector components, one after the other.
pub open spec fn component_bytes(data: Seq<u32>) -> Seq<u8>
    decreases data.len(),
{
    if data.len() == 0 {
        seq![]
    } else {
        component_bytes(data.drop_last()) + encoding::le32_bytes(data.last() as nat)
    }
}

/// A `.fbin` file of `n` vectors of `dim` components.
pub open spec fn fbin_file(n: nat, dim: nat, data: Seq<u32>) -> Seq<u8> {
    encoding::le32_bytes(n) + encoding::le32_bytes(dim) + component_bytes(data)
}

/// The text of the header of a `.npy` file of `n` vectors of `dim` components,
/// followed by `pad` spaces and a line end.
pub open spec fn npy_header_text(n: nat, dim: nat, pad: nat) -> Seq<char> {
    "{'descr': '<f4', 'fortran_order': False, 'shape': ("@ + number::decimal(n) + ", "@
        + number::decimal(dim) + "), }"@ + Seq::new(pad, |i: int| ' ') + "\n"@
}

/// A `.npy` file of `n` vectors of `dim` components.
pub open spec fn npy_file(n: nat, dim: nat, pad: nat, data: Seq<u32>) -> Seq<u8> {
    let header = utf8::encode_utf8(npy_header_text(n, dim, pad));
    dataset::npy_magic() + seq![1u8, 0u8] + encoding::le16_bytes(header.len()) + header
        + component_bytes(data)
}

proof fn lemma_component_bytes_len(data: Seq<u32>)
    ensures
        component_bytes(data).len() == 4 * data.len(),
    decreases data.len(),
{
    if data.len() > 0 {
        lemma_component_bytes_len(data.drop_last());
    }
}

proof fn lemma_components_read_back(before: Seq<u8>, data: Seq<u32>)
    ensures
        dataset::components(before + component_bytes(data), before.len(), data.len()) == data,
    decreases data.len(),
{
    let b = before + component_bytes(data);
    let got = dataset::components(b, before.len(), data.len());
    if data.len() > 0 {
        let shorter = data.drop_last();
        let c = before + component_bytes(shorter);
        lemma_components_read_back(before, shorter);
        lemma_component_bytes_len(shorter);
        lemma_component_bytes_len(data);
        assert forall|i: int| 0 <= i < data.len() implies got[i] == data[i] by {
            let at = before.len() + 4 * i;
            if i < shorter.len() {
                let sub = dataset::components(c, before.len(), shorter.len());
                assert(sub[i] == shorter[i]);
                assert(c[at] == b[at] && c[at + 1] == b[at + 1] && c[at + 2] == b[at + 2] && c[at
                    + 3] == b[at + 3]);
            } else {
                assert(b.subrange(at, at + 4) =~= encoding::le32_bytes(data.last() as nat));
                encoding::lemma_le32_is_read_back(data.last() as nat, b, at);
            }
        }
    }
    assert(got =~= data);
}

/// Reading a `.fbin` file gives back the vectors that it was written from.
pub proof fn law_fbin_is_read_back(n: nat, dim: nat, data: Seq<u32>)
    requires
        n <= u32::MAX,
        dim <= u32::MAX,
        data.len() == n * dim,
    ensures
        dataset::vectors_of(Format::Fbin, fbin_file(n, dim, data)) == Ok::<
            (Seq<u32>, nat, nat),
            FormatError,
        >((data, n, dim)),
{
    let b = fbin_file(n, dim, data);
    let before = encoding::le32_bytes(n) + encoding::le32_bytes(dim);
    assert(b.subrange(0, 4) =~= encoding::le32_bytes(n));
    assert(b.subrange(4, 8) =~= encoding::le32_bytes(dim));
    encoding::lemma_le32_is_read_back(n, b, 0);
    encoding::lemma_le32_is_read_back(dim, b, 4);
    lemma_component_bytes_len(data);
    lemma_components_read_back(before, data);
    assert(before.len() == 8);
}

/// What stands before the numbers of a `.npy` header, character by character.
proof fn lemma_npy_header_start()
    ensures
        "{'descr': '<f4', 'fortran_order': False, 'shape': ("@ == seq![
            '{', '\'', 'd', 'e', 's', 'c', 'r', '\'', ':', ' ', '\'', '<', 'f', '4', '\'', ',', ' ',
            '\'', 'f', 'o', 'r', 't', 'r', 'a', 'n', '_', 'o', 'r', 'd', 'e', 'r', '\'', ':', ' ',
            'F', 'a', 'l', 's', 'e', ',', ' ', '\'', 's', 'h', 'a', 'p', 'e', '\'', ':', ' ', '(',
        ],
{
    reveal_strlit("{'descr': '<f4', 'fortran_order': False, 'shape': (");
    assert("{'descr': '<f4', 'fortran_order': False, 'shape': ("@ =~= seq![
        '{', '\'', 'd', 'e', 's', 'c', 'r', '\'', ':', ' ', '\'', '<', 'f', '4', '\'', ',', ' ',
        '\'', 'f', 'o', 'r', 't', 'r', 'a', 'n', '_', 'o', 'r', 'd', 'e', 'r', '\'', ':', ' ',
        'F', 'a', 'l', 's', 'e', ',', ' ', '\'', 's', 'h', 'a', 'p', 'e', '\'', ':', ' ', '(',
    ]);
}

/// A name in quotes begins with a quote, and then the name.
proof fn lemma_quoted_begins(h: Seq<char>, name: Seq<char>, i: int)
    requires
        dataset::quoted_at(h, name, i),
        name.len() > 0,
    ensures
        0 <= i && i + 1 < h.len(),
        h[i] == '\'' || h[i] == '"',
        h[i + 1] == name[0],
{
    reveal_strlit("'");
    reveal_strlit("\"");
    let single = "'"@ + name + "'"@;
    let double = "\""@ + name + "\""@;
    assert("'"@[0] == '\'' && "\""@[0] == '"');
    assert(single[0] == '\'' && single[1] == name[0]);
    assert(double[0] == '"' && double[1] == name[0]);
    if text::stands_at(h, single, i) {
        let t = h.subrange(i, i + single.len());
        assert(t[0] == h[i] && t[1] == h[i + 1]);
    } else {
        let t = h.subrange(i, i + double.len());
        assert(t[0] == h[i] && t[1] == h[i + 1]);
    }
}

proof fn lemma_not_space(s: Seq<char>)
    requires
        s.len() > 0,
        !text::is_space(s[0]),
    ensures
        text::trimmed_start(s) == s,
        text::trimmed_start(seq![' '] + s) == s,
{
    let t = seq![' '] + s;
    assert(t.drop_first() =~= s);
    assert(text::trimmed_start(t) == text::trimmed_start(s));
}

/// `"descr": "<f4"` at the start of a header is found, and nothing else is
/// taken for it.
proof fn lemma_npy_header_descr(h: Seq<char>)
    requires
        h.len() >= 51,
        h.take(51) == "{'descr': '<f4', 'fortran_order': False, 'shape': ("@,
        forall|i: int| 51 <= i < h.len() ==> h[i] != 'd',
    ensures
        dataset::is_float32(h),
{
    lemma_npy_header_start();
    let p = h.take(51);
    assert(forall|i: int| 0 <= i < 51 ==> h[i] == #[trigger] p[i]);
    assert forall|i: int| #[trigger] dataset::value_after(h, "descr"@, i) is Some implies i
        == 1 by {
        reveal_strlit("descr");
        assert("descr"@[0] == 'd');
        lemma_quoted_begins(h, "descr"@, i);
        assert(i + 1 < 51);
        assert(p[i] == h[i] && p[i + 1] == h[i + 1]);
    }
    reveal_strlit("descr");
    reveal_strlit("'");
    reveal_strlit("\"");
    reveal_strlit("<f4");
    let name = "'"@ + "descr"@ + "'"@;
    assert(h.subrange(1, 8) =~= name);
    assert(text::stands_at(h, name, 1));
    let at_colon = h.skip(8);
    lemma_not_space(at_colon);
    let v = h.skip(10);
    assert(at_colon.drop_first() =~= seq![' '] + v);
    lemma_not_space(v);
    assert(dataset::value_after(h, "descr"@, 1) == Some(v));
    let value = "'"@ + "<f4"@ + "'"@;
    assert(v.subrange(0, 5) =~= value);
    assert(text::stands_at(v, value, 0));
    assert(v.skip(5) =~= h.skip(15));
    lemma_not_space(h.skip(15));
    assert(dataset::begins_with_f4(v));
}

/// `"fortran_order": False` at the start of a header is found, and nothing
/// else is taken for it.
proof fn lemma_npy_header_order(h: Seq<char>)
    requires
        h.len() >= 51,
        h.take(51) == "{'descr': '<f4', 'fortran_order': False, 'shape': ("@,
        forall|i: int| 51 <= i < h.len() ==> h[i] != 'f',
    ensures
        dataset::is_c_order(h),
{
    lemma_npy_header_start();
    let p = h.take(51);
    assert(forall|i: int| 0 <= i < 51 ==> h[i] == #[trigger] p[i]);
    assert forall|i: int| #[trigger] dataset::value_after(h, "fortran_order"@, i) is Some implies i
        == 17 by {
        reveal_strlit("fortran_order");
        assert("fortran_order"@[0] == 'f');
        lemma_quoted_begins(h, "fortran_order"@, i);
        assert(i + 1 < 51);
        assert(p[i] == h[i] && p[i + 1] == h[i + 1]);
    }
    reveal_strlit("fortran_order");
    reveal_strlit("False");
    let at_colon = h.skip(32);
    lemma_not_space(at_colon);
    let v = h.skip(34);
    assert(at_colon.drop_first() =~= seq![' '] + v);
    lemma_not_space(v);
    assert(v.subrange(0, 5) =~= "False"@);
    assert("fortran_order"@.len() == 13);
    assert(text::stands_at(v, "False"@, 0));
}

proof fn lemma_trimmed_digits(s: Seq<char>)
    requires
        number::all_digits(s),
        s.len() > 0,
    ensures
        text::trimmed(s) == s,
        text::trimmed(seq![' '] + s) == s,
{
    assert(number::is_digit(s[0]));
    assert(number::is_digit(s[s.len() - 1]));
    assert(text::trimmed_start(s) == s);
    let t = seq![' '] + s;
    assert(t.drop_first() =~= s);
    assert(text::trimmed_start(t) == text::trimmed_start(s));
}

/// The text of a `.npy` header around what stands between the parentheses of
/// its shape.
pub open spec fn npy_header_around(inner: Seq<char>, pad: nat) -> Seq<char> {
    "{'descr': '<f4', 'fortran_order': False, 'shape': ("@ + inner + ("), }"@ + Seq::new(
        pad,
        |i: int| ' ',
    ) + "\n"@)
}

/// A header says of its items, of their order and of its shape what is written
/// in it.
#[verifier::rlimit(40)]
proof fn lemma_npy_header_around(inner: Seq<char>, pad: nat)
    requires
        forall|i: int|
            0 <= i < inner.len() ==> #[trigger] inner[i] != ')' && inner[i] != 'd' && inner[i] != 'f'
                && inner[i] != '\'',
    ensures
        dataset::is_float32(npy_header_around(inner, pad)),
        dataset::is_c_order(npy_header_around(inner, pad)),
        dataset::shape_tuple(npy_header_around(inner, pad)) == Ok::<Seq<char>, FormatError>(inner),
{
    let start = "{'descr': '<f4', 'fortran_order': False, 'shape': ("@;
    let end = "), }"@ + Seq::new(pad, |i: int| ' ') + "\n"@;
    let h = npy_header_around(inner, pad);
    lemma_npy_header_start();
    reveal_strlit("), }");
    reveal_strlit("\n");
    assert(h.take(51) =~= start);
    assert(forall|i: int| 0 <= i < 51 ==> h[i] == start[i]);
    let close = 51 + inner.len() as int;
    assert(h[close] == ')');
    assert forall|i: int| 51 <= i < close implies h[i] != ')' && h[i] != 'd' && h[i] != 'f' && h[i]
        != '\'' by {
        assert(h[i] == inner[i - 51]);
    }
    assert forall|i: int| 51 <= i < h.len() implies h[i] != 'd' && h[i] != 'f' && h[i] != '\'' by {
        if i >= close {
            assert(h[i] == end[i - close]);
        }
    }
    lemma_npy_header_descr(h);
    lemma_npy_header_order(h);
    reveal_strlit("'shape':");
    let key = "'shape':"@;
    assert(key[0] == '\'' && key[1] == 's');
    assert(h.subrange(41, 49) =~= key);
    assert(text::stands_at(h, key, 41));
    text::lemma_found_from(h, key, 0);
    assert forall|j: int| 0 <= j < 41 implies !#[trigger] text::stands_at(h, key, j) by {
        if text::stands_at(h, key, j) {
            let t = h.subrange(j, j + 8);
            assert(t[0] == h[j] && t[1] == h[j + 1]);
            assert(start[j] == '\'' && start[j + 1] == 's');
        }
    }
    assert(text::found_from(h, key, 0) == Some(41int));
    let value = h.skip(50);
    assert(h.skip(49) =~= seq![' '] + value);
    lemma_not_space(value);
    text::lemma_until_char_is(value, ')', close - 50);
    assert(value.subrange(1, close - 50) =~= inner);
}

/// The dimensions of an array as a shape has them.
pub open spec fn dims_text(dims: Seq<nat>) -> Seq<char>
    decreases dims.len(),
{
    if dims.len() == 0 {
        seq![]
    } else if dims.len() == 1 {
        number::decimal(dims[0])
    } else {
        dims_text(dims.drop_last()) + seq![','] + (seq![' '] + number::decimal(dims.last()))
    }
}

/// A piece after the last separator is the last piece.
pub proof fn lemma_pieces_push(s: Seq<char>, c: char, last: Seq<char>)
    requires
        text_laws::lacks(last, c),
    ensures
        text::pieces(s + seq![c] + last, c) == text::pieces(s, c).push(last),
    decreases s.len(),
{
    let t = s + seq![c] + last;
    text::lemma_until_char(s, c);
    let n = text::until_char(s, c) as int;
    assert forall|i: int| 0 <= i < n implies t[i] != c by {
        assert(t[i] == s[i]);
    }
    text::lemma_until_char_is(t, c, n);
    assert(t.take(n) =~= s.take(n));
    text_laws::law_separators_part_pieces(last, c, seq![]);
    if n >= s.len() {
        assert(s.take(n) =~= s);
        assert(t.skip(n + 1) =~= last);
        assert(text::pieces(t, c) =~= text::pieces(s, c).push(last));
    } else {
        assert(t.skip(n + 1) =~= s.skip(n + 1) + seq![c] + last);
        lemma_pieces_push(s.skip(n + 1), c, last);
        assert(text::pieces(t, c) =~= text::pieces(s, c).push(last));
    }
}

proof fn lemma_dims_text(dims: Seq<nat>)
    requires
        dims.len() > 0,
        forall|i: int| 0 <= i < dims.len() ==> #[trigger] dims[i] <= usize::MAX,
    ensures
        dataset::dims_of(text::pieces(dims_text(dims), ',')) == Some(dims),
        text::trimmed(text::pieces(dims_text(dims), ',').last()).len() > 0,
        text::pieces(dims_text(dims), ',').len() == dims.len(),
        forall|i: int|
            0 <= i < dims_text(dims).len() ==> #[trigger] dims_text(dims)[i] != ')' && dims_text(
                dims,
            )[i] != 'd' && dims_text(dims)[i] != 'f' && dims_text(dims)[i] != '\'',
    decreases dims.len(),
{
    let n = dims.len() - 1;
    let last = dims.last();
    let d = number::decimal(last);
    assert(dims[n] <= usize::MAX);
    number::lemma_decimal_is_read_back(last);
    number::lemma_uint_of_decimal(last, usize::MAX as nat);
    lemma_trimmed_digits(d);
    let s = dims_text(dims);
    if n == 0 {
        assert(s == d);
        assert forall|i: int| 0 <= i < d.len() implies #[trigger] d[i] != ',' by {
            assert(number::is_digit(d[i]));
        }
        text_laws::law_separators_part_pieces(d, ',', seq![]);
        assert(seq![d].drop_last() =~= seq![]);
        assert(dataset::dims_of(seq![d].drop_last()) == Some(Seq::<nat>::empty()));
        assert(Seq::<nat>::empty().push(last) =~= dims);
        assert forall|i: int| 0 <= i < s.len() implies #[trigger] s[i] != ')' && s[i] != 'd' && s[i]
            != 'f' && s[i] != '\'' by {
            assert(number::is_digit(d[i]));
        }
    } else {
        let before = dims.drop_last();
        assert forall|i: int| 0 <= i < before.len() implies #[trigger] before[i] <= usize::MAX by {
            assert(before[i] == dims[i]);
        }
        lemma_dims_text(before);
        let p = seq![' '] + d;
        assert forall|i: int| 0 <= i < p.len() implies #[trigger] p[i] != ',' by {
            if i > 0 {
                assert(number::is_digit(d[i - 1]));
            }
        }
        lemma_pieces_push(dims_text(before), ',', p);
        let fields = text::pieces(dims_text(before), ',');
        assert(fields.push(p).drop_last() =~= fields);
        assert(fields.push(p).last() == p);
        assert(before.push(last) =~= dims);
        assert forall|i: int| 0 <= i < s.len() implies #[trigger] s[i] != ')' && s[i] != 'd' && s[i]
            != 'f' && s[i] != '\'' by {
            let m = dims_text(before).len() as int;
            if i < m {
                assert(s[i] == dims_text(before)[i]);
            } else if i > m + 1 {
                assert(s[i] == d[i - m - 2]);
                assert(number::is_digit(d[i - m - 2]));
            }
        }
    }
}

/// An array of any number of dimensions is accepted exactly if it has two of
/// them, and then with these two.
pub proof fn law_only_two_dimensions_are_accepted(dims: Seq<nat>, pad: nat)
    requires
        dims.len() > 0,
        forall|i: int| 0 <= i < dims.len() ==> #[trigger] dims[i] <= usize::MAX,
    ensures
        dataset::npy_shape(npy_header_around(dims_text(dims), pad)) == (if dims.len() == 2 {
            Ok::<(nat, nat), FormatError>((dims[0], dims[1]))
        } else {
            Err::<(nat, nat), FormatError>(FormatError::NotTwoDimensional)
        }),
        dataset::npy_shape(npy_header_around(dims_text(dims) + seq![','], pad)) == (if dims.len()
            == 2 {
            Ok::<(nat, nat), FormatError>((dims[0], dims[1]))
        } else {
            Err::<(nat, nat), FormatError>(FormatError::NotTwoDimensional)
        }),
{
    let inner = dims_text(dims);
    lemma_dims_text(dims);
    lemma_npy_header_around(inner, pad);
    assert(dataset::tuple_fields(inner) == text::pieces(inner, ','));
    let more = inner + seq![','];
    assert forall|i: int| 0 <= i < more.len() implies #[trigger] more[i] != ')' && more[i] != 'd'
        && more[i] != 'f' && more[i] != '\'' by {
        if i < inner.len() {
            assert(more[i] == inner[i]);
        }
    }
    lemma_npy_header_around(more, pad);
    let none = Seq::<char>::empty();
    lemma_pieces_push(inner, ',', none);
    assert(inner + seq![','] + none =~= more);
    assert(text::trimmed(none) =~= none);
    let fields = text::pieces(more, ',');
    assert(fields == text::pieces(inner, ',').push(none));
    assert(fields.drop_last() =~= text::pieces(inner, ','));
    assert(dataset::tuple_fields(more) == text::pieces(inner, ','));
}

/// The shape between the parentheses of a `.npy` header is read back.
proof fn lemma_npy_dims(n: nat, dim: nat)
    requires
        n <= usize::MAX,
        dim <= usize::MAX,
    ensures
        dims_text(seq![n, dim]) == number::decimal(n) + ", "@ + number::decimal(dim),
        dataset::dims_of(
            dataset::tuple_fields(number::decimal(n) + ", "@ + number::decimal(dim)),
        ) == Some(seq![n, dim]),
{
    let dims = seq![n, dim];
    lemma_dims_text(dims);
    reveal_strlit(", ");
    assert(dims.drop_last() =~= seq![n]);
    assert(dims_text(seq![n]) == number::decimal(n));
    assert(", "@ =~= seq![','] + seq![' ']);
    assert(dims_text(dims) =~= number::decimal(n) + ", "@ + number::decimal(dim));
}

/// The header of a `.npy` file gives the shape that it was written for,
/// however it is padded.
pub proof fn law_npy_header_gives_its_shape(n: nat, dim: nat, pad: nat)
    requires
        n <= usize::MAX,
        dim <= usize::MAX,
    ensures
        dataset::npy_shape(npy_header_text(n, dim, pad)) == Ok::<(nat, nat), FormatError>((n, dim)),
{
    let inner = number::decimal(n) + ", "@ + number::decimal(dim);
    lemma_npy_dims(n, dim);
    lemma_dims_text(seq![n, dim]);
    lemma_npy_header_around(inner, pad);
    assert(npy_header_text(n, dim, pad) =~= npy_header_around(inner, pad));
}

/// Reading a `.npy` file gives back the vectors that it was written from.
#[verifier::rlimit(40)]
pub proof fn law_npy_is_read_back(n: nat, dim: nat, pad: nat, data: Seq<u32>)
    requires
        n <= usize::MAX,
        dim <= usize::MAX,
        data.len() == n * dim,
        utf8::encode_utf8(npy_header_text(n, dim, pad)).len() <= u16::MAX,
    ensures
        dataset::vectors_of(Format::Npy, npy_file(n, dim, pad, data)) == Ok::<
            (Seq<u32>, nat, nat),
            FormatError,
        >((data, n, dim)),
{
    let words = npy_header_text(n, dim, pad);
    let header = utf8::encode_utf8(words);
    let b = npy_file(n, dim, pad, data);
    let before = dataset::npy_magic() + seq![1u8, 0u8] + encoding::le16_bytes(header.len())
        + header;
    let span = 10 + header.len();
    assert(b =~= before + component_bytes(data));
    assert(b.take(6) =~= dataset::npy_magic());
    assert(b.subrange(8, 10) =~= encoding::le16_bytes(header.len()));
    encoding::lemma_le16_is_read_back(header.len(), b, 8);
    assert(b.subrange(10, span as int) =~= header);
    utf8::encode_utf8_valid_utf8(words);
    utf8::encode_utf8_decode_utf8(words);
    law_npy_header_gives_its_shape(n, dim, pad);
    lemma_component_bytes_len(data);
    lemma_components_read_back(before, data);
}

/// A header that says that the items are of another type than `<f4` is refused,
/// whatever it says of them.
pub proof fn law_other_items_are_refused(descr: Seq<char>, rest: Seq<char>)
    requires
        text_laws::lacks(descr, '\''),
        text_laws::lacks(descr, '"'),
        descr != "<f4"@,
    ensures
        dataset::npy_shape("{'descr': '"@ + descr + "'"@ + rest) == Err::<(nat, nat), FormatError>(
            FormatError::NotFloat32,
        ),
{
    reveal_strlit("{'descr': '");
    reveal_strlit("descr");
    reveal_strlit("'");
    reveal_strlit("\"");
    reveal_strlit("<f4");
    let h = "{'descr': '"@ + descr + "'"@ + rest;
    let name = "'"@ + "descr"@ + "'"@;
    assert("{'descr': '"@ =~= seq!['{', '\'', 'd', 'e', 's', 'c', 'r', '\'', ':', ' ', '\'']);
    assert(h.subrange(1, 8) =~= name);
    assert(text::stands_at(h, name, 1));
    let at_colon = h.skip(8);
    lemma_not_space(at_colon);
    let v = h.skip(10);
    assert(v[0] == '\'');
    assert(at_colon.drop_first() =~= seq![' '] + v);
    lemma_not_space(v);
    assert(dataset::value_after(h, "descr"@, 1) == Some(v));
    assert(!dataset::begins_with_f4(v)) by {
        let single = "'"@ + "<f4"@ + "'"@;
        let double = "\""@ + "<f4"@ + "\""@;
        assert(single =~= seq!['\'', '<', 'f', '4', '\'']);
        assert(double[0] == '"');
        if text::stands_at(v, double, 0) {
            assert(v.subrange(0, 5)[0] == '"');
        }
        if text::stands_at(v, single, 0) {
            let t = v.subrange(0, 5);
            assert(t[1] == v[1] && t[2] == v[2] && t[3] == v[3] && t[4] == v[4]);
            assert forall|i: int| 0 <= i < descr.len() implies v[i + 1] == descr[i] by {}
            assert(v[descr.len() as int + 1] == '\'');
            if descr.len() > 3 {
                assert(descr[3] == '\'');
            }
            assert(descr.len() == 3);
            assert(descr =~= "<f4"@);
        }
    }
}

/// A header that says anything else of the order than `False` is refused.
#[verifier::rlimit(40)]
pub proof fn law_other_orders_are_refused(order: Seq<char>, rest: Seq<char>)
    requires
        order.len() > 0,
        !text::is_space(order[0]),
        text_laws::lacks(order + rest, 'd'),
        !text::stands_at(order + rest, "False"@, 0),
    ensures
        dataset::npy_shape("{'descr': '<f4', 'fortran_order': "@ + order + rest) == Err::<
            (nat, nat),
            FormatError,
        >(FormatError::FortranOrder),
{
    reveal_strlit("{'descr': '<f4', 'fortran_order': ");
    reveal_strlit("descr");
    reveal_strlit("fortran_order");
    reveal_strlit("'");
    reveal_strlit("\"");
    reveal_strlit("<f4");
    let p = "{'descr': '<f4', 'fortran_order': "@;
    let h = p + order + rest;
    assert(p =~= seq![
        '{', '\'', 'd', 'e', 's', 'c', 'r', '\'', ':', ' ', '\'', '<', 'f', '4', '\'', ',', ' ',
        '\'', 'f', 'o', 'r', 't', 'r', 'a', 'n', '_', 'o', 'r', 'd', 'e', 'r', '\'', ':', ' ',
    ]);
    assert(forall|i: int| 0 <= i < 34 ==> h[i] == #[trigger] p[i]);
    assert forall|i: int| 34 <= i < h.len() implies h[i] != 'd' by {
        assert(h[i] == (order + rest)[i - 34]);
    }
    // The items.
    assert forall|i: int| #[trigger] dataset::value_after(h, "descr"@, i) is Some implies i
        == 1 by {
        assert("descr"@[0] == 'd');
        lemma_quoted_begins(h, "descr"@, i);
        assert(i + 1 < 34);
        assert(p[i] == h[i] && p[i + 1] == h[i + 1]);
    }
    let name = "'"@ + "descr"@ + "'"@;
    assert(h.subrange(1, 8) =~= name);
    assert(text::stands_at(h, name, 1));
    lemma_not_space(h.skip(8));
    let v = h.skip(10);
    assert(h.skip(8).drop_first() =~= seq![' '] + v);
    lemma_not_space(v);
    assert(dataset::value_after(h, "descr"@, 1) == Some(v));
    let value = "'"@ + "<f4"@ + "'"@;
    assert(v.subrange(0, 5) =~= value);
    assert(text::stands_at(v, value, 0));
    assert(v.skip(5) =~= h.skip(15));
    lemma_not_space(h.skip(15));
    assert(dataset::begins_with_f4(v));
    // The order.
    let key = "'"@ + "fortran_order"@ + "'"@;
    assert(h.subrange(17, 32) =~= key);
    assert(text::stands_at(h, key, 17));
    lemma_not_space(h.skip(32));
    let o = h.skip(34);
    assert(o =~= order + rest);
    assert(o[0] == order[0]);
    assert(h.skip(32).drop_first() =~= seq![' '] + o);
    lemma_not_space(o);
    assert(dataset::value_after(h, "fortran_order"@, 17) == Some(o));
}

/// What a dataset file with any payload says of its vectors is what its header
/// was written for, and where they begin is where the header ends.
#[verifier::rlimit(40)]
pub proof fn law_headers_are_read_back(n: nat, dim: nat, pad: nat, payload: Seq<u8>)
    requires
        n <= u32::MAX,
        dim <= u32::MAX,
        utf8::encode_utf8(npy_header_text(n, dim, pad)).len() <= u16::MAX,
    ensures
        dataset::header_of(
            Format::Fbin,
            encoding::le32_bytes(n) + encoding::le32_bytes(dim) + payload,
        ) == Ok::<(nat, nat, nat), FormatError>((8, n, dim)),
        ({
            let header = utf8::encode_utf8(npy_header_text(n, dim, pad));
            dataset::header_of(
                Format::Npy,
                dataset::npy_magic() + seq![1u8, 0u8] + encoding::le16_bytes(header.len()) + header
                    + payload,
            ) == Ok::<(nat, nat, nat), FormatError>((10 + header.len(), n, dim))
        }),
        dataset::npy_magic() == seq![0x93u8] + utf8::encode_utf8(seq!['N', 'U', 'M', 'P', 'Y']),
{
    let f = encoding::le32_bytes(n) + encoding::le32_bytes(dim) + payload;
    assert(f.subrange(0, 4) =~= encoding::le32_bytes(n));
    assert(f.subrange(4, 8) =~= encoding::le32_bytes(dim));
    encoding::lemma_le32_is_read_back(n, f, 0);
    encoding::lemma_le32_is_read_back(dim, f, 4);
    let words = npy_header_text(n, dim, pad);
    let header = utf8::encode_utf8(words);
    let b = dataset::npy_magic() + seq![1u8, 0u8] + encoding::le16_bytes(header.len()) + header
        + payload;
    assert(b.take(6) =~= dataset::npy_magic());
    assert(b.subrange(8, 10) =~= encoding::le16_bytes(header.len()));
    encoding::lemma_le16_is_read_back(header.len(), b, 8);
    assert(b.subrange(10, 10 + header.len() as int) =~= header);
    utf8::encode_utf8_valid_utf8(words);
    utf8::encode_utf8_decode_utf8(words);
    law_npy_header_gives_its_shape(n, dim, pad);
    let name = seq!['N', 'U', 'M', 'P', 'Y'];
    utf8::is_ascii_chars_encode_utf8(name);
    assert(dataset::npy_magic() =~= seq![0x93u8] + utf8::encode_utf8(name));
}

/// A `.fbin` file with less payload than its header announces.
proof fn lemma_cut_fbin(n: nat, dim: nat, payload: Seq<u8>)
    requires
        n <= u32::MAX,
        dim <= u32::MAX,
        payload.len() < 4 * (n * dim),
    ensures
        dataset::vectors_of(
            Format::Fbin,
            encoding::le32_bytes(n) + encoding::le32_bytes(dim) + payload,
        ) == Err::<(Seq<u32>, nat, nat), FormatError>(FormatError::TruncatedFbinPayload),
{
    let f = encoding::le32_bytes(n) + encoding::le32_bytes(dim) + payload;
    assert(f.subrange(0, 4) =~= encoding::le32_bytes(n));
    assert(f.subrange(4, 8) =~= encoding::le32_bytes(dim));
    encoding::lemma_le32_is_read_back(n, f, 0);
    encoding::lemma_le32_is_read_back(dim, f, 4);
}

/// A `.npy` file that ends within its header.
proof fn lemma_cut_npy_header(before: Seq<u8>, header: Seq<u8>)
    requires
        before.len() == 10,
        before.take(6) == dataset::npy_magic(),
        before[6] == 1 && before[7] == 0,
        encoding::le16(before, 8) > header.len(),
    ensures
        dataset::vectors_of(Format::Npy, before + header) == Err::<
            (Seq<u32>, nat, nat),
            FormatError,
        >(FormatError::TruncatedNpyHeader),
{
    let b = before + header;
    assert(b.take(6) =~= before.take(6));
    assert(encoding::le16(b, 8) == encoding::le16(before, 8));
}

proof fn lemma_cut_fbin_file(n: nat, dim: nat, data: Seq<u32>, k: int)
    requires
        n <= u32::MAX,
        dim <= u32::MAX,
        data.len() == n * dim,
        0 <= k,
    ensures
        k < fbin_file(n, dim, data).len() ==> dataset::vectors_of(
            Format::Fbin,
            fbin_file(n, dim, data).take(k),
        ) == Err::<(Seq<u32>, nat, nat), FormatError>(
            if k < 8 {
                FormatError::TruncatedFbinHeader
            } else {
                FormatError::TruncatedFbinPayload
            },
        ),
{
    lemma_component_bytes_len(data);
    let all = component_bytes(data);
    let f = fbin_file(n, dim, data);
    if 8 <= k < f.len() {
        let payload = all.take(k - 8);
        lemma_cut_fbin(n, dim, payload);
        assert(f.take(k) =~= encoding::le32_bytes(n) + encoding::le32_bytes(dim) + payload);
    }
}

/// A `.npy` file with less payload than its header announces.
proof fn lemma_cut_npy_payload(n: nat, dim: nat, pad: nat, payload: Seq<u8>)
    requires
        n <= u32::MAX,
        dim <= u32::MAX,
        payload.len() < 4 * (n * dim),
        utf8::encode_utf8(npy_header_text(n, dim, pad)).len() <= u16::MAX,
    ensures
        ({
            let header = utf8::encode_utf8(npy_header_text(n, dim, pad));
            dataset::vectors_of(
                Format::Npy,
                dataset::npy_magic() + seq![1u8, 0u8] + encoding::le16_bytes(header.len()) + header
                    + payload,
            ) == Err::<(Seq<u32>, nat, nat), FormatError>(FormatError::TruncatedNpyPayload)
        }),
{
    law_headers_are_read_back(n, dim, pad, payload);
}

/// What is cut off after a first part is cut off the second.
proof fn lemma_take_of_two(a: Seq<u8>, b: Seq<u8>, k: int)
    requires
        a.len() <= k <= a.len() + b.len(),
    ensures
        (a + b).take(k) == a + b.take(k - a.len()),
{
    assert((a + b).take(k) =~= a + b.take(k - a.len()));
}

#[verifier::rlimit(40)]
proof fn lemma_cut_npy_file(n: nat, dim: nat, pad: nat, data: Seq<u32>, k: int)
    requires
        n <= u32::MAX,
        dim <= u32::MAX,
        data.len() == n * dim,
        utf8::encode_utf8(npy_header_text(n, dim, pad)).len() <= u16::MAX,
        0 <= k,
    ensures
        k < npy_file(n, dim, pad, data).len() ==> dataset::vectors_of(
            Format::Npy,
            npy_file(n, dim, pad, data).take(k),
        ) == Err::<(Seq<u32>, nat, nat), FormatError>(
            if k < 10 {
                FormatError::NotNpy
            } else if k < 10 + utf8::encode_utf8(npy_header_text(n, dim, pad)).len() {
                FormatError::TruncatedNpyHeader
            } else {
                FormatError::TruncatedNpyPayload
            },
        ),
{
    lemma_component_bytes_len(data);
    let all = component_bytes(data);
    let header = utf8::encode_utf8(npy_header_text(n, dim, pad));
    let b = npy_file(n, dim, pad, data);
    let first = dataset::npy_magic() + seq![1u8, 0u8] + encoding::le16_bytes(header.len());
    let span = 10 + header.len() as int;
    if 10 <= k < span {
        assert(first.take(6) =~= dataset::npy_magic());
        assert(first.subrange(8, 10) =~= encoding::le16_bytes(header.len()));
        encoding::lemma_le16_is_read_back(header.len(), first, 8);
        lemma_cut_npy_header(first, header.take(k - 10));
        assert(b =~= first + (header + all));
        lemma_take_of_two(first, header + all, k);
        assert((header + all).take(k - 10) =~= header.take(k - 10));
    } else if span <= k < b.len() {
        lemma_cut_npy_payload(n, dim, pad, all.take(k - span));
        lemma_take_of_two(first + header, all, k);
    }
}

/// A dataset file that is cut short anywhere is refused, by what is missing.
pub proof fn law_cut_files_are_refused(n: nat, dim: nat, pad: nat, data: Seq<u32>, k: int)
    requires
        n <= u32::MAX,
        dim <= u32::MAX,
        data.len() == n * dim,
        utf8::encode_utf8(npy_header_text(n, dim, pad)).len() <= u16::MAX,
        0 <= k,
    ensures
        k < fbin_file(n, dim, data).len() ==> dataset::vectors_of(
            Format::Fbin,
            fbin_file(n, dim, data).take(k),
        ) == Err::<(Seq<u32>, nat, nat), FormatError>(
            if k < 8 {
                FormatError::TruncatedFbinHeader
            } else {
                FormatError::TruncatedFbinPayload
            },
        ),
        k < npy_file(n, dim, pad, data).len() ==> dataset::vectors_of(
            Format::Npy,
            npy_file(n, dim, pad, data).take(k),
        ) == Err::<(Seq<u32>, nat, nat), FormatError>(
            if k < 10 {
                FormatError::NotNpy
            } else if k < 10 + utf8::encode_utf8(npy_header_text(n, dim, pad)).len() {
                FormatError::TruncatedNpyHeader
            } else {
                FormatError::TruncatedNpyPayload
            },
        ),
{
    lemma_cut_fbin_file(n, dim, data, k);
    lemma_cut_npy_file(n, dim, pad, data, k);
}

/// A file that does not begin as a `.npy` file of version 1.0 does is refused
/// as one.
pub proof fn law_other_files_are_not_npy(b: Seq<u8>)
    ensures
        b.len() < 10 ==> dataset::vectors_of(Format::Npy, b) == Err::<
            (Seq<u32>, nat, nat),
            FormatError,
        >(FormatError::NotNpy) && dataset::header_of(Format::Npy, b) == Err::<
            (nat, nat, nat),
            FormatError,
        >(FormatError::TruncatedNpyHeader),
        b.len() >= 10 && b.take(6) != dataset::npy_magic() ==> dataset::vectors_of(Format::Npy, b)
            == Err::<(Seq<u32>, nat, nat), FormatError>(FormatError::NotNpy) && dataset::header_of(
            Format::Npy,
            b,
        ) == Err::<(nat, nat, nat), FormatError>(FormatError::NotNpy),
        b.len() >= 10 && b.take(6) == dataset::npy_magic() && (b[6] != 1 || b[7] != 0)
            ==> dataset::vectors_of(Format::Npy, b) == Err::<(Seq<u32>, nat, nat), FormatError>(
            FormatError::NpyVersion,
        ) && dataset::header_of(Format::Npy, b) == Err::<(nat, nat, nat), FormatError>(
            FormatError::NpyVersion,
        ),
{
}

/// A header that is not UTF-8 is refused for that, whatever else is in the file.
pub proof fn law_headers_are_utf8(header: Seq<u8>, payload: Seq<u8>)
    requires
        header.len() <= u16::MAX,
        !utf8::valid_utf8(header),
    ensures
        ({
            let b = dataset::npy_magic() + seq![1u8, 0u8] + encoding::le16_bytes(header.len())
                + header + payload;
            &&& dataset::vectors_of(Format::Npy, b) == Err::<(Seq<u32>, nat, nat), FormatError>(
                FormatError::NonUtf8NpyHeader,
            )
            &&& dataset::header_of(Format::Npy, b) == Err::<(nat, nat, nat), FormatError>(
                FormatError::NonUtf8NpyHeader,
            )
        }),
{
    let b = dataset::npy_magic() + seq![1u8, 0u8] + encoding::le16_bytes(header.len()) + header
        + payload;
    assert(b.take(6) =~= dataset::npy_magic());
    assert(b.subrange(8, 10) =~= encoding::le16_bytes(header.len()));
    encoding::lemma_le16_is_read_back(header.len(), b, 8);
    assert(b.subrange(10, 10 + header.len() as int) =~= header);
}

/// `npy` stands for the one format, `fbin` and `bin` for the other, and no
/// other extension stands for either.
pub proof fn law_extensions(e: Seq<char>)
    ensures
        dataset::format_of(Some(e)) == Some(Format::Npy) <==> e == seq!['n', 'p', 'y'],
        dataset::format_of(Some(e)) == Some(Format::Fbin) <==> e == seq!['f', 'b', 'i', 'n'] || e
            == seq!['b', 'i', 'n'],
        dataset::format_of(None) is None,
{
    reveal_strlit("npy");
    reveal_strlit("fbin");
    reveal_strlit("bin");
    assert("npy"@ =~= seq!['n', 'p', 'y']);
    assert("fbin"@ =~= seq!['f', 'b', 'i', 'n']);
    assert("bin"@ =~= seq!['b', 'i', 'n']);
    assert("npy"@[0] != "bin"@[0]);
    assert("npy"@.len() != "fbin"@.len());
}

/// The words that an operator sees for each error that a file gives.
pub proof fn law_errors_have_their_own_words()
    ensures
        dataset::format_message(FormatError::NotNpy) == "not a .npy file (bad magic)"@,
        dataset::format_message(FormatError::NpyVersion) == "only NumPy v1.0 .npy is supported"@,
        dataset::format_message(FormatError::FortranOrder) == "only C-order .npy is supported"@,
        dataset::format_message(FormatError::TruncatedNpyHeader) == "truncated .npy header"@,
        dataset::format_message(FormatError::NonUtf8NpyHeader) == "non-utf8 .npy header"@,
        dataset::format_message(FormatError::NotFloat32)
            == "only little-endian float32 (<f4) .npy is supported"@,
        dataset::format_message(FormatError::NoNpyShape) == "no shape in .npy header"@,
        dataset::format_message(FormatError::MalformedNpyShape) == "malformed .npy shape"@,
        dataset::format_message(FormatError::NotTwoDimensional) == "expected a 2-D .npy array"@,
        dataset::format_message(FormatError::TruncatedNpyPayload) == "truncated .npy payload"@,
        dataset::format_message(FormatError::TruncatedFbinHeader) == "truncated .fbin header"@,
        dataset::format_message(FormatError::TruncatedFbinPayload) == "truncated .fbin payload"@,
{
}

/// The message about an extension that stands for neither format shows it, in
/// quotes, and shows an empty one where there is none.
pub proof fn law_unsupported_extensions_are_shown(e: DatasetError)
    requires
        e is UnsupportedExtension,
    ensures
        ({
            let shown = match e->UnsupportedExtension_0 {
                Some(s) => s@,
                None => seq![],
            };
            dataset::is_plain(shown) ==> dataset::dataset_message(e)
                == "unsupported input extension "@ + seq!['"'] + shown + seq!['"']
                + " (expected .npy or .fbin)"@
        }),
{
    reveal_strlit("\"");
    reveal_strlit("");
    assert("\""@ =~= seq!['"']);
    assert(""@ =~= seq![]);
    let shown = match e->UnsupportedExtension_0 {
        Some(s) => s@,
        None => seq![],
    };
    if dataset::is_plain(shown) {
        assert(dataset::dataset_message(e) =~= "unsupported input extension "@ + seq!['"'] + shown
            + seq!['"'] + " (expected .npy or .fbin)"@);
    }
}

} // verus!
