//! The vector datasets that an index is built from.
//!
//! A dataset is a row-major array of `n` vectors of `dim` 32-bit floats each.
//! Two file formats hold one:
//!
//! - `.npy`: NumPy v1.0, little-endian float32, C order;
//! - `.fbin` or `.bin`: `[u32 n][u32 dim][f32 data]`, all little-endian.
//!
//! A vector component is handled as the 32 bits that encode it.

use crate::encoding;
use crate::error::ErrorKind;
use crate::number::{self, read_uint};
use crate::text::{
    self, chars_of, find_from, index_of_char, is_at, same_text, skip_space, split_pieces, trim,
};
use vstd::prelude::*;
use vstd::slice::*;
use vstd::string::*;
use vstd::utf8::*;

verus! {

/// The two file formats.
#[derive(Debug, Clone, Copy, PartialEq, Eq, Structural)]
pub enum Format {
    Npy,
    Fbin,
}

/// What is wrong with the contents of a dataset file.
#[derive(Debug, Clone, Copy, PartialEq, Eq, Structural)]
pub enum FormatError {
    /// The file does not begin as a `.npy` file does.
    NotNpy,
    /// The `.npy` format version is not 1.0.
    NpyVersion,
    /// The file ends before its `.npy` header does.
    TruncatedNpyHeader,
    /// The `.npy` header is not UTF-8.
    NonUtf8NpyHeader,
    /// The array's items are not little-endian float32.
    NotFloat32,
    /// The array is stored column by column.
    FortranOrder,
    /// The `.npy` header names no shape.
    NoNpyShape,
    /// The shape in the `.npy` header is not written in parentheses.
    MalformedNpyShape,
    /// The array does not have two dimensions.
    NotTwoDimensional,
    /// The file ends before the array of a `.npy` file does.
    TruncatedNpyPayload,
    /// The file ends before its `.fbin` header does.
    TruncatedFbinHeader,
    /// The file ends before the vectors of a `.fbin` file do.
    TruncatedFbinPayload,
}

/// Why a dataset cannot be read.
#[derive(Debug)]
pub enum DatasetError {
    /// The file name's extension, if it has one, stands for neither format.
    UnsupportedExtension(Option<String>),
    /// The contents are not those of a file of the format.
    Malformed(FormatError),
}

/// The bytes that a `.npy` file begins with.
pub open spec fn npy_magic() -> Seq<u8> {
    seq![0x93u8, 0x4e, 0x55, 0x4d, 0x50, 0x59]
}

/// The format that a file name's extension stands for.
pub open spec fn format_of(extension: Option<Seq<char>>) -> Option<Format> {
    match extension {
        None => None,
        Some(e) => if e == "npy"@ {
            Some(Format::Npy)
        } else if e == "fbin"@ || e == "bin"@ {
            Some(Format::Fbin)
        } else {
            None
        },
    }
}

/// The numbers that the fields of a shape write; nothing if one of the fields
/// is not a number.
pub open spec fn dims_of(fields: Seq<Seq<char>>) -> Option<Seq<nat>>
    decreases fields.len(),
{
    if fields.len() == 0 {
        Some(seq![])
    } else {
        match (
            dims_of(fields.drop_last()),
            number::uint_of(text::trimmed(fields.last()), usize::MAX as nat),
        ) {
            (Some(before), Some(n)) => Some(before.push(n)),
            _ => None,
        }
    }
}

/// The fields of a tuple, given what stands between its parentheses. A final
/// comma ends the last field.
pub open spec fn tuple_fields(inner: Seq<char>) -> Seq<Seq<char>> {
    let fields = text::pieces(inner, ',');
    if fields.len() > 1 && text::trimmed(fields.last()).len() == 0 {
        fields.drop_last()
    } else {
        fields
    }
}

/// Whether `name` stands in `h` at position `i`, in single or double quotes.
pub open spec fn quoted_at(h: Seq<char>, name: Seq<char>, i: int) -> bool {
    text::stands_at(h, "'"@ + name + "'"@, i) || text::stands_at(h, "\""@ + name + "\""@, i)
}

/// What follows the key `name` at position `i` of the text `h` of a header,
/// from its value on; nothing if that key does not stand there. White space
/// may stand around the colon.
pub open spec fn value_after(h: Seq<char>, name: Seq<char>, i: int) -> Option<Seq<char>> {
    if quoted_at(h, name, i) {
        let rest = text::trimmed_start(h.skip(i + name.len() + 2));
        if rest.len() > 0 && rest[0] == ':' {
            Some(text::trimmed_start(rest.drop_first()))
        } else {
            None
        }
    } else {
        None
    }
}

/// Whether the value that `v` begins with is the string `<f4`.
pub open spec fn begins_with_f4(v: Seq<char>) -> bool {
    quoted_at(v, "<f4"@, 0) && {
        let rest = text::trimmed_start(v.skip(5));
        rest.len() == 0 || rest[0] == ',' || rest[0] == '}'
    }
}

/// Whether the text `h` of a `.npy` header says that the items are
/// little-endian float32: the key `descr` stands in it, and always with the
/// value `<f4`.
pub open spec fn is_float32(h: Seq<char>) -> bool {
    &&& exists|i: int| #[trigger] value_after(h, "descr"@, i) is Some
    &&& forall|i: int|
        match #[trigger] value_after(h, "descr"@, i) {
            Some(v) => begins_with_f4(v),
            None => true,
        }
}

/// Whether the text `h` of a `.npy` header says nothing else than that the
/// array is stored row by row: wherever the key `fortran_order` stands in it,
/// the value is `False`.
pub open spec fn is_c_order(h: Seq<char>) -> bool {
    forall|i: int|
        match #[trigger] value_after(h, "fortran_order"@, i) {
            Some(v) => text::stands_at(v, "False"@, 0),
            None => true,
        }
}

/// What stands between the parentheses of the tuple that follows `'shape':` in
/// the text `h` of a `.npy` header.
pub open spec fn shape_tuple(h: Seq<char>) -> Result<Seq<char>, FormatError> {
    match text::found_from(h, "'shape':"@, 0) {
        None => Err(FormatError::NoNpyShape),
        Some(key) => {
            let value = text::trimmed_start(h.skip(key + "'shape':"@.len()));
            let close = text::until_char(value, ')') as int;
            if value.len() == 0 || value[0] != '(' || close >= value.len() {
                Err(FormatError::MalformedNpyShape)
            } else {
                Ok(value.subrange(1, close))
            }
        },
    }
}

/// The `(n, dim)` that the text `h` of a `.npy` header gives.
pub open spec fn npy_shape(h: Seq<char>) -> Result<(nat, nat), FormatError> {
    if !is_float32(h) {
        Err(FormatError::NotFloat32)
    } else if !is_c_order(h) {
        Err(FormatError::FortranOrder)
    } else {
        match shape_tuple(h) {
            Err(e) => Err(e),
            Ok(inner) => match dims_of(tuple_fields(inner)) {
                Some(dims) => if dims.len() == 2 {
                    Ok((dims[0], dims[1]))
                } else {
                    Err(FormatError::NotTwoDimensional)
                },
                None => Err(FormatError::NotTwoDimensional),
            },
        }
    }
}

/// How many bytes of a `.npy` file stand before its array, from the first ten
/// of them.
pub open spec fn npy_span(b: Seq<u8>) -> Result<nat, FormatError>
    recommends
        b.len() >= 10,
{
    if b.take(6) != npy_magic() {
        Err(FormatError::NotNpy)
    } else if b[6] != 1 || b[7] != 0 {
        Err(FormatError::NpyVersion)
    } else {
        Ok(10 + encoding::le16(b, 8))
    }
}

/// Where the array of the `.npy` file `b` begins, and its shape.
pub open spec fn npy_layout(b: Seq<u8>) -> Result<(nat, nat, nat), FormatError>
    recommends
        b.len() >= 10,
{
    match npy_span(b) {
        Err(e) => Err(e),
        Ok(span) => if span > b.len() {
            Err(FormatError::TruncatedNpyHeader)
        } else if !valid_utf8(b.subrange(10, span as int)) {
            Err(FormatError::NonUtf8NpyHeader)
        } else {
            match npy_shape(decode_utf8(b.subrange(10, span as int))) {
                Err(e) => Err(e),
                Ok(shape) => Ok((span, shape.0, shape.1)),
            }
        },
    }
}

/// How many bytes of a file stand before its vectors, from its first ten bytes
/// or all of them.
pub open spec fn span_of(format: Format, b: Seq<u8>) -> Result<nat, FormatError> {
    match format {
        Format::Npy => if b.len() < 10 {
            Err(FormatError::TruncatedNpyHeader)
        } else {
            npy_span(b)
        },
        Format::Fbin => Ok(8),
    }
}

/// The `(byte_offset, n, dim)` of the file `b`: where its vectors begin, and
/// their shape.
pub open spec fn header_of(format: Format, b: Seq<u8>) -> Result<(nat, nat, nat), FormatError> {
    match format {
        Format::Npy => if b.len() < 10 {
            Err(FormatError::TruncatedNpyHeader)
        } else {
            npy_layout(b)
        },
        Format::Fbin => if b.len() < 8 {
            Err(FormatError::TruncatedFbinHeader)
        } else {
            Ok((8, encoding::le32(b, 0), encoding::le32(b, 4)))
        },
    }
}

/// The `count` components that stand in `b` from `offset` on.
pub open spec fn components(b: Seq<u8>, offset: nat, count: nat) -> Seq<u32> {
    Seq::new(count, |i: int| encoding::le32(b, offset + 4 * i) as u32)
}

/// The vectors of the file `b`, with their number and their dimension. Bytes
/// after the last vector do not matter.
pub open spec fn vectors_of(format: Format, b: Seq<u8>) -> Result<
    (Seq<u32>, nat, nat),
    FormatError,
> {
    if format == Format::Npy && b.len() < 10 {
        Err(FormatError::NotNpy)
    } else {
        match header_of(format, b) {
            Err(e) => Err(e),
            Ok(h) => if h.0 + 4 * (h.1 * h.2) <= b.len() {
                Ok((components(b, h.0, h.1 * h.2), h.1, h.2))
            } else if format == Format::Npy {
                Err(FormatError::TruncatedNpyPayload)
            } else {
                Err(FormatError::TruncatedFbinPayload)
            },
        }
    }
}

/// The text of an extension, if there is one.
pub open spec fn extension_text(extension: Option<&str>) -> Option<Seq<char>> {
    match extension {
        Some(e) => Some(e@),
        None => None,
    }
}

/// Whether `e` is the error for an extension that stands for neither format.
pub open spec fn is_unsupported(e: DatasetError, extension: Option<&str>) -> bool {
    match (e, extension) {
        (DatasetError::UnsupportedExtension(Some(s)), Some(x)) => s@ == x@,
        (DatasetError::UnsupportedExtension(None), None) => true,
        _ => false,
    }
}

/// The format that a file name's extension stands for.
pub fn format_by_extension(extension: Option<&str>) -> (r: Result<Format, DatasetError>)
    ensures
        match r {
            Ok(f) => format_of(extension_text(extension)) == Some(f),
            Err(e) => format_of(extension_text(extension)) is None && is_unsupported(e, extension),
        },
{
    match extension {
        None => Err(DatasetError::UnsupportedExtension(None)),
        Some(e) => if same_text(e, "npy") {
            Ok(Format::Npy)
        } else if same_text(e, "fbin") || same_text(e, "bin") {
            Ok(Format::Fbin)
        } else {
            Err(DatasetError::UnsupportedExtension(Some(e.to_owned())))
        },
    }
}

/// Whether `name` stands in `h` at position `i`, in quotes.
fn is_quoted_at(h: &Vec<char>, name: &str, i: usize) -> (r: bool)
    requires
        i <= h.len(),
    ensures
        r == quoted_at(h@, name@, i as int),
{
    let mut single = "'".to_owned();
    single.append(name);
    single.append("'");
    let mut double = "\"".to_owned();
    double.append(name);
    double.append("\"");
    is_at(h, single.as_str(), i) || is_at(h, double.as_str(), i)
}

/// Where the value of the key `name` at position `i` begins.
fn find_value(h: &Vec<char>, name: &str, i: usize) -> (r: Option<usize>)
    requires
        i <= h.len(),
    ensures
        match r {
            Some(at) => at <= h.len() && value_after(h@, name@, i as int) == Some(
                h@.skip(at as int),
            ),
            None => value_after(h@, name@, i as int) is None,
        },
{
    if !is_quoted_at(h, name, i) {
        return None;
    }
    proof {
        reveal_strlit("'");
        reveal_strlit("\"");
    }
    let len = chars_of(name).len();
    let colon = skip_space(h, i + len + 2);
    let ghost rest = h@.skip(colon as int);
    if colon < h.len() && h[colon] == ':' {
        assert(rest.drop_first() =~= h@.skip(colon + 1));
        Some(skip_space(h, colon + 1))
    } else {
        None
    }
}

/// Whether the value at position `at` is the string `<f4`.
fn is_f4_at(h: &Vec<char>, at: usize) -> (r: bool)
    requires
        at <= h.len(),
    ensures
        r == begins_with_f4(h@.skip(at as int)),
{
    let ghost v = h@.skip(at as int);
    proof {
        reveal_strlit("'");
        reveal_strlit("\"");
        reveal_strlit("<f4");
        lemma_quoted_in_rest(h@, "<f4"@, at as int);
    }
    if !is_quoted_at(h, "<f4", at) {
        return false;
    }
    let next = skip_space(h, at + 5);
    assert(v.skip(5) =~= h@.skip(at + 5));
    next == h.len() || h[next] == ',' || h[next] == '}'
}

/// What stands at position `at` is what the text from there on begins with.
proof fn lemma_stands_in_rest(h: Seq<char>, pat: Seq<char>, at: int)
    requires
        0 <= at <= h.len(),
    ensures
        text::stands_at(h.skip(at), pat, 0) == text::stands_at(h, pat, at),
{
    if at + pat.len() <= h.len() {
        assert(h.skip(at).subrange(0, pat.len() as int) =~= h.subrange(at, at + pat.len()));
    }
}

proof fn lemma_quoted_in_rest(h: Seq<char>, name: Seq<char>, at: int)
    requires
        0 <= at <= h.len(),
    ensures
        quoted_at(h.skip(at), name, 0) == quoted_at(h, name, at),
{
    lemma_stands_in_rest(h, "'"@ + name + "'"@, at);
    lemma_stands_in_rest(h, "\""@ + name + "\""@, at);
}

/// Whether the items are little-endian float32.
fn says_float32(h: &Vec<char>) -> (r: bool)
    ensures
        r == is_float32(h@),
{
    let mut found = false;
    let mut i: usize = 0;
    while i < h.len()
        invariant
            i <= h.len(),
            found == exists|j: int| 0 <= j < i && #[trigger] value_after(h@, "descr"@, j) is Some,
            forall|j: int|
                0 <= j < i ==> match #[trigger] value_after(h@, "descr"@, j) {
                    Some(v) => begins_with_f4(v),
                    None => true,
                },
        decreases h.len() - i,
    {
        match find_value(h, "descr", i) {
            Some(at) => {
                assert(value_after(h@, "descr"@, i as int) == Some(h@.skip(at as int)));
                if !is_f4_at(h, at) {
                    return false;
                }
                found = true;
            },
            None => {},
        }
        i += 1;
    }
    proof {
        lemma_keys_stand_inside(h@, "descr"@);
    }
    found
}

/// Whether the array is stored row by row.
fn says_c_order(h: &Vec<char>) -> (r: bool)
    ensures
        r == is_c_order(h@),
{
    let mut i: usize = 0;
    while i < h.len()
        invariant
            i <= h.len(),
            forall|j: int|
                0 <= j < i ==> match #[trigger] value_after(h@, "fortran_order"@, j) {
                    Some(v) => text::stands_at(v, "False"@, 0),
                    None => true,
                },
        decreases h.len() - i,
    {
        match find_value(h, "fortran_order", i) {
            Some(at) => {
                assert(value_after(h@, "fortran_order"@, i as int) == Some(h@.skip(at as int)));
                proof {
                    lemma_stands_in_rest(h@, "False"@, at as int);
                }
                if !is_at(h, "False", at) {
                    return false;
                }
            },
            None => {},
        }
        i += 1;
    }
    proof {
        lemma_keys_stand_inside(h@, "fortran_order"@);
    }
    true
}

/// A key stands at one of the positions of the text.
proof fn lemma_keys_stand_inside(h: Seq<char>, name: Seq<char>)
    ensures
        forall|i: int| #[trigger] value_after(h, name, i) is Some ==> 0 <= i < h.len(),
{
    reveal_strlit("'");
    reveal_strlit("\"");
}

/// Fields that begin with ones that are not all numbers are not all numbers.
proof fn lemma_dims_of_more(fields: Seq<Seq<char>>, n: int)
    requires
        0 <= n <= fields.len(),
        dims_of(fields.take(n)) is None,
    ensures
        dims_of(fields) is None,
    decreases fields.len() - n,
{
    if n < fields.len() {
        assert(fields.take(n + 1).drop_last() =~= fields.take(n));
        lemma_dims_of_more(fields, n + 1);
    } else {
        assert(fields.take(n) =~= fields);
    }
}

/// The numbers that the first `count` fields write.
fn parse_dims(fields: &Vec<&str>, count: usize) -> (r: Option<Vec<usize>>)
    requires
        count <= fields.len(),
    ensures
        match r {
            Some(dims) => dims_of(text::texts(fields@).take(count as int)) == Some(
                dims@.map_values(|d: usize| d as nat),
            ),
            None => dims_of(text::texts(fields@).take(count as int)) is None,
        },
{
    let ghost all = text::texts(fields@).take(count as int);
    let mut dims: Vec<usize> = Vec::new();
    let mut i: usize = 0;
    assert(all.take(0) =~= seq![]);
    assert(dims@.map_values(|d: usize| d as nat) =~= seq![]);
    while i < count
        invariant
            i <= count <= fields.len(),
            all == text::texts(fields@).take(count as int),
            dims_of(all.take(i as int)) == Some(dims@.map_values(|d: usize| d as nat)),
        decreases count - i,
    {
        assert(all.take(i + 1).drop_last() =~= all.take(i as int));
        assert(all.take(i + 1).last() == fields@[i as int]@);
        match read_uint(trim(fields[i]), usize::MAX as u64) {
            Some(n) => {
                let ghost before = dims@.map_values(|d: usize| d as nat);
                dims.push(n as usize);
                assert(dims@.map_values(|d: usize| d as nat) =~= before.push(n as nat));
            },
            None => {
                proof {
                    lemma_dims_of_more(all, i + 1);
                }
                return None;
            },
        }
        i += 1;
    }
    assert(all.take(i as int) =~= all);
    Some(dims)
}

/// Parses the `(n, dim)` shape from the text of a `.npy` header.
pub fn parse_npy_shape(header: &str) -> (r: Result<(usize, usize), FormatError>)
    ensures
        match r {
            Ok(shape) => npy_shape(header@) == Ok::<(nat, nat), FormatError>(
                (shape.0 as nat, shape.1 as nat),
            ),
            Err(e) => npy_shape(header@) == Err::<(nat, nat), FormatError>(e),
        },
{
    let h = chars_of(header);
    if !says_float32(&h) {
        return Err(FormatError::NotFloat32);
    }
    if !says_c_order(&h) {
        return Err(FormatError::FortranOrder);
    }
    let key = match find_from(&h, "'shape':", 0) {
        None => {
            return Err(FormatError::NoNpyShape);
        },
        Some(key) => key,
    };
    proof {
        text::lemma_found_from(h@, "'shape':"@, 0);
        reveal_strlit("'shape':");
    }
    let open = skip_space(&h, key + 8);
    let ghost value = h@.skip(open as int);
    let close = index_of_char(&h, open, ')');
    if open == h.len() || h[open] != '(' || close == h.len() {
        return Err(FormatError::MalformedNpyShape);
    }
    assert(close > open);
    let inner = header.substring_char(open + 1, close);
    assert(inner@ =~= value.subrange(1, close - open));
    let fields = split_pieces(inner, ',');
    let ghost all = text::texts(fields@);
    proof {
        text::lemma_pieces_len(inner@, ',');
        assert(all.last() == fields@[fields@.len() - 1]@);
    }
    let last = fields.len() - 1;
    let count = if fields.len() > 1 && trim(fields[last]).is_empty() {
        last
    } else {
        fields.len()
    };
    assert(all.take(count as int) =~= tuple_fields(inner@));
    match parse_dims(&fields, count) {
        Some(dims) => if dims.len() == 2 {
            Ok((dims[0], dims[1]))
        } else {
            Err(FormatError::NotTwoDimensional)
        },
        None => Err(FormatError::NotTwoDimensional),
    }
}

/// How many bytes of a `.npy` file stand before its array.
fn read_npy_span(bytes: &[u8]) -> (r: Result<usize, FormatError>)
    requires
        bytes.len() >= 10,
    ensures
        match r {
            Ok(span) => npy_span(bytes@) == Ok::<nat, FormatError>(span as nat),
            Err(e) => npy_span(bytes@) == Err::<nat, FormatError>(e),
        },
{
    let magic = bytes[0] == 0x93 && bytes[1] == 0x4e && bytes[2] == 0x55 && bytes[3] == 0x4d
        && bytes[4] == 0x50 && bytes[5] == 0x59;
    proof {
        let head = bytes@.take(6);
        if magic {
            assert(head =~= npy_magic());
        } else {
            assert(head[0] == bytes@[0] && head[1] == bytes@[1] && head[2] == bytes@[2] && head[3]
                == bytes@[3] && head[4] == bytes@[4] && head[5] == bytes@[5]);
        }
    }
    if !magic {
        return Err(FormatError::NotNpy);
    }
    if bytes[6] != 1 || bytes[7] != 0 {
        return Err(FormatError::NpyVersion);
    }
    Ok(10 + encoding::read_le16(bytes, 8) as usize)
}

/// Where the array of a `.npy` file begins, and its shape.
fn read_npy_header(bytes: &[u8]) -> (r: Result<(usize, usize, usize), FormatError>)
    requires
        bytes.len() >= 10,
    ensures
        match r {
            Ok(h) => npy_layout(bytes@) == Ok::<(nat, nat, nat), FormatError>(
                (h.0 as nat, h.1 as nat, h.2 as nat),
            ) && h.0 <= bytes.len(),
            Err(e) => npy_layout(bytes@) == Err::<(nat, nat, nat), FormatError>(e),
        },
{
    let span = match read_npy_span(bytes) {
        Ok(span) => span,
        Err(e) => {
            return Err(e);
        },
    };
    if span > bytes.len() {
        return Err(FormatError::TruncatedNpyHeader);
    }
    match encoding::text_strict(slice_subrange(bytes, 10, span)) {
        None => Err(FormatError::NonUtf8NpyHeader),
        Some(header) => match parse_npy_shape(header) {
            Ok(shape) => Ok((span, shape.0, shape.1)),
            Err(e) => Err(e),
        },
    }
}

/// Where the vectors of a `.fbin` file begin, and their shape.
fn read_fbin_header(bytes: &[u8]) -> (r: Result<(usize, usize, usize), FormatError>)
    ensures
        match r {
            Ok(h) => header_of(Format::Fbin, bytes@) == Ok::<(nat, nat, nat), FormatError>(
                (h.0 as nat, h.1 as nat, h.2 as nat),
            ) && h.0 <= bytes.len(),
            Err(e) => header_of(Format::Fbin, bytes@) == Err::<(nat, nat, nat), FormatError>(e),
        },
{
    if bytes.len() < 8 {
        return Err(FormatError::TruncatedFbinHeader);
    }
    let n = encoding::read_le32(bytes, 0) as usize;
    let dim = encoding::read_le32(bytes, 4) as usize;
    Ok((8, n, dim))
}

/// The `count` components of `bytes` from `offset` on.
fn read_components(bytes: &[u8], offset: usize, count: usize) -> (data: Vec<u32>)
    requires
        offset + 4 * count <= bytes.len(),
    ensures
        data@ == components(bytes@, offset as nat, count as nat),
{
    let mut data: Vec<u32> = Vec::new();
    let mut i: usize = 0;
    while i < count
        invariant
            i <= count,
            offset + 4 * count <= bytes.len(),
            data@ =~= components(bytes@, offset as nat, i as nat),
        decreases count - i,
    {
        data.push(encoding::read_le32(bytes, offset + 4 * i));
        i += 1;
    }
    data
}

/// How many bytes at the start of a dataset file hold its format header, so
/// that a reader need fetch no more of a large file than these.
///
/// `prefix` is the first ten bytes of the file, or all of it if it is shorter.
pub fn header_span(extension: Option<&str>, prefix: &[u8]) -> (r: Result<usize, DatasetError>)
    ensures
        match (format_of(extension_text(extension)), r) {
            (None, Err(e)) => is_unsupported(e, extension),
            (Some(f), Ok(span)) => span_of(f, prefix@) == Ok::<nat, FormatError>(span as nat),
            (Some(f), Err(DatasetError::Malformed(e))) => span_of(f, prefix@) == Err::<
                nat,
                FormatError,
            >(e),
            _ => false,
        },
{
    match format_by_extension(extension) {
        Err(e) => Err(e),
        Ok(Format::Fbin) => Ok(8),
        Ok(Format::Npy) => if prefix.len() < 10 {
            Err(DatasetError::Malformed(FormatError::TruncatedNpyHeader))
        } else {
            match read_npy_span(prefix) {
                Ok(span) => Ok(span),
                Err(e) => Err(DatasetError::Malformed(e)),
            }
        },
    }
}

/// Parses the format header of a dataset file into `(byte_offset, n, dim)`:
/// where the vectors begin, and their shape.
///
/// `head` is the file, or as much of its start as [`header_span`] asks for.
pub fn read_header(extension: Option<&str>, head: &[u8]) -> (r: Result<
    (usize, usize, usize),
    DatasetError,
>)
    ensures
        match (format_of(extension_text(extension)), r) {
            (None, Err(e)) => is_unsupported(e, extension),
            (Some(f), Ok(h)) => header_of(f, head@) == Ok::<(nat, nat, nat), FormatError>(
                (h.0 as nat, h.1 as nat, h.2 as nat),
            ),
            (Some(f), Err(DatasetError::Malformed(e))) => header_of(f, head@) == Err::<
                (nat, nat, nat),
                FormatError,
            >(e),
            _ => false,
        },
{
    let header = match format_by_extension(extension) {
        Err(e) => {
            return Err(e);
        },
        Ok(Format::Fbin) => read_fbin_header(head),
        Ok(Format::Npy) => if head.len() < 10 {
            Err(FormatError::TruncatedNpyHeader)
        } else {
            read_npy_header(head)
        },
    };
    match header {
        Ok(h) => Ok(h),
        Err(e) => Err(DatasetError::Malformed(e)),
    }
}

/// Reads the vectors of a dataset file: their components row by row, their
/// number and their dimension.
pub fn read_vectors(extension: Option<&str>, bytes: &[u8]) -> (r: Result<
    (Vec<u32>, usize, usize),
    DatasetError,
>)
    ensures
        match (format_of(extension_text(extension)), r) {
            (None, Err(e)) => is_unsupported(e, extension),
            (Some(f), Ok(v)) => vectors_of(f, bytes@) == Ok::<(Seq<u32>, nat, nat), FormatError>(
                (v.0@, v.1 as nat, v.2 as nat),
            ),
            (Some(f), Err(DatasetError::Malformed(e))) => vectors_of(f, bytes@) == Err::<
                (Seq<u32>, nat, nat),
                FormatError,
            >(e),
            _ => false,
        },
{
    let format = match format_by_extension(extension) {
        Ok(format) => format,
        Err(e) => {
            return Err(e);
        },
    };
    let (header, truncated) = match format {
        Format::Fbin => (read_fbin_header(bytes), FormatError::TruncatedFbinPayload),
        Format::Npy => if bytes.len() < 10 {
            (Err(FormatError::NotNpy), FormatError::TruncatedNpyPayload)
        } else {
            (read_npy_header(bytes), FormatError::TruncatedNpyPayload)
        },
    };
    let (offset, n, dim) = match header {
        Ok(h) => h,
        Err(e) => {
            return Err(DatasetError::Malformed(e));
        },
    };
    let count = match n.checked_mul(dim) {
        Some(count) => count,
        None => {
            return Err(DatasetError::Malformed(truncated));
        },
    };
    if count > (bytes.len() - offset) / 4 {
        return Err(DatasetError::Malformed(truncated));
    }
    let data = read_components(bytes, offset, count);
    Ok((data, n, dim))
}

/// Whether `s` consists of printable ASCII other than quotes and backslashes.
pub open spec fn is_plain(s: Seq<char>) -> bool {
    forall|i: int|
        0 <= i < s.len() ==> {
            let c = #[trigger] s[i];
            0x20 <= c as u32 <= 0x7e && c != '"' && c != '\'' && c != '\\'
        }
}

/// What `format!("{:?}")` makes of a text that is not plain.
pub uninterp spec fn escaped_text(s: Seq<char>) -> Seq<char>;

/// A text in quotes, with escapes for what cannot stand there as it is.
pub open spec fn quoted_text(s: Seq<char>) -> Seq<char> {
    if is_plain(s) {
        "\""@ + s + "\""@
    } else {
        escaped_text(s)
    }
}

/// `format!("{:?}")` of a string: the text in quotes, if it consists of
/// printable ASCII other than quotes and backslashes. Of another text it is
/// only said that the same text gives the same result; there the function
/// escapes what it does not print as it is.
#[verifier::external_body]
fn quoted(s: &str) -> (r: String)
    ensures
        is_plain(s@) ==> r@ == "\""@ + s@ + "\""@,
        !is_plain(s@) ==> r@ == escaped_text(s@),
{
    format!("{:?}", s)
}

/// A format error in words.
pub open spec fn format_message(e: FormatError) -> Seq<char> {
    match e {
        FormatError::NotNpy => "not a .npy file (bad magic)"@,
        FormatError::NpyVersion => "only NumPy v1.0 .npy is supported"@,
        FormatError::TruncatedNpyHeader => "truncated .npy header"@,
        FormatError::NonUtf8NpyHeader => "non-utf8 .npy header"@,
        FormatError::NotFloat32 => "only little-endian float32 (<f4) .npy is supported"@,
        FormatError::FortranOrder => "only C-order .npy is supported"@,
        FormatError::NoNpyShape => "no shape in .npy header"@,
        FormatError::MalformedNpyShape => "malformed .npy shape"@,
        FormatError::NotTwoDimensional => "expected a 2-D .npy array"@,
        FormatError::TruncatedNpyPayload => "truncated .npy payload"@,
        FormatError::TruncatedFbinHeader => "truncated .fbin header"@,
        FormatError::TruncatedFbinPayload => "truncated .fbin payload"@,
    }
}

/// A dataset error in words.
pub open spec fn dataset_message(e: DatasetError) -> Seq<char> {
    match e {
        DatasetError::UnsupportedExtension(x) => "unsupported input extension "@ + quoted_text(
            match x {
                Some(s) => s@,
                None => ""@,
            },
        ) + " (expected .npy or .fbin)"@,
        DatasetError::Malformed(f) => format_message(f),
    }
}

impl FormatError {
    /// The error in words.
    pub fn message(&self) -> (s: String)
        ensures
            s@ == format_message(*self),
    {
        let s = match self {
            FormatError::NotNpy => "not a .npy file (bad magic)",
            FormatError::NpyVersion => "only NumPy v1.0 .npy is supported",
            FormatError::TruncatedNpyHeader => "truncated .npy header",
            FormatError::NonUtf8NpyHeader => "non-utf8 .npy header",
            FormatError::NotFloat32 => "only little-endian float32 (<f4) .npy is supported",
            FormatError::FortranOrder => "only C-order .npy is supported",
            FormatError::NoNpyShape => "no shape in .npy header",
            FormatError::MalformedNpyShape => "malformed .npy shape",
            FormatError::NotTwoDimensional => "expected a 2-D .npy array",
            FormatError::TruncatedNpyPayload => "truncated .npy payload",
            FormatError::TruncatedFbinHeader => "truncated .fbin header",
            FormatError::TruncatedFbinPayload => "truncated .fbin payload",
        };
        s.to_owned()
    }
}

impl DatasetError {
    /// What kind of error this is.
    pub fn kind(&self) -> (r: ErrorKind)
        ensures
            r == match *self {
                DatasetError::UnsupportedExtension(x) => ErrorKind::InvalidInput,
                DatasetError::Malformed(f) => ErrorKind::InvalidData,
            },
    {
        match self {
            DatasetError::UnsupportedExtension(_) => ErrorKind::InvalidInput,
            DatasetError::Malformed(_) => ErrorKind::InvalidData,
        }
    }

    /// The error in words.
    pub fn message(&self) -> (s: String)
        ensures
            s@ == dataset_message(*self),
    {
        match self {
            DatasetError::UnsupportedExtension(x) => {
                let shown = match x {
                    Some(s) => quoted(s.as_str()),
                    None => quoted(""),
                };
                let mut s = "unsupported input extension ".to_owned();
                s.append(shown.as_str());
                s.append(" (expected .npy or .fbin)");
                s
            },
            DatasetError::Malformed(f) => f.message(),
        }
    }
}

} // verus!
