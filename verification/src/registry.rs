//! The registry file of a shard: the names and dimensions of its VINDEXes.
//!
//! The file is `[u32 count]`, then for each entry
//! `[u16 name_len][name][u32 dim]`, all little-endian.

use crate::encoding;
use crate::error::ErrorKind;
use vstd::prelude::*;
use vstd::slice::*;
use vstd::string::*;
use vstd::utf8;

verus! {

/// Why a VINDEX cannot be registered.
#[derive(Debug, Clone, Copy, PartialEq, Eq, Structural)]
pub enum RegistryError {
    /// The name takes more bytes than two bytes can count.
    NameTooLong,
    /// The dimension does not fit in four bytes.
    DimTooLarge,
}

/// The `count` entries that stand in `b` from `i` on, each as the bytes of its
/// name and its dimension; nothing if `b` ends before they do.
pub open spec fn entries_from(b: Seq<u8>, i: int, count: nat) -> Option<Seq<(Seq<u8>, nat)>>
    decreases count,
{
    if count == 0 {
        Some(seq![])
    } else if i + 2 > b.len() {
        None
    } else {
        let name = i + 2;
        let dim = name + encoding::le16(b, i);
        if dim + 4 > b.len() {
            None
        } else {
            match entries_from(b, dim + 4, (count - 1) as nat) {
                None => None,
                Some(rest) => Some(seq![(b.subrange(name, dim), encoding::le32(b, dim))] + rest),
            }
        }
    }
}

/// The entries of the registry file `b`; nothing if `b` is truncated.
pub open spec fn entries_of(b: Seq<u8>) -> Option<Seq<(Seq<u8>, nat)>> {
    if b.len() < 4 {
        None
    } else {
        entries_from(b, 4, encoding::le32(b, 0))
    }
}

/// The entries with the texts of their names.
pub open spec fn named(entries: Seq<(Seq<u8>, nat)>) -> Seq<(Seq<char>, nat)> {
    entries.map_values(|e: (Seq<u8>, nat)| (encoding::text_of(e.0), e.1))
}

/// What a registry file says. A missing file and a truncated one say that
/// there are no entries.
pub open spec fn registered(file: Option<Seq<u8>>) -> Seq<(Seq<char>, nat)> {
    match file {
        None => seq![],
        Some(b) => match entries_of(b) {
            None => seq![],
            Some(entries) => named(entries),
        },
    }
}

/// The registry file with the one entry `(name, dim)`.
pub open spec fn registry_file(name: Seq<u8>, dim: nat) -> Seq<u8> {
    encoding::le32_bytes(1) + encoding::le16_bytes(name.len()) + name + encoding::le32_bytes(dim)
}

/// The entries that a vector of name bytes and dimensions holds.
pub open spec fn raw_view(v: Seq<(Vec<u8>, usize)>) -> Seq<(Seq<u8>, nat)> {
    v.map_values(|e: (Vec<u8>, usize)| (e.0@, e.1 as nat))
}

/// The entries that a vector of names and dimensions holds.
pub open spec fn entries_view(v: Seq<(String, usize)>) -> Seq<(Seq<char>, nat)> {
    v.map_values(|e: (String, usize)| (e.0@, e.1 as nat))
}

/// A registry file that was written for one VINDEX names that VINDEX, with
/// its dimension, and no other.
pub proof fn law_registry_is_read_back(name: Seq<char>, dim: nat)
    requires
        utf8::encode_utf8(name).len() <= u16::MAX,
        dim <= u32::MAX,
    ensures
        registered(Some(registry_file(utf8::encode_utf8(name), dim))) == seq![(name, dim)],
{
    let bytes = utf8::encode_utf8(name);
    let b = registry_file(bytes, dim);
    let end = 6 + bytes.len() as int;
    assert(b.subrange(0, 4) =~= encoding::le32_bytes(1));
    assert(b.subrange(4, 6) =~= encoding::le16_bytes(bytes.len()));
    assert(b.subrange(6, end) =~= bytes);
    assert(b.subrange(end, end + 4) =~= encoding::le32_bytes(dim));
    encoding::lemma_le32_is_read_back(1, b, 0);
    encoding::lemma_le16_is_read_back(bytes.len(), b, 4);
    encoding::lemma_le32_is_read_back(dim, b, end);
    utf8::encode_utf8_valid_utf8(name);
    utf8::encode_utf8_decode_utf8(name);
    assert(entries_from(b, end + 4, 0) == Some(Seq::<(Seq<u8>, nat)>::empty()));
    assert(entries_from(b, 4, 1) == Some(seq![(bytes, dim)] + Seq::<(Seq<u8>, nat)>::empty()));
    assert(seq![(bytes, dim)] + Seq::<(Seq<u8>, nat)>::empty() =~= seq![(bytes, dim)]);
    assert(named(seq![(bytes, dim)]) =~= seq![(name, dim)]);
}

/// The bytes of entries, one after the other.
pub open spec fn entries_bytes(entries: Seq<(Seq<u8>, nat)>) -> Seq<u8>
    decreases entries.len(),
{
    if entries.len() == 0 {
        seq![]
    } else {
        let e = entries[0];
        encoding::le16_bytes(e.0.len()) + e.0 + encoding::le32_bytes(e.1) + entries_bytes(
            entries.drop_first(),
        )
    }
}

/// The registry file of any number of entries.
pub open spec fn registry_of(entries: Seq<(Seq<u8>, nat)>) -> Seq<u8> {
    encoding::le32_bytes(entries.len()) + entries_bytes(entries)
}

/// Whether names and dimensions fit into a registry.
pub open spec fn can_be_registered(entries: Seq<(Seq<u8>, nat)>) -> bool {
    entries.len() <= u32::MAX && forall|i: int|
        0 <= i < entries.len() ==> (#[trigger] entries[i]).0.len() <= u16::MAX && entries[i].1
            <= u32::MAX
}

/// Three parts that stand in bytes one after the other.
#[verifier::rlimit(40)]
proof fn lemma_parts(before: Seq<u8>, a: Seq<u8>, n: Seq<u8>, d: Seq<u8>, tail: Seq<u8>)
    requires
        a.len() == 2,
        d.len() == 4,
    ensures
        ({
            let b = before + (a + n + d) + tail;
            let i = before.len() as int;
            let dim = i + 2 + n.len();
            &&& b.len() >= dim + 4
            &&& b.subrange(i, i + 2) == a
            &&& b.subrange(i + 2, dim) == n
            &&& b.subrange(dim, dim + 4) == d
            &&& (before + (a + n + d)).len() == dim + 4
        }),
{
    let b = before + (a + n + d) + tail;
    let i = before.len() as int;
    let dim = i + 2 + n.len();
    assert(b.subrange(i, i + 2) =~= a);
    assert(b.subrange(i + 2, dim) =~= n);
    assert(b.subrange(dim, dim + 4) =~= d);
}

#[verifier::rlimit(40)]
proof fn lemma_entries_are_read_back(
    before: Seq<u8>,
    entries: Seq<(Seq<u8>, nat)>,
    rest: Seq<u8>,
)
    requires
        can_be_registered(entries),
    ensures
        entries_from(before + entries_bytes(entries) + rest, before.len() as int, entries.len())
            == Some(entries),
    decreases entries.len(),
{
    let b = before + entries_bytes(entries) + rest;
    if entries.len() == 0 {
        assert(entries =~= seq![]);
    } else {
        let e = entries[0];
        let others = entries.drop_first();
        assert(e.0.len() <= u16::MAX && e.1 <= u32::MAX);
        assert forall|i: int| 0 <= i < others.len() implies (#[trigger] others[i]).0.len()
            <= u16::MAX && others[i].1 <= u32::MAX by {
            assert(others[i] == entries[i + 1]);
        }
        let own = encoding::le16_bytes(e.0.len()) + e.0 + encoding::le32_bytes(e.1);
        let tail = entries_bytes(others) + rest;
        let i = before.len() as int;
        let dim = i + 2 + e.0.len();
        lemma_parts(
            before,
            encoding::le16_bytes(e.0.len()),
            e.0,
            encoding::le32_bytes(e.1),
            tail,
        );
        assert(b == before + own + tail) by {
            assert(entries_bytes(entries) == own + entries_bytes(others));
            assert(before + (own + entries_bytes(others)) + rest =~= before + own + tail);
        }
        assert(before + own + entries_bytes(others) + rest =~= before + own + tail);
        lemma_entries_are_read_back(before + own, others, rest);
        encoding::lemma_le16_is_read_back(e.0.len(), b, i);
        encoding::lemma_le32_is_read_back(e.1, b, dim);
        assert(seq![e] + others =~= entries);
    }
}

proof fn lemma_registry_of(entries: Seq<(Seq<u8>, nat)>, rest: Seq<u8>)
    requires
        can_be_registered(entries),
    ensures
        entries_of(registry_of(entries) + rest) == Some(entries),
{
    let count = encoding::le32_bytes(entries.len());
    let b = registry_of(entries) + rest;
    lemma_entries_are_read_back(count, entries, rest);
    assert(b.subrange(0, 4) =~= count);
    encoding::lemma_le32_is_read_back(entries.len(), b, 0);
}

proof fn lemma_named(names: Seq<Seq<char>>, dims: Seq<nat>)
    requires
        names.len() == dims.len(),
    ensures
        named(Seq::new(names.len(), |i: int| (utf8::encode_utf8(names[i]), dims[i]))) == Seq::new(
            names.len(),
            |i: int| (names[i], dims[i]),
        ),
{
    let entries = Seq::new(names.len(), |i: int| (utf8::encode_utf8(names[i]), dims[i]));
    let wanted = Seq::new(names.len(), |i: int| (names[i], dims[i]));
    assert forall|i: int| 0 <= i < wanted.len() implies #[trigger] named(entries)[i]
        == wanted[i] by {
        utf8::encode_utf8_valid_utf8(names[i]);
        utf8::encode_utf8_decode_utf8(names[i]);
    }
    assert(named(entries) =~= wanted);
}

/// A registry of any number of entries is read back whole and in order, the
/// same name or dimension twice included, whatever bytes follow the last
/// entry.
pub proof fn law_every_entry_is_read_back(
    names: Seq<Seq<char>>,
    dims: Seq<nat>,
    rest: Seq<u8>,
)
    requires
        names.len() == dims.len() <= u32::MAX,
        forall|i: int|
            0 <= i < names.len() ==> utf8::encode_utf8(#[trigger] names[i]).len() <= u16::MAX
                && dims[i] <= u32::MAX,
    ensures
        registered(
            Some(
                registry_of(
                    Seq::new(names.len(), |i: int| (utf8::encode_utf8(names[i]), dims[i])),
                ) + rest,
            ),
        ) == Seq::new(names.len(), |i: int| (names[i], dims[i])),
{
    let entries = Seq::new(names.len(), |i: int| (utf8::encode_utf8(names[i]), dims[i]));
    assert forall|i: int| 0 <= i < entries.len() implies (#[trigger] entries[i]).0.len()
        <= u16::MAX && entries[i].1 <= u32::MAX by {
        assert(utf8::encode_utf8(names[i]).len() <= u16::MAX);
    }
    lemma_registry_of(entries, rest);
    lemma_named(names, dims);
}

/// The registry file that is written for one VINDEX is the registry of that
/// one entry.
pub proof fn law_a_build_registers_one_entry(name: Seq<u8>, dim: nat)
    ensures
        registry_file(name, dim) == registry_of(seq![(name, dim)]),
{
    let one = seq![(name, dim)];
    assert(one.drop_first() =~= seq![]);
    assert(entries_bytes(one.drop_first()) =~= seq![]);
    assert(registry_file(name, dim) =~= registry_of(one));
}

/// Where the `count` entries that stand in `b` from `i` on end.
pub open spec fn end_from(b: Seq<u8>, i: int, count: nat) -> int
    decreases count,
{
    if count == 0 {
        i
    } else {
        end_from(b, i + 2 + encoding::le16(b, i) + 4, (count - 1) as nat)
    }
}

proof fn lemma_cut_entries(b: Seq<u8>, i: int, count: nat, k: int)
    requires
        entries_from(b, i, count) is Some,
        0 <= i <= k < end_from(b, i, count),
        k <= b.len(),
    ensures
        entries_from(b.take(k), i, count) is None,
    decreases count,
{
    let c = b.take(k);
    if i + 2 <= k {
        let next = i + 2 + encoding::le16(b, i) + 4;
        assert(encoding::le16(c, i) == encoding::le16(b, i));
        if next <= k {
            lemma_cut_entries(b, next, (count - 1) as nat, k);
        }
    }
}

/// A registry file that is cut short anywhere before the end of its last
/// entry says that there are no entries.
pub proof fn law_truncated_registry_is_empty(b: Seq<u8>, k: int)
    requires
        entries_of(b) is Some,
        0 <= k <= b.len(),
        k < end_from(b, 4, encoding::le32(b, 0)),
    ensures
        registered(Some(b.take(k))) == Seq::<(Seq<char>, nat)>::empty(),
{
    if k >= 4 {
        assert(encoding::le32(b.take(k), 0) == encoding::le32(b, 0));
        lemma_cut_entries(b, 4, encoding::le32(b, 0), k);
    }
}

/// Parses a registry file into the bytes of the names and the dimensions;
/// nothing if the file is truncated.
pub fn parse_entries(b: &[u8]) -> (r: Option<Vec<(Vec<u8>, usize)>>)
    ensures
        match r {
            Some(v) => entries_of(b@) == Some(raw_view(v@)),
            None => entries_of(b@) is None,
        },
{
    if b.len() < 4 {
        return None;
    }
    let count = encoding::read_le32(b, 0);
    let mut out: Vec<(Vec<u8>, usize)> = Vec::new();
    let mut i: usize = 4;
    let mut left: u32 = count;
    assert(forall|rest: Seq<(Seq<u8>, nat)>| #[trigger] (raw_view(out@) + rest) =~= rest);
    while left > 0
        invariant
            4 <= i <= b.len(),
            b.len() >= 4,
            match entries_from(b@, i as int, left as nat) {
                None => entries_of(b@) is None,
                Some(rest) => entries_of(b@) == Some(raw_view(out@) + rest),
            },
        decreases left,
    {
        let ghost before = raw_view(out@);
        if b.len() - i < 2 {
            return None;
        }
        let name_len = encoding::read_le16(b, i) as usize;
        let rest = b.len() - i - 2;
        if rest < name_len || rest - name_len < 4 {
            return None;
        }
        let at = i + 2;
        let end = at + name_len;
        let mut name: Vec<u8> = Vec::new();
        encoding::push_all(&mut name, slice_subrange(b, at, end));
        let dim = encoding::read_le32(b, end) as usize;
        let ghost entry = (b@.subrange(at as int, end as int), dim as nat);
        assert(name@ =~= entry.0);
        out.push((name, dim));
        assert(raw_view(out@) =~= before.push(entry));
        assert(forall|rest: Seq<(Seq<u8>, nat)>| #[trigger]
            (raw_view(out@) + rest) =~= before + (seq![entry] + rest));
        i = end + 4;
        left -= 1;
    }
    assert(raw_view(out@) + Seq::<(Seq<u8>, nat)>::empty() =~= raw_view(out@));
    Some(out)
}

impl RegistryError {
    /// What kind of error this is.
    pub fn kind(&self) -> (r: ErrorKind)
        ensures
            r == ErrorKind::InvalidInput,
    {
        ErrorKind::InvalidInput
    }

    /// The error in words.
    pub fn message(&self) -> (s: String)
        ensures
            s@ == match *self {
                RegistryError::NameTooLong => "index name too long"@,
                RegistryError::DimTooLarge => "dim too large"@,
            },
    {
        match self {
            RegistryError::NameTooLong => "index name too long".to_owned(),
            RegistryError::DimTooLarge => "dim too large".to_owned(),
        }
    }
}

/// Reads the `(name, dim)` entries of a registry file. A missing file and a
/// truncated one have none.
pub fn read_registry(file: Option<&[u8]>) -> (out: Vec<(String, usize)>)
    ensures
        entries_view(out@) == registered(
            match file {
                Some(b) => Some(b@),
                None => None,
            },
        ),
{
    let mut out: Vec<(String, usize)> = Vec::new();
    assert(entries_view(out@) =~= seq![]);
    let b = match file {
        None => {
            return out;
        },
        Some(b) => b,
    };
    let raw = match parse_entries(b) {
        None => {
            return out;
        },
        Some(raw) => raw,
    };
    let mut i: usize = 0;
    let ghost all = named(raw_view(raw@));
    while i < raw.len()
        invariant
            i <= raw.len(),
            all == named(raw_view(raw@)),
            entries_view(out@) =~= all.take(i as int),
        decreases raw.len() - i,
    {
        let name = encoding::text_lossy(raw[i].0.as_slice());
        let ghost before = entries_view(out@);
        let ghost entry = (name@, raw@[i as int].1 as nat);
        assert(all[i as int] == entry);
        out.push((name, raw[i].1));
        assert(entries_view(out@) =~= before.push(entry));
        assert(all.take(i + 1) =~= all.take(i as int).push(entry));
        i += 1;
    }
    assert(all.take(i as int) =~= all);
    out
}

/// The registry file for the one VINDEX `name`.
pub fn encode_registry(name: &str, dim: usize) -> (r: Result<Vec<u8>, RegistryError>)
    ensures
        match r {
            Ok(b) => {
                &&& utf8::encode_utf8(name@).len() <= u16::MAX
                &&& dim <= u32::MAX
                &&& b@ == registry_file(utf8::encode_utf8(name@), dim as nat)
            },
            Err(RegistryError::NameTooLong) => utf8::encode_utf8(name@).len() > u16::MAX,
            Err(RegistryError::DimTooLarge) => utf8::encode_utf8(name@).len() <= u16::MAX && dim
                > u32::MAX,
        },
{
    let bytes = name.as_bytes();
    if bytes.len() > 0xffff {
        return Err(RegistryError::NameTooLong);
    }
    if dim > 0xffff_ffff {
        return Err(RegistryError::DimTooLarge);
    }
    let mut out: Vec<u8> = Vec::new();
    encoding::push_le32(&mut out, 1);
    encoding::push_le16(&mut out, bytes.len() as u16);
    encoding::push_all(&mut out, bytes);
    encoding::push_le32(&mut out, dim as u32);
    assert(out@ =~= registry_file(bytes@, dim as nat));
    Ok(out)
}

} // verus!
