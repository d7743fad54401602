//! Offline inspection of a skeg data directory.
//!
//! The layout is the one that a server writes:
//!
//! ```text
//! <data-dir>/shard-<N>/
//!   vindexes.registry
//!   vindex-<name>/
//!     graph.vmn
//!     vectors.bin
//! ```
//!
//! What is found on disk comes in as plain values: the names of the entries
//! of the data directory, the bytes of a registry, the files of a shard, and
//! what could be measured of each VINDEX. The report is made from these.

use crate::builder::VINDEX_REGISTRY;
use crate::error::ErrorKind;
use crate::number::{self, read_uint, write_uint};
use crate::registry;
use crate::size::{self, human_bytes};
use crate::text::{self, chars_of, find_from, same_text};
use vstd::prelude::*;
use vstd::string::*;
use vstd::utf8;

verus! {

/// One VINDEX as recorded in a shard's registry, with on-disk sizes.
#[derive(Debug, Clone)]
pub struct VindexEntry {
    pub name: String,
    pub dim: usize,
    /// Number of live vectors. `None` if the index could not be opened.
    pub n_vectors: Option<usize>,
    /// Size of `graph.vmn` in bytes. 0 if missing.
    pub graph_bytes: u64,
    /// Size of `vectors.bin` in bytes. 0 if missing.
    pub vectors_bytes: u64,
}

/// One shard's contribution to the inspect report.
#[derive(Debug, Clone)]
pub struct ShardReport {
    pub shard_id: usize,
    pub vindexes: Vec<VindexEntry>,
    /// Sum of every regular file directly under `shard-<N>/` but for the
    /// registry. Mostly: the vLog segments and the index snapshot.
    pub kv_bytes: u64,
}

/// Full report on a data directory.
#[derive(Debug, Clone)]
pub struct InspectReport {
    /// The path of the data directory, as it is shown.
    pub data_dir: String,
    pub shards: Vec<ShardReport>,
}

/// One entry of a data directory.
#[derive(Debug)]
pub struct DirEntry {
    pub name: String,
    /// Whether it is a directory.
    pub is_dir: bool,
}

/// What could be measured of one VINDEX directory.
#[derive(Debug, Clone, Copy, PartialEq, Eq, Structural)]
pub struct VindexProbe {
    /// Number of live vectors, if the index could be opened.
    pub n_vectors: Option<usize>,
    /// Size of `graph.vmn` in bytes, if it is there.
    pub graph_bytes: Option<u64>,
    /// Size of `vectors.bin` in bytes, if it is there.
    pub vectors_bytes: Option<u64>,
}

/// One entry of a shard directory.
#[derive(Debug)]
pub struct ShardFile {
    pub name: String,
    /// Whether it is a regular file.
    pub is_file: bool,
    /// Its size in bytes.
    pub len: u64,
}

/// Why a data directory cannot be inspected.
#[derive(Debug)]
pub enum InspectError {
    /// There is no data directory of this path.
    NotFound(String),
}

/// The number of the shard that an entry of the data directory holds: `N`, if
/// it is a directory named `shard-<N>`.
pub open spec fn shard_id_of(name: Seq<char>, is_dir: bool) -> Option<nat> {
    if is_dir && text::stands_at(name, "shard-"@, 0) {
        number::uint_of(name.skip("shard-"@.len() as int), usize::MAX as nat)
    } else {
        None
    }
}

/// The entries that hold shards, in order: the position of each among
/// `entries`, and the number of its shard.
pub open spec fn shards_among(entries: Seq<DirEntry>) -> Seq<(nat, nat)>
    decreases entries.len(),
{
    if entries.len() == 0 {
        seq![]
    } else {
        let before = shards_among(entries.drop_last());
        match shard_id_of(entries.last().name@, entries.last().is_dir) {
            Some(id) => before.push(((entries.len() - 1) as nat, id)),
            None => before,
        }
    }
}

/// The positions and numbers that a vector holds.
pub open spec fn found_view(v: Seq<(usize, usize)>) -> Seq<(nat, nat)> {
    v.map_values(|p: (usize, usize)| (p.0 as nat, p.1 as nat))
}

/// Whether an entry of a shard directory counts towards the shard's KV size.
pub open spec fn counts_as_kv(name: Seq<char>, is_file: bool) -> bool {
    is_file && name != VINDEX_REGISTRY@
}

/// The sum of the sizes of the entries that count.
pub open spec fn kv_size(files: Seq<ShardFile>) -> nat
    decreases files.len(),
{
    if files.len() == 0 {
        0
    } else {
        let before = kv_size(files.drop_last());
        let file = files.last();
        if counts_as_kv(file.name@, file.is_file) {
            before + file.len as nat
        } else {
            before
        }
    }
}

/// Whether `v` is the report on the VINDEX `(name, dim)` of which `probe` was measured.
pub open spec fn describes(v: VindexEntry, name: Seq<char>, dim: nat, probe: VindexProbe) -> bool {
    &&& v.name@ == name
    &&& v.dim == dim
    &&& v.n_vectors == probe.n_vectors
    &&& v.graph_bytes == probe.graph_bytes.unwrap_or(0)
    &&& v.vectors_bytes == probe.vectors_bytes.unwrap_or(0)
}

/// Whether `r` is the report on the shard `shard_id`, whose registry has
/// `entries`, of whose VINDEXes `probes` were measured, and whose directory
/// holds `files`.
pub open spec fn reports_on(
    r: ShardReport,
    shard_id: usize,
    entries: Seq<(Seq<char>, nat)>,
    probes: Seq<VindexProbe>,
    files: Seq<ShardFile>,
) -> bool {
    &&& r.shard_id == shard_id
    &&& r.kv_bytes == kv_size(files)
    &&& r.vindexes@.len() == entries.len()
    &&& forall|i: int|
        0 <= i < entries.len() ==> describes(
            #[trigger] r.vindexes@[i],
            entries[i].0,
            entries[i].1,
            probes[i],
        )
}

/// The reports on shards of the number `id`, in order.
pub open spec fn with_id(shards: Seq<ShardReport>, id: usize) -> Seq<ShardReport> {
    shards.filter(|s: ShardReport| s.shard_id == id)
}

/// Whether shard numbers do not decrease.
pub open spec fn in_order(shards: Seq<ShardReport>) -> bool {
    forall|i: int, j: int|
        0 <= i <= j < shards.len() ==> (#[trigger] shards[i]).shard_id <= (
        #[trigger] shards[j]).shard_id
}

/// Whether `sorted` holds the reports of `shards` by shard number, and those
/// of one number in the order they had.
pub open spec fn is_sorted_from(sorted: Seq<ShardReport>, shards: Seq<ShardReport>) -> bool {
    &&& in_order(sorted)
    &&& sorted.len() == shards.len()
    &&& forall|id: usize| #[trigger] with_id(sorted, id) == with_id(shards, id)
}

/// The number of the shard that an entry of the data directory holds, if it
/// holds one.
pub fn shard_id(name: &str, is_dir: bool) -> (r: Option<usize>)
    ensures
        match r {
            Some(id) => shard_id_of(name@, is_dir) == Some(id as nat),
            None => shard_id_of(name@, is_dir) is None,
        },
{
    if !is_dir {
        return None;
    }
    let v = chars_of(name);
    proof {
        reveal_strlit("shard-");
        text::lemma_found_from(name@, "shard-"@, 0);
    }
    match find_from(&v, "shard-", 0) {
        Some(0) => {
            let rest = name.substring_char(6, v.len());
            assert(rest@ =~= name@.skip(6));
            match read_uint(rest, usize::MAX as u64) {
                Some(id) => Some(id as usize),
                None => None,
            }
        },
        _ => None,
    }
}

/// Finds the entries of a data directory that hold shards: the position of
/// each among `entries`, and the number of its shard. Other entries are passed
/// over.
pub fn find_shards(entries: &Vec<DirEntry>) -> (found: Vec<(usize, usize)>)
    ensures
        found_view(found@) == shards_among(entries@),
        forall|i: usize, id: usize| #[trigger]
            found@.contains((i, id)) <==> i < entries.len() && entries@[i as int].is_dir
                && crate::inspect_laws::names_shard(entries@[i as int].name@, id as nat),
        forall|j: int, k: int|
            0 <= j < k < found.len() ==> (#[trigger] found@[j]).0 < (#[trigger] found@[k]).0,
{
    let mut found: Vec<(usize, usize)> = Vec::new();
    let mut i: usize = 0;
    assert(entries@.take(0) =~= seq![]);
    assert(found_view(found@) =~= seq![]);
    while i < entries.len()
        invariant
            i <= entries.len(),
            found_view(found@) == shards_among(entries@.take(i as int)),
        decreases entries.len() - i,
    {
        assert(entries@.take(i + 1).drop_last() =~= entries@.take(i as int));
        assert(entries@.take(i + 1).last() == entries@[i as int]);
        let ghost before = found_view(found@);
        match shard_id(entries[i].name.as_str(), entries[i].is_dir) {
            Some(id) => {
                found.push((i, id));
                assert(found_view(found@) =~= before.push((i as nat, id as nat)));
            },
            None => {},
        }
        i += 1;
    }
    assert(entries@.take(i as int) =~= entries@);
    proof {
        let all = found_view(found@);
        crate::inspect_laws::law_every_shard_is_found(entries@);
        assert forall|i: usize, id: usize| #[trigger] found@.contains((i, id)) <==> i
            < entries.len() && entries@[i as int].is_dir && crate::inspect_laws::names_shard(
            entries@[i as int].name@,
            id as nat,
        ) by {
            if found@.contains((i, id)) {
                let k = choose|k: int| 0 <= k < found@.len() && found@[k] == (i, id);
                assert(all[k] == (i as nat, id as nat));
            }
            if all.contains((i as nat, id as nat)) {
                let k = choose|k: int| 0 <= k < all.len() && all[k] == (i as nat, id as nat);
                assert(found@[k] == (i, id));
            }
            assert(all.contains((i as nat, id as nat)) == found@.contains((i, id)));
        }
        assert forall|j: int, k: int| 0 <= j < k < found.len() implies (#[trigger] found@[j]).0 < (
        #[trigger] found@[k]).0 by {
            assert(all[j].0 < all[k].0);
        }
    }
    found
}

/// Whether an entry of a shard directory counts towards the shard's KV size.
pub fn is_kv_file(name: &str, is_file: bool) -> (r: bool)
    ensures
        r == counts_as_kv(name@, is_file),
{
    is_file && !same_text(name, VINDEX_REGISTRY)
}

proof fn lemma_kv_size_grows(files: Seq<ShardFile>, n: int)
    requires
        0 <= n <= files.len(),
    ensures
        kv_size(files.take(n)) <= kv_size(files),
    decreases files.len() - n,
{
    if n < files.len() {
        lemma_kv_size_grows(files, n + 1);
        assert(files.take(n + 1).drop_last() =~= files.take(n));
    } else {
        assert(files.take(n) =~= files);
    }
}

/// Sums every regular file of a shard directory that is not the registry.
pub fn kv_size_in_shard(files: &Vec<ShardFile>) -> (total: u64)
    requires
        kv_size(files@) <= u64::MAX,
    ensures
        total == kv_size(files@),
{
    checked_kv_size(files).unwrap()
}

/// The same sum, or nothing if it does not fit.
pub fn checked_kv_size(files: &Vec<ShardFile>) -> (r: Option<u64>)
    ensures
        match r {
            Some(total) => total == kv_size(files@),
            None => kv_size(files@) > u64::MAX,
        },
{
    let mut total: u64 = 0;
    let mut i: usize = 0;
    assert(files@.take(0) =~= seq![]);
    while i < files.len()
        invariant
            i <= files.len(),
            total == kv_size(files@.take(i as int)),
        decreases files.len() - i,
    {
        assert(files@.take(i + 1).drop_last() =~= files@.take(i as int));
        proof {
            lemma_kv_size_grows(files@, i + 1);
        }
        if is_kv_file(files[i].name.as_str(), files[i].is_file) {
            match total.checked_add(files[i].len) {
                Some(next) => {
                    total = next;
                },
                None => {
                    return None;
                },
            }
        }
        i += 1;
    }
    assert(files@.take(i as int) =~= files@);
    Some(total)
}

/// Reports on one shard: its VINDEXes as the registry has them, each with what
/// was measured of it, and the KV size.
pub fn inspect_shard(
    shard_id: usize,
    entries: &Vec<(String, usize)>,
    probes: &Vec<VindexProbe>,
    files: &Vec<ShardFile>,
) -> (r: ShardReport)
    requires
        probes.len() == entries.len(),
        kv_size(files@) <= u64::MAX,
    ensures
        reports_on(r, shard_id, registry::entries_view(entries@), probes@, files@),
        r.vindexes.len() == entries.len(),
        forall|i: int|
            0 <= i < entries.len() ==> {
                let v = #[trigger] r.vindexes@[i];
                &&& v.name@ == entries@[i].0@
                &&& v.dim == entries@[i].1
                &&& v.n_vectors == probes@[i].n_vectors
                &&& v.graph_bytes == (match probes@[i].graph_bytes {
                    Some(size) => size,
                    None => 0,
                })
                &&& v.vectors_bytes == (match probes@[i].vectors_bytes {
                    Some(size) => size,
                    None => 0,
                })
            },
{
    let mut vindexes: Vec<VindexEntry> = Vec::new();
    let mut i: usize = 0;
    while i < entries.len()
        invariant
            i <= entries.len(),
            probes.len() == entries.len(),
            vindexes.len() == i,
            forall|j: int|
                0 <= j < i ==> describes(
                    #[trigger] vindexes@[j],
                    entries@[j].0@,
                    entries@[j].1 as nat,
                    probes@[j],
                ),
        decreases entries.len() - i,
    {
        let probe = probes[i];
        vindexes.push(
            VindexEntry {
                name: entries[i].0.clone(),
                dim: entries[i].1,
                n_vectors: probe.n_vectors,
                graph_bytes: probe.graph_bytes.unwrap_or(0),
                vectors_bytes: probe.vectors_bytes.unwrap_or(0),
            },
        );
        i += 1;
    }
    ShardReport { shard_id, vindexes, kv_bytes: kv_size_in_shard(files) }
}

/// A VINDEX that a build has registered is the one that the shard's report
/// lists, with its dimension and with what was measured of it.
pub proof fn law_built_index_is_reported(
    name: Seq<char>,
    dim: nat,
    r: ShardReport,
    shard_id: usize,
    probes: Seq<VindexProbe>,
    files: Seq<ShardFile>,
)
    requires
        utf8::encode_utf8(name).len() <= u16::MAX,
        dim <= u32::MAX,
        reports_on(
            r,
            shard_id,
            registry::registered(Some(registry::registry_file(utf8::encode_utf8(name), dim))),
            probes,
            files,
        ),
    ensures
        r.vindexes@.len() == 1,
        describes(r.vindexes@[0], name, dim, probes[0]),
        r.vindexes@[0].name@ == name,
        r.vindexes@[0].dim == dim,
        r.vindexes@[0].n_vectors == probes[0].n_vectors,
{
    registry::law_registry_is_read_back(name, dim);
}

proof fn lemma_inserted_with_id(sorted: Seq<ShardReport>, at: int, s: ShardReport, id: usize)
    requires
        0 <= at <= sorted.len(),
        forall|j: int| at <= j < sorted.len() ==> (#[trigger] sorted[j]).shard_id > s.shard_id,
    ensures
        with_id(sorted.insert(at, s), id) == (if s.shard_id == id {
            with_id(sorted, id).push(s)
        } else {
            with_id(sorted, id)
        }),
{
    let keep = |r: ShardReport| r.shard_id == id;
    let low = sorted.take(at);
    let high = sorted.skip(at);
    let one = seq![s];
    assert(sorted =~= low + high);
    assert(sorted.insert(at, s) =~= low + one + high);
    Seq::filter_distributes_over_add(low, high, keep);
    Seq::filter_distributes_over_add(low, one, keep);
    Seq::filter_distributes_over_add(low + one, high, keep);
    assert(one.drop_last() =~= seq![]);
    reveal_with_fuel(Seq::filter, 2);
    assert(one.filter(keep) =~= if keep(s) {
        one
    } else {
        seq![]
    });
    if s.shard_id == id {
        lemma_none_kept(high, id);
        assert(with_id(sorted.insert(at, s), id) =~= with_id(sorted, id).push(s));
    } else {
        assert(with_id(sorted.insert(at, s), id) =~= with_id(sorted, id));
    }
}

proof fn lemma_none_kept(shards: Seq<ShardReport>, id: usize)
    requires
        forall|j: int| 0 <= j < shards.len() ==> (#[trigger] shards[j]).shard_id != id,
    ensures
        with_id(shards, id) == Seq::<ShardReport>::empty(),
    decreases shards.len(),
{
    reveal(Seq::filter);
    if shards.len() > 0 {
        lemma_none_kept(shards.drop_last(), id);
    }
}

/// Puts reports in the order of their shard numbers.
pub fn sort_shards(shards: Vec<ShardReport>) -> (sorted: Vec<ShardReport>)
    ensures
        is_sorted_from(sorted@, shards@),
        sorted@.to_multiset() == shards@.to_multiset(),
{
    let mut rest = shards;
    let mut sorted: Vec<ShardReport> = Vec::new();
    let ghost all = shards@;
    assert(all.take(0) =~= seq![]);
    while rest.len() > 0
        invariant
            sorted.len() + rest.len() == all.len(),
            rest@ =~= all.skip(sorted.len() as int),
            is_sorted_from(sorted@, all.take(sorted.len() as int)),
        decreases rest.len(),
    {
        let ghost k = sorted.len() as int;
        let ghost before = sorted@;
        let s = rest.remove(0);
        assert(s == all[k]);
        let mut at: usize = sorted.len();
        while at > 0 && sorted[at - 1].shard_id > s.shard_id
            invariant
                at <= sorted.len(),
                sorted@ == before,
                forall|j: int|
                    at <= j < sorted.len() ==> (#[trigger] sorted@[j]).shard_id > s.shard_id,
            decreases at,
        {
            at -= 1;
        }
        proof {
            assert(all.take(k + 1) =~= all.take(k).push(s));
            assert(all.take(k + 1).drop_last() =~= all.take(k));
            assert forall|id: usize| #[trigger]
                with_id(before.insert(at as int, s), id) == with_id(all.take(k + 1), id) by {
                lemma_inserted_with_id(before, at as int, s, id);
                reveal(Seq::filter);
                assert(with_id(before, id) == with_id(all.take(k), id));
            }
        }
        sorted.insert(at, s);
    }
    assert(all.take(sorted.len() as int) =~= all);
    proof {
        crate::inspect_laws::law_sorting_is_a_stable_permutation(sorted@, all, 0);
    }
    sorted
}

/// Makes the report on a data directory from the reports on its shards, in
/// whatever order they were found; `shards` is `None` if the directory is
/// missing.
pub fn inspect(data_dir: &str, shards: Option<Vec<ShardReport>>) -> (r: Result<
    InspectReport,
    InspectError,
>)
    ensures
        match (shards, r) {
            (None, Err(InspectError::NotFound(path))) => path@ == data_dir@,
            (Some(found), Ok(report)) => {
                &&& report.data_dir@ == data_dir@
                &&& is_sorted_from(report.shards@, found@)
                &&& report.shards@.to_multiset() == found@.to_multiset()
                &&& forall|i: int, j: int|
                    0 <= i < j < report.shards@.len() ==> (
                    #[trigger] report.shards@[i]).shard_id <= (
                    #[trigger] report.shards@[j]).shard_id
            },
            _ => false,
        },
{
    match shards {
        None => Err(InspectError::NotFound(data_dir.to_owned())),
        Some(found) => Ok(
            InspectReport { data_dir: data_dir.to_owned(), shards: sort_shards(found) },
        ),
    }
}

proof fn lemma_in_with_id(shards: Seq<ShardReport>, i: int)
    requires
        0 <= i < shards.len(),
    ensures
        with_id(shards, shards[i].shard_id).len() > 0,
    decreases shards.len(),
{
    reveal(Seq::filter);
    if i < shards.len() - 1 {
        lemma_in_with_id(shards.drop_last(), i);
    }
}

/// There is one way only to put reports in order: the contract of the sort
/// leaves nothing open.
pub proof fn law_order_is_unique(a: Seq<ShardReport>, b: Seq<ShardReport>, shards: Seq<ShardReport>)
    requires
        is_sorted_from(a, shards),
        is_sorted_from(b, shards),
    ensures
        a == b,
{
    assert forall|id: usize| #[trigger] with_id(a, id) == with_id(b, id) by {
        assert(with_id(a, id) == with_id(shards, id));
        assert(with_id(b, id) == with_id(shards, id));
    }
    lemma_same_order(a, b);
}

proof fn lemma_same_order(a: Seq<ShardReport>, b: Seq<ShardReport>)
    requires
        in_order(a),
        in_order(b),
        a.len() == b.len(),
        forall|id: usize| #[trigger] with_id(a, id) == with_id(b, id),
    ensures
        a == b,
    decreases a.len(),
{
    if a.len() > 0 {
        let n = a.len() - 1;
        lemma_in_with_id(a, n);
        lemma_in_with_id(b, n);
        if a[n].shard_id > b[n].shard_id {
            lemma_none_kept(b, a[n].shard_id);
            assert(with_id(a, a[n].shard_id) == with_id(b, a[n].shard_id));
        }
        if b[n].shard_id > a[n].shard_id {
            lemma_none_kept(a, b[n].shard_id);
            assert(with_id(a, b[n].shard_id) == with_id(b, b[n].shard_id));
        }
        let m = a[n].shard_id;
        let c = a.drop_last();
        let d = b.drop_last();
        reveal(Seq::filter);
        assert(with_id(a, m) == with_id(b, m));
        assert(with_id(a, m).last() == a[n]);
        assert(with_id(b, m).last() == b[n]);
        assert forall|id: usize| #[trigger] with_id(c, id) == with_id(d, id) by {
            assert(with_id(a, id) == with_id(b, id));
            if id == m {
                assert(with_id(c, id) =~= with_id(a, id).drop_last());
                assert(with_id(d, id) =~= with_id(b, id).drop_last());
            }
        }
        lemma_same_order(c, d);
        assert(a =~= c.push(a[n]));
        assert(b =~= d.push(b[n]));
    }
}

/// The sum of the KV sizes of shards.
pub open spec fn total_kv(shards: Seq<ShardReport>) -> nat
    decreases shards.len(),
{
    if shards.len() == 0 {
        0
    } else {
        total_kv(shards.drop_last()) + shards.last().kv_bytes as nat
    }
}

/// The number of VINDEXes of shards.
pub open spec fn total_vindexes(shards: Seq<ShardReport>) -> nat
    decreases shards.len(),
{
    if shards.len() == 0 {
        0
    } else {
        total_vindexes(shards.drop_last()) + shards.last().vindexes@.len()
    }
}

/// The line on one VINDEX.
pub open spec fn vindex_line(v: VindexEntry) -> Seq<char> {
    "  vindex="@ + v.name@ + " dim="@ + number::decimal(v.dim as nat) + " n="@ + (
    match v.n_vectors {
        Some(n) => number::decimal(n as nat),
        None => "?"@,
    }) + " graph="@ + size::human(v.graph_bytes as nat) + " vectors="@ + size::human(
        v.vectors_bytes as nat,
    ) + "\n"@
}

/// The lines on VINDEXes.
pub open spec fn vindex_lines(vindexes: Seq<VindexEntry>) -> Seq<char>
    decreases vindexes.len(),
{
    if vindexes.len() == 0 {
        seq![]
    } else {
        vindex_lines(vindexes.drop_last()) + vindex_line(vindexes.last())
    }
}

/// The lines on one shard.
pub open spec fn shard_lines(s: ShardReport) -> Seq<char> {
    "[shard-"@ + number::decimal(s.shard_id as nat) + "]\n"@ + "  kv_bytes: "@ + size::human(
        s.kv_bytes as nat,
    ) + "\n"@ + if s.vindexes@.len() == 0 {
        "  (no vindexes)\n"@
    } else {
        vindex_lines(s.vindexes@)
    }
}

/// The lines on shards.
pub open spec fn all_shard_lines(shards: Seq<ShardReport>) -> Seq<char>
    decreases shards.len(),
{
    if shards.len() == 0 {
        seq![]
    } else {
        all_shard_lines(shards.drop_last()) + shard_lines(shards.last())
    }
}

/// A report as it is printed.
pub open spec fn report_text(r: InspectReport) -> Seq<char> {
    "data_dir: "@ + r.data_dir@ + "\n"@ + "shards:   "@ + number::decimal(r.shards@.len())
        + "\n"@ + if r.shards@.len() == 0 {
        "(no shard-* subdirectories found)\n"@
    } else {
        "kv_bytes: "@ + size::human(total_kv(r.shards@)) + "\n"@ + "vindexes: "@
            + number::decimal(total_vindexes(r.shards@)) + "\n"@ + "\n"@ + all_shard_lines(
            r.shards@,
        )
    }
}

/// Whether the totals of a report can be counted.
pub open spec fn totals_fit(r: InspectReport) -> bool {
    total_kv(r.shards@) <= u64::MAX && total_vindexes(r.shards@) <= usize::MAX
}

proof fn lemma_totals_grow(shards: Seq<ShardReport>, n: int)
    requires
        0 <= n <= shards.len(),
    ensures
        total_kv(shards.take(n)) <= total_kv(shards),
        total_vindexes(shards.take(n)) <= total_vindexes(shards),
    decreases shards.len() - n,
{
    if n < shards.len() {
        lemma_totals_grow(shards, n + 1);
        assert(shards.take(n + 1).drop_last() =~= shards.take(n));
    } else {
        assert(shards.take(n) =~= shards);
    }
}

fn write_vindex(out: &mut String, v: &VindexEntry)
    ensures
        final(out)@ == old(out)@ + vindex_line(*v),
{
    out.append("  vindex=");
    out.append(v.name.as_str());
    out.append(" dim=");
    out.append(write_uint(v.dim as u128).as_str());
    out.append(" n=");
    match v.n_vectors {
        Some(n) => out.append(write_uint(n as u128).as_str()),
        None => out.append("?"),
    }
    out.append(" graph=");
    out.append(human_bytes(v.graph_bytes).as_str());
    out.append(" vectors=");
    out.append(human_bytes(v.vectors_bytes).as_str());
    out.append("\n");
    assert(out@ =~= old(out)@ + vindex_line(*v));
}

fn write_shard(out: &mut String, s: &ShardReport)
    ensures
        final(out)@ == old(out)@ + shard_lines(*s),
{
    out.append("[shard-");
    out.append(write_uint(s.shard_id as u128).as_str());
    out.append("]\n");
    out.append("  kv_bytes: ");
    out.append(human_bytes(s.kv_bytes).as_str());
    out.append("\n");
    if s.vindexes.len() == 0 {
        out.append("  (no vindexes)\n");
    } else {
        let ghost head = out@;
        let mut i: usize = 0;
        assert(s.vindexes@.take(0) =~= seq![]);
        assert(out@ =~= head + vindex_lines(s.vindexes@.take(0)));
        while i < s.vindexes.len()
            invariant
                i <= s.vindexes.len(),
                out@ == head + vindex_lines(s.vindexes@.take(i as int)),
            decreases s.vindexes.len() - i,
        {
            write_vindex(out, &s.vindexes[i]);
            assert(s.vindexes@.take(i + 1).drop_last() =~= s.vindexes@.take(i as int));
            assert(out@ =~= head + vindex_lines(s.vindexes@.take(i + 1)));
            i += 1;
        }
        assert(s.vindexes@.take(i as int) =~= s.vindexes@);
    }
    assert(out@ =~= old(out)@ + shard_lines(*s));
}

impl InspectReport {
    /// The KV size and the number of VINDEXes of all shards, or nothing if
    /// either does not fit.
    pub fn totals(&self) -> (r: Option<(u64, usize)>)
        ensures
            match r {
                Some(t) => t.0 == total_kv(self.shards@) && t.1 == total_vindexes(self.shards@),
                None => !totals_fit(*self),
            },
    {
        let mut kv: u64 = 0;
        let mut vindexes: usize = 0;
        let mut i: usize = 0;
        assert(self.shards@.take(0) =~= seq![]);
        while i < self.shards.len()
            invariant
                i <= self.shards.len(),
                kv == total_kv(self.shards@.take(i as int)),
                vindexes == total_vindexes(self.shards@.take(i as int)),
            decreases self.shards.len() - i,
        {
            assert(self.shards@.take(i + 1).drop_last() =~= self.shards@.take(i as int));
            proof {
                lemma_totals_grow(self.shards@, i + 1);
            }
            match (
                kv.checked_add(self.shards[i].kv_bytes),
                vindexes.checked_add(self.shards[i].vindexes.len()),
            ) {
                (Some(next_kv), Some(next_vindexes)) => {
                    kv = next_kv;
                    vindexes = next_vindexes;
                },
                _ => {
                    return None;
                },
            }
            i += 1;
        }
        assert(self.shards@.take(i as int) =~= self.shards@);
        Some((kv, vindexes))
    }

    /// The report as it is printed.
    pub fn render(&self) -> (out: String)
        requires
            totals_fit(*self),
        ensures
            out@ == report_text(*self),
    {
        let mut out = "data_dir: ".to_owned();
        out.append(self.data_dir.as_str());
        out.append("\n");
        out.append("shards:   ");
        out.append(write_uint(self.shards.len() as u128).as_str());
        out.append("\n");
        if self.shards.len() == 0 {
            out.append("(no shard-* subdirectories found)\n");
            return out;
        }
        let (kv, vindexes) = self.totals().unwrap();
        out.append("kv_bytes: ");
        out.append(human_bytes(kv).as_str());
        out.append("\n");
        out.append("vindexes: ");
        out.append(write_uint(vindexes as u128).as_str());
        out.append("\n");
        out.append("\n");
        let ghost head = out@;
        let mut i: usize = 0;
        assert(self.shards@.take(0) =~= seq![]);
        assert(out@ =~= head + all_shard_lines(self.shards@.take(0)));
        while i < self.shards.len()
            invariant
                i <= self.shards.len(),
                out@ == head + all_shard_lines(self.shards@.take(i as int)),
            decreases self.shards.len() - i,
        {
            write_shard(&mut out, &self.shards[i]);
            assert(self.shards@.take(i + 1).drop_last() =~= self.shards@.take(i as int));
            assert(out@ =~= head + all_shard_lines(self.shards@.take(i + 1)));
            i += 1;
        }
        assert(self.shards@.take(i as int) =~= self.shards@);
        assert(out@ =~= report_text(*self));
        out
    }
}

impl InspectError {
    /// What kind of error this is.
    pub fn kind(&self) -> (r: ErrorKind)
        ensures
            r == ErrorKind::NotFound,
    {
        ErrorKind::NotFound
    }

    /// The error in words.
    pub fn message(&self) -> (s: String)
        ensures
            s@ == match *self {
                InspectError::NotFound(path) => "data directory not found: "@ + path@,
            },
    {
        match self {
            InspectError::NotFound(path) => {
                let mut s = "data directory not found: ".to_owned();
                s.append(path.as_str());
                s
            },
        }
    }
}

} // verus!
