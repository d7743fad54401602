//! What holds of inspecting a data directory as a whole.

use crate::inspect::{self, DirEntry, ShardFile, ShardReport, VindexProbe};
use crate::number;
use vstd::prelude::*;
use vstd::seq_lib::*;
use vstd::string::*;

verus! {

/// Whether `name` is `shard-` and then a text that writes `id`.
pub open spec fn names_shard(name: Seq<char>, id: nat) -> bool {
    exists|t: Seq<char>| name == "shard-"@ + t && #[trigger] number::writes(t, id)
}

/// A directory named `shard-<N>` holds the shard `N`, and nothing else holds a
/// shard.
pub proof fn law_shards_are_directories_named_so(name: Seq<char>, is_dir: bool, id: nat)
    ensures
        inspect::shard_id_of(name, is_dir) == Some(id) <==> is_dir && id <= usize::MAX
            && names_shard(name, id),
        is_dir && id <= usize::MAX && name == "shard-"@ + number::decimal(id)
            ==> inspect::shard_id_of(name, is_dir) == Some(id),
{
    reveal_strlit("shard-");
    let n = "shard-"@.len() as int;
    if inspect::shard_id_of(name, is_dir) == Some(id) {
        let t = name.skip(n);
        assert(name =~= "shard-"@ + t) by {
            assert(name.subrange(0, n) == "shard-"@);
            assert forall|i: int| 0 <= i < n implies name[i] == "shard-"@[i] by {
                assert(name.subrange(0, n)[i] == name[i]);
            }
        }
        number::law_numbers_are_read_as_written(t, id, usize::MAX as nat);
        assert(number::writes(t, id));
    }
    if is_dir && id <= usize::MAX && names_shard(name, id) {
        let t = choose|t: Seq<char>| name == "shard-"@ + t && #[trigger] number::writes(t, id);
        assert(name.subrange(0, n) =~= "shard-"@);
        assert(name.skip(n) =~= t);
        number::law_numbers_are_read_as_written(t, id, usize::MAX as nat);
    }
    if name == "shard-"@ + number::decimal(id) {
        assert(number::zeros(0) + number::decimal(id) =~= number::decimal(id));
        assert(number::writes(number::decimal(id), id));
    }
}

/// An entry of the data directory is found exactly if it is a directory named
/// `shard-<N>`, whatever stands beside it, and with that number; and the
/// entries are found in the order they have.
pub proof fn law_every_shard_is_found(entries: Seq<DirEntry>)
    ensures
        forall|i: nat, id: nat| #[trigger]
            inspect::shards_among(entries).contains((i, id)) <==> {
                &&& i < entries.len()
                &&& entries[i as int].is_dir
                &&& id <= usize::MAX
                &&& names_shard(entries[i as int].name@, id)
            },
        forall|j: int, k: int|
            0 <= j < k < inspect::shards_among(entries).len() ==> (
            #[trigger] inspect::shards_among(entries)[j]).0 < (#[trigger] inspect::shards_among(
                entries,
            )[k]).0,
        forall|j: int|
            0 <= j < inspect::shards_among(entries).len() ==> (
            #[trigger] inspect::shards_among(entries)[j]).0 < entries.len(),
    decreases entries.len(),
{
    let found = inspect::shards_among(entries);
    if entries.len() > 0 {
        let others = entries.drop_last();
        let last = entries.last();
        let n = (entries.len() - 1) as nat;
        let before = inspect::shards_among(others);
        law_every_shard_is_found(others);
        assert forall|i: nat, id: nat| #[trigger] found.contains((i, id)) <==> {
            &&& i < entries.len()
            &&& entries[i as int].is_dir
            &&& id <= usize::MAX
            &&& names_shard(entries[i as int].name@, id)
        } by {
            law_shards_are_directories_named_so(last.name@, last.is_dir, id);
            if i < n {
                assert(entries[i as int] == others[i as int]);
            }
            assert(before.contains((i, id)) ==> i < n);
            match inspect::shard_id_of(last.name@, last.is_dir) {
                Some(own) => {
                    assert(found == before.push((n, own)));
                    if found.contains((i, id)) {
                        let k = choose|k: int| 0 <= k < found.len() && found[k] == (i, id);
                        if k < before.len() {
                            assert(before[k] == (i, id));
                        }
                    }
                    if before.contains((i, id)) {
                        let k = choose|k: int| 0 <= k < before.len() && before[k] == (i, id);
                        assert(found[k] == (i, id));
                    }
                    assert(found[before.len() as int] == (n, own));
                },
                None => {
                    assert(found == before);
                },
            }
        }
    }
}

/// In a data directory whose entries are all shard directories, every one of
/// them is found.
pub proof fn law_shard_directories_are_all_found(entries: Seq<DirEntry>, ids: Seq<nat>)
    requires
        ids.len() == entries.len(),
        forall|i: int|
            0 <= i < entries.len() ==> (#[trigger] entries[i]).is_dir && ids[i] <= usize::MAX
                && entries[i].name@ == "shard-"@ + number::decimal(ids[i]),
    ensures
        inspect::shards_among(entries) == Seq::new(ids.len(), |i: int| (i as nat, ids[i])),
    decreases entries.len(),
{
    let wanted = Seq::new(ids.len(), |i: int| (i as nat, ids[i]));
    if entries.len() > 0 {
        let others = entries.drop_last();
        let n = entries.len() - 1;
        assert forall|i: int| 0 <= i < others.len() implies (#[trigger] others[i]).is_dir
            && ids.drop_last()[i] <= usize::MAX && others[i].name@ == "shard-"@ + number::decimal(
            ids.drop_last()[i],
        ) by {
            assert(others[i] == entries[i]);
        }
        law_shard_directories_are_all_found(others, ids.drop_last());
        assert(entries[n].is_dir);
        law_shards_are_directories_named_so(entries[n].name@, true, ids[n]);
        assert(inspect::shards_among(entries) =~= wanted);
    } else {
        assert(inspect::shards_among(entries) =~= wanted);
    }
}

/// The KV size of a shard adds up over its entries: a regular file counts with
/// its size, unless it is the registry, and nothing else counts.
pub proof fn law_kv_size_adds_up(a: Seq<ShardFile>, file: ShardFile, b: Seq<ShardFile>)
    ensures
        inspect::kv_size(a + b) == inspect::kv_size(a) + inspect::kv_size(b),
        inspect::kv_size(seq![]) == 0,
        file.is_file && file.name@ != "vindexes.registry"@ ==> inspect::kv_size(seq![file])
            == file.len,
        !file.is_file ==> inspect::kv_size(seq![file]) == 0,
        file.name@ == "vindexes.registry"@ ==> inspect::kv_size(seq![file]) == 0,
    decreases b.len(),
{
    let one = seq![file];
    assert(one.drop_last() =~= seq![]);
    assert(inspect::kv_size(one.drop_last()) == 0);
    assert(one.last() == file);
    if b.len() == 0 {
        assert(a + b =~= a);
    } else {
        law_kv_size_adds_up(a, file, b.drop_last());
        assert((a + b).drop_last() =~= a + b.drop_last());
        assert((a + b).last() == b.last());
    }
}

/// The report on a shard has one entry for each VINDEX of the registry, in the
/// order of the registry, with its name and dimension, with the number of
/// vectors that was measured, and with the sizes of its two files, which are 0
/// where they are missing.
pub proof fn law_report_is_what_was_measured(
    r: ShardReport,
    shard_id: usize,
    entries: Seq<(Seq<char>, nat)>,
    probes: Seq<VindexProbe>,
    files: Seq<ShardFile>,
)
    requires
        inspect::reports_on(r, shard_id, entries, probes, files),
    ensures
        r.shard_id == shard_id,
        r.kv_bytes == inspect::kv_size(files),
        r.vindexes@.len() == entries.len(),
        forall|i: int|
            0 <= i < entries.len() ==> {
                let v = #[trigger] r.vindexes@[i];
                &&& v.name@ == entries[i].0
                &&& v.dim == entries[i].1
                &&& v.n_vectors == probes[i].n_vectors
                &&& v.graph_bytes == (match probes[i].graph_bytes {
                    Some(size) => size,
                    None => 0,
                })
                &&& v.vectors_bytes == (match probes[i].vectors_bytes {
                    Some(size) => size,
                    None => 0,
                })
            },
{
    assert forall|i: int| 0 <= i < entries.len() implies {
        let v = #[trigger] r.vindexes@[i];
        &&& v.name@ == entries[i].0
        &&& v.dim == entries[i].1
        &&& v.n_vectors == probes[i].n_vectors
        &&& v.graph_bytes == (match probes[i].graph_bytes {
            Some(size) => size,
            None => 0,
        })
        &&& v.vectors_bytes == (match probes[i].vectors_bytes {
            Some(size) => size,
            None => 0,
        })
    } by {
        assert(inspect::describes(r.vindexes@[i], entries[i].0, entries[i].1, probes[i]));
    }
}

proof fn lemma_count_with_id(shards: Seq<ShardReport>, s: ShardReport)
    ensures
        shards.to_multiset().count(s) == inspect::with_id(shards, s.shard_id).to_multiset().count(
            s,
        ),
    decreases shards.len(),
{
    broadcast use group_to_multiset_ensures;

    reveal(Seq::filter);
    if shards.len() > 0 {
        let before = shards.drop_last();
        let last = shards.last();
        lemma_count_with_id(before, s);
        assert(shards =~= before.push(last));
    } else {
        assert(inspect::with_id(shards, s.shard_id) =~= shards);
    }
}

/// Sorting loses no report and adds none, orders the reports by their shard
/// numbers, and leaves those of one number in the order they had.
pub proof fn law_sorting_is_a_stable_permutation(
    sorted: Seq<ShardReport>,
    shards: Seq<ShardReport>,
    id: usize,
)
    requires
        inspect::is_sorted_from(sorted, shards),
    ensures
        sorted.to_multiset() == shards.to_multiset(),
        forall|i: int, j: int|
            0 <= i < j < sorted.len() ==> (#[trigger] sorted[i]).shard_id <= (
            #[trigger] sorted[j]).shard_id,
        sorted.filter(|s: ShardReport| s.shard_id == id) == shards.filter(
            |s: ShardReport| s.shard_id == id,
        ),
{
    assert forall|s: ShardReport|
        sorted.to_multiset().count(s) == #[trigger] shards.to_multiset().count(s) by {
        lemma_count_with_id(sorted, s);
        lemma_count_with_id(shards, s);
        assert(inspect::with_id(sorted, s.shard_id) == inspect::with_id(shards, s.shard_id));
    }
    assert(sorted.to_multiset() =~= shards.to_multiset());
    assert(inspect::with_id(sorted, id) == inspect::with_id(shards, id));
}

/// The totals of a report add up over its shards.
pub proof fn law_totals_add_up(a: Seq<ShardReport>, s: ShardReport, b: Seq<ShardReport>)
    ensures
        inspect::total_kv(a + b) == inspect::total_kv(a) + inspect::total_kv(b),
        inspect::total_kv(seq![s]) == s.kv_bytes,
        inspect::total_vindexes(a + b) == inspect::total_vindexes(a) + inspect::total_vindexes(b),
        inspect::total_vindexes(seq![s]) == s.vindexes@.len(),
    decreases b.len(),
{
    let one = seq![s];
    assert(one.drop_last() =~= seq![]);
    assert(inspect::total_kv(one.drop_last()) == 0);
    assert(inspect::total_vindexes(one.drop_last()) == 0);
    assert(one.last() == s);
    if b.len() == 0 {
        assert(a + b =~= a);
    } else {
        law_totals_add_up(a, s, b.drop_last());
        assert((a + b).drop_last() =~= a + b.drop_last());
        assert((a + b).last() == b.last());
    }
}

} // verus!
