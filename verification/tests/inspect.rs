use skeg_cli::error::ErrorKind;
use skeg_cli::inspect::{
    checked_kv_size, find_shards, inspect, inspect_shard, is_kv_file, kv_size_in_shard, shard_id,
    sort_shards, DirEntry, InspectReport, ShardFile, ShardReport, VindexEntry, VindexProbe,
};
use skeg_cli::size::human_bytes;
use std::path::Path;
use tempfile::TempDir;

fn file(name: &str, is_file: bool, len: u64) -> ShardFile {
    ShardFile { name: name.to_string(), is_file, len }
}

fn shard(shard_id: usize, kv_bytes: u64) -> ShardReport {
    ShardReport { shard_id, vindexes: Vec::new(), kv_bytes }
}

/// The entries of a directory; `None` if it is missing.
fn list(dir: &Path) -> Option<Vec<DirEntry>> {
    if !dir.exists() {
        return None;
    }
    let entries = dir.read_dir().unwrap().map(|e| e.unwrap()).map(|e| DirEntry {
        name: e.file_name().to_string_lossy().into_owned(),
        is_dir: e.path().is_dir(),
    });
    Some(entries.collect())
}

#[test]
fn inspect_of_an_empty_dir_returns_empty_report() {
    let dir = TempDir::new().unwrap();
    let shown = dir.path().display().to_string();
    let found = find_shards(&list(dir.path()).unwrap());
    let shards = found.iter().map(|(_, id)| shard(*id, 0)).collect();
    let report = inspect(&shown, Some(shards)).unwrap();
    assert!(report.shards.is_empty());
    assert_eq!(
        report.render(),
        format!("data_dir: {shown}\nshards:   0\n(no shard-* subdirectories found)\n")
    );
}

#[test]
fn inspect_of_a_missing_dir_is_an_error() {
    let dir = TempDir::new().unwrap();
    let missing = dir.path().join("not-here");
    let shards = list(&missing).map(|_| Vec::new());
    let shown = missing.display().to_string();
    let r = inspect(&shown, shards);
    assert!(r.is_err());
    let e = r.unwrap_err();
    assert_eq!(e.message(), format!("data directory not found: {shown}"));
    assert_eq!(e.kind(), ErrorKind::NotFound);
}

#[test]
fn shard_directories_are_known_by_their_names() {
    assert_eq!(shard_id("shard-0", true), Some(0));
    assert_eq!(shard_id("shard-17", true), Some(17));
    assert_eq!(shard_id("shard-+7", true), Some(7));
    assert_eq!(shard_id("shard-", true), None);
    assert_eq!(shard_id("shard-1a", true), None);
    assert_eq!(shard_id("xshard-1", true), None);
    assert_eq!(shard_id("shard-99999999999999999999999", true), None);
    assert_eq!(shard_id("shard-0", false), None);
    let entry = |name: &str, is_dir| DirEntry { name: name.to_string(), is_dir };
    let entries = vec![
        entry("LOCK", false),
        entry("shard-3", true),
        entry("shard-1", false),
        entry("shards", true),
        entry("shard-2", true),
    ];
    assert_eq!(find_shards(&entries), vec![(1, 3), (4, 2)]);
}

#[test]
fn kv_size_leaves_out_the_registry_and_directories() {
    let files = vec![
        file("vlog-0", true, 100),
        file("vindexes.registry", true, 14),
        file("vindex-docs", false, 4096),
        file("snapshot", true, 11),
    ];
    assert_eq!(kv_size_in_shard(&files), 111);
    assert!(is_kv_file("vlog-0", true));
    assert!(!is_kv_file("vindexes.registry", true));
    assert!(!is_kv_file("vlog-0", false));
    let files = vec![file("a", true, u64::MAX), file("b", true, 1)];
    assert_eq!(checked_kv_size(&files), None);
}

#[test]
fn missing_files_count_as_zero_bytes() {
    let entries = vec![("docs".to_string(), 4)];
    let probes = vec![VindexProbe { n_vectors: None, graph_bytes: None, vectors_bytes: Some(9) }];
    let s = inspect_shard(3, &entries, &probes, &vec![file("f", true, 5)]);
    assert_eq!((s.shard_id, s.kv_bytes), (3, 5));
    assert_eq!(s.vindexes[0].n_vectors, None);
    assert_eq!((s.vindexes[0].graph_bytes, s.vindexes[0].vectors_bytes), (0, 9));
}

#[test]
fn shards_are_sorted_and_equal_numbers_keep_their_order() {
    let sorted = sort_shards(vec![shard(2, 0), shard(0, 1), shard(2, 2), shard(1, 3), shard(0, 4)]);
    let got: Vec<(usize, u64)> = sorted.iter().map(|s| (s.shard_id, s.kv_bytes)).collect();
    assert_eq!(got, vec![(0, 1), (0, 4), (1, 3), (2, 0), (2, 2)]);
}

#[test]
fn report_is_printed_as_documented() {
    let report = InspectReport {
        data_dir: "./data".to_string(),
        shards: vec![ShardReport {
            shard_id: 0,
            vindexes: vec![VindexEntry {
                name: "docs".to_string(),
                dim: 1024,
                n_vectors: Some(1_000_000),
                graph_bytes: 512 << 20,
                vectors_bytes: 4_096_000_000,
            }],
            kv_bytes: 0,
        }],
    };
    assert_eq!(
        report.render(),
        "data_dir: ./data\nshards:   1\nkv_bytes: 0 B\nvindexes: 1\n\n[shard-0]\n  kv_bytes: 0 B\n  vindex=docs dim=1024 n=1000000 graph=512.00 MiB vectors=3.81 GiB\n"
    );
}

#[test]
fn report_with_unopened_and_absent_vindexes() {
    let report = InspectReport {
        data_dir: "d".to_string(),
        shards: vec![
            shard(0, 1536),
            ShardReport {
                shard_id: 1,
                vindexes: vec![VindexEntry {
                    name: "x".to_string(),
                    dim: 2,
                    n_vectors: None,
                    graph_bytes: 0,
                    vectors_bytes: 10,
                }],
                kv_bytes: 512,
            },
        ],
    };
    assert_eq!(report.totals(), Some((2048, 1)));
    assert_eq!(
        report.render(),
        "data_dir: d\nshards:   2\nkv_bytes: 2.00 KiB\nvindexes: 1\n\n[shard-0]\n  kv_bytes: 1.50 KiB\n  (no vindexes)\n[shard-1]\n  kv_bytes: 512 B\n  vindex=x dim=2 n=? graph=0 B vectors=10 B\n"
    );
    let over = InspectReport {
        data_dir: "d".to_string(),
        shards: vec![shard(0, u64::MAX), shard(1, 1)],
    };
    assert_eq!(over.totals(), None);
}

fn by_floats(n: u64) -> String {
    const KB: f64 = 1024.0;
    const MB: f64 = KB * 1024.0;
    const GB: f64 = MB * 1024.0;
    let x = n as f64;
    if x >= GB {
        format!("{:.2} GiB", x / GB)
    } else if x >= MB {
        format!("{:.2} MiB", x / MB)
    } else if x >= KB {
        format!("{:.2} KiB", x / KB)
    } else {
        format!("{n} B")
    }
}

#[test]
fn sizes_are_those_of_floating_point() {
    for n in 0..20_000 {
        assert_eq!(human_bytes(n), by_floats(n));
    }
    let mut s: u64 = 0x9e37_79b9_7f4a_7c15;
    for _ in 0..20_000 {
        s ^= s << 13;
        s ^= s >> 7;
        s ^= s << 17;
        for shift in [0, 1, 5, 10, 11, 12, 20, 30, 33, 34, 40] {
            let n = s >> shift;
            assert_eq!(human_bytes(n), by_floats(n));
        }
    }
    for k in 0..64 {
        for d in 0..5 {
            let n = (1u64 << k).wrapping_add(d).wrapping_sub(2);
            assert_eq!(human_bytes(n), by_floats(n));
        }
    }
    // Exactly halfway between two hundredths.
    for k in 0..4096u64 {
        for n in [128 * k, 131_072 * k, 134_217_728 * k] {
            assert_eq!(human_bytes(n), by_floats(n));
        }
    }
}

#[test]
fn sizes_round_to_even() {
    assert_eq!(human_bytes(1023), "1023 B");
    assert_eq!(human_bytes(1024), "1.00 KiB");
    assert_eq!(human_bytes(1152), "1.12 KiB");
    assert_eq!(human_bytes(1408), "1.38 KiB");
    assert_eq!(human_bytes(1_048_575), "1024.00 KiB");
    assert_eq!(human_bytes(u64::MAX), "17179869184.00 GiB");
}
