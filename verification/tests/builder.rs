use skeg_cli::builder::{
    number_rows, vindex_dir, BuildError, GRAPH_FILE, SERVE_SHARD_DIR, VECTORS_FILE, VINDEX_REGISTRY,
};
use skeg_cli::error::ErrorKind;
use skeg_cli::inspect::{
    find_shards, inspect, inspect_shard, DirEntry, ShardFile, VindexProbe,
};
use skeg_cli::registry::{encode_registry, read_registry};
use skeg_cli::{build_index, build_index_from, BuildStats};
use skeg_vector::{DiskVamanaIndex, MmapVectorSource, VamanaConfig, VamanaIndex};
use std::io::Write;
use std::path::{Path, PathBuf};
use tempfile::TempDir;

/// Deterministic test vector, distinct per seed.
fn tvec(seed: u64, dim: usize) -> Vec<f32> {
    let mut s = (seed << 1) | 1;
    (0..dim)
        .map(|_| {
            s ^= s << 13;
            s ^= s >> 7;
            s ^= s << 17;
            ((s & 0xFFFF) as f32 / 32768.0) - 1.0
        })
        .collect()
}

fn write_file(path: &Path, bytes: &[u8]) {
    let mut f = tempfile::NamedTempFile::new_in(path.parent().unwrap()).unwrap();
    f.write_all(bytes).unwrap();
    f.persist(path).unwrap();
}

fn vindex_path(output: &Path, name: &str) -> PathBuf {
    output.join(SERVE_SHARD_DIR).join(vindex_dir(name))
}

/// Save an index as a data directory; returns the build's summary and the
/// bytes of the registry.
fn finish(index: &VamanaIndex, output: &Path, name: &str) -> (BuildStats, Vec<u8>) {
    let dir = vindex_path(output, name);
    index.save(&dir).unwrap();
    let registry = encode_registry(name, index.dim()).unwrap();
    write_file(&output.join(SERVE_SHARD_DIR).join(VINDEX_REGISTRY), &registry);
    let stats = BuildStats {
        n: index.len(),
        dim: index.dim(),
        graph_bytes: dir.join(GRAPH_FILE).metadata().unwrap().len(),
        vectors_bytes: dir.join(VECTORS_FILE).metadata().unwrap().len(),
    };
    (stats, registry)
}

#[test]
fn build_produces_a_servable_index() {
    let n = 64;
    let dim = 8;
    let flat: Vec<f32> = (0..n).flat_map(|i| tvec(i as u64 + 1, 8)).collect();
    let out = TempDir::new().unwrap();
    let ids = build_index_from(flat.len(), n, dim).unwrap();
    let index = VamanaIndex::build(flat, ids, dim, &VamanaConfig::default());
    let (stats, _) = finish(&index, out.path(), "docs");
    assert_eq!((stats.n, stats.dim), (n, dim));
    assert!(stats.graph_bytes > 0 && stats.vectors_bytes > 0);

    // The output must open as a DiskVamanaIndex and recover every vector.
    let vindex_dir = out.path().join("shard-0").join("vindex-docs");
    let index = DiskVamanaIndex::open(&vindex_dir).unwrap();
    assert_eq!(index.len(), n);
    assert_eq!(index.dim(), dim);
    let hits = index.search(&tvec(43, 8), 5).unwrap();
    assert_eq!(hits[0].0, 42, "querying a stored vector returns its id");

    // The registry must name the index so the server recovers it.
    let registry = out.path().join("shard-0").join("vindexes.registry");
    assert!(registry.exists());
}

#[test]
fn build_rejects_a_length_mismatch() {
    let err = build_index_from(10, 3, 4);
    assert!(err.is_err());
    let e = err.unwrap_err();
    assert!(matches!(e, BuildError::LengthMismatch { expected: 12, got: 10 }));
    assert_eq!(e.message(), "expected 12 f32 values, got 10");
    assert_eq!(e.kind(), ErrorKind::InvalidInput);
}

#[test]
fn build_index_mmaps_input_and_serves() {
    let n = 64;
    let dim = 8;
    let flat: Vec<f32> = (0..n).flat_map(|i| tvec(i as u64 + 1, 8)).collect();
    let mut bytes = Vec::new();
    bytes.extend_from_slice(&u32::try_from(n).unwrap().to_le_bytes());
    bytes.extend_from_slice(&u32::try_from(dim).unwrap().to_le_bytes());
    for x in &flat {
        bytes.extend_from_slice(&x.to_le_bytes());
    }
    let dir = TempDir::new().unwrap();
    let input = dir.path().join("data.fbin");
    write_file(&input, &bytes);

    let out = TempDir::new().unwrap();
    let plan = build_index(Some("fbin"), &bytes[..8]).unwrap();
    assert_eq!(plan.byte_offset, 8);
    let source = MmapVectorSource::open(&input, plan.byte_offset, plan.n, plan.dim).unwrap();
    let ids = number_rows(plan.n);
    let index = VamanaIndex::build_from_source(Box::new(source), ids, &VamanaConfig::default());
    let (stats, _) = finish(&index, out.path(), "docs");
    assert_eq!((stats.n, stats.dim), (n, dim));

    let vindex_dir = out.path().join("shard-0").join("vindex-docs");
    let index = DiskVamanaIndex::open(&vindex_dir).unwrap();
    assert_eq!(index.len(), n);
    let hits = index.search(&tvec(43, 8), 5).unwrap();
    assert_eq!(hits[0].0, 42, "querying a stored vector returns its id");
}

#[test]
fn inspect_of_a_built_index_reports_vindex_and_dim() {
    let n = 32;
    let dim = 8;
    let flat: Vec<f32> = (0..n).flat_map(|i| tvec(i as u64 + 1, dim)).collect();
    let out = TempDir::new().unwrap();
    let ids = build_index_from(flat.len(), n, dim).unwrap();
    let index = VamanaIndex::build(flat, ids, dim, &VamanaConfig::default());
    let (_, registry) = finish(&index, out.path(), "docs");

    let found: Vec<DirEntry> = out
        .path()
        .read_dir()
        .unwrap()
        .map(|e| e.unwrap())
        .map(|e| DirEntry {
            name: e.file_name().to_string_lossy().into_owned(),
            is_dir: e.path().is_dir(),
        })
        .collect();
    assert_eq!(find_shards(&found), vec![(0, 0)]);
    let shard_dir = out.path().join(&found[0].name);
    let entries = read_registry(Some(&registry));
    let probes: Vec<VindexProbe> = entries
        .iter()
        .map(|(name, _)| {
            let dir = shard_dir.join(vindex_dir(name));
            VindexProbe {
                n_vectors: DiskVamanaIndex::open(&dir).ok().map(|i| i.len()),
                graph_bytes: dir.join(GRAPH_FILE).metadata().ok().map(|m| m.len()),
                vectors_bytes: dir.join(VECTORS_FILE).metadata().ok().map(|m| m.len()),
            }
        })
        .collect();
    let files: Vec<ShardFile> = shard_dir
        .read_dir()
        .unwrap()
        .map(|e| e.unwrap())
        .map(|e| ShardFile {
            name: e.file_name().to_string_lossy().into_owned(),
            is_file: e.path().is_file(),
            len: e.path().metadata().unwrap().len(),
        })
        .collect();
    assert_eq!(files.len(), 2);
    let shard = inspect_shard(0, &entries, &probes, &files);
    let report = inspect("data", Some(vec![shard])).unwrap();
    assert_eq!(report.shards.len(), 1);
    let shard = &report.shards[0];
    assert_eq!(shard.shard_id, 0);
    assert_eq!(shard.kv_bytes, 0);
    assert_eq!(shard.vindexes.len(), 1);
    let v = &shard.vindexes[0];
    assert_eq!(v.name, "docs");
    assert_eq!(v.dim, dim);
    assert_eq!(v.n_vectors, Some(n));
    assert!(v.graph_bytes > 0);
    assert!(v.vectors_bytes > 0);
}

#[test]
fn empty_datasets_are_refused() {
    for (n, dim) in [(0, 4), (4, 0), (0, 0)] {
        let e = build_index_from(0, n, dim).unwrap_err();
        assert!(matches!(e, BuildError::EmptyDataset));
        assert_eq!(e.message(), "empty dataset");
    }
    let e = build_index(Some("bin"), &[0, 0, 0, 0, 9, 0, 0, 0]).unwrap_err();
    assert!(matches!(e, BuildError::EmptyDataset));
}

#[test]
fn rows_are_numbered_from_zero() {
    assert_eq!(build_index_from(6, 3, 2).unwrap(), vec![0, 1, 2]);
}

#[test]
fn a_product_that_overflows_is_a_mismatch() {
    let e = build_index_from(4, usize::MAX, 2).unwrap_err();
    assert_eq!(
        e.message(),
        format!("expected {} f32 values, got 4", usize::MAX as u128 * 2)
    );
}

#[test]
fn dataset_errors_pass_through_a_build() {
    let e = build_index(Some("fbin"), &[1, 2, 3]).unwrap_err();
    assert_eq!(e.message(), "truncated .fbin header");
    assert_eq!(e.kind(), ErrorKind::InvalidData);
    let e = build_index(Some("csv"), &[]).unwrap_err();
    assert_eq!(e.kind(), ErrorKind::InvalidInput);
}
