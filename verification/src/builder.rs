//! The decisions of an offline index build.
//!
//! A build writes a data directory with one shard:
//!
//! ```text
//! <output>/shard-0/vindexes.registry
//! <output>/shard-0/vindex-<name>/graph.vmn
//! <output>/shard-0/vindex-<name>/vectors.bin
//! ```

use crate::dataset::{self, read_header, DatasetError};
use crate::error::ErrorKind;
use crate::number::{self, write_uint};
use vstd::prelude::*;
use vstd::string::*;

verus! {

/// The subdirectory of the one shard that a build writes.
pub const SERVE_SHARD_DIR: &'static str = "shard-0";

/// The name of a shard's registry file.
pub const VINDEX_REGISTRY: &'static str = "vindexes.registry";

/// The name of the file that holds a VINDEX's graph.
pub const GRAPH_FILE: &'static str = "graph.vmn";

/// The name of the file that holds a VINDEX's vectors.
pub const VECTORS_FILE: &'static str = "vectors.bin";

/// Summary of a completed offline build.
#[derive(Debug, Clone, Copy, PartialEq, Eq, Structural)]
pub struct BuildStats {
    /// Number of vectors indexed.
    pub n: usize,
    /// Vector dimension.
    pub dim: usize,
    /// Size of `graph.vmn` in bytes.
    pub graph_bytes: u64,
    /// Size of `vectors.bin` in bytes.
    pub vectors_bytes: u64,
}

/// What an index is to be built from: where the vectors begin in the input
/// file, their number and their dimension.
#[derive(Debug, Clone, Copy, PartialEq, Eq, Structural)]
pub struct BuildPlan {
    pub byte_offset: usize,
    pub n: usize,
    pub dim: usize,
}

/// Why an index cannot be built.
#[derive(Debug)]
pub enum BuildError {
    /// The dataset cannot be read.
    Dataset(DatasetError),
    /// The dataset holds no vectors, or vectors without components.
    EmptyDataset,
    /// The number of components is not that of `n` vectors of dimension `dim`.
    LengthMismatch { expected: u128, got: usize },
}

/// The ids of `n` vectors: their positions in the dataset.
pub open spec fn row_ids(n: nat) -> Seq<u64> {
    Seq::new(n, |i: int| i as u64)
}

/// Each vector's id is its row, so that no two vectors have the same id.
pub proof fn law_ids_are_rows(n: usize)
    ensures
        row_ids(n as nat).len() == n,
        forall|i: int| 0 <= i < n ==> (#[trigger] row_ids(n as nat)[i]) as int == i,
        row_ids(n as nat).no_duplicates(),
{
}

/// The name of the directory of the VINDEX `name`.
pub fn vindex_dir(name: &str) -> (dir: String)
    ensures
        dir@ == "vindex-"@ + name@,
{
    let mut dir = "vindex-".to_owned();
    dir.append(name);
    dir
}

/// Numbers `n` vectors.
pub fn number_rows(n: usize) -> (ids: Vec<u64>)
    ensures
        ids@ == row_ids(n as nat),
        ids.len() == n,
        forall|i: int| 0 <= i < n ==> (#[trigger] ids@[i]) as int == i,
        ids@.no_duplicates(),
{
    let mut ids: Vec<u64> = Vec::new();
    let mut i: usize = 0;
    while i < n
        invariant
            i <= n,
            ids@ =~= row_ids(i as nat),
        decreases n - i,
    {
        ids.push(i as u64);
        i += 1;
    }
    ids
}

/// Decides on a build over `n` vectors of dimension `dim` that are already
/// loaded, with `got` components in all, and numbers the vectors.
pub fn build_index_from(got: usize, n: usize, dim: usize) -> (r: Result<Vec<u64>, BuildError>)
    ensures
        match r {
            Ok(ids) => {
                &&& n > 0 && dim > 0 && got == n * dim
                &&& ids@ == row_ids(n as nat)
                &&& ids.len() == n
                &&& forall|i: int| 0 <= i < n ==> (#[trigger] ids@[i]) as int == i
            },
            Err(BuildError::EmptyDataset) => n == 0 || dim == 0,
            Err(BuildError::LengthMismatch { expected, got: g }) => {
                &&& n > 0 && dim > 0 && got != n * dim
                &&& expected == n * dim
                &&& g == got
            },
            Err(BuildError::Dataset(e)) => false,
        },
{
    if n == 0 || dim == 0 {
        return Err(BuildError::EmptyDataset);
    }
    let expected = number_of_components(n, dim);
    if got as u128 != expected {
        return Err(BuildError::LengthMismatch { expected, got });
    }
    Ok(number_rows(n))
}

fn number_of_components(n: usize, dim: usize) -> (c: u128)
    ensures
        c == n * dim,
{
    assert(n * dim <= u64::MAX * u64::MAX) by (nonlinear_arith)
        requires
            n <= u64::MAX,
            dim <= u64::MAX,
    ;
    (n as u128) * (dim as u128)
}

/// Decides on a build from a dataset file: reads its header and refuses an
/// empty dataset. Once the file is known to hold the vectors that the header
/// announces, [`number_rows`] numbers them.
///
/// `head` is the file, or as much of its start as holds the format header.
pub fn build_index(extension: Option<&str>, head: &[u8]) -> (r: Result<BuildPlan, BuildError>)
    ensures
        match (dataset::format_of(dataset::extension_text(extension)), r) {
            (None, Err(BuildError::Dataset(e))) => dataset::is_unsupported(e, extension),
            (Some(f), Err(BuildError::Dataset(DatasetError::Malformed(e)))) => dataset::header_of(
                f,
                head@,
            ) == Err::<(nat, nat, nat), dataset::FormatError>(e),
            (Some(f), Err(BuildError::EmptyDataset)) => dataset::header_of(f, head@) is Ok && {
                let h = dataset::header_of(f, head@)->Ok_0;
                h.1 == 0 || h.2 == 0
            },
            (Some(f), Ok(plan)) => {
                &&& dataset::header_of(f, head@) == Ok::<(nat, nat, nat), dataset::FormatError>(
                    (plan.byte_offset as nat, plan.n as nat, plan.dim as nat),
                )
                &&& plan.n > 0
                &&& plan.dim > 0
            },
            _ => false,
        },
{
    let (byte_offset, n, dim) = match read_header(extension, head) {
        Ok(h) => h,
        Err(e) => {
            return Err(BuildError::Dataset(e));
        },
    };
    if n == 0 || dim == 0 {
        return Err(BuildError::EmptyDataset);
    }
    Ok(BuildPlan { byte_offset, n, dim })
}

impl BuildError {
    /// What kind of error this is.
    pub fn kind(&self) -> (r: ErrorKind)
        ensures
            r == match *self {
                BuildError::Dataset(DatasetError::Malformed(e)) => ErrorKind::InvalidData,
                _ => ErrorKind::InvalidInput,
            },
    {
        match self {
            BuildError::Dataset(e) => e.kind(),
            _ => ErrorKind::InvalidInput,
        }
    }

    /// The error in words.
    pub fn message(&self) -> (s: String)
        ensures
            s@ == match *self {
                BuildError::Dataset(e) => dataset::dataset_message(e),
                BuildError::EmptyDataset => "empty dataset"@,
                BuildError::LengthMismatch { expected, got } => "expected "@ + number::decimal(
                    expected as nat,
                ) + " f32 values, got "@ + number::decimal(got as nat),
            },
    {
        match self {
            BuildError::Dataset(e) => e.message(),
            BuildError::EmptyDataset => "empty dataset".to_owned(),
            BuildError::LengthMismatch { expected, got } => {
                let mut s = "expected ".to_owned();
                s.append(write_uint(*expected).as_str());
                s.append(" f32 values, got ");
                s.append(write_uint(*got as u128).as_str());
                s
            },
        }
    }
}

} // verus!
