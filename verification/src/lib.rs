//! Operator tools for skeg: what they compute and decide.
//!
//! - [`builder`] decides on an offline index build over a [`dataset`] and
//!   names the files of the data directory that it writes; [`registry`] is the
//!   format of one of them.
//! - [`inspect`] reports on a data directory.
//! - [`stats`] fetches the counters of a running server, over the commands and
//!   replies of [`resp`].
//! - [`args`] reads the command line.
//!
//! The modules whose names end in `_laws` state what holds of these as a whole.
//!
//! Files, directories and connections are left to the caller: what is read
//! from them comes in as plain values, and what is to be written goes out as
//! plain values.

pub mod args;
pub mod args_laws;
pub mod builder;
pub mod dataset;
pub mod dataset_laws;
pub mod encoding;
pub mod error;
pub mod header_laws;
pub mod inspect;
pub mod inspect_laws;
pub mod number;
pub mod registry;
pub mod reply_laws;
pub mod report_laws;
pub mod resp;
pub mod size;
pub mod size_laws;
pub mod stats;
pub mod stats_laws;
pub mod text;
pub mod text_laws;

pub use builder::{build_index, build_index_from, BuildStats};
pub use dataset::{read_header, read_vectors};
