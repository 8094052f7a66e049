//! Manifests: the list of columnar files of one partition.

use crate::column::Column;
use vstd::prelude::*;

verus! {

/// One columnar data file.
#[derive(Debug)]
pub struct File {
    pub file_path: String,
    pub num_rows: u64,
    pub file_size: u64,
    pub ingestion_size: u64,
    pub columns: Vec<Column>,
}

/// The files of one partition.
#[derive(Debug)]
pub struct Manifest {
    pub files: Vec<File>,
}

} // verus!
