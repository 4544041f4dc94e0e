//! Command-line arguments of the converter: `convert`, `batch` and
//! `par-batch`.  The argument parser itself is generated in the program
//! around the library; these are the values it yields.

use std::path::PathBuf;

use vstd::prelude::*;

verus! {

#[verifier::external_type_specification]
#[verifier::external_body]
pub struct ExPathBuf(PathBuf);

/// Converts mjlog XML to Polars DataFrames (Parquet).
pub struct Cli {
    pub command: Command,
}

/// The subcommands.
pub enum Command {
    /// Converts one mjlog XML file to a Parquet table.
    Convert(ConvertArgs),
    /// Converts every downloaded log of a houou-logs SQLite database.
    Batch(BatchArgs),
    /// The same on several threads, one Parquet file per game.
    ParBatch(ParBatchArgs),
}

/// Arguments of `convert`.
pub struct ConvertArgs {
    /// The mjlog XML file (plain or gzip-compressed `.xml.gz`).
    pub input: PathBuf,
    /// The Parquet file to write; by default the input's file stem with the
    /// extension `.parquet`.
    pub output: Option<PathBuf>,
}

/// Arguments of `batch`.
pub struct BatchArgs {
    /// The houou-logs SQLite database.
    pub db_path: PathBuf,
    /// The output root (default `tables`): one directory per log, named by
    /// its id, holding `snapshots.parquet`.
    pub output_dir: PathBuf,
}

/// Arguments of `par-batch`.
pub struct ParBatchArgs {
    /// The houou-logs SQLite database.
    pub db_path: PathBuf,
    /// The output directory (default `tables`): one `{game_id}.parquet` per
    /// game.
    pub output_dir: PathBuf,
}

} // verus!
