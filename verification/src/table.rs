//! Named output tables of one log: `snapshots` (one row per decision) and
//! any further table, each a Polars `DataFrame`.  Writing them to and
//! reading them from a directory of Parquet files is done by the program
//! around the library.

use std::collections::HashMap;

use vstd::prelude::*;

use polars::prelude::DataFrame;

verus! {

/// The tables produced for one log, keyed by table name.
pub struct ConversionResult {
    /// Table name → table.
    pub tables: HashMap<String, DataFrame>,
}

impl ConversionResult {
    /// A result without any table.
    pub fn empty() -> (r: Self)
        ensures
            r.tables@ == Map::<String, DataFrame>::empty(),
    {
        ConversionResult { tables: HashMap::new() }
    }

    /// The number of tables: `HashMap::len` of the tables.  vstd relates
    /// that length to the map's entries only for keys with a known hashing
    /// model, which `String` lacks, so no more than that is stated.
    pub fn len(&self) -> (r: usize)
        ensures
            r == self.tables.len(),
    {
        self.tables.len()
    }

    /// Whether there is no table.
    pub fn is_empty(&self) -> (r: bool)
        ensures
            r == self.tables@.is_empty(),
    {
        self.tables.is_empty()
    }
}

} // verus!
