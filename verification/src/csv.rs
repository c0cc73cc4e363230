//! Rows of named values.

use vstd::prelude::*;

verus! {

/// The data of a table: one list of (column, value) pairs per row.
pub struct Csv {
    data: Vec<Vec<(String, String)>>,
}

impl Csv {
    /// How many rows the table holds.
    pub closed spec fn rows(&self) -> nat {
        self.data@.len()
    }

    /// An empty table.
    pub fn new() -> (res: Csv)
        ensures
            res.rows() == 0,
    {
        Csv { data: Vec::new() }
    }

    /// Reading is not offered yet: the table stays as it is, whatever the
    /// path.
    pub fn read_file(&mut self, path: &str)
        ensures
            *final(self) == *old(self),
    {
    }

    pub fn len(&self) -> (res: usize)
        ensures
            res == self.rows(),
    {
        self.data.len()
    }
}

} // verus!
