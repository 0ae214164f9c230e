use vstd::prelude::*;

verus! {

/// What happens to the data source file after the import.
#[derive(Debug, Clone, Copy, PartialEq, Eq, Structural)]
pub enum DataSourceDeletion {
    /// Retain the data source file.
    Retain,
    /// Delete the data source file.
    Delete,
}

/// How an import is run.
#[derive(Debug)]
pub struct ImportOptions {
    /// Where to look for the data source file instead of where the profile
    /// says.
    pub path_override: Option<String>,
    pub deletion: DataSourceDeletion,
    /// Do not merge the staging table into the target table.
    pub no_merge: bool,
    /// Do not drop the staging table after each table mapper.
    pub no_drop: bool,
    /// Do not merge duplicate columns.
    pub no_duplicate_optimization: bool,
}

impl Default for ImportOptions {
    fn default() -> (r: Self)
        ensures
            r.path_override is None,
            r.deletion == DataSourceDeletion::Retain,
            !r.no_merge,
            !r.no_drop,
            !r.no_duplicate_optimization,
    {
        Self {
            path_override: None,
            deletion: DataSourceDeletion::Retain,
            no_merge: false,
            no_drop: false,
            no_duplicate_optimization: false,
        }
    }
}

impl ImportOptions {
    /// Whether the options agree with one another: the merge may be left out
    /// only where the staging table is kept.
    pub open spec fn consistent(&self) -> bool {
        self.no_merge ==> self.no_drop
    }

    pub fn is_consistent(&self) -> (r: bool)
        ensures
            r == self.consistent(),
    {
        !self.no_merge || self.no_drop
    }
}

} // verus!
