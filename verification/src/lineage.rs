//! Where the groups of a resolved schema come from.
use vstd::prelude::*;

verus! {

/// The lineage of a group: the file that defined it.
#[derive(Debug, Clone)]
pub struct GroupLineage {
    /// The file that defined the group.
    pub source_file: String,
}

} // verus!
