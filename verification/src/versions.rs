//! The versions of a telemetry schema family.
use vstd::prelude::*;

verus! {

/// What changed in one version.
#[derive(Debug, Clone)]
pub struct VersionSpec {
    /// Attributes renamed in this version: the old name, then the new one.
    pub rename_attributes: Vec<(String, String)>,
    /// Metrics renamed in this version: the old name, then the new one.
    pub rename_metrics: Vec<(String, String)>,
}

/// The versions of a schema family, each with its changes, in version order.
#[derive(Debug, Clone)]
pub struct Versions {
    /// Each version number with the changes it brought.
    pub versions: Vec<(String, VersionSpec)>,
}

} // verus!
