//! Errors of the resolved schema.
use vstd::prelude::*;
use crate::attribute::AttributeRef;

verus! {

/// An error in a resolved telemetry schema.
#[derive(Debug, Clone, PartialEq, Eq, Structural)]
pub enum Error {
    /// A group refers to an attribute that the catalog does not hold.
    AttributeNotFound {
        /// The reference that could not be resolved.
        attr_ref: AttributeRef,
    },
}

} // verus!
