//! The resource of an instrumented application.
use vstd::prelude::*;
use crate::attribute::AttributeRef;

verus! {

/// A resource: the attributes that describe the entity producing telemetry.
#[derive(Debug, Clone)]
pub struct Resource {
    /// References to the attributes of the resource in the catalog.
    pub attributes: Vec<AttributeRef>,
}

} // verus!
