//! An instrumentation library.
use vstd::prelude::*;

verus! {

/// The library that instruments an application, or one that it depends on.
#[derive(Debug, Clone)]
pub struct InstrumentationLibrary {
    /// The name of the library.
    pub name: String,
    /// The version of the library.
    pub version: Option<String>,
}

} // verus!
