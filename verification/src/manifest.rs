//! The manifest of a semantic convention registry.
use vstd::prelude::*;

verus! {

/// What a registry declares about itself.
#[derive(Debug, Clone)]
pub struct RegistryManifest {
    /// The name of the registry.
    pub name: String,
    /// A description of the registry.
    pub description: Option<String>,
    /// The version of the semantic conventions of the registry.
    pub semconv_version: String,
    /// The base location of the schemas of the registry.
    pub schema_base_url: String,
}

} // verus!
