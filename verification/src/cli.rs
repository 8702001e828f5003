//! Command line arguments.
use vstd::prelude::*;

verus! {

/// Command line arguments.
#[derive(Debug)]
pub struct Cli {
    /// Turn debugging information on (the number of times the flag is given).
    pub debug: u8,
    /// Turn the quiet mode on (i.e., minimal output)
    pub quiet: bool,
    /// Enable the most recent validation rules for the semconv registry. It is recommended
    /// to enable this flag when checking a new registry.
    pub future: bool,
    /// Enable simple mode, where schema validation is relaxed and assume certain defaults.
    pub simple: bool,
    /// The command to run.
    pub command: Option<Commands>,
}

/// Supported commands.
#[derive(Debug)]
pub enum Commands {
    /// Manage Semantic Convention Registry
    Registry(RegistryCommand),
    /// Manage Diagnostic Messages
    Diagnostic(DiagnosticCommand),
}

/// Arguments of the registry command.
#[derive(Debug, Clone, Copy, PartialEq, Eq, Structural)]
pub struct RegistryCommand {}

/// Arguments of the diagnostic command.
#[derive(Debug, Clone, Copy, PartialEq, Eq, Structural)]
pub struct DiagnosticCommand {}

} // verus!
