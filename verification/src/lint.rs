//! Diagnostics of the MASM lint about modules that could not be resolved.
use vstd::prelude::*;

verus! {

/// A referenced module that could not be resolved.
#[derive(Debug, Clone, PartialEq, Eq)]
pub struct UnresolvedModule {
    /// Fully-qualified module path.
    pub path: String,
    /// Configured namespace that should contain this module, if any.
    pub configured_namespace: Option<String>,
}

} // verus!
