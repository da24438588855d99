use vstd::prelude::*;

verus! {

/// The faults the bridge can surface.  None of them is recovered internally:
/// each one aborts the `resolve_imports` or `execute_function` call that hit
/// it and is handed to the caller as a terminal result.
#[derive(Debug, Clone, PartialEq, Eq)]
pub enum RVMError {
    /// The bytecode file was malformed or unreadable (reported by the
    /// external decoder; this crate only carries the kind).
    LoadError(String),
    /// One or more import declarations name no registered native function.
    /// Carries the missing names, in import-slot order.
    UnresolvedImportError(Vec<String>),
    /// The requested entry point is absent from the function table.
    FunctionNotFoundError(String),
    /// A typed accessor asked for a type not matching the tagged stack value.
    TypeMismatchError,
    /// A typed accessor asked for a value when none remains in scope.
    StackUnderflowError,
    /// A native callable reported a failure of its own.
    NativeFunctionError(String),
}

} // verus!
