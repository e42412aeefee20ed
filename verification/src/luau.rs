//! Decisions around compiling and loading script chunks: how compiler
//! output is classified, and how a load configures environment
//! injection and just-in-time acceleration.

use vstd::prelude::*;

verus! {

/// The marker byte the compiler puts first when compilation failed;
/// the rest of the buffer is then the error text.
pub open spec fn error_marker() -> u8 {
    0
}

/// What a compiler output buffer holds.
#[derive(Clone, Copy, PartialEq, Eq, Debug)]
pub enum BytecodeStatus {
    /// Nothing came back: compilation never produces this, it is a
    /// host fault.
    Empty,
    /// The buffer is an error report, not bytecode.
    CompileFailure,
    /// Loadable bytecode.
    Valid,
}

/// Classifies a compiler output buffer: empty, an error report
/// (first byte is the error marker), or loadable bytecode.
pub fn classify_bytecode(bytecode: &Vec<u8>) -> (r: BytecodeStatus)
    ensures
        (r == BytecodeStatus::Empty) == (bytecode@.len() == 0),
        (r == BytecodeStatus::CompileFailure) == (bytecode@.len() > 0 && bytecode@[0]
            == error_marker()),
        (r == BytecodeStatus::Valid) == (bytecode@.len() > 0 && bytecode@[0] != error_marker()),
{
    if bytecode.len() == 0 {
        BytecodeStatus::Empty
    } else if bytecode[0] == 0 {
        BytecodeStatus::CompileFailure
    } else {
        BytecodeStatus::Valid
    }
}

/// How one chunk load is to be performed.
#[derive(Clone, Copy, PartialEq, Eq, Debug)]
pub struct LoadPlan {
    /// Build and attach a custom environment table.
    pub use_custom_environment: bool,
    /// Copy the runtime globals (and the global metatable) into that
    /// environment first.
    pub inject_globals: bool,
    /// Enable just-in-time acceleration while loading the chunk: only
    /// when code generation is wanted and the environment is
    /// unchanged, since a changed environment falls back anyway.
    pub jit_while_loading: bool,
    /// Acceleration is always re-enabled after the load.
    pub jit_after_loading: bool,
}

/// Decides how a chunk load is performed from the requested options:
/// whether a custom environment is attached and filled from the
/// globals, and when just-in-time acceleration stays on.
pub fn load_plan(has_environment: bool, inject_globals: bool, codegen_enabled: bool) -> (p:
    LoadPlan)
    ensures
        p.use_custom_environment == has_environment,
        p.inject_globals == (has_environment && inject_globals),
        p.jit_while_loading == (codegen_enabled && !has_environment),
        p.jit_after_loading,
{
    LoadPlan {
        use_custom_environment: has_environment,
        inject_globals: has_environment && inject_globals,
        jit_while_loading: codegen_enabled && !has_environment,
        jit_after_loading: true,
    }
}

} // verus!
