//! How a run of a script ends, and the exit status the program leaves.

use vstd::prelude::*;

verus! {

/// Outcome of running a script.
#[derive(Debug, Clone, Copy, PartialEq, Eq, Structural)]
pub enum InterpretResult {
    Finished,
    CompileError,
    RuntimeError,
}

impl InterpretResult {
    /// The exit status: 0 after a clean run, 65 after a compile error and
    /// 70 after a runtime error.
    pub fn exit_status(self) -> (c: i32)
        ensures
            c == match self {
                InterpretResult::Finished => 0i32,
                InterpretResult::CompileError => 65i32,
                InterpretResult::RuntimeError => 70i32,
            },
    {
        match self {
            InterpretResult::Finished => 0,
            InterpretResult::CompileError => 65,
            InterpretResult::RuntimeError => 70,
        }
    }
}

} // verus!
