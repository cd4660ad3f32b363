//! How running a program on the virtual machine ended.
use vstd::prelude::*;

verus! {

/// How interpreting a program ended.
#[derive(Debug, Clone, Copy, PartialEq, Eq, Structural)]
pub enum InterpretResult {
    Success,
    CompileError,
    RuntimeError,
}

impl InterpretResult {
    /// The exit status of a run that ended so: 0, or 65 for a compile error,
    /// 70 for a runtime error.
    pub fn exit_code(self) -> (c: i32)
        ensures
            c == match self {
                InterpretResult::Success => 0i32,
                InterpretResult::CompileError => 65i32,
                InterpretResult::RuntimeError => 70i32,
            },
    {
        match self {
            InterpretResult::Success => 0,
            InterpretResult::CompileError => 65,
            InterpretResult::RuntimeError => 70,
        }
    }
}

} // verus!
