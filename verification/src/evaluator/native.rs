//! The native `clock` function of the tree-walk evaluator.
use vstd::prelude::*;

verus! {

/// The native function `clock`, which gives the seconds since the Unix epoch.
#[derive(Clone, Copy, Debug, PartialEq, Eq, Structural)]
pub struct Clock;

impl Clock {
    /// `clock` takes no arguments.
    pub fn arity(&self) -> (n: usize)
        ensures
            n == 0,
    {
        0
    }

    /// How the function is displayed.
    pub fn stringify(&self) -> (s: String)
        ensures
            s@ == "<native fun 'clock'>"@,
    {
        "<native fun 'clock'>".to_owned()
    }
}

} // verus!
