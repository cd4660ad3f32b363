//! Native functions of the virtual machine.
use vstd::prelude::*;
use crate::text::{copy_string, push_str};

verus! {

/// A function provided by the machine, known by its name.
pub struct Native {
    name: String,
}

impl Native {
    /// The name of the function.
    pub closed spec fn spec_name(&self) -> Seq<char> {
        self.name@
    }

    /// The native function called `name`.
    pub fn new(name: String) -> (n: Native)
        ensures
            n.spec_name() == name@,
    {
        Native { name }
    }

    /// The name of the function.
    pub fn name(&self) -> (s: String)
        ensures
            s@ == self.spec_name(),
    {
        copy_string(&self.name)
    }

    /// The function as displayed: `<native fun NAME>`.
    pub fn to_string(&self) -> (s: String)
        ensures
            s@ == "<native fun "@ + self.spec_name() + ">"@,
    {
        let mut s = String::new();
        push_str(&mut s, "<native fun ");
        push_str(&mut s, self.name.as_str());
        push_str(&mut s, ">");
        assert(s@ =~= "<native fun "@ + self.spec_name() + ">"@);
        s
    }

    /// Whether two natives are the same function.
    pub fn same(&self, other: &Native) -> (b: bool)
        ensures
            b == (self.spec_name() == other.spec_name()),
    {
        crate::text::same_text(self.name.as_str(), other.name.as_str())
    }
}

} // verus!
