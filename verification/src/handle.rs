//! Opaque, value-comparable identifiers for aggregate instances.

use vstd::prelude::*;
use vstd::string::StringExecFns;

verus! {

/// Names one aggregate instance within a namespace. Stable for the
/// lifetime of the aggregate; compared by value.
#[derive(Debug)]
pub struct Handle {
    pub name: String,
}

impl View for Handle {
    type V = Seq<char>;

    open spec fn view(&self) -> Seq<char> {
        self.name@
    }
}

impl Handle {
    pub fn new(name: String) -> (h: Handle)
        ensures
            h@ == name@,
    {
        Handle { name }
    }

    pub fn from_str(name: &str) -> (h: Handle)
        ensures
            h@ == name@,
    {
        Handle { name: String::from_str(name) }
    }

    pub fn as_str(&self) -> (s: &str)
        ensures
            s@ == self@,
    {
        self.name.as_str()
    }
}

impl Clone for Handle {
    fn clone(&self) -> (h: Handle)
        ensures
            h == *self,
    {
        Handle { name: self.name.clone() }
    }
}

impl PartialEq for Handle {
    fn eq(&self, other: &Handle) -> (r: bool) {
        self.name == other.name
    }
}

impl vstd::std_specs::cmp::PartialEqSpecImpl for Handle {
    open spec fn obeys_eq_spec() -> bool {
        true
    }

    open spec fn eq_spec(&self, other: &Handle) -> bool {
        self@ == other@
    }
}

impl Eq for Handle {

}

} // verus!
