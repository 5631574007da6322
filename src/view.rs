use vstd::prelude::*;
use vstd::view::View as _;

verus! {

/// A named grouping of tasks.
pub struct View {
    name: String,
}

impl View {
    pub closed spec fn name_view(&self) -> Seq<char> {
        self.name@
    }

    /// A view with the given name.
    pub fn new(name: String) -> (r: Self)
        ensures
            r.name_view() == name@,
    {
        View { name: name }
    }

    /// The name of the view.
    pub fn name(&self) -> (r: &String)
        ensures
            r@ == self.name_view(),
    {
        &self.name
    }
}

impl PartialEq for View {
    fn eq(&self, other: &View) -> (r: bool) {
        self.name == other.name
    }
}

impl vstd::std_specs::cmp::PartialEqSpecImpl for View {
    open spec fn obeys_eq_spec() -> bool {
        true
    }

    open spec fn eq_spec(&self, other: &View) -> bool {
        self.name_view() == other.name_view()
    }
}

} // verus!
