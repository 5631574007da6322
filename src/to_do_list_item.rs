use vstd::prelude::*;

verus! {

/// A task: a label and whether it has been done.
pub struct ToDoListItem {
    pub label: String,
    pub completed: bool,
}

impl ToDoListItem {
    /// A task with the given label that is not done yet.
    pub fn new(label: &str) -> (r: Self)
        ensures
            r.label@ == label@,
            !r.completed,
    {
        ToDoListItem { label: label.to_owned(), completed: false }
    }
}

impl PartialEq for ToDoListItem {
    fn eq(&self, other: &ToDoListItem) -> (r: bool) {
        self.label == other.label && self.completed == other.completed
    }
}

impl vstd::std_specs::cmp::PartialEqSpecImpl for ToDoListItem {
    open spec fn obeys_eq_spec() -> bool {
        true
    }

    open spec fn eq_spec(&self, other: &ToDoListItem) -> bool {
        self.label@ == other.label@ && self.completed == other.completed
    }
}

} // verus!
