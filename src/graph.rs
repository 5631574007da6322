use crate::to_do_list_item::ToDoListItem;
use crate::view::View;
use vstd::prelude::*;
use vstd::view::View as _;

verus! {

/// What a node of the task tree holds.
pub enum NodeItem {
    Item(ToDoListItem),
    View(View),
    Root,
}

impl PartialEq for NodeItem {
    fn eq(&self, other: &NodeItem) -> (r: bool) {
        match (self, other) {
            (NodeItem::Item(a), NodeItem::Item(b)) => a == b,
            (NodeItem::View(a), NodeItem::View(b)) => a == b,
            (NodeItem::Root, NodeItem::Root) => true,
            _ => false,
        }
    }
}

impl vstd::std_specs::cmp::PartialEqSpecImpl for NodeItem {
    open spec fn obeys_eq_spec() -> bool {
        true
    }

    open spec fn eq_spec(&self, other: &NodeItem) -> bool {
        match (self, other) {
            (NodeItem::Item(a), NodeItem::Item(b)) => a.label@ == b.label@ && a.completed == b.completed,
            (NodeItem::View(a), NodeItem::View(b)) => a.name_view() == b.name_view(),
            (NodeItem::Root, NodeItem::Root) => true,
            _ => false,
        }
    }
}

} // verus!
