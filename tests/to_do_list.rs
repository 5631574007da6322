use todo_engine::graph::NodeItem;
use todo_engine::to_do_list::ToDoList;
use todo_engine::to_do_list_item::ToDoListItem;
use todo_engine::view::View;

fn label_at(list: &ToDoList, id: usize) -> String {
    list.get(id).unwrap().label.clone()
}

#[test]
fn gets_nothing() {
    let list = ToDoList::new();

    assert!(list.get(1).is_none());
}

#[test]
fn root_exists() {
    let list = ToDoList::new();

    assert_eq!(1, list.node_count());
    assert_eq!(0, list.edge_count());

    if let Some(root) = list.node(0) {
        assert!(NodeItem::Root == *root);
    } else {
        panic!("No node found");
    }
}

#[test]
fn gets_children() {
    let mut list = ToDoList::new();

    list.add(ToDoListItem::new("item1"), Some(0));
    list.add(ToDoListItem::new("item2"), Some(0));
    list.add(ToDoListItem::new("item3"), Some(0));

    let children = list.children(0);
    assert_eq!(3, children.len());
    assert_eq!("item1", list.get(children[0]).unwrap().label);
    assert_eq!("item2", list.get(children[1]).unwrap().label);
    assert_eq!("item3", list.get(children[2]).unwrap().label);
}

#[test]
fn removes_node() {
    let mut list = ToDoList::new();

    list.add(ToDoListItem::new("item1"), Some(0));
    list.add(ToDoListItem::new("item2"), Some(0));
    list.add(ToDoListItem::new("item3"), Some(0));
    let removed_node_ = list.remove(2);

    // the selected node has been removed
    assert!(removed_node_.is_some());
    if let Some(removed_node) = removed_node_ {
        assert_eq!(2, removed_node);
    } else {
        panic!("Item 2 not removed");
    }

    // the rest of the nodes are intact
    if let Some(NodeItem::Item(item3)) = list.node(2) {
        assert_eq!("item3", item3.label);
    } else {
        panic!("Item 3 should exist");
    }

    if let Some(NodeItem::Item(item1)) = list.node(1) {
        assert_eq!("item1", item1.label);
    } else {
        panic!("Item 1 should exist");
    }
}

#[test]
fn ignores_root_removal() {
    let mut list = ToDoList::new();

    list.add(ToDoListItem::new("item1"), Some(0));
    list.add(ToDoListItem::new("item2"), Some(0));
    list.add(ToDoListItem::new("item3"), Some(0));

    assert!(list.remove(0).is_none());

    assert_eq!(list.node_count(), 4);
    assert_eq!(list.edge_count(), 3);
}

#[test]
fn deep_removes_node() {
    let mut list = ToDoList::new();

    list.add(ToDoListItem::new("item1"), Some(0));
    list.add(ToDoListItem::new("item2"), Some(1));
    list.add(ToDoListItem::new("item3"), Some(2));

    assert!(list.remove(1).is_some());

    assert_eq!(list.node_count(), 1);
    assert_eq!(list.edge_count(), 0);
}

#[test]
fn finds_deep_children() {
    let mut list = ToDoList::new();

    list.add(ToDoListItem::new("item1"), Some(0)); // 1
    list.add(ToDoListItem::new("item2"), Some(1)); // 2
    list.add(ToDoListItem::new("item3"), Some(2)); // 3
    list.add(ToDoListItem::new("item4"), Some(2)); // 4
    list.add(ToDoListItem::new("item5"), Some(3)); // 5

    assert_eq!(list.deep_children(2), vec![2, 3, 5, 4]);
}

#[test]
fn add_returns_dense_ids_and_defaults_to_root() {
    let mut list = ToDoList::new();

    assert_eq!(Some(1), list.add(ToDoListItem::new("a"), None));
    assert_eq!(Some(2), list.add(ToDoListItem::new("b"), Some(1)));
    assert_eq!(Some(3), list.add(ToDoListItem::new("c"), None));
    assert_eq!(list.children(0), vec![1, 3]);
    assert_eq!(list.children(1), vec![2]);
    assert_eq!(list.node_count(), 4);
    assert_eq!(list.edge_count(), 3);
}

#[test]
fn add_then_get_returns_the_payload() {
    let mut list = ToDoList::new();
    let item = ToDoListItem {
        label: String::from("write tests"),
        completed: true,
    };

    let id = list.add(item, Some(0)).unwrap();
    let got = list.get(id).unwrap();
    assert_eq!("write tests", got.label);
    assert!(got.completed);
    assert!(*got == ToDoListItem { label: String::from("write tests"), completed: true });
}

#[test]
fn add_under_unknown_parent_is_refused() {
    let mut list = ToDoList::new();
    list.add(ToDoListItem::new("a"), None);

    assert_eq!(None, list.add(ToDoListItem::new("b"), Some(2)));
    assert_eq!(None, list.add(ToDoListItem::new("b"), Some(usize::MAX)));
    assert_eq!(list.node_count(), 2);
    assert_eq!(list.edge_count(), 1);
    assert!(list.get(2).is_none());
}

#[test]
fn get_refuses_root_and_out_of_range() {
    let mut list = ToDoList::new();
    list.add(ToDoListItem::new("a"), None);

    assert!(list.get(0).is_none());
    assert!(list.get(2).is_none());
    assert!(list.get(usize::MAX).is_none());
    assert!(list.node(2).is_none());
    assert_eq!("a", label_at(&list, 1));
}

#[test]
fn unknown_ids_give_empty_walks_and_no_removal() {
    let mut list = ToDoList::new();
    list.add(ToDoListItem::new("a"), None);

    assert!(list.children(5).is_empty());
    assert!(list.deep_children(5).is_empty());
    assert_eq!(list.deep_children(0), vec![0, 1]);
    assert_eq!(None, list.remove(5));
    assert_eq!(list.node_count(), 2);
    assert_eq!(list.edge_count(), 1);
}

#[test]
fn repeated_root_removal_changes_nothing() {
    let mut list = ToDoList::new();
    list.add(ToDoListItem::new("a"), None);
    list.add(ToDoListItem::new("b"), Some(1));

    for _ in 0..3 {
        assert_eq!(None, list.remove(0));
        assert_eq!(list.node_count(), 3);
        assert_eq!(list.edge_count(), 2);
    }
    assert_eq!(list.deep_children(0), vec![0, 1, 2]);
}

#[test]
fn removal_moves_the_last_node_into_the_freed_slot() {
    let mut list = ToDoList::new();
    list.add(ToDoListItem::new("a"), None); // 1
    list.add(ToDoListItem::new("b"), None); // 2
    list.add(ToDoListItem::new("c"), None); // 3
    list.add(ToDoListItem::new("d"), None); // 4

    assert_eq!(Some(1), list.remove(1));
    assert_eq!(list.node_count(), 4);
    assert_eq!(list.edge_count(), 3);
    assert_eq!("d", label_at(&list, 1));
    assert_eq!("b", label_at(&list, 2));
    assert_eq!("c", label_at(&list, 3));
    assert_eq!(list.children(0), vec![2, 3, 1]);
}

#[test]
fn removing_a_subtree_relabels_the_survivors() {
    let mut list = ToDoList::new();
    list.add(ToDoListItem::new("a"), None); // 1
    list.add(ToDoListItem::new("a1"), Some(1)); // 2
    list.add(ToDoListItem::new("b"), None); // 3
    list.add(ToDoListItem::new("b1"), Some(3)); // 4

    assert_eq!(list.deep_children(1), vec![1, 2]);
    assert_eq!(Some(1), list.remove(1));
    assert_eq!(list.node_count(), 3);
    assert_eq!(list.edge_count(), 2);
    assert_eq!(list.children(0), vec![1]);
    assert_eq!("b", label_at(&list, 1));
    assert_eq!("b1", label_at(&list, 2));
    assert_eq!(list.children(1), vec![2]);
    assert_eq!(list.deep_children(0), vec![0, 1, 2]);
}

#[test]
fn removing_a_leaf_keeps_its_siblings_in_order() {
    let mut list = ToDoList::new();
    list.add(ToDoListItem::new("p"), None); // 1
    list.add(ToDoListItem::new("x"), Some(1)); // 2
    list.add(ToDoListItem::new("y"), Some(1)); // 3
    list.add(ToDoListItem::new("z"), Some(1)); // 4

    assert_eq!(Some(2), list.remove(2));
    assert_eq!(list.children(1), vec![3, 2]);
    assert_eq!("y", label_at(&list, 3));
    assert_eq!("z", label_at(&list, 2));
}

#[test]
fn items_start_open() {
    let item = ToDoListItem::new("milk");
    assert_eq!("milk", item.label);
    assert!(!item.completed);
    assert!(item == ToDoListItem::new("milk"));
    assert!(!(item == ToDoListItem::new("bread")));
}

#[test]
fn views_keep_their_name() {
    let view = View::new(String::from("today"));
    assert_eq!("today", view.name());
    assert!(view == View::new(String::from("today")));
    assert!(!(NodeItem::View(View::new(String::from("a"))) == NodeItem::Root));
    assert!(NodeItem::Item(ToDoListItem::new("a")) == NodeItem::Item(ToDoListItem::new("a")));
}

#[test]
fn removing_a_branching_subtree_takes_every_descendant() {
    let mut list = ToDoList::new();
    list.add(ToDoListItem::new("a"), None); // 1
    list.add(ToDoListItem::new("a1"), Some(1)); // 2
    list.add(ToDoListItem::new("a2"), Some(1)); // 3
    list.add(ToDoListItem::new("a2x"), Some(3)); // 4
    list.add(ToDoListItem::new("b"), None); // 5

    assert_eq!(list.deep_children(1), vec![1, 2, 3, 4]);
    assert_eq!(Some(1), list.remove(1));
    assert_eq!(list.node_count(), 2);
    assert_eq!(list.edge_count(), 1);
    assert_eq!("b", label_at(&list, 1));
    assert_eq!(list.children(0), vec![1]);
    assert!(list.children(1).is_empty());
}
