//! A hierarchical task list: a single root with nested tasks and views,
//! stored in a directed graph whose node identifiers stay dense.

pub mod graph;
pub mod tree_graph;
pub mod to_do_list;
pub mod to_do_list_item;
pub mod view;
