use roblox_mcp::graph::{remove_instance, Graph, RemoveError};
use roblox_mcp::props::PropertyValue;

fn place() -> Graph {
    Graph::new("DataModel".to_string(), "DataModel".to_string())
}

#[test]
fn new_graph_has_one_live_root() {
    let g = place();
    assert_eq!(g.node_count(), 1);
    assert!(g.is_live(0));
    assert_eq!(g.get_node(0).name, "DataModel");
    assert!(g.get_node(0).parent.is_none());
    assert!(g.get_node(0).children.is_empty());
}

#[test]
fn insert_links_parent_and_child() {
    let mut g = place();
    let a = g.insert(0, "Folder".to_string(), "A".to_string(), Vec::new());
    let b = g.insert(a, "Part".to_string(), "B".to_string(), vec![(
        "Anchored".to_string(),
        PropertyValue::Bool(true),
    )]);
    assert_eq!(g.node_count(), 3);
    assert_eq!(g.get_node(0).children, vec![a]);
    assert_eq!(g.get_node(a).children, vec![b]);
    assert_eq!(g.get_node(a).parent, Some(0));
    assert_eq!(g.get_node(b).parent, Some(a));
    assert_eq!(g.get_node(b).class, "Part");
    assert_eq!(g.get_node(b).properties.len(), 1);
    assert_eq!(g.get_node(b).properties[0].0, "Anchored");
}

#[test]
fn destroy_removes_whole_subtree() {
    let mut g = place();
    let house = g.insert(0, "Model".to_string(), "House".to_string(), Vec::new());
    let door = g.insert(house, "Part".to_string(), "Door".to_string(), Vec::new());
    let hinge = g.insert(door, "Part".to_string(), "Hinge".to_string(), Vec::new());
    let tree = g.insert(0, "Model".to_string(), "Tree".to_string(), Vec::new());
    g.destroy(door);
    assert!(g.is_live(0));
    assert!(g.is_live(house));
    assert!(g.is_live(tree));
    assert!(!g.is_live(door));
    assert!(!g.is_live(hinge));
    assert!(g.get_node(house).children.is_empty());
    assert_eq!(g.get_node(0).children, vec![house, tree]);
}

#[test]
fn references_are_not_reused_after_destroy() {
    let mut g = place();
    let a = g.insert(0, "Folder".to_string(), "A".to_string(), Vec::new());
    g.destroy(a);
    let b = g.insert(0, "Folder".to_string(), "B".to_string(), Vec::new());
    assert_ne!(a, b);
    assert!(!g.is_live(a));
    assert!(g.is_live(b));
    assert_eq!(g.node_count(), 3);
}

#[test]
fn remove_instance_refuses_bad_references() {
    let mut g = place();
    let a = g.insert(0, "Folder".to_string(), "A".to_string(), Vec::new());
    assert_eq!(remove_instance(&mut g, 99), Err(RemoveError::NotFound));
    assert_eq!(remove_instance(&mut g, 0), Err(RemoveError::RootRemoval));
    assert_eq!(g.node_count(), 2);
    assert!(g.is_live(a));
    assert_eq!(remove_instance(&mut g, a), Ok(()));
    assert!(!g.is_live(a));
    assert_eq!(remove_instance(&mut g, a), Err(RemoveError::NotFound));
}

#[test]
fn subtree_membership_walks_parent_chain() {
    let mut g = place();
    let a = g.insert(0, "Folder".to_string(), "A".to_string(), Vec::new());
    let b = g.insert(a, "Folder".to_string(), "B".to_string(), Vec::new());
    let c = g.insert(0, "Folder".to_string(), "C".to_string(), Vec::new());
    assert!(g.in_subtree_exec(b, a));
    assert!(g.in_subtree_exec(a, a));
    assert!(!g.in_subtree_exec(c, a));
    assert!(g.in_subtree_exec(c, 0));
}
