use roblox_mcp::graph::Graph;
use roblox_mcp::resolve::{find_instance_by_path, find_service, split_path};

fn place() -> Graph {
    Graph::new("DataModel".to_string(), "DataModel".to_string())
}

fn folder(g: &mut Graph, parent: usize, name: &str) -> usize {
    g.insert(parent, "Folder".to_string(), name.to_string(), Vec::new())
}

#[test]
fn empty_path_resolves_to_start() {
    let mut g = place();
    let ws = folder(&mut g, 0, "Workspace");
    assert_eq!(find_instance_by_path(&g, 0, ""), Some(0));
    assert_eq!(find_instance_by_path(&g, ws, ""), Some(ws));
}

#[test]
fn nested_paths_walk_named_children() {
    let mut g = place();
    let ws = folder(&mut g, 0, "Workspace");
    let house = folder(&mut g, ws, "House");
    let door = folder(&mut g, house, "Door");
    assert_eq!(find_instance_by_path(&g, 0, "Workspace"), Some(ws));
    assert_eq!(find_instance_by_path(&g, 0, "Workspace/House"), Some(house));
    assert_eq!(find_instance_by_path(&g, 0, "Workspace/House/Door"), Some(door));
    assert_eq!(find_instance_by_path(&g, 0, "Workspace/Garage"), None);
    assert_eq!(find_instance_by_path(&g, 0, "Lighting"), None);
}

#[test]
fn root_sentinel_prefix_is_consumed() {
    let mut g = place();
    let ws = folder(&mut g, 0, "Workspace");
    let house = folder(&mut g, ws, "House");
    assert_eq!(find_instance_by_path(&g, 0, "DataModel"), Some(0));
    assert_eq!(find_instance_by_path(&g, 0, "DataModel/Workspace"), Some(ws));
    assert_eq!(find_instance_by_path(&g, 0, "DataModel/Workspace/House"), Some(house));
}

#[test]
fn first_matching_sibling_wins() {
    let mut g = place();
    let first = folder(&mut g, 0, "Twin");
    let second = folder(&mut g, 0, "Twin");
    assert_ne!(first, second);
    assert_eq!(find_instance_by_path(&g, 0, "Twin"), Some(first));
    assert_eq!(find_service(&g, 0, "Twin"), Some(first));
}

#[test]
fn resolution_is_case_sensitive_and_exact() {
    let mut g = place();
    folder(&mut g, 0, "Workspace");
    assert_eq!(find_instance_by_path(&g, 0, "workspace"), None);
    assert_eq!(find_instance_by_path(&g, 0, "Work"), None);
    assert_eq!(find_instance_by_path(&g, 0, "Workspace/"), None);
}

#[test]
fn find_service_looks_only_at_direct_children() {
    let mut g = place();
    let ws = folder(&mut g, 0, "Workspace");
    folder(&mut g, ws, "Deep");
    assert_eq!(find_service(&g, 0, "Deep"), None);
    assert_eq!(find_service(&g, ws, "Deep").is_some(), true);
}

#[test]
fn split_path_segments() {
    let segs = split_path("Workspace/Models/House");
    assert_eq!(segs, vec!["Workspace", "Models", "House"]);
    assert_eq!(split_path(""), vec![""]);
    assert_eq!(split_path("a//b"), vec!["a", "", "b"]);
    assert_eq!(split_path("trail/"), vec!["trail", ""]);
}
