use roblox_mcp::graph::Graph;
use roblox_mcp::provision::{find_or_create_service, provision_services};
use roblox_mcp::resolve::find_instance_by_path;

fn place() -> Graph {
    Graph::new("DataModel".to_string(), "DataModel".to_string())
}

#[test]
fn get_or_create_twice_returns_same_reference_once_created() {
    let mut g = place();
    let first = find_or_create_service(&mut g, 0, "Workspace");
    assert_eq!(g.node_count(), 2);
    assert_eq!(g.get_node(0).children.len(), 1);
    let second = find_or_create_service(&mut g, 0, "Workspace");
    assert_eq!(first, second);
    assert_eq!(g.node_count(), 2);
    assert_eq!(g.get_node(0).children.len(), 1);
}

#[test]
fn get_or_create_finds_an_existing_child() {
    let mut g = place();
    let existing = g.insert(0, "Workspace".to_string(), "Workspace".to_string(), Vec::new());
    let found = find_or_create_service(&mut g, 0, "Workspace");
    assert_eq!(found, existing);
    assert_eq!(g.node_count(), 2);
}

#[test]
fn created_container_uses_the_name_as_class() {
    let mut g = place();
    let id = find_or_create_service(&mut g, 0, "Lighting");
    assert_eq!(g.get_node(id).name, "Lighting");
    assert_eq!(g.get_node(id).class, "Lighting");
    assert_eq!(g.get_node(id).parent, Some(0));
}

#[test]
fn provisioning_creates_the_full_roster() {
    let mut g = place();
    let refs = provision_services(&mut g, 0);
    // Nine containers under the root, two under the starter player.
    assert_eq!(g.node_count(), 12);
    assert_eq!(g.get_node(0).children.len(), 9);
    let names = [
        "Workspace",
        "StarterPlayer",
        "Lighting",
        "ReplicatedStorage",
        "ServerScriptService",
        "ServerStorage",
        "SoundService",
        "Chat",
        "Teams",
    ];
    for (k, name) in names.iter().enumerate() {
        let id = refs.root_refs[k];
        assert_eq!(find_instance_by_path(&g, 0, name), Some(id));
        assert_eq!(g.get_node(id).name, *name);
    }
    assert_eq!(
        find_instance_by_path(&g, 0, "StarterPlayer/StarterPlayerScripts"),
        Some(refs.starter_player_scripts)
    );
    assert_eq!(
        find_instance_by_path(&g, 0, "StarterPlayer/StarterCharacterScripts"),
        Some(refs.starter_character_scripts)
    );
}

#[test]
fn provisioning_twice_creates_no_duplicates() {
    let mut g = place();
    let first = provision_services(&mut g, 0);
    let count = g.node_count();
    let second = provision_services(&mut g, 0);
    assert_eq!(g.node_count(), count);
    assert_eq!(g.get_node(0).children.len(), 9);
    assert_eq!(first.root_refs, second.root_refs);
    assert_eq!(first.starter_player_scripts, second.starter_player_scripts);
    assert_eq!(first.starter_character_scripts, second.starter_character_scripts);
}

#[test]
fn provisioning_keeps_existing_containers() {
    let mut g = place();
    let ws = g.insert(0, "Workspace".to_string(), "Workspace".to_string(), Vec::new());
    let part = g.insert(ws, "Part".to_string(), "Base".to_string(), Vec::new());
    let refs = provision_services(&mut g, 0);
    assert_eq!(refs.root_refs[0], ws);
    assert!(g.is_live(part));
    assert_eq!(find_instance_by_path(&g, 0, "Workspace/Base"), Some(part));
}

#[test]
fn service_lookup_knows_the_eleven_names() {
    let mut g = place();
    let refs = provision_services(&mut g, 0);
    assert_eq!(refs.lookup("Workspace"), Some(refs.root_refs[0]));
    assert_eq!(refs.lookup("Teams"), Some(refs.root_refs[8]));
    assert_eq!(refs.lookup("StarterPlayerScripts"), Some(refs.starter_player_scripts));
    assert_eq!(refs.lookup("StarterCharacterScripts"), Some(refs.starter_character_scripts));
    assert_eq!(refs.lookup("Workspace/House"), None);
    assert_eq!(refs.lookup("Backpack"), None);
}
