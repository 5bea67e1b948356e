use roblox_mcp::apply::{json_to_weakdom, ApplyError, JsonInstance, JsonProperty, Modification};
use roblox_mcp::graph::Graph;
use roblox_mcp::json::{JsonNumber, JsonValue};
use roblox_mcp::props::{DecodeError, PropertyValue};
use roblox_mcp::resolve::find_instance_by_path;

fn place() -> Graph {
    Graph::new("DataModel".to_string(), "DataModel".to_string())
}

fn jnum(x: f64) -> JsonValue {
    let int_val = if x.fract() == 0.0 && x.abs() < 9e18 { Some(x as i64) } else { None };
    let uint_val = if x.fract() == 0.0 && x >= 0.0 && x < 1.8e19 { Some(x as u64) } else { None };
    JsonValue::Num(JsonNumber { bits: x.to_bits(), int_val, uint_val, text: format!("{}", x) })
}

fn prop(name: &str, tag: &str, value: JsonValue) -> (String, JsonProperty) {
    (name.to_string(), JsonProperty { tag: tag.to_string(), value })
}

fn inst(class: &str, name: &str) -> JsonInstance {
    JsonInstance {
        class: class.to_string(),
        name: name.to_string(),
        properties: Vec::new(),
        children: Vec::new(),
        target_parent: None,
    }
}

#[test]
fn add_one_part_under_default_container() {
    // One added description lands as the sole child of the workspace, with
    // its size decoded component for component.
    let mut g = place();
    let mut base = inst("Part", "Base");
    base.properties.push(prop(
        "Size",
        "Vector3",
        JsonValue::Arr(vec![jnum(10.0), jnum(5.0), jnum(10.0)]),
    ));
    let patch = Modification { add: vec![base], subtract: Vec::new() };
    assert!(json_to_weakdom(&mut g, &patch, 0).is_ok());
    let ws = find_instance_by_path(&g, 0, "Workspace").unwrap();
    assert_eq!(g.get_node(ws).children.len(), 1);
    let new_part = g.get_node(ws).children[0];
    let node = g.get_node(new_part);
    assert_eq!(node.name, "Base");
    assert_eq!(node.class, "Part");
    assert_eq!(node.properties.len(), 1);
    assert_eq!(node.properties[0].0, "Size");
    match &node.properties[0].1 {
        PropertyValue::Vector3(bits) => {
            assert_eq!(f64::from_bits(bits.x), 10.0);
            assert_eq!(f64::from_bits(bits.y), 5.0);
            assert_eq!(f64::from_bits(bits.z), 10.0);
        }
        _ => panic!("expected a vector property"),
    }
}

#[test]
fn unresolvable_target_parent_falls_back_to_workspace() {
    let mut g = place();
    let mut door = inst("Part", "Door");
    door.target_parent = Some("Workspace/House".to_string());
    let patch = Modification { add: vec![door], subtract: Vec::new() };
    assert!(json_to_weakdom(&mut g, &patch, 0).is_ok());
    let ws = find_instance_by_path(&g, 0, "Workspace").unwrap();
    let added = find_instance_by_path(&g, 0, "Workspace/Door").unwrap();
    assert_eq!(g.get_node(added).parent, Some(ws));
}

#[test]
fn resolvable_target_parent_path_is_used() {
    let mut g = place();
    let patch1 = Modification {
        add: vec![{
            let mut house = inst("Model", "House");
            house.target_parent = Some("Workspace".to_string());
            house
        }],
        subtract: Vec::new(),
    };
    assert!(json_to_weakdom(&mut g, &patch1, 0).is_ok());
    let mut door = inst("Part", "Door");
    door.target_parent = Some("Workspace/House".to_string());
    let patch2 = Modification { add: vec![door], subtract: Vec::new() };
    assert!(json_to_weakdom(&mut g, &patch2, 0).is_ok());
    let house = find_instance_by_path(&g, 0, "Workspace/House").unwrap();
    let added = find_instance_by_path(&g, 0, "Workspace/House/Door").unwrap();
    assert_eq!(g.get_node(added).parent, Some(house));
}

#[test]
fn direct_service_names_bypass_path_resolution() {
    let mut g = place();
    let mut script = inst("Script", "Main");
    script.target_parent = Some("ServerScriptService".to_string());
    let patch = Modification { add: vec![script], subtract: Vec::new() };
    assert!(json_to_weakdom(&mut g, &patch, 0).is_ok());
    assert!(find_instance_by_path(&g, 0, "ServerScriptService/Main").is_some());
    assert!(find_instance_by_path(&g, 0, "Workspace/Main").is_none());
}

#[test]
fn subtract_removes_subtree_and_resolution_fails_afterwards() {
    let mut g = place();
    let setup = Modification {
        add: vec![{
            let mut door = inst("Part", "Door");
            door.children.push(inst("Part", "Hinge"));
            door.target_parent = Some("Workspace".to_string());
            door
        }],
        subtract: Vec::new(),
    };
    assert!(json_to_weakdom(&mut g, &setup, 0).is_ok());
    let door = find_instance_by_path(&g, 0, "Workspace/Door").unwrap();
    let hinge = find_instance_by_path(&g, 0, "Workspace/Door/Hinge").unwrap();
    let patch = Modification { add: Vec::new(), subtract: vec!["Workspace/Door".to_string()] };
    assert!(json_to_weakdom(&mut g, &patch, 0).is_ok());
    assert_eq!(find_instance_by_path(&g, 0, "Workspace/Door"), None);
    assert!(!g.is_live(door));
    assert!(!g.is_live(hinge));
}

#[test]
fn missing_subtract_path_is_not_fatal() {
    // The unresolvable entry changes nothing, the remaining subtraction and
    // every addition still run.
    let mut g = place();
    let setup = Modification {
        add: vec![{
            let mut tree = inst("Model", "Tree");
            tree.target_parent = Some("Workspace".to_string());
            tree
        }],
        subtract: Vec::new(),
    };
    assert!(json_to_weakdom(&mut g, &setup, 0).is_ok());
    let count_before = g.node_count();
    let patch = Modification {
        add: vec![inst("Part", "Rock")],
        subtract: vec!["Workspace/Ghost".to_string(), "Workspace/Tree".to_string()],
    };
    assert!(json_to_weakdom(&mut g, &patch, 0).is_ok());
    assert_eq!(find_instance_by_path(&g, 0, "Workspace/Tree"), None);
    assert!(find_instance_by_path(&g, 0, "Workspace/Rock").is_some());
    assert_eq!(g.node_count(), count_before + 1);
}

#[test]
fn nested_children_materialize_depth_first() {
    let mut g = place();
    let mut house = inst("Model", "House");
    let mut wall = inst("Part", "Wall");
    wall.children.push(inst("Decal", "Painting"));
    house.children.push(wall);
    house.children.push(inst("Part", "Roof"));
    let patch = Modification { add: vec![house], subtract: Vec::new() };
    assert!(json_to_weakdom(&mut g, &patch, 0).is_ok());
    let house_id = find_instance_by_path(&g, 0, "Workspace/House").unwrap();
    let wall_id = find_instance_by_path(&g, 0, "Workspace/House/Wall").unwrap();
    let painting = find_instance_by_path(&g, 0, "Workspace/House/Wall/Painting").unwrap();
    let roof = find_instance_by_path(&g, 0, "Workspace/House/Roof").unwrap();
    assert_eq!(g.get_node(house_id).children, vec![wall_id, roof]);
    assert!(wall_id < painting && painting < roof);
}

#[test]
fn malformed_property_fails_with_name_and_keeps_earlier_work() {
    let mut g = place();
    let good = inst("Part", "Good");
    let mut bad = inst("Part", "Bad");
    bad.properties.push(prop("Size", "Vector3", JsonValue::Arr(vec![jnum(1.0)])));
    let patch = Modification { add: vec![good, bad], subtract: Vec::new() };
    match json_to_weakdom(&mut g, &patch, 0) {
        Err(ApplyError::Decode { prop_name, error }) => {
            assert_eq!(prop_name, "Size");
            assert_eq!(error, DecodeError::Vector3WrongLength);
        }
        _ => panic!("expected a decode failure"),
    }
    // The earlier addition stays committed; the failed one leaves nothing.
    assert!(find_instance_by_path(&g, 0, "Workspace/Good").is_some());
    assert!(find_instance_by_path(&g, 0, "Workspace/Bad").is_none());
}

#[test]
fn unsupported_property_type_does_not_abort_the_instance() {
    let mut g = place();
    let mut part = inst("Part", "Mixed");
    part.properties.push(prop("Odd", "SomethingNew", jnum(1.0)));
    part.properties.push(prop("Anchored", "Bool", JsonValue::Bool(true)));
    let patch = Modification { add: vec![part], subtract: Vec::new() };
    assert!(json_to_weakdom(&mut g, &patch, 0).is_ok());
    let id = find_instance_by_path(&g, 0, "Workspace/Mixed").unwrap();
    let node = g.get_node(id);
    assert_eq!(node.properties.len(), 1);
    assert_eq!(node.properties[0].0, "Anchored");
}

#[test]
fn provisioning_runs_even_for_an_empty_patch() {
    let mut g = place();
    let patch = Modification { add: Vec::new(), subtract: Vec::new() };
    assert!(json_to_weakdom(&mut g, &patch, 0).is_ok());
    assert!(find_instance_by_path(&g, 0, "Workspace").is_some());
    assert!(find_instance_by_path(&g, 0, "SoundService").is_some());
    assert!(find_instance_by_path(&g, 0, "StarterPlayer/StarterPlayerScripts").is_some());
}

#[test]
fn subtracting_the_root_sentinel_changes_nothing() {
    let mut g = place();
    let patch = Modification { add: Vec::new(), subtract: vec!["".to_string()] };
    assert!(json_to_weakdom(&mut g, &patch, 0).is_ok());
    assert!(g.is_live(0));
    assert!(find_instance_by_path(&g, 0, "Workspace").is_some());
}

#[test]
fn script_source_survives_whatever_its_tag() {
    let mut g = place();
    let mut script = inst("Script", "Main");
    script.target_parent = Some("ServerScriptService".to_string());
    script.properties.push(prop("Source", "String", JsonValue::Text("print(1)".to_string())));
    let patch = Modification { add: vec![script], subtract: Vec::new() };
    assert!(json_to_weakdom(&mut g, &patch, 0).is_ok());
    let id = find_instance_by_path(&g, 0, "ServerScriptService/Main").unwrap();
    match &g.get_node(id).properties[0].1 {
        PropertyValue::Text(s) => assert_eq!(s, "print(1)"),
        _ => panic!("expected the source text"),
    }
}
