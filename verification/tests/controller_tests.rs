use turtle_core::api::{
    JsonTurtle, TurtleDestroyBlockError, TurtleGetInventoryError, TurtleMoveError, WorldChangeAction,
};
use turtle_core::color::{block_color, block_to_rgb};
use turtle_core::direction::JsonTurtleDirection;
use turtle_core::turtle::{
    apply_destroy_reply, apply_move_reply, collect_inventory, destroy_command_for_side,
    inspect_down_payload, inspect_forward_payload, inspect_up_payload, inventory_payload,
    move_command, parse_inventory_item, scan_world_changes_from_replies,
};
use turtle_core::world::TurtleWorld;

fn seahash_rgb(name: &str) -> (u8, u8, u8) {
    let h = seahash::hash(name.as_bytes()).to_le_bytes();
    (h[0], h[4], h[7])
}

#[test]
fn move_commands_match_wire_protocol() {
    assert_eq!(
        move_command(&JsonTurtleDirection::Forward),
        "local a, b = turtle.forward() return a"
    );
    assert_eq!(
        move_command(&JsonTurtleDirection::Backward),
        "local a, b = turtle.back() return a"
    );
    assert_eq!(
        move_command(&JsonTurtleDirection::Right),
        "local a, b = turtle.turnRight() return a"
    );
    assert_eq!(
        move_command(&JsonTurtleDirection::Left),
        "local a, b = turtle.turnLeft() return a"
    );
}

#[test]
fn inspect_payloads_match_wire_protocol() {
    assert_eq!(
        inspect_down_payload(),
        "local has_block, data = turtle.inspectDown() return textutils.serialiseJSON(data)"
    );
    assert_eq!(
        inspect_forward_payload(),
        "local has_block, data = turtle.inspect() return textutils.serialiseJSON(data)"
    );
    assert_eq!(
        inspect_up_payload(),
        "local has_block, data = turtle.inspectUp() return textutils.serialiseJSON(data)"
    );
}

#[test]
fn move_forward_into_empty_space() {
    // Scenario: pose starts at the origin facing forward; the robot
    // confirms the move.
    let mut pose = JsonTurtle::new_for_id(5);
    assert_eq!(pose, JsonTurtle { uuid: 5, x: 0, y: 0, z: 0, rotation: JsonTurtleDirection::Forward });
    let r = apply_move_reply(&mut pose, &JsonTurtleDirection::Forward, "true");
    assert!(r.is_ok());
    assert_eq!((pose.x, pose.y, pose.z), (0, 0, -1));
    assert_eq!(pose.rotation, JsonTurtleDirection::Forward);
}

#[test]
fn move_forward_into_a_block() {
    // Scenario: the robot refuses; the pose must not change.
    let mut pose = JsonTurtle::new_for_id(5);
    let r = apply_move_reply(&mut pose, &JsonTurtleDirection::Forward, "false");
    assert_eq!(r, Err(TurtleMoveError::CannotMove));
    assert_eq!((pose.x, pose.y, pose.z), (0, 0, 0));
}

#[test]
fn move_rotation_updates_facing_only() {
    let mut pose = JsonTurtle::new_for_id(5);
    apply_move_reply(&mut pose, &JsonTurtleDirection::Right, "true").unwrap();
    assert_eq!(pose.rotation, JsonTurtleDirection::Right);
    assert_eq!((pose.x, pose.y, pose.z), (0, 0, 0));
    apply_move_reply(&mut pose, &JsonTurtleDirection::Left, "true").unwrap();
    assert_eq!(pose.rotation, JsonTurtleDirection::Forward);
}

#[test]
fn move_garbled_reply_is_protocol_error() {
    let mut pose = JsonTurtle::new_for_id(5);
    match apply_move_reply(&mut pose, &JsonTurtleDirection::Forward, "maybe") {
        Err(TurtleMoveError::InvalidTurtleResponse(t)) => assert_eq!(t, "maybe"),
        other => panic!("unexpected {:?}", other),
    }
    assert_eq!((pose.x, pose.y, pose.z), (0, 0, 0));
}

#[test]
fn move_at_coordinate_edge_is_refused() {
    let mut pose = JsonTurtle::new_for_id(5);
    pose.z = i32::MIN;
    let r = apply_move_reply(&mut pose, &JsonTurtleDirection::Forward, "true");
    assert_eq!(r, Err(TurtleMoveError::PoseOverflow));
    assert_eq!(pose.z, i32::MIN);
}

#[test]
fn scan_sees_new_block() {
    // Scenario: downward inspection reports stone, the other two see
    // nothing; the palette grows, the cell below fills, one New change
    // comes back with the derived color.
    let mut world = TurtleWorld::new();
    let pose = JsonTurtle::new_for_id(5);
    let replies = vec![
        "{\"name\":\"minecraft:stone\"}".to_string(),
        "\"No block to inspect\"".to_string(),
        "\"No block to inspect\"".to_string(),
    ];
    let (r, _) = scan_world_changes_from_replies(&mut world, &pose, &replies);
    let changes = r.unwrap();
    assert_eq!(changes.len(), 1);
    let ch = &changes[0];
    assert_eq!((ch.x, ch.y, ch.z), (0, -1, 0));
    match &ch.action {
        WorldChangeAction::New(nb) => {
            assert_eq!((nb.r, nb.g, nb.b), seahash_rgb("minecraft:stone"));
        }
        other => panic!("unexpected {:?}", other),
    }
    let k = world.pallete.get_pallete_index("minecraft:stone");
    assert_eq!(k, 1);
    assert_eq!(world.data.get_global_voxel(0, -1, 0), k as u16);
}

#[test]
fn scan_unchanged_block_reports_nothing() {
    let mut world = TurtleWorld::new();
    let pose = JsonTurtle::new_for_id(5);
    let replies = vec![
        "{\"name\":\"minecraft:stone\"}".to_string(),
        "\"No block to inspect\"".to_string(),
        "\"No block to inspect\"".to_string(),
    ];
    let (r, _) = scan_world_changes_from_replies(&mut world, &pose, &replies);
    assert_eq!(r.unwrap().len(), 1);
    let (r, _) = scan_world_changes_from_replies(&mut world, &pose, &replies);
    assert_eq!(r.unwrap().len(), 0);
}

#[test]
fn scan_block_changing_kind_reports_update() {
    let mut world = TurtleWorld::new();
    let pose = JsonTurtle::new_for_id(5);
    let stone = vec![
        "{\"name\":\"minecraft:stone\"}".to_string(),
        "\"No block to inspect\"".to_string(),
        "\"No block to inspect\"".to_string(),
    ];
    let (r, _) = scan_world_changes_from_replies(&mut world, &pose, &stone);
    r.unwrap();
    let dirt = vec![
        "{\"name\":\"minecraft:dirt\"}".to_string(),
        "\"No block to inspect\"".to_string(),
        "\"No block to inspect\"".to_string(),
    ];
    let (r, _) = scan_world_changes_from_replies(&mut world, &pose, &dirt);
    let changes = r.unwrap();
    assert_eq!(changes.len(), 1);
    match &changes[0].action {
        WorldChangeAction::Update(ub) => {
            let (cr, cg, cb) = seahash_rgb("minecraft:dirt");
            assert_eq!(ub.color, format!("#{:02x}{:02x}{:02x}", cr, cg, cb));
        }
        other => panic!("unexpected {:?}", other),
    }
    let k = world.pallete.get_pallete_index("minecraft:dirt");
    assert_eq!(world.data.get_global_voxel(0, -1, 0), k as u16);
}

#[test]
fn scan_vanished_block_reports_delete() {
    let mut world = TurtleWorld::new();
    let pose = JsonTurtle::new_for_id(5);
    let stone = vec![
        "{\"name\":\"minecraft:stone\"}".to_string(),
        "\"No block to inspect\"".to_string(),
        "\"No block to inspect\"".to_string(),
    ];
    let (r, _) = scan_world_changes_from_replies(&mut world, &pose, &stone);
    r.unwrap();
    let gone = vec![
        "\"No block to inspect\"".to_string(),
        "\"No block to inspect\"".to_string(),
        "\"No block to inspect\"".to_string(),
    ];
    let (r, _) = scan_world_changes_from_replies(&mut world, &pose, &gone);
    let changes = r.unwrap();
    assert_eq!(changes.len(), 1);
    assert!(matches!(changes[0].action, WorldChangeAction::Delete(_)));
    assert_eq!(world.data.get_global_voxel(0, -1, 0), 0);
}

#[test]
fn scan_bad_json_fails() {
    let mut world = TurtleWorld::new();
    let pose = JsonTurtle::new_for_id(5);
    let replies = vec![
        "not json at all".to_string(),
        "\"No block to inspect\"".to_string(),
        "\"No block to inspect\"".to_string(),
    ];
    let (r, _) = scan_world_changes_from_replies(&mut world, &pose, &replies);
    assert!(r.is_err());
}

#[test]
fn destroy_forward_succeeds() {
    // Scenario: facing right, the robot confirms the dig; the cell at
    // (1, 0, 0) becomes air and a Delete change is returned.
    let mut world = TurtleWorld::new();
    let k = world.pallete.get_pallete_index("minecraft:stone") as u16;
    world.data.set_global_voxel(1, 0, 0, k).unwrap();
    let mut pose = JsonTurtle::new_for_id(5);
    pose.rotation = JsonTurtleDirection::Right;
    let resp = apply_destroy_reply(
        &mut world,
        &pose,
        &JsonTurtleDirection::Forward,
        "true",
    )
    .unwrap();
    let ch = resp.change.expect("a change");
    assert_eq!((ch.x, ch.y, ch.z), (1, 0, 0));
    assert!(matches!(ch.action, WorldChangeAction::Delete(_)));
    assert_eq!(world.data.get_global_voxel(1, 0, 0), 0);
}

#[test]
fn destroy_nothing_returns_no_change() {
    let mut world = TurtleWorld::new();
    let pose = JsonTurtle::new_for_id(5);
    let resp = apply_destroy_reply(
        &mut world,
        &pose,
        &JsonTurtleDirection::Forward,
        "false",
    )
    .unwrap();
    assert!(resp.change.is_none());
}

#[test]
fn destroy_side_not_implemented() {
    assert_eq!(
        destroy_command_for_side(&JsonTurtleDirection::Left),
        Err(TurtleDestroyBlockError::NotImplemented)
    );
    assert_eq!(
        destroy_command_for_side(&JsonTurtleDirection::Forward).unwrap(),
        "return turtle.dig()"
    );
}

#[test]
fn destroy_garbled_reply_is_protocol_error() {
    let mut world = TurtleWorld::new();
    let pose = JsonTurtle::new_for_id(5);
    match apply_destroy_reply(&mut world, &pose, &JsonTurtleDirection::Forward, "perhaps") {
        Err(TurtleDestroyBlockError::UnexpectedResponse(t)) => assert_eq!(t, "perhaps"),
        other => panic!("unexpected {:?}", other),
    }
}

#[test]
fn inventory_slot_parsing() {
    assert_eq!(parse_inventory_item("nil"), Ok(None));
    assert_eq!(
        parse_inventory_item("{\"name\":\"minecraft:dirt\",\"count\":3}"),
        Ok(Some("dirt".to_string()))
    );
    assert_eq!(
        parse_inventory_item("not json"),
        Err(TurtleGetInventoryError::TurtleResponseNotJson)
    );
    assert_eq!(
        parse_inventory_item("{\"count\":3}"),
        Err(TurtleGetInventoryError::TurtleResponseNotJson)
    );
    assert_eq!(
        parse_inventory_item("{\"name\":\"nocolon\"}"),
        Err(TurtleGetInventoryError::InvalidName)
    );
}

#[test]
fn inventory_keeps_slot_order_and_skips_empty() {
    let replies = vec![
        "{\"name\":\"minecraft:dirt\"}".to_string(),
        "nil".to_string(),
        "{\"name\":\"minecraft:oak_log\"}".to_string(),
    ];
    let items = collect_inventory(&replies).unwrap();
    assert_eq!(items, vec!["dirt".to_string(), "oak_log".to_string()]);
}

#[test]
fn inventory_first_bad_reply_fails() {
    let replies = vec![
        "{\"name\":\"minecraft:dirt\"}".to_string(),
        "garbage".to_string(),
    ];
    assert_eq!(
        collect_inventory(&replies),
        Err(TurtleGetInventoryError::TurtleResponseNotJson)
    );
}

#[test]
fn block_colors_derive_from_seahash() {
    let (r, g, b) = block_to_rgb("minecraft:stone");
    assert_eq!((r, g, b), seahash_rgb("minecraft:stone"));
    assert_eq!(
        block_color("minecraft:stone"),
        format!("#{:02x}{:02x}{:02x}", r, g, b)
    );
    // different names give different digests here
    assert_ne!(block_to_rgb("minecraft:dirt"), (r, g, b));
}

#[test]
fn inventory_payloads_carry_slot_number() {
    assert_eq!(
        inventory_payload(3),
        "local item = turtle.getItemDetail(3) if (item ~= nil) then return textutils.serialiseJSON(item) else return nil end"
    );
    assert_eq!(
        inventory_payload(16),
        "local item = turtle.getItemDetail(16) if (item ~= nil) then return textutils.serialiseJSON(item) else return nil end"
    );
}

#[test]
fn scan_changes_come_in_scan_order() {
    // all three inspections see blocks: the changes come back in the
    // order scanned, down first, then forward, then up
    let mut world = TurtleWorld::new();
    let pose = JsonTurtle::new_for_id(5);
    let replies = vec![
        "{\"name\":\"minecraft:stone\"}".to_string(),
        "{\"name\":\"minecraft:dirt\"}".to_string(),
        "{\"name\":\"minecraft:gravel\"}".to_string(),
    ];
    let (r, _) = scan_world_changes_from_replies(&mut world, &pose, &replies);
    let changes = r.unwrap();
    assert_eq!(changes.len(), 3);
    assert_eq!((changes[0].x, changes[0].y, changes[0].z), (0, -1, 0));
    assert_eq!((changes[1].x, changes[1].y, changes[1].z), (0, 0, -1));
    assert_eq!((changes[2].x, changes[2].y, changes[2].z), (0, 1, 0));
}
