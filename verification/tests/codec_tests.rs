use turtle_core::world::{ChunkLocation, TurtleWorld, TurtleWorldError};

fn le64_bytes(v: u64) -> Vec<u8> {
    v.to_le_bytes().to_vec()
}

#[test]
fn empty_world_canonical_bytes() {
    let world = TurtleWorld::new();
    let bytes = world.to_bytes().unwrap();
    let mut expected: Vec<u8> = Vec::new();
    expected.extend(le64_bytes(1)); // palette_len
    expected.extend(le64_bytes(13)); // name_len of "minecraft:air"
    expected.extend("minecraft:air".as_bytes());
    expected.extend(le64_bytes(0)); // chunk_len
    assert_eq!(bytes, expected);
}

#[test]
fn snapshot_roundtrip_multi_chunk() {
    let mut world = TurtleWorld::new();
    let stone = world.pallete.get_pallete_index("minecraft:stone") as u16;
    let dirt = world.pallete.get_pallete_index("minecraft:dirt") as u16;
    world.data.set_global_voxel(0, -1, 0, stone).unwrap();
    world.data.set_global_voxel(100, 200, -300, dirt).unwrap();
    world.data.set_global_voxel(-1, -1, -1, stone).unwrap();

    let bytes = world.to_bytes().unwrap();
    let back = TurtleWorld::from_bytes(bytes.as_slice()).unwrap();
    assert!(back == world);
    assert_eq!(back.data.get_global_voxel(0, -1, 0), stone);
    assert_eq!(back.data.get_global_voxel(100, 200, -300), dirt);
    assert_eq!(back.data.get_global_voxel(-1, -1, -1), stone);
    assert_eq!(back.data.get_global_voxel(0, 0, 0), 0);
}

#[test]
fn snapshot_roundtrip_non_ascii_name() {
    let mut world = TurtleWorld::new();
    let id = world.pallete.get_pallete_index("mod:bl\u{00f6}ck") as u16;
    world.data.set_global_voxel(7, 7, 7, id).unwrap();
    let bytes = world.to_bytes().unwrap();
    let back = TurtleWorld::from_bytes(bytes.as_slice()).unwrap();
    assert!(back == world);
    assert_eq!(
        back.pallete.get_pallete_from_id(id).as_deref(),
        Some("mod:bl\u{00f6}ck")
    );
}

#[test]
fn truncated_bytes_are_rejected() {
    let world = TurtleWorld::new();
    let bytes = world.to_bytes().unwrap();
    for cut in 0..bytes.len() {
        let r = TurtleWorld::from_bytes(&bytes[..cut]);
        assert_eq!(r, Err(TurtleWorldError::BadSnapshot), "cut at {}", cut);
    }
}

#[test]
fn trailing_bytes_are_ignored() {
    let mut world = TurtleWorld::new();
    let id = world.pallete.get_pallete_index("minecraft:stone") as u16;
    world.data.set_global_voxel(3, 3, 3, id).unwrap();
    let mut bytes = world.to_bytes().unwrap();
    bytes.push(0xAB);
    bytes.push(0xCD);
    let back = TurtleWorld::from_bytes(bytes.as_slice()).unwrap();
    assert!(back == world);
}

#[test]
fn wrong_body_length_is_rejected() {
    let mut bytes: Vec<u8> = Vec::new();
    bytes.extend(le64_bytes(0)); // empty palette
    bytes.extend(le64_bytes(1)); // one chunk
    bytes.extend(0i32.to_le_bytes());
    bytes.push(0u8);
    bytes.extend(0i32.to_le_bytes());
    bytes.extend(le64_bytes(16)); // body length must be 8192
    bytes.extend([0u8; 16]);
    assert_eq!(
        TurtleWorld::from_bytes(bytes.as_slice()),
        Err(TurtleWorldError::BadSnapshot)
    );
}

#[test]
fn invalid_utf8_name_is_rejected() {
    let mut bytes: Vec<u8> = Vec::new();
    bytes.extend(le64_bytes(1));
    bytes.extend(le64_bytes(2));
    bytes.extend([0xFF, 0xFE]); // not UTF-8
    bytes.extend(le64_bytes(0));
    assert_eq!(
        TurtleWorld::from_bytes(bytes.as_slice()),
        Err(TurtleWorldError::BadSnapshot)
    );
}

#[test]
fn load_or_empty_tolerates_garbage() {
    let garbage: Vec<u8> = vec![1, 2, 3, 4, 5];
    let world = TurtleWorld::load_or_empty(garbage.as_slice());
    assert!(world == TurtleWorld::new());

    let empty: Vec<u8> = Vec::new();
    let world = TurtleWorld::load_or_empty(empty.as_slice());
    assert!(world == TurtleWorld::new());
}

#[test]
fn load_or_empty_keeps_valid_snapshot() {
    let mut world = TurtleWorld::new();
    let id = world.pallete.get_pallete_index("minecraft:stone") as u16;
    world.data.set_global_voxel(0, 0, 0, id).unwrap();
    let bytes = world.to_bytes().unwrap();
    let back = TurtleWorld::load_or_empty(bytes.as_slice());
    assert!(back == world);
}

#[test]
fn chunk_body_order_is_x_fastest() {
    let mut world = TurtleWorld::new();
    let id = world.pallete.get_pallete_index("minecraft:stone") as u16;
    // local cell (1, 0, 0) of chunk (0, 0, 0): dense index 1
    world.data.set_global_voxel(1, 0, 0, id).unwrap();
    let bytes = world.to_bytes().unwrap();
    // header: palette (8 + 8 + 13 + 8 for "minecraft:stone") ...
    let palette_bytes = 8 + (8 + 13) + (8 + 15);
    let body_start = palette_bytes + 8 + 4 + 1 + 4 + 8;
    assert_eq!(bytes[body_start], 0); // dense cell 0 is air
    assert_eq!(bytes[body_start + 1], 0);
    assert_eq!(bytes[body_start + 2], id as u8); // dense cell 1 holds the block
    assert_eq!(bytes[body_start + 3], 0);
}
