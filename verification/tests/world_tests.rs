use turtle_core::world::{ChunkLocation, TurtleChunk, TurtleVoxel, TurtleWorld, TurtleWorldError};

#[test]
fn test_encoding_and_decoding() {
    let mut world = TurtleWorld::new();

    let _ = world.pallete.get_pallete_index("hello world");
    let loc = ChunkLocation::xyz(0, 0, 0);
    let mut chunk = TurtleChunk::new_by_xyz(loc.clone());

    // Padded cell [15, 15, 15] of the original's 18^3 grid is the inner
    // cell (14, 14, 14).
    chunk.set_block_by_local_xyz(14, 14, 14, TurtleVoxel::id(12));
    world.data.chunks.push(chunk);

    let bytes = world.to_bytes().expect("Cannot serialize!");
    let deserialized = TurtleWorld::from_bytes(bytes.as_slice()).expect("Cannot deserialize");

    assert!(deserialized == world);
}

#[test]
fn voxel_constructors() {
    assert_eq!(TurtleVoxel::air().id, 0);
    assert_eq!(TurtleVoxel::id(7).id, 7);
}

#[test]
fn chunk_location_from_global() {
    let (loc, lx, ly, lz) = TurtleWorld::get_chunk_loc_from_global_xyz(17, 33, -1).unwrap();
    assert_eq!(loc, ChunkLocation::xyz(1, 2, -1));
    assert_eq!((lx, ly, lz), (1, 1, 15));

    let (loc, lx, ly, lz) = TurtleWorld::get_chunk_loc_from_global_xyz(0, 0, 0).unwrap();
    assert_eq!(loc, ChunkLocation::xyz(0, 0, 0));
    assert_eq!((lx, ly, lz), (0, 0, 0));

    let (loc, lx, ly, lz) = TurtleWorld::get_chunk_loc_from_global_xyz(-1, -16, 47).unwrap();
    assert_eq!(loc, ChunkLocation::xyz(-1, -1, 2));
    assert_eq!((lx, ly, lz), (15, 0, 15));
}

#[test]
fn chunk_y_out_of_range_is_rejected() {
    assert_eq!(
        TurtleWorld::get_chunk_loc_from_global_xyz(0, 2048, 0),
        Err(TurtleWorldError::YRangeError)
    );
    assert_eq!(
        TurtleWorld::get_chunk_loc_from_global_xyz(0, -2049, 0),
        Err(TurtleWorldError::YRangeError)
    );
    assert!(TurtleWorld::get_chunk_loc_from_global_xyz(0, 2047, 0).is_ok());
    assert!(TurtleWorld::get_chunk_loc_from_global_xyz(0, -2048, 0).is_ok());
}

#[test]
fn palette_intern_roundtrip() {
    let mut world = TurtleWorld::new();
    assert_eq!(world.pallete.get_pallete_index("minecraft:air"), 0);
    let a = world.pallete.get_pallete_index("minecraft:stone");
    let b = world.pallete.get_pallete_index("minecraft:dirt");
    assert_eq!(a, 1);
    assert_eq!(b, 2);
    assert_eq!(world.pallete.get_pallete_index("minecraft:stone"), a);
    assert_eq!(
        world.pallete.get_pallete_from_id(a as u16).as_deref(),
        Some("minecraft:stone")
    );
    assert_eq!(
        world.pallete.get_pallete_from_id(b as u16).as_deref(),
        Some("minecraft:dirt")
    );
    assert_eq!(world.pallete.get_pallete_from_id(3), None);
}

#[test]
fn set_and_get_global_voxel() {
    let mut world = TurtleWorld::new();
    assert_eq!(world.data.get_global_voxel(5, -3, 100), 0);
    world.data.set_global_voxel(5, -3, 100, 9).unwrap();
    assert_eq!(world.data.get_global_voxel(5, -3, 100), 9);
    assert_eq!(world.data.get_global_voxel(5, -3, 101), 0);
    assert_eq!(world.data.get_global_voxel(5, -4, 100), 0);

    assert_eq!(
        world.data.set_global_voxel(0, 40000, 0, 1),
        Err(TurtleWorldError::YRangeError)
    );
}

#[test]
fn remove_global_block() {
    let mut world = TurtleWorld::new();
    assert_eq!(
        world.data.remove_global_block_by_xyz(1, 2, 3),
        Err(TurtleWorldError::NoSuchChunk)
    );
    world.data.set_global_voxel(1, 2, 3, 4).unwrap();
    assert_eq!(
        world.data.remove_global_block_by_xyz(1, 2, 4),
        Err(TurtleWorldError::AlreadyAir)
    );
    assert_eq!(world.data.remove_global_block_by_xyz(1, 2, 3), Ok(()));
    assert_eq!(world.data.get_global_voxel(1, 2, 3), 0);
    assert_eq!(
        world.data.remove_global_block_by_xyz(1, 2, 3),
        Err(TurtleWorldError::AlreadyAir)
    );
    assert_eq!(
        world.data.remove_global_block_by_xyz(0, -40000, 0),
        Err(TurtleWorldError::YRangeError)
    );
}

#[test]
fn chunk_local_read_write() {
    let loc = ChunkLocation::xyz(2, -1, 3);
    let mut chunk = TurtleChunk::new_by_xyz(loc);
    assert_eq!(chunk.get_block_by_local_xyz(3, 4, 5).id, 0);
    chunk.set_block_by_local_xyz(3, 4, 5, TurtleVoxel::id(44));
    assert_eq!(chunk.get_block_by_local_xyz(3, 4, 5).id, 44);
    assert_eq!(chunk.get_block_by_local_xyz(5, 4, 3).id, 0);
    // padded grid: 18^3 cells
    assert_eq!(chunk.voxels().len(), 5832);
}

#[test]
fn global_xyz_to_local_offsets() {
    let loc = ChunkLocation::xyz(1, 0, -1);
    assert_eq!(loc.global_xyz_to_local(17, 1, -16), Ok((1, 1, 0)));
    assert_eq!(
        loc.global_xyz_to_local(17, -1, -16),
        Err(TurtleWorldError::CoordOutOfChunk)
    );
}
