use blitz::block::{Block, BlockType, Face};
use blitz::chunk::Chunk;
use blitz::world::{chunk_pos, local_pos, neighbor, Placement, Pos3, World};

fn p(x: i32, y: i32, z: i32) -> Pos3 {
    Pos3 { x, y, z }
}

#[test]
fn chunk_corners_round_toward_negative_infinity() {
    assert_eq!(chunk_pos(p(0, 31, 32)), p(0, 0, 32));
    assert_eq!(chunk_pos(p(-1, -32, -33)), p(-32, -32, -64));
    assert_eq!(local_pos(p(-1, -32, -33)), (31, 0, 31));
    assert_eq!(chunk_pos(p(i32::MIN, i32::MAX, 0)), p(i32::MIN, i32::MAX - 31, 0));
    assert_eq!(local_pos(p(i32::MIN, i32::MAX, 5)), (0, 31, 5));
}

#[test]
fn neighbours_step_across_faces() {
    let o = p(0, 0, 0);
    assert_eq!(neighbor(o, Face::EAST), p(1, 0, 0));
    assert_eq!(neighbor(o, Face::WEST), p(-1, 0, 0));
    assert_eq!(neighbor(o, Face::TOP), p(0, 1, 0));
    assert_eq!(neighbor(o, Face::BOTTOM), p(0, -1, 0));
    assert_eq!(neighbor(o, Face::SOUTH), p(0, 0, 1));
    assert_eq!(neighbor(o, Face::NORTH), p(0, 0, -1));
}

#[test]
fn placing_a_block_reads_back_dirt() {
    let mut world = World::new();
    assert_eq!(world.block_at(0, 1, 0), None);
    assert_eq!(world.add_block(p(0, 0, 0), Face::TOP), Placement::Placed);
    assert_eq!(world.block_at(0, 1, 0), Some(Block { kind: BlockType::Dirt }));
    // the chunk made for it is air elsewhere
    assert_eq!(world.block_at(5, 5, 5), Some(Block { kind: BlockType::Air }));
    assert!(world.has_dirty_chunks());
    assert_eq!(world.take_dirty(), vec![p(0, 0, 0)]);
    assert!(!world.has_dirty_chunks());
}

#[test]
fn placing_on_a_solid_block_is_refused() {
    let mut world = World::new();
    assert_eq!(world.add_block(p(0, 0, 0), Face::EAST), Placement::Placed);
    assert_eq!(world.add_block(p(0, 0, 0), Face::EAST), Placement::Occupied);
    assert_eq!(world.take_dirty().len(), 1);
}

#[test]
fn placing_outside_the_height_range_is_refused() {
    let mut world = World::new();
    assert_eq!(world.add_block(p(0, 63, 0), Face::TOP), Placement::OutOfWorld);
    assert_eq!(world.add_block(p(0, -64, 0), Face::BOTTOM), Placement::OutOfWorld);
    assert_eq!(world.add_block(p(0, 62, 0), Face::TOP), Placement::Placed);
    assert_eq!(world.block_at(0, 63, 0), Some(Block { kind: BlockType::Dirt }));
    assert!(world.has_dirty_chunks());
}

#[test]
fn removing_a_block_leaves_air_and_marks_the_chunk_once() {
    let mut world = World::new();
    world.add_block(p(-1, -1, -1), Face::EAST);
    world.add_block(p(-1, -1, -1), Face::SOUTH);
    // both land in the chunk at (-32, -32, -32) / (0, -32, -32)
    let dirty = world.take_dirty();
    assert_eq!(dirty, vec![p(0, -32, -32), p(-32, -32, 0)]);
    world.remove_block(p(0, -1, -1));
    world.remove_block(p(0, -1, -1));
    assert_eq!(world.block_at(0, -1, -1), Some(Block { kind: BlockType::Air }));
    assert_eq!(world.take_dirty(), vec![p(0, -32, -32)]);
    // nothing to remove where no chunk is
    world.remove_block(p(1000, 0, 0));
    assert!(!world.has_dirty_chunks());
}

#[test]
fn place_then_remove_restores_the_world() {
    let mut world = World::new();
    let mut chunk = Chunk::new();
    chunk.generate(0, &vec![3; 1024]);
    world.insert_chunk(p(0, 0, 0), chunk);
    assert_eq!(world.block_at(4, 4, 4), Some(Block { kind: BlockType::Air }));
    assert_eq!(world.add_block(p(4, 4, 3), Face::SOUTH), Placement::Placed);
    assert_eq!(world.block_at(4, 4, 4), Some(Block { kind: BlockType::Dirt }));
    world.remove_block(p(4, 4, 4));
    assert_eq!(world.block_at(4, 4, 4), Some(Block { kind: BlockType::Air }));
    assert_eq!(world.block_at(4, 4, 3), Some(Block { kind: BlockType::Grass }));
}

#[test]
fn inserting_a_chunk_replaces_the_old_one() {
    let mut world = World::new();
    world.insert_chunk(p(32, 0, 0), Chunk::new());
    let mut stone = Chunk::new();
    stone.update_block(0, 0, 0, BlockType::Stone);
    world.insert_chunk(p(32, 0, 0), stone);
    assert_eq!(world.chunk_positions(), &vec![p(32, 0, 0)]);
    assert_eq!(world.block_at(32, 0, 0), Some(Block { kind: BlockType::Stone }));
    assert!(world.chunk(p(0, 0, 0)).is_none());
}
