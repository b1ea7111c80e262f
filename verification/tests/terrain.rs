use blitz::block::{Block, BlockType, Face};
use blitz::chunk::{column_block, Chunk};
use blitz::mesher::{chunk_quads, face_mask, greedy_slice, quad_indices, Quad, Rect, CHUNK_VOLUME};

fn idx(x: usize, y: usize, z: usize) -> usize {
    x * 1024 + y * 32 + z
}

#[test]
fn air_is_air_and_dirt_is_not() {
    assert!(Block { kind: BlockType::Air }.is_air());
    assert!(!Block { kind: BlockType::Dirt }.is_air());
    assert!(Block::default().is_air());
}

#[test]
fn grass_shows_top_side_and_dirt_layers() {
    let grass = Block { kind: BlockType::Grass };
    assert_eq!(grass.layer_for_face(Face::TOP), 0);
    assert_eq!(grass.layer_for_face(Face::BOTTOM), 2);
    assert_eq!(grass.layer_for_face(Face::EAST), 1);
    assert_eq!(grass.layer_for_face(Face::NORTH), 1);
    assert_eq!(Block { kind: BlockType::Dirt }.layer_for_face(Face::TOP), 2);
    assert_eq!(Block { kind: BlockType::Stone }.layer_for_face(Face::SOUTH), 3);
    assert_eq!(Block { kind: BlockType::Sand }.layer_for_face(Face::WEST), 3);
    assert_eq!(Block { kind: BlockType::Air }.layer_for_face(Face::TOP), 0);
}

#[test]
fn faces_round_trip_through_their_index() {
    for i in 0..6 {
        assert_eq!(Face::from_index(i).index(), i);
    }
    assert_eq!(Face::from_index(2), Face::TOP);
    assert_eq!(BlockType::Grass.name(), "Grass");
    assert_eq!(Block { kind: BlockType::Stone }.name(), "Stone");
}

#[test]
fn terrain_column_layers() {
    assert_eq!(column_block(6, 5), BlockType::Air);
    assert_eq!(column_block(5, 5), BlockType::Grass);
    assert_eq!(column_block(4, 5), BlockType::Dirt);
    assert_eq!(column_block(2, 5), BlockType::Dirt);
    assert_eq!(column_block(1, 5), BlockType::Stone);
    assert_eq!(column_block(i32::MIN, i32::MIN + 2), BlockType::Dirt);
}

#[test]
fn new_chunk_is_air_and_generate_follows_surfaces() {
    let mut chunk = Chunk::new();
    assert_eq!(chunk.blocks().len(), CHUNK_VOLUME);
    assert!(chunk.blocks().iter().all(|b| *b == BlockType::Air));
    let mut surfaces = vec![-20i32; 1024];
    surfaces[3 * 32 + 4] = -10;
    chunk.generate(-32, &surfaces);
    // world height of local z is -32 + z
    assert_eq!(chunk.block(0, 0, 12).kind, BlockType::Grass); // -20
    assert_eq!(chunk.block(0, 0, 13).kind, BlockType::Air);
    assert_eq!(chunk.block(0, 0, 9).kind, BlockType::Dirt); // -23
    assert_eq!(chunk.block(0, 0, 8).kind, BlockType::Stone); // -24
    assert_eq!(chunk.block(3, 4, 22).kind, BlockType::Grass); // -10
    assert_eq!(chunk.block(3, 4, 21).kind, BlockType::Dirt);
    chunk.update_block(1, 1, 31, BlockType::Sand);
    assert_eq!(chunk.blocks()[idx(1, 1, 31)], BlockType::Sand);
}

#[test]
fn greedy_merges_a_full_slice_into_one_rect() {
    let mask = vec![Some(BlockType::Stone); 1024];
    let rects = greedy_slice(&mask);
    assert_eq!(rects, vec![Rect { u: 0, v: 0, w: 32, h: 32, kind: BlockType::Stone }]);
}

#[test]
fn greedy_grows_along_u_then_v() {
    let mut mask = vec![None; 1024];
    // an L shape: cells (0,0), (1,0), (0,1) of dirt
    mask[0] = Some(BlockType::Dirt);
    mask[32] = Some(BlockType::Dirt);
    mask[1] = Some(BlockType::Dirt);
    // a lone grass cell at (5, 7)
    mask[5 * 32 + 7] = Some(BlockType::Grass);
    let rects = greedy_slice(&mask);
    assert_eq!(
        rects,
        vec![
            Rect { u: 0, v: 0, w: 2, h: 1, kind: BlockType::Dirt },
            Rect { u: 0, v: 1, w: 1, h: 1, kind: BlockType::Dirt },
            Rect { u: 5, v: 7, w: 1, h: 1, kind: BlockType::Grass },
        ]
    );
}

#[test]
fn greedy_keeps_block_types_apart() {
    let mut mask = vec![None; 1024];
    mask[0] = Some(BlockType::Dirt);
    mask[32] = Some(BlockType::Stone);
    let rects = greedy_slice(&mask);
    assert_eq!(rects.len(), 2);
    assert_eq!(rects[0], Rect { u: 0, v: 0, w: 1, h: 1, kind: BlockType::Dirt });
    assert_eq!(rects[1], Rect { u: 1, v: 0, w: 1, h: 1, kind: BlockType::Stone });
}

fn single_block_chunk() -> Vec<BlockType> {
    let mut blocks = vec![BlockType::Air; CHUNK_VOLUME];
    blocks[idx(2, 3, 4)] = BlockType::Grass;
    blocks
}

#[test]
fn face_mask_shows_a_lone_block_once_per_face() {
    let blocks = single_block_chunk();
    let neighbors: Vec<Option<Vec<BlockType>>> = vec![None, None, None, None, None, None];
    // +X face: slice d = x = 2, u = y = 3, v = z = 4
    let mask = face_mask(&blocks, &neighbors, 0, 2);
    assert_eq!(mask[3 * 32 + 4], Some(BlockType::Grass));
    assert_eq!(mask.iter().filter(|c| c.is_some()).count(), 1);
    // the neighbouring slice sees nothing
    let mask = face_mask(&blocks, &neighbors, 0, 3);
    assert!(mask.iter().all(|c| c.is_none()));
    // +Z face: slice d = z = 4, u = x = 2, v = y = 3
    let mask = face_mask(&blocks, &neighbors, 4, 4);
    assert_eq!(mask[2 * 32 + 3], Some(BlockType::Grass));
}

#[test]
fn face_mask_hides_faces_against_solid_neighbour_chunks() {
    let mut blocks = vec![BlockType::Air; CHUNK_VOLUME];
    blocks[idx(31, 0, 0)] = BlockType::Stone;
    let mut east = vec![BlockType::Air; CHUNK_VOLUME];
    east[idx(0, 0, 0)] = BlockType::Stone;
    let mut neighbors: Vec<Option<Vec<BlockType>>> = vec![None, None, None, None, None, None];
    assert_eq!(face_mask(&blocks, &neighbors, 0, 31)[0], Some(BlockType::Stone));
    neighbors[0] = Some(east);
    assert_eq!(face_mask(&blocks, &neighbors, 0, 31)[0], None);
}

#[test]
fn a_lone_block_meshes_to_six_quads() {
    let blocks = single_block_chunk();
    let neighbors: Vec<Option<Vec<BlockType>>> = vec![None, None, None, None, None, None];
    let quads = chunk_quads(&blocks, &neighbors);
    assert_eq!(quads.len(), 6);
    let faces: Vec<usize> = quads.iter().map(|q| q.face).collect();
    assert_eq!(faces, vec![0, 1, 2, 3, 4, 5]);
    assert_eq!(quads[0], Quad { face: 0, d: 2, u: 3, v: 4, w: 1, h: 1, kind: BlockType::Grass, layer: 1 });
    assert_eq!(quads[2].layer, 0); // the top of grass
    assert_eq!(quads[3].layer, 2); // its bottom
    assert_eq!(quads[4], Quad { face: 4, d: 4, u: 2, v: 3, w: 1, h: 1, kind: BlockType::Grass, layer: 1 });
}

#[test]
fn a_flat_layer_meshes_to_one_quad_per_face() {
    let mut blocks = vec![BlockType::Air; CHUNK_VOLUME];
    for x in 0..32 {
        for y in 0..32 {
            blocks[idx(x, y, 0)] = BlockType::Stone;
        }
    }
    let neighbors: Vec<Option<Vec<BlockType>>> = vec![None, None, None, None, None, None];
    let quads = chunk_quads(&blocks, &neighbors);
    // top and bottom are 32x32 each; each side is a row of 32 cells
    assert_eq!(quads.len(), 6);
    let top = quads.iter().find(|q| q.face == 4).unwrap();
    assert_eq!((top.w, top.h), (32, 32));
}

#[test]
fn indices_make_two_triangles_per_quad() {
    assert_eq!(quad_indices(2), vec![0, 1, 2, 2, 3, 0, 4, 5, 6, 6, 7, 4]);
    assert!(quad_indices(0).is_empty());
}
