use vstd::prelude::*;
use crate::block::{Block, BlockType};
use crate::mesher::{CHUNK_SIZE, CHUNK_VOLUME, block_index};

verus! {

/// The block at height `wz` of a terrain column whose surface is at `surface`:
/// air above it, grass on it, three layers of dirt below, stone under that.
pub open spec fn column_block_spec(wz: int, surface: int) -> BlockType {
    if wz > surface {
        BlockType::Air
    } else if wz == surface {
        BlockType::Grass
    } else if wz >= surface - 3 {
        BlockType::Dirt
    } else {
        BlockType::Stone
    }
}

/// The block at height `wz` of a terrain column whose surface is at `surface`.
pub fn column_block(wz: i32, surface: i32) -> (r: BlockType)
    ensures
        r == column_block_spec(wz as int, surface as int),
        wz > surface ==> r == BlockType::Air,
        wz == surface ==> r == BlockType::Grass,
        surface - 3 <= wz < surface ==> r == BlockType::Dirt,
        wz < surface - 3 ==> r == BlockType::Stone,
{
    proof {
        lemma_column_layers(wz as int, surface as int);
    }
    if wz > surface {
        BlockType::Air
    } else if wz == surface {
        BlockType::Grass
    } else if (wz as i64) >= (surface as i64) - 3 {
        BlockType::Dirt
    } else {
        BlockType::Stone
    }
}

/// The layers of a terrain column: everything above the surface is air, the
/// surface block is grass, the three blocks under it are dirt, and every
/// block further down is stone, however deep.
pub proof fn lemma_column_layers(wz: int, surface: int)
    ensures
        wz > surface ==> column_block_spec(wz, surface) == BlockType::Air,
        wz == surface ==> column_block_spec(wz, surface) == BlockType::Grass,
        surface - 3 <= wz < surface ==> column_block_spec(wz, surface) == BlockType::Dirt,
        wz < surface - 3 ==> column_block_spec(wz, surface) == BlockType::Stone,
{
}

/// In generated terrain the ground is solid all the way down: a block more
/// than three below its column's surface is stone, and a block at or below
/// the surface is never air.
pub proof fn lemma_terrain_solid_below(s: Seq<BlockType>, chunk_z: int, surfaces: Seq<i32>, x: int, y: int, z: int)
    requires
        is_terrain(s, chunk_z, surfaces),
        0 <= x < 32 && 0 <= y < 32 && 0 <= z < 32,
    ensures
        chunk_z + z < surfaces[x * 32 + y] - 3 ==> s[block_index(x, y, z)] == BlockType::Stone,
        chunk_z + z <= surfaces[x * 32 + y] ==> s[block_index(x, y, z)] != BlockType::Air,
        chunk_z + z > surfaces[x * 32 + y] ==> s[block_index(x, y, z)] == BlockType::Air,
{
    assert(s[block_index(x, y, z)] == column_block_spec(chunk_z + z, surfaces[x * 32 + y] as int));
    lemma_column_layers(chunk_z + z, surfaces[x * 32 + y] as int);
}

/// A cube of `CHUNK_SIZE` blocks along each axis, block `(x, y, z)` at
/// position `x * 1024 + y * 32 + z` of its block list.
#[derive(Debug)]
pub struct Chunk {
    blocks: Vec<BlockType>,
}

impl View for Chunk {
    type V = Seq<BlockType>;

    closed spec fn view(&self) -> Seq<BlockType> {
        self.blocks@
    }
}

/// Every block of `s` is air.
pub open spec fn all_air(s: Seq<BlockType>) -> bool {
    &&& s.len() == CHUNK_VOLUME
    &&& forall|i: int| 0 <= i < CHUNK_VOLUME ==> #[trigger] s[i] == BlockType::Air
}

/// `s` is the terrain of a chunk at height `chunk_z` over the column surfaces
/// `surfaces`, column `(x, y)` at position `x * 32 + y`.
pub open spec fn is_terrain(s: Seq<BlockType>, chunk_z: int, surfaces: Seq<i32>) -> bool {
    &&& s.len() == CHUNK_VOLUME
    &&& forall|x: int, y: int, z: int|
        0 <= x < 32 && 0 <= y < 32 && 0 <= z < 32 ==> #[trigger] s[block_index(x, y, z)]
            == column_block_spec(chunk_z + z, surfaces[x * 32 + y] as int)
}

impl Chunk {
    pub open spec fn wf(&self) -> bool {
        self@.len() == CHUNK_VOLUME
    }

    /// A chunk of air.
    pub fn new() -> (r: Self)
        ensures
            r.wf(),
            all_air(r@),
    {
        let mut blocks: Vec<BlockType> = Vec::with_capacity(CHUNK_VOLUME);
        let mut i: usize = 0;
        while i < CHUNK_VOLUME
            invariant
                0 <= i <= CHUNK_VOLUME,
                blocks.len() == i,
                forall|j: int| 0 <= j < i ==> #[trigger] blocks@[j] == BlockType::Air,
            decreases CHUNK_VOLUME - i,
        {
            blocks.push(BlockType::Air);
            i += 1;
        }
        Chunk { blocks }
    }

    /// The chunk's blocks, `(x, y, z)` at position `x * 1024 + y * 32 + z`.
    pub fn blocks(&self) -> (r: &Vec<BlockType>)
        ensures
            r@ == self@,
    {
        &self.blocks
    }

    /// Fills the chunk with terrain: the chunk's lowest layer is at height
    /// `chunk_z`, and column `(x, y)` has its surface at `surfaces[x * 32 + y]`.
    pub fn generate(&mut self, chunk_z: i32, surfaces: &Vec<i32>)
        requires
            surfaces.len() == 1024,
            chunk_z + 31 <= i32::MAX,
        ensures
            final(self).wf(),
            is_terrain(final(self)@, chunk_z as int, surfaces@),
    {
        let mut blocks: Vec<BlockType> = Vec::with_capacity(CHUNK_VOLUME);
        let mut x: usize = 0;
        while x < CHUNK_SIZE
            invariant
                surfaces.len() == 1024,
                chunk_z + 31 <= i32::MAX,
                0 <= x <= 32,
                blocks.len() == x * 1024,
                forall|xx: int, yy: int, zz: int|
                    0 <= xx < x && 0 <= yy < 32 && 0 <= zz < 32 ==> #[trigger] blocks@[block_index(xx, yy, zz)]
                        == column_block_spec(chunk_z + zz, surfaces@[xx * 32 + yy] as int),
            decreases 32 - x,
        {
            let mut y: usize = 0;
            while y < CHUNK_SIZE
                invariant
                    surfaces.len() == 1024,
                    chunk_z + 31 <= i32::MAX,
                    0 <= x < 32,
                    0 <= y <= 32,
                    blocks.len() == x * 1024 + y * 32,
                    forall|xx: int, yy: int, zz: int|
                        0 <= xx < 32 && 0 <= yy < 32 && 0 <= zz < 32 && block_index(xx, yy, zz) < x * 1024 + y
                            * 32 ==> #[trigger] blocks@[block_index(xx, yy, zz)] == column_block_spec(
                            chunk_z + zz,
                            surfaces@[xx * 32 + yy] as int,
                        ),
                decreases 32 - y,
            {
                let surface = surfaces[x * CHUNK_SIZE + y];
                let mut z: usize = 0;
                while z < CHUNK_SIZE
                    invariant
                        surfaces.len() == 1024,
                        chunk_z + 31 <= i32::MAX,
                        0 <= x < 32,
                        0 <= y < 32,
                        0 <= z <= 32,
                        surface == surfaces@[x * 32 + y],
                        blocks.len() == x * 1024 + y * 32 + z,
                        forall|xx: int, yy: int, zz: int|
                            0 <= xx < 32 && 0 <= yy < 32 && 0 <= zz < 32 && block_index(xx, yy, zz) < x * 1024
                                + y * 32 + z ==> #[trigger] blocks@[block_index(xx, yy, zz)]
                                == column_block_spec(chunk_z + zz, surfaces@[xx * 32 + yy] as int),
                    decreases 32 - z,
                {
                    let wz = chunk_z + z as i32;
                    blocks.push(column_block(wz, surface));
                    proof {
                        assert forall|xx: int, yy: int, zz: int|
                            0 <= xx < 32 && 0 <= yy < 32 && 0 <= zz < 32 && block_index(xx, yy, zz) < x
                                * 1024 + y * 32 + z + 1 implies #[trigger] blocks@[block_index(xx, yy, zz)]
                            == column_block_spec(chunk_z + zz, surfaces@[xx * 32 + yy] as int) by {
                            if block_index(xx, yy, zz) == x * 1024 + y * 32 + z {
                                assert(xx == x && yy == y && zz == z);
                            }
                        }
                    }
                    z += 1;
                }
                y += 1;
            }
            proof {
                assert forall|xx: int, yy: int, zz: int|
                    0 <= xx < x + 1 && 0 <= yy < 32 && 0 <= zz < 32 implies #[trigger] blocks@[block_index(
                    xx,
                    yy,
                    zz,
                )] == column_block_spec(chunk_z + zz, surfaces@[xx * 32 + yy] as int) by {
                    assert(block_index(xx, yy, zz) < (x + 1) * 1024);
                }
            }
            x += 1;
        }
        self.blocks = blocks;
    }

    /// The block at `(x, y, z)`.
    pub fn block(&self, x: usize, y: usize, z: usize) -> (r: Block)
        requires
            self.wf(),
            x < 32 && y < 32 && z < 32,
        ensures
            r.kind == self@[block_index(x as int, y as int, z as int)],
    {
        Block { kind: self.blocks[x * 1024 + y * CHUNK_SIZE + z] }
    }

    /// Sets the block at `(x, y, z)` to `kind`.
    pub fn update_block(&mut self, x: usize, y: usize, z: usize, kind: BlockType)
        requires
            old(self).wf(),
            x < 32 && y < 32 && z < 32,
        ensures
            final(self).wf(),
            final(self)@ == old(self)@.update(block_index(x as int, y as int, z as int), kind),
    {
        self.blocks.set(x * 1024 + y * CHUNK_SIZE + z, kind);
    }
}

} // verus!
