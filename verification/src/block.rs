use vstd::prelude::*;

verus! {

#[derive(Debug, Clone, Copy, PartialEq, Eq, Structural)]
pub enum BlockType {
    Air,
    Dirt,
    Stone,
    Sand,
    Grass,
}

impl Default for BlockType {
    fn default() -> (r: Self)
        ensures
            r == BlockType::Air,
    {
        BlockType::Air
    }
}

impl BlockType {
    /// The variant's name, as the block type is displayed.
    pub fn name(self) -> (r: &'static str)
        ensures
            r@ == block_type_name(self)@,
    {
        match self {
            BlockType::Air => "Air",
            BlockType::Dirt => "Dirt",
            BlockType::Stone => "Stone",
            BlockType::Sand => "Sand",
            BlockType::Grass => "Grass",
        }
    }
}

pub open spec fn block_type_name(t: BlockType) -> &'static str {
    match t {
        BlockType::Air => "Air",
        BlockType::Dirt => "Dirt",
        BlockType::Stone => "Stone",
        BlockType::Sand => "Sand",
        BlockType::Grass => "Grass",
    }
}

/// A face of a block, named by the direction its normal points.
#[derive(Debug, Clone, Copy, PartialEq, Eq, Structural)]
pub enum Face {
    EAST,  // +X
    WEST,  // -X
    TOP,  // +Y
    BOTTOM,  // -Y
    SOUTH,  // +Z
    NORTH,  // -Z
}

pub open spec fn face_index_spec(f: Face) -> usize {
    match f {
        Face::EAST => 0,
        Face::WEST => 1,
        Face::TOP => 2,
        Face::BOTTOM => 3,
        Face::SOUTH => 4,
        Face::NORTH => 5,
    }
}

impl Face {
    /// The face with index `idx` in the order east, west, top, bottom, south, north.
    pub fn from_index(idx: usize) -> (r: Face)
        requires
            idx < 6,
        ensures
            face_index_spec(r) == idx,
    {
        match idx {
            0 => Face::EAST,
            1 => Face::WEST,
            2 => Face::TOP,
            3 => Face::BOTTOM,
            4 => Face::SOUTH,
            _ => Face::NORTH,
        }
    }

    /// Position of this face in the order east, west, top, bottom, south, north.
    pub fn index(self) -> (r: usize)
        ensures
            r == face_index_spec(self),
            r < 6,
    {
        match self {
            Face::EAST => 0,
            Face::WEST => 1,
            Face::TOP => 2,
            Face::BOTTOM => 3,
            Face::SOUTH => 4,
            Face::NORTH => 5,
        }
    }
}

#[derive(Debug, Clone, Copy, PartialEq, Eq, Structural)]
pub struct Block {
    pub kind: BlockType,
}

impl Default for Block {
    fn default() -> (r: Self)
        ensures
            r.kind == BlockType::Air,
    {
        Block { kind: BlockType::Air }
    }
}

/// Texture-array layer drawn on `face` of a block of type `t`: grass shows
/// its top, dirt and side textures; every other solid block uses one layer.
pub open spec fn layer_for_face_spec(t: BlockType, face: Face) -> u32 {
    match t {
        BlockType::Air => 0,
        BlockType::Dirt => 2,
        BlockType::Stone => 3,
        BlockType::Sand => 3,
        BlockType::Grass => match face {
            Face::TOP => 0,
            Face::BOTTOM => 2,
            _ => 1,
        },
    }
}

impl Block {
    pub fn is_air(self) -> (r: bool)
        ensures
            r == (self.kind == BlockType::Air),
    {
        matches!(self.kind, BlockType::Air)
    }

    pub fn layer_for_face(self, face: Face) -> (r: u32)
        ensures
            r == layer_for_face_spec(self.kind, face),
    {
        match self.kind {
            BlockType::Air => 0,
            BlockType::Dirt => 2,
            BlockType::Stone => 3,
            BlockType::Sand => 3,
            BlockType::Grass => match face {
                Face::TOP => 0,
                Face::BOTTOM => 2,
                _ => 1,
            },
        }
    }

    /// The block's type name, as the block is displayed.
    pub fn name(self) -> (r: &'static str)
        ensures
            r@ == block_type_name(self.kind)@,
    {
        self.kind.name()
    }
}

} // verus!
