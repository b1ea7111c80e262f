use vstd::prelude::*;
use crate::block::{Block, BlockType, Face};
use crate::chunk::{Chunk, all_air};
use crate::mesher::{CHUNK_VOLUME, block_index};

verus! {

/// Lowest block height a block can be placed at.
pub const WORLD_Y_MIN: i32 = -64;

/// Highest block height a block can be placed at.
pub const WORLD_Y_MAX: i32 = 63;

/// A point of the integer block grid, or the corner of a chunk.
#[derive(Debug, Clone, Copy, PartialEq, Eq, Structural)]
pub struct Pos3 {
    pub x: i32,
    pub y: i32,
    pub z: i32,
}

/// Start of the chunk that holds coordinate `c` along one axis.
pub open spec fn origin(c: int) -> int {
    c - c % 32
}

/// Corner of the chunk that holds block `p`.
pub open spec fn chunk_of(p: Pos3) -> Pos3 {
    Pos3 { x: origin(p.x as int) as i32, y: origin(p.y as int) as i32, z: origin(p.z as int) as i32 }
}

/// Position of block `p` in its chunk's block list.
pub open spec fn local_index(p: Pos3) -> int {
    block_index((p.x as int) % 32, (p.y as int) % 32, (p.z as int) % 32)
}

/// The block one step from `p` across `face`, as unbounded coordinates.
pub open spec fn step_spec(p: Pos3, face: Face) -> (int, int, int) {
    match face {
        Face::EAST => (p.x + 1, p.y as int, p.z as int),
        Face::WEST => (p.x - 1, p.y as int, p.z as int),
        Face::TOP => (p.x as int, p.y + 1, p.z as int),
        Face::BOTTOM => (p.x as int, p.y - 1, p.z as int),
        Face::SOUTH => (p.x as int, p.y as int, p.z + 1),
        Face::NORTH => (p.x as int, p.y as int, p.z - 1),
    }
}

/// The step from `p` across `face` stays on the `i32` grid.
pub open spec fn step_fits(p: Pos3, face: Face) -> bool {
    let (x, y, z) = step_spec(p, face);
    i32::MIN <= x <= i32::MAX && i32::MIN <= y <= i32::MAX && i32::MIN <= z <= i32::MAX
}

/// The block one step from `p` across `face`.
pub open spec fn neighbor_of(p: Pos3, face: Face) -> Pos3 {
    let (x, y, z) = step_spec(p, face);
    Pos3 { x: x as i32, y: y as i32, z: z as i32 }
}

/// `c % 32` with the remainder taken toward negative infinity.
fn floor_mod32(c: i32) -> (r: i32)
    ensures
        r == (c as int) % 32,
        0 <= r < 32,
{
    if c >= 0 {
        c % 32
    } else {
        let n: i32 = -(c + 1);
        let s: i32 = n % 32;
        proof {
            let q = n / 32;
            vstd::arithmetic::div_mod::lemma_fundamental_div_mod(n as int, 32);
            vstd::arithmetic::div_mod::lemma_fundamental_div_mod_converse(c as int, 32, -q - 1, 31 - s);
        }
        31 - s
    }
}

/// Start of the chunk that holds coordinate `c`.
fn chunk_origin(c: i32) -> (r: i32)
    ensures
        r == origin(c as int),
{
    let m = floor_mod32(c);
    proof {
        vstd::arithmetic::div_mod::lemma_fundamental_div_mod(c as int, 32);
        let q = (c as int) / 32;
        assert(c - m == 32 * q);
        assert(q >= -67108864) by (nonlinear_arith)
            requires
                32 * q + 31 >= c,
                c >= -2147483648,
        ;
    }
    c - m
}

/// Corner of the chunk that holds block `p`.
pub fn chunk_pos(p: Pos3) -> (r: Pos3)
    ensures
        r == chunk_of(p),
{
    Pos3 { x: chunk_origin(p.x), y: chunk_origin(p.y), z: chunk_origin(p.z) }
}

/// Coordinates of block `p` inside its chunk.
pub fn local_pos(p: Pos3) -> (r: (usize, usize, usize))
    ensures
        r.0 == (p.x as int) % 32,
        r.1 == (p.y as int) % 32,
        r.2 == (p.z as int) % 32,
        r.0 < 32 && r.1 < 32 && r.2 < 32,
{
    (floor_mod32(p.x) as usize, floor_mod32(p.y) as usize, floor_mod32(p.z) as usize)
}

/// The block one step from `p` across `face`.
pub fn neighbor(p: Pos3, face: Face) -> (r: Pos3)
    requires
        step_fits(p, face),
    ensures
        r == neighbor_of(p, face),
{
    match face {
        Face::EAST => Pos3 { x: p.x + 1, ..p },
        Face::WEST => Pos3 { x: p.x - 1, ..p },
        Face::TOP => Pos3 { y: p.y + 1, ..p },
        Face::BOTTOM => Pos3 { y: p.y - 1, ..p },
        Face::SOUTH => Pos3 { z: p.z + 1, ..p },
        Face::NORTH => Pos3 { z: p.z - 1, ..p },
    }
}

/// What became of a request to place a block.
#[derive(Debug, Clone, Copy, PartialEq, Eq, Structural)]
pub enum Placement {
    /// The target lies below `WORLD_Y_MIN` or above `WORLD_Y_MAX`.
    OutOfWorld,
    /// The target already holds a solid block.
    Occupied,
    /// The target now holds dirt.
    Placed,
}

/// A chunk of air, as a block list.
pub open spec fn air_chunk() -> Seq<BlockType> {
    Seq::new(CHUNK_VOLUME as nat, |i: int| BlockType::Air)
}

/// Every chunk of `m` has a chunk's number of blocks.
pub open spec fn chunks_valid(m: Map<Pos3, Seq<BlockType>>) -> bool {
    forall|c: Pos3| #[trigger] m.contains_key(c) ==> m[c].len() == CHUNK_VOLUME
}

/// The block at `p` in the chunks `m`: `None` where no chunk holds it.
pub open spec fn block_in(m: Map<Pos3, Seq<BlockType>>, p: Pos3) -> Option<BlockType> {
    if m.contains_key(chunk_of(p)) {
        Some(m[chunk_of(p)][local_index(p)])
    } else {
        None
    }
}

/// What placing a block against face `face` of `position` does in `m`.
pub open spec fn placement_spec(m: Map<Pos3, Seq<BlockType>>, position: Pos3, face: Face) -> Placement {
    let t = neighbor_of(position, face);
    if t.y < WORLD_Y_MIN || t.y > WORLD_Y_MAX {
        Placement::OutOfWorld
    } else if block_in(m, t) matches Some(k) && k != BlockType::Air {
        Placement::Occupied
    } else {
        Placement::Placed
    }
}

/// The chunks `m` after placing a block against face `face` of `position`.
pub open spec fn place_map(m: Map<Pos3, Seq<BlockType>>, position: Pos3, face: Face) -> Map<
    Pos3,
    Seq<BlockType>,
> {
    let t = neighbor_of(position, face);
    let c = chunk_of(t);
    if placement_spec(m, position, face) == Placement::Placed {
        m.insert(
            c,
            (if m.contains_key(c) {
                m[c]
            } else {
                air_chunk()
            }).update(local_index(t), BlockType::Dirt),
        )
    } else {
        m
    }
}

/// The chunks `m` after removing the block at `position`.
pub open spec fn remove_map(m: Map<Pos3, Seq<BlockType>>, position: Pos3) -> Map<Pos3, Seq<BlockType>> {
    let c = chunk_of(position);
    if block_in(m, position) matches Some(k) && k != BlockType::Air {
        m.insert(c, m[c].update(local_index(position), BlockType::Air))
    } else {
        m
    }
}

/// The dirty list after chunk `c` changed: `c` joins it unless listed.
pub open spec fn mark_dirty_spec(dirty: Seq<Pos3>, c: Pos3) -> Seq<Pos3> {
    if dirty.contains(c) {
        dirty
    } else {
        dirty.push(c)
    }
}

/// Chunks of blocks keyed by their corners, and the chunks whose mesh must
/// be rebuilt, each listed once, in the order they were first changed.
#[derive(Debug)]
pub struct World {
    positions: Vec<Pos3>,
    chunks: Vec<Chunk>,
    dirty_chunks: Vec<Pos3>,
}

/// No position occurs twice in `s`.
pub open spec fn distinct(s: Seq<Pos3>) -> bool {
    forall|i: int, j: int| 0 <= i < s.len() && 0 <= j < s.len() && i != j ==> s[i] != s[j]
}

impl World {
    /// Corners of the chunks, in the order they were added.
    pub closed spec fn positions(&self) -> Seq<Pos3> {
        self.positions@
    }

    /// Chunk corner to the chunk's blocks.
    pub closed spec fn chunk_map(&self) -> Map<Pos3, Seq<BlockType>> {
        Map::new(
            |p: Pos3| self.positions@.contains(p),
            |p: Pos3| self.chunks@[self.positions@.index_of(p)]@,
        )
    }

    /// Chunks waiting for their mesh to be rebuilt, oldest first.
    pub closed spec fn dirty(&self) -> Seq<Pos3> {
        self.dirty_chunks@
    }

    pub closed spec fn wf(&self) -> bool {
        &&& self.positions@.len() == self.chunks@.len()
        &&& distinct(self.positions@)
        &&& forall|i: int| 0 <= i < self.chunks@.len() ==> (#[trigger] self.chunks@[i]).wf()
        &&& distinct(self.dirty_chunks@)
        &&& forall|i: int| 0 <= i < self.dirty_chunks@.len() ==> self.positions@.contains(#[trigger] self.dirty_chunks@[i])
    }

    /// The block at `p`: `None` where no chunk holds it.
    pub open spec fn block_spec(&self, p: Pos3) -> Option<BlockType> {
        block_in(self.chunk_map(), p)
    }

    /// A world's chunks all have a chunk's size, and its dirty list names
    /// existing chunks, each once.
    pub proof fn lemma_wf_facts(&self)
        requires
            self.wf(),
        ensures
            self.chunk_map().dom().finite(),
            chunks_valid(self.chunk_map()),
            distinct(self.dirty()),
            forall|i: int| 0 <= i < self.dirty().len() ==> self.chunk_map().contains_key(#[trigger] self.dirty()[i]),
    {
        assert(self.chunk_map().dom() =~= self.positions@.to_set());
        assert forall|p: Pos3| #[trigger] self.chunk_map().contains_key(p) implies self.chunk_map()[p].len()
            == CHUNK_VOLUME by {
            let i = self.positions@.index_of(p);
            assert(self.chunks@[i].wf());
        }
    }

    /// A world with no chunks.
    pub fn new() -> (r: Self)
        ensures
            r.wf(),
            r.chunk_map() == Map::<Pos3, Seq<BlockType>>::empty(),
            r.positions() == Seq::<Pos3>::empty(),
            r.dirty() == Seq::<Pos3>::empty(),
    {
        let r = World { positions: Vec::new(), chunks: Vec::new(), dirty_chunks: Vec::new() };
        assert(r.chunk_map() =~= Map::<Pos3, Seq<BlockType>>::empty());
        r
    }

    fn find(&self, p: Pos3) -> (r: Option<usize>)
        requires
            self.wf(),
        ensures
            match r {
                Some(i) => i < self.positions@.len() && self.positions@[i as int] == p
                    && self.positions@.index_of(p) == i,
                None => !self.positions@.contains(p),
            },
    {
        let mut i: usize = 0;
        while i < self.positions.len()
            invariant
                self.wf(),
                0 <= i <= self.positions@.len(),
                forall|j: int| 0 <= j < i ==> self.positions@[j] != p,
            decreases self.positions@.len() - i,
        {
            if self.positions[i] == p {
                proof {
                    assert(self.positions@.contains(p));
                    let k = self.positions@.index_of(p);
                    assert(self.positions@[k] == p);
                }
                return Some(i);
            }
            i += 1;
        }
        None
    }

    proof fn lemma_map_update(&self, old_world: &Self, i: int)
        requires
            old_world.wf(),
            0 <= i < old_world.positions@.len(),
            self.positions@ == old_world.positions@,
            self.chunks@.len() == old_world.chunks@.len(),
            forall|j: int| 0 <= j < self.chunks@.len() && j != i ==> self.chunks@[j] == old_world.chunks@[j],
        ensures
            self.chunk_map() == old_world.chunk_map().insert(old_world.positions@[i], self.chunks@[i]@),
    {
        let k = old_world.positions@[i];
        assert(old_world.positions@.contains(k));
        assert forall|p: Pos3| #[trigger] self.positions@.contains(p) implies self.positions@.index_of(p)
            == old_world.positions@.index_of(p) && (p == k <==> self.positions@.index_of(p) == i) by {
            let a = self.positions@.index_of(p);
            assert(self.positions@[a] == p);
            if p == k {
                assert(self.positions@[i] == p);
            }
        }
        assert(self.chunk_map() =~= old_world.chunk_map().insert(k, self.chunks@[i]@));
    }

    proof fn lemma_map_push(&self, old_world: &Self, p: Pos3, c: Chunk)
        requires
            old_world.wf(),
            !old_world.positions@.contains(p),
            self.positions@ == old_world.positions@.push(p),
            self.chunks@ == old_world.chunks@.push(c),
        ensures
            self.chunk_map() == old_world.chunk_map().insert(p, c@),
            distinct(self.positions@),
    {
        let n = old_world.positions@.len() as int;
        assert(self.positions@[n] == p);
        assert forall|q: Pos3| old_world.positions@.contains(q) implies #[trigger] self.positions@.contains(q) by {
            let b = old_world.positions@.index_of(q);
            assert(self.positions@[b] == q);
        }
        assert forall|q: Pos3| #[trigger] self.positions@.contains(q) implies (q == p ==> self.positions@.index_of(
            q,
        ) == n) && (q != p ==> self.positions@.index_of(q) == old_world.positions@.index_of(q)
            && old_world.positions@.contains(q)) by {
            let a = self.positions@.index_of(q);
            assert(self.positions@[a] == q);
            if q != p {
                assert(a < n);
                assert(old_world.positions@[a] == q);
                let b = old_world.positions@.index_of(q);
                assert(old_world.positions@[b] == q);
                assert(self.positions@[b] == q);
            }
        }
        assert(self.chunk_map() =~= old_world.chunk_map().insert(p, c@));
    }

    /// Adds chunk `chunk` with corner `pos`, or replaces the chunk there.
    pub fn insert_chunk(&mut self, pos: Pos3, chunk: Chunk)
        requires
            old(self).wf(),
            chunk.wf(),
        ensures
            final(self).wf(),
            final(self).chunk_map() == old(self).chunk_map().insert(pos, chunk@),
            final(self).dirty() == old(self).dirty(),
    {
        match self.find(pos) {
            Some(i) => {
                let ghost old_world = *self;
                let ghost c = chunk;
                self.chunks.set(i, chunk);
                proof {
                    self.lemma_map_update(&old_world, i as int);
                    assert(self.chunks@[i as int] == c);
                }
            },
            None => {
                let ghost old_world = *self;
                let ghost c = chunk;
                self.positions.push(pos);
                self.chunks.push(chunk);
                proof {
                    self.lemma_map_push(&old_world, pos, c);
                    assert forall|i: int| 0 <= i < self.dirty_chunks@.len() implies self.positions@.contains(
                        #[trigger] self.dirty_chunks@[i],
                    ) by {
                        let q = self.dirty_chunks@[i];
                        assert(old_world.positions@.contains(q));
                        let a = old_world.positions@.index_of(q);
                        assert(self.positions@[a] == q);
                    }
                }
            },
        }
    }

    /// The chunk with corner `pos`, if there is one.
    pub fn chunk(&self, pos: Pos3) -> (r: Option<&Chunk>)
        requires
            self.wf(),
        ensures
            match r {
                Some(c) => self.chunk_map().contains_key(pos) && c@ == self.chunk_map()[pos] && c.wf(),
                None => !self.chunk_map().contains_key(pos),
            },
    {
        match self.find(pos) {
            Some(i) => {
                proof {
                    assert(self.chunks@[i as int].wf());
                }
                Some(&self.chunks[i])
            },
            None => None,
        }
    }

    /// Corners of the chunks, in the order they were added.
    pub fn chunk_positions(&self) -> (r: &Vec<Pos3>)
        ensures
            r@ == self.positions(),
    {
        &self.positions
    }

    /// The block at `(x, y, z)`, if a chunk holds it.
    pub fn block_at(&self, x: i32, y: i32, z: i32) -> (r: Option<Block>)
        requires
            self.wf(),
        ensures
            r == (match self.block_spec(Pos3 { x, y, z }) {
                Some(k) => Some(Block { kind: k }),
                None => None,
            }),
    {
        let p = Pos3 { x, y, z };
        let cp = chunk_pos(p);
        let (lx, ly, lz) = local_pos(p);
        match self.chunk(cp) {
            Some(c) => Some(c.block(lx, ly, lz)),
            None => None,
        }
    }

    fn mark_dirty(&mut self, c: Pos3)
        requires
            old(self).wf(),
            old(self).positions@.contains(c),
        ensures
            final(self).wf(),
            final(self).positions@ == old(self).positions@,
            final(self).chunks@ == old(self).chunks@,
            final(self).dirty() == mark_dirty_spec(old(self).dirty(), c),
    {
        let mut i: usize = 0;
        while i < self.dirty_chunks.len()
            invariant
                self.wf(),
                self.positions@ == old(self).positions@,
                self.chunks@ == old(self).chunks@,
                self.dirty_chunks@ == old(self).dirty_chunks@,
                old(self).positions@.contains(c),
                0 <= i <= self.dirty_chunks@.len(),
                forall|j: int| 0 <= j < i ==> self.dirty_chunks@[j] != c,
            decreases self.dirty_chunks@.len() - i,
        {
            if self.dirty_chunks[i] == c {
                proof {
                    assert(self.dirty_chunks@.contains(c));
                }
                return;
            }
            i += 1;
        }
        proof {
            assert(!self.dirty_chunks@.contains(c));
        }
        self.dirty_chunks.push(c);
        proof {
            assert forall|a: int, b: int|
                0 <= a < self.dirty_chunks@.len() && 0 <= b < self.dirty_chunks@.len() && a != b implies self.dirty_chunks@[a]
                != self.dirty_chunks@[b] by {
                if a == self.dirty_chunks@.len() - 1 {
                    assert(old(self).dirty_chunks@[b] == self.dirty_chunks@[b]);
                } else if b == self.dirty_chunks@.len() - 1 {
                    assert(old(self).dirty_chunks@[a] == self.dirty_chunks@[a]);
                }
            }
        }
    }

    /// Places a dirt block against face `face` of block `position`, unless
    /// the spot lies outside the world's height range or holds a solid block.
    /// Where no chunk holds the spot, a chunk of air is made for it. The
    /// changed chunk is marked dirty.
    pub fn add_block(&mut self, position: Pos3, face: Face) -> (r: Placement)
        requires
            old(self).wf(),
            step_fits(position, face),
        ensures
            final(self).wf(),
            r == placement_spec(old(self).chunk_map(), position, face),
            final(self).chunk_map() == place_map(old(self).chunk_map(), position, face),
            final(self).dirty() == (if r == Placement::Placed {
                mark_dirty_spec(old(self).dirty(), chunk_of(neighbor_of(position, face)))
            } else {
                old(self).dirty()
            }),
    {
        let t = neighbor(position, face);
        if t.y < WORLD_Y_MIN || t.y > WORLD_Y_MAX {
            return Placement::OutOfWorld;
        }
        let cp = chunk_pos(t);
        let (lx, ly, lz) = local_pos(t);
        match self.find(cp) {
            Some(i) => {
                proof {
                    assert(self.chunks@[i as int].wf());
                }
                if !self.chunks[i].block(lx, ly, lz).is_air() {
                    return Placement::Occupied;
                }
                let ghost old_world = *self;
                self.chunks[i].update_block(lx, ly, lz, BlockType::Dirt);
                proof {
                    self.lemma_map_update(&old_world, i as int);
                }
                self.mark_dirty(cp);
            },
            None => {
                let mut chunk = Chunk::new();
                chunk.update_block(lx, ly, lz, BlockType::Dirt);
                proof {
                    assert(all_air(old(self).chunk_map().insert(cp, air_chunk())[cp]));
                    assert(air_chunk().update(local_index(t), BlockType::Dirt) =~= chunk@);
                }
                self.insert_chunk(cp, chunk);
                proof {
                    assert(self.chunk_map().contains_key(cp));
                    assert(self.positions@.contains(cp));
                }
                self.mark_dirty(cp);
            },
        }
        Placement::Placed
    }

    /// Turns the solid block at `position` into air and marks its chunk
    /// dirty; does nothing where no chunk holds `position` or it is air.
    pub fn remove_block(&mut self, position: Pos3)
        requires
            old(self).wf(),
        ensures
            final(self).wf(),
            final(self).chunk_map() == remove_map(old(self).chunk_map(), position),
            final(self).dirty() == (if old(self).block_spec(position) matches Some(k) && k != BlockType::Air {
                mark_dirty_spec(old(self).dirty(), chunk_of(position))
            } else {
                old(self).dirty()
            }),
    {
        let cp = chunk_pos(position);
        let (lx, ly, lz) = local_pos(position);
        if let Some(i) = self.find(cp) {
            proof {
                assert(self.chunks@[i as int].wf());
            }
            if self.chunks[i].block(lx, ly, lz).is_air() {
                return;
            }
            let ghost old_world = *self;
            self.chunks[i].update_block(lx, ly, lz, BlockType::Air);
            proof {
                self.lemma_map_update(&old_world, i as int);
            }
            self.mark_dirty(cp);
        }
    }

    /// Some chunk waits for its mesh to be rebuilt.
    pub fn has_dirty_chunks(&self) -> (r: bool)
        ensures
            r == (self.dirty().len() > 0),
    {
        self.dirty_chunks.len() > 0
    }

    /// Hands out the dirty chunks, oldest first, and clears the list.
    pub fn take_dirty(&mut self) -> (r: Vec<Pos3>)
        requires
            old(self).wf(),
        ensures
            final(self).wf(),
            r@ == old(self).dirty(),
            final(self).dirty() == Seq::<Pos3>::empty(),
            final(self).chunk_map() == old(self).chunk_map(),
    {
        let mut taken: Vec<Pos3> = Vec::new();
        std::mem::swap(&mut taken, &mut self.dirty_chunks);
        proof {
            assert(self.chunk_map() =~= old(self).chunk_map());
        }
        taken
    }
}

proof fn lemma_origin_range(c: i32)
    ensures
        i32::MIN <= origin(c as int) <= c,
        0 <= (c as int) % 32 < 32,
        origin(c as int) + (c as int) % 32 == c,
{
    vstd::arithmetic::div_mod::lemma_fundamental_div_mod(c as int, 32);
    let q = (c as int) / 32;
    assert(origin(c as int) == 32 * q);
    assert(q >= -67108864) by (nonlinear_arith)
        requires
            32 * q + 31 >= c,
            c >= -2147483648,
    ;
}

/// A block is determined by its chunk and its position in the chunk.
proof fn lemma_position_decomposes(p: Pos3, q: Pos3)
    requires
        chunk_of(p) == chunk_of(q),
        local_index(p) == local_index(q),
    ensures
        p == q,
{
    lemma_origin_range(p.x);
    lemma_origin_range(p.y);
    lemma_origin_range(p.z);
    lemma_origin_range(q.x);
    lemma_origin_range(q.y);
    lemma_origin_range(q.z);
    assert(origin(p.x as int) == origin(q.x as int));
    assert(origin(p.y as int) == origin(q.y as int));
    assert(origin(p.z as int) == origin(q.z as int));
}

/// Placing a block puts dirt at the target and changes no other block,
/// except that the other blocks of a chunk made for the target read as air.
pub proof fn lemma_place_reads_back(m: Map<Pos3, Seq<BlockType>>, position: Pos3, face: Face)
    requires
        chunks_valid(m),
        step_fits(position, face),
        placement_spec(m, position, face) == Placement::Placed,
    ensures
        chunks_valid(place_map(m, position, face)),
        block_in(place_map(m, position, face), neighbor_of(position, face)) == Some(BlockType::Dirt),
        forall|q: Pos3|
            q != neighbor_of(position, face) ==> #[trigger] block_in(place_map(m, position, face), q) == (if chunk_of(
                q,
            ) == chunk_of(neighbor_of(position, face)) && block_in(m, q) is None {
                Some(BlockType::Air)
            } else {
                block_in(m, q)
            }),
{
    let t = neighbor_of(position, face);
    let n = place_map(m, position, face);
    lemma_origin_range(t.x);
    lemma_origin_range(t.y);
    lemma_origin_range(t.z);
    assert(0 <= local_index(t) < CHUNK_VOLUME);
    assert forall|q: Pos3| q != t implies #[trigger] block_in(n, q) == (if chunk_of(q) == chunk_of(t) && block_in(
        m,
        q,
    ) is None {
        Some(BlockType::Air)
    } else {
        block_in(m, q)
    }) by {
        lemma_origin_range(q.x);
        lemma_origin_range(q.y);
        lemma_origin_range(q.z);
        if chunk_of(q) == chunk_of(t) {
            if local_index(q) == local_index(t) {
                lemma_position_decomposes(q, t);
            }
        }
    }
}

/// Removing a block leaves air where a block was and changes no other block.
pub proof fn lemma_remove_reads_back(m: Map<Pos3, Seq<BlockType>>, position: Pos3)
    requires
        chunks_valid(m),
    ensures
        chunks_valid(remove_map(m, position)),
        block_in(remove_map(m, position), position) == (if block_in(m, position) is Some {
            Some(BlockType::Air)
        } else {
            None::<BlockType>
        }),
        forall|q: Pos3| q != position ==> #[trigger] block_in(remove_map(m, position), q) == block_in(m, q),
{
    let n = remove_map(m, position);
    lemma_origin_range(position.x);
    lemma_origin_range(position.y);
    lemma_origin_range(position.z);
    assert(0 <= local_index(position) < CHUNK_VOLUME);
    assert forall|q: Pos3| q != position implies #[trigger] block_in(n, q) == block_in(m, q) by {
        lemma_origin_range(q.x);
        lemma_origin_range(q.y);
        lemma_origin_range(q.z);
        if chunk_of(q) == chunk_of(position) && local_index(q) == local_index(position) {
            lemma_position_decomposes(q, position);
        }
    }
}

/// Removing the block just placed, where a chunk already held its spot,
/// gives back the chunks as they were.
pub proof fn lemma_place_then_remove(m: Map<Pos3, Seq<BlockType>>, position: Pos3, face: Face)
    requires
        chunks_valid(m),
        step_fits(position, face),
        placement_spec(m, position, face) == Placement::Placed,
        m.contains_key(chunk_of(neighbor_of(position, face))),
    ensures
        remove_map(place_map(m, position, face), neighbor_of(position, face)) == m,
{
    let t = neighbor_of(position, face);
    let c = chunk_of(t);
    let li = local_index(t);
    lemma_origin_range(t.x);
    lemma_origin_range(t.y);
    lemma_origin_range(t.z);
    assert(0 <= li < CHUNK_VOLUME);
    assert(m[c][li] == BlockType::Air);
    let n = place_map(m, position, face);
    assert(n[c][li] == BlockType::Dirt);
    assert(n[c].update(li, BlockType::Air) =~= m[c]);
    assert(remove_map(n, t) =~= m);
}

/// Marking a chunk dirty twice lists it once.
pub proof fn lemma_mark_dirty_twice(dirty: Seq<Pos3>, c: Pos3)
    ensures
        mark_dirty_spec(mark_dirty_spec(dirty, c), c) == mark_dirty_spec(dirty, c),
        mark_dirty_spec(dirty, c).contains(c),
{
    if !dirty.contains(c) {
        assert(dirty.push(c)[dirty.len() as int] == c);
    }
}

/// Corners of the chunks a new world starts with: the two by two chunks
/// around the origin, one chunk below it, x in the outer order and z in the
/// inner.
pub fn initial_chunk_positions() -> (r: Vec<Pos3>)
    ensures
        r@ == seq![
            Pos3 { x: -32i32, y: -32i32, z: -32i32 },
            Pos3 { x: -32i32, y: -32i32, z: 0i32 },
            Pos3 { x: 0i32, y: -32i32, z: -32i32 },
            Pos3 { x: 0i32, y: -32i32, z: 0i32 },
        ],
{
    let mut out: Vec<Pos3> = Vec::new();
    out.push(Pos3 { x: -32, y: -32, z: -32 });
    out.push(Pos3 { x: -32, y: -32, z: 0 });
    out.push(Pos3 { x: 0, y: -32, z: -32 });
    out.push(Pos3 { x: 0, y: -32, z: 0 });
    proof {
        assert(out@ =~= seq![
            Pos3 { x: -32i32, y: -32i32, z: -32i32 },
            Pos3 { x: -32i32, y: -32i32, z: 0i32 },
            Pos3 { x: 0i32, y: -32i32, z: -32i32 },
            Pos3 { x: 0i32, y: -32i32, z: 0i32 },
        ]);
    }
    out
}

} // verus!
