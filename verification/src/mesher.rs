use vstd::prelude::*;
use crate::block::{BlockType, Face, layer_for_face_spec};

verus! {

/// Blocks along each edge of a chunk.
pub const CHUNK_SIZE: usize = 32;

/// Cells of one slice of a chunk (`CHUNK_SIZE * CHUNK_SIZE`).
pub const SLICE_CELLS: usize = 1024;

/// An axis-aligned rectangle of cells of one slice, all showing the same block type.
#[derive(Debug, Clone, Copy, PartialEq, Eq, Structural)]
pub struct Rect {
    pub u: usize,
    pub v: usize,
    pub w: usize,
    pub h: usize,
    pub kind: BlockType,
}

/// Index of cell `(u, v)` in a slice mask.
pub open spec fn slice_index(u: int, v: int) -> int {
    u * 32 + v
}

pub open spec fn in_rect(r: Rect, u: int, v: int) -> bool {
    r.u <= u < r.u + r.w && r.v <= v < r.v + r.h
}

/// Some rectangle of `rs` contains cell `(u, v)`.
pub open spec fn covered(rs: Seq<Rect>, u: int, v: int) -> bool {
    exists|k: int| 0 <= k < rs.len() && in_rect(#[trigger] rs[k], u, v)
}

pub open spec fn in_slice(u: int, v: int) -> bool {
    0 <= u < 32 && 0 <= v < 32
}

/// The mask shows `kind` at cell `(u, v)`.
pub open spec fn shows(mask: Seq<Option<BlockType>>, u: int, v: int, kind: BlockType) -> bool {
    mask[slice_index(u, v)] == Some(kind)
}

/// Cell `(u, v)` may still be merged into a rectangle of `kind` after `prior`.
pub open spec fn open_cell(mask: Seq<Option<BlockType>>, prior: Seq<Rect>, u: int, v: int, kind: BlockType) -> bool {
    in_slice(u, v) && !covered(prior, u, v) && shows(mask, u, v, kind)
}

/// `r` is the rectangle greedy meshing emits after the rectangles `prior`:
/// it starts at the first (in row-major `(u, v)` order) visible cell not yet
/// covered, grows along `u` as far as cells stay uncovered and of the same
/// type, then along `v` as far as whole rows of that width do.
pub open spec fn greedy_step(mask: Seq<Option<BlockType>>, prior: Seq<Rect>, r: Rect) -> bool {
    &&& r.w >= 1 && r.h >= 1
    &&& r.u + r.w <= 32 && r.v + r.h <= 32
    &&& forall|du: int, dv: int|
        0 <= du < r.w && 0 <= dv < r.h ==> #[trigger] open_cell(mask, prior, r.u + du, r.v + dv, r.kind)
    &&& forall|u: int, v: int|
        in_slice(u, v) && slice_index(u, v) < slice_index(r.u as int, r.v as int)
            && (#[trigger] mask[slice_index(u, v)]) is Some ==> covered(prior, u, v)
    &&& !open_cell(mask, prior, r.u + r.w, r.v as int, r.kind)
    &&& r.v + r.h < 32 ==> exists|du: int|
        0 <= du < r.w && !(#[trigger] open_cell(mask, prior, r.u + du, r.v + r.h, r.kind))
}

/// `rs` is what greedy meshing makes of `mask`: each rectangle is the greedy
/// step after the ones before it, and together they cover every visible cell.
pub open spec fn greedy_result(mask: Seq<Option<BlockType>>, rs: Seq<Rect>) -> bool {
    &&& forall|k: int| 0 <= k < rs.len() ==> greedy_step(mask, rs.take(k), #[trigger] rs[k])
    &&& forall|u: int, v: int|
        in_slice(u, v) && (#[trigger] mask[slice_index(u, v)]) is Some ==> covered(rs, u, v)
}

fn shows_kind(cell: Option<BlockType>, kind: BlockType) -> (r: bool)
    ensures
        r == (cell == Some(kind)),
{
    match cell {
        Some(b) => b == kind,
        None => false,
    }
}


proof fn lemma_covered_push(rs: Seq<Rect>, r: Rect, u: int, v: int)
    ensures
        covered(rs.push(r), u, v) == (covered(rs, u, v) || in_rect(r, u, v)),
{
    let n = rs.push(r);
    if covered(rs, u, v) {
        let k = choose|k: int| 0 <= k < rs.len() && in_rect(#[trigger] rs[k], u, v);
        assert(n[k] == rs[k]);
    }
    if in_rect(r, u, v) {
        assert(n[rs.len() as int] == r);
    }
    if covered(n, u, v) {
        let k = choose|k: int| 0 <= k < n.len() && in_rect(#[trigger] n[k], u, v);
        if k < rs.len() {
            assert(n[k] == rs[k]);
        }
    }
}

/// Greedy meshing of one slice: merges the visible cells of `mask` into as
/// few rectangles of one block type as the row-major greedy scan finds.
pub fn greedy_slice(mask: &Vec<Option<BlockType>>) -> (r: Vec<Rect>)
    requires
        mask.len() == SLICE_CELLS,
    ensures
        greedy_result(mask@, r@),
{
    let mut visited: Vec<bool> = Vec::with_capacity(SLICE_CELLS);
    let mut i: usize = 0;
    while i < SLICE_CELLS
        invariant
            0 <= i <= SLICE_CELLS,
            visited.len() == i,
            forall|j: int| 0 <= j < i ==> !(#[trigger] visited[j]),
        decreases SLICE_CELLS - i,
    {
        visited.push(false);
        i += 1;
    }
    let mut rects: Vec<Rect> = Vec::new();
    let ghost m = mask@;
    let mut u: usize = 0;
    while u < CHUNK_SIZE
        invariant
            mask@ == m,
            m.len() == SLICE_CELLS,
            visited.len() == SLICE_CELLS,
            0 <= u <= CHUNK_SIZE,
            forall|k: int| 0 <= k < rects.len() ==> greedy_step(m, rects@.take(k), #[trigger] rects@[k]),
            forall|uu: int, vv: int|
                in_slice(uu, vv) ==> (#[trigger] visited@[slice_index(uu, vv)]) == covered(rects@, uu, vv),
            forall|uu: int, vv: int|
                in_slice(uu, vv) && slice_index(uu, vv) < slice_index(u as int, 0)
                    && (#[trigger] m[slice_index(uu, vv)]) is Some ==> covered(rects@, uu, vv),
        decreases CHUNK_SIZE - u,
    {
        let mut v: usize = 0;
        while v < CHUNK_SIZE
            invariant
                mask@ == m,
                m.len() == SLICE_CELLS,
                visited.len() == SLICE_CELLS,
                0 <= u < CHUNK_SIZE,
                0 <= v <= CHUNK_SIZE,
                forall|k: int| 0 <= k < rects.len() ==> greedy_step(m, rects@.take(k), #[trigger] rects@[k]),
                forall|uu: int, vv: int|
                    in_slice(uu, vv) ==> (#[trigger] visited@[slice_index(uu, vv)]) == covered(rects@, uu, vv),
                forall|uu: int, vv: int|
                    in_slice(uu, vv) && slice_index(uu, vv) < slice_index(u as int, v as int)
                        && (#[trigger] m[slice_index(uu, vv)]) is Some ==> covered(rects@, uu, vv),
            decreases CHUNK_SIZE - v,
        {
            let k = u * CHUNK_SIZE + v;
            assert(k == slice_index(u as int, v as int));
            if !visited[k] {
                if let Some(bt) = mask[k] {
                    let ghost prior = rects@;
                    assert(open_cell(m, prior, u as int, v as int, bt));
                    // Expand width along u
                    let mut w: usize = 1;
                    while u + w < CHUNK_SIZE && !visited[(u + w) * CHUNK_SIZE + v] && shows_kind(
                        mask[(u + w) * CHUNK_SIZE + v],
                        bt,
                    )
                        invariant
                            mask@ == m,
                            m.len() == SLICE_CELLS,
                            visited.len() == SLICE_CELLS,
                            rects@ == prior,
                            0 <= u < CHUNK_SIZE,
                            0 <= v < CHUNK_SIZE,
                            1 <= w,
                            u + w <= CHUNK_SIZE,
                            forall|uu: int, vv: int|
                                in_slice(uu, vv) ==> (#[trigger] visited@[slice_index(uu, vv)])
                                    == covered(prior, uu, vv),
                            forall|du: int| 0 <= du < w ==> #[trigger] open_cell(m, prior, u + du, v as int, bt),
                        decreases CHUNK_SIZE - u - w,
                    {
                        assert(slice_index((u + w) as int, v as int) == (u + w) * 32 + v);
                        assert(open_cell(m, prior, (u + w) as int, v as int, bt));
                        w += 1;
                    }
                    assert(!open_cell(m, prior, (u + w) as int, v as int, bt)) by {
                        if u + w < 32 {
                            assert(slice_index((u + w) as int, v as int) == (u + w) * 32 + v);
                        }
                    }
                    // Expand height along v
                    let mut h: usize = 1;
                    let mut done = false;
                    while v + h < CHUNK_SIZE && !done
                        invariant
                            mask@ == m,
                            m.len() == SLICE_CELLS,
                            visited.len() == SLICE_CELLS,
                            rects@ == prior,
                            0 <= u < CHUNK_SIZE,
                            0 <= v < CHUNK_SIZE,
                            1 <= w,
                            u + w <= CHUNK_SIZE,
                            1 <= h,
                            v + h <= CHUNK_SIZE,
                            forall|uu: int, vv: int|
                                in_slice(uu, vv) ==> (#[trigger] visited@[slice_index(uu, vv)])
                                    == covered(prior, uu, vv),
                            forall|du: int, dv: int|
                                0 <= du < w && 0 <= dv < h ==> #[trigger] open_cell(
                                    m,
                                    prior,
                                    u + du,
                                    v + dv,
                                    bt,
                                ),
                            done ==> v + h < CHUNK_SIZE && exists|du: int|
                                0 <= du < w && !(#[trigger] open_cell(m, prior, u + du, (v + h) as int, bt)),
                        decreases CHUNK_SIZE - v - h, if done { 0int } else { 1int },
                    {
                        let mut du: usize = 0;
                        let mut row_ok = true;
                        while du < w && row_ok
                            invariant
                                mask@ == m,
                                m.len() == SLICE_CELLS,
                                visited.len() == SLICE_CELLS,
                                rects@ == prior,
                                0 <= u < CHUNK_SIZE,
                                0 <= v < CHUNK_SIZE,
                                u + w <= CHUNK_SIZE,
                                v + h < CHUNK_SIZE,
                                0 <= du <= w,
                                forall|uu: int, vv: int|
                                    in_slice(uu, vv) ==> (#[trigger] visited@[slice_index(uu, vv)])
                                        == covered(prior, uu, vv),
                                forall|d: int| 0 <= d < du ==> #[trigger] open_cell(m, prior, u + d, (v + h) as int, bt),
                                !row_ok ==> du < w && !open_cell(m, prior, u + du, (v + h) as int, bt),
                            decreases w - du, if row_ok { 1int } else { 0int },
                        {
                            let idx = (u + du) * CHUNK_SIZE + v + h;
                            assert(idx == slice_index((u + du) as int, (v + h) as int));
                            if visited[idx] || !shows_kind(mask[idx], bt) {
                                row_ok = false;
                            } else {
                                du += 1;
                            }
                        }
                        if row_ok {
                            assert forall|d0: int, dv: int|
                                0 <= d0 < w && 0 <= dv < h + 1 implies #[trigger] open_cell(
                                    m,
                                    prior,
                                    u + d0,
                                    v + dv,
                                    bt,
                                ) by {
                                if dv == h {
                                    assert(open_cell(m, prior, u + d0, (v + h) as int, bt));
                                }
                            }
                            h += 1;
                        } else {
                            done = true;
                        }
                    }
                    let ghost r = Rect { u, v, w, h, kind: bt };
                    assert(greedy_step(m, prior, r)) by {
                        assert(r.w >= 1 && r.h >= 1);
                        assert(r.u + r.w <= 32 && r.v + r.h <= 32);
                        assert forall|du: int, dv: int|
                            0 <= du < r.w && 0 <= dv < r.h implies #[trigger] open_cell(
                                m,
                                prior,
                                r.u + du,
                                r.v + dv,
                                r.kind,
                            ) by {}
                        assert forall|uu: int, vv: int|
                            in_slice(uu, vv) && slice_index(uu, vv) < slice_index(r.u as int, r.v as int)
                                && (#[trigger] m[slice_index(uu, vv)]) is Some implies covered(prior, uu, vv) by {}
                        assert(!open_cell(m, prior, r.u + r.w, r.v as int, r.kind));
                        assert(r.v + r.h < 32 ==> exists|du: int|
                            0 <= du < r.w && !(#[trigger] open_cell(m, prior, r.u + du, r.v + r.h, r.kind)));
                    }
                    // Mark rectangle visited
                    let mut du: usize = 0;
                    while du < w
                        invariant
                            visited.len() == SLICE_CELLS,
                            0 <= u < CHUNK_SIZE,
                            0 <= v < CHUNK_SIZE,
                            u + w <= CHUNK_SIZE,
                            v + h <= CHUNK_SIZE,
                            0 <= du <= w,
                            forall|uu: int, vv: int|
                                in_slice(uu, vv) ==> (#[trigger] visited@[slice_index(uu, vv)]) == (covered(
                                    prior,
                                    uu,
                                    vv,
                                ) || (u <= uu < u + du && v <= vv < v + h)),
                        decreases w - du,
                    {
                        let mut dv: usize = 0;
                        while dv < h
                            invariant
                                visited.len() == SLICE_CELLS,
                                0 <= u < CHUNK_SIZE,
                                0 <= v < CHUNK_SIZE,
                                u + w <= CHUNK_SIZE,
                                v + h <= CHUNK_SIZE,
                                0 <= du < w,
                                0 <= dv <= h,
                                forall|uu: int, vv: int|
                                    in_slice(uu, vv) ==> (#[trigger] visited@[slice_index(uu, vv)]) == (covered(
                                        prior,
                                        uu,
                                        vv,
                                    ) || (u <= uu < u + du && v <= vv < v + h) || (uu == u + du && v <= vv
                                        < v + dv)),
                            decreases h - dv,
                        {
                            let idx = (u + du) * CHUNK_SIZE + v + dv;
                            assert(idx == slice_index((u + du) as int, (v + dv) as int));
                            visited.set(idx, true);
                            dv += 1;
                        }
                        du += 1;
                    }
                    rects.push(Rect { u, v, w, h, kind: bt });
                    proof {
                        assert forall|uu: int, vv: int| in_slice(uu, vv) implies (#[trigger] visited@[slice_index(
                            uu,
                            vv,
                        )]) == covered(rects@, uu, vv) by {
                            lemma_covered_push(prior, r, uu, vv);
                        }
                        assert forall|k: int| 0 <= k < rects.len() implies greedy_step(
                            m,
                            rects@.take(k),
                            #[trigger] rects@[k],
                        ) by {
                            if k < prior.len() {
                                assert(rects@.take(k) == prior.take(k));
                            } else {
                                assert(rects@.take(k) == prior);
                            }
                        }
                        assert forall|uu: int, vv: int|
                            in_slice(uu, vv) && slice_index(uu, vv) < slice_index(u as int, v as int) + 1
                                && (#[trigger] m[slice_index(uu, vv)]) is Some implies covered(
                            rects@,
                            uu,
                            vv,
                        ) by {
                            lemma_covered_push(prior, r, uu, vv);
                            if slice_index(uu, vv) == slice_index(u as int, v as int) {
                                assert(uu == u && vv == v);
                                assert(in_rect(r, uu, vv));
                            }
                        }
                    }
                } else {
                    assert forall|uu: int, vv: int|
                        in_slice(uu, vv) && slice_index(uu, vv) < slice_index(u as int, v as int) + 1
                            && (#[trigger] m[slice_index(uu, vv)]) is Some implies covered(rects@, uu, vv) by {
                        if slice_index(uu, vv) == slice_index(u as int, v as int) {
                            assert(uu == u && vv == v);
                        }
                    }
                }
            } else {
                assert forall|uu: int, vv: int|
                    in_slice(uu, vv) && slice_index(uu, vv) < slice_index(u as int, v as int) + 1
                        && (#[trigger] m[slice_index(uu, vv)]) is Some implies covered(rects@, uu, vv) by {
                    if slice_index(uu, vv) == slice_index(u as int, v as int) {
                        assert(uu == u && vv == v);
                    }
                }
            }
            v += 1;
        }
        u += 1;
    }
    rects
}


/// Blocks in a chunk (`CHUNK_SIZE` cubed).
pub const CHUNK_VOLUME: usize = 32768;

/// Index of block `(x, y, z)` in a chunk's block list.
pub open spec fn block_index(x: int, y: int, z: int) -> int {
    x * 1024 + y * 32 + z
}

/// Axis along the normal of face `f` (faces come in +/- pairs per axis).
pub open spec fn normal_axis(f: int) -> int {
    if f < 2 {
        0
    } else if f < 4 {
        1
    } else {
        2
    }
}

/// Face `f` points toward the positive end of its axis.
pub open spec fn positive(f: int) -> bool {
    f == 0 || f == 2 || f == 4
}

/// Axis along which a slice of face `f` is indexed by `u`.
pub open spec fn u_axis(f: int) -> int {
    if f < 2 {
        1
    } else {
        0
    }
}

/// Axis along which a slice of face `f` is indexed by `v`.
pub open spec fn v_axis(f: int) -> int {
    if f < 4 {
        2
    } else {
        1
    }
}

/// Coordinate on `axis` of cell `(u, v)` of slice `d` of face `f`.
pub open spec fn coord(f: int, d: int, u: int, v: int, axis: int) -> int {
    if axis == normal_axis(f) {
        d
    } else if axis == u_axis(f) {
        u
    } else {
        v
    }
}

/// Index in a chunk's block list of cell `(u, v)` of slice `d` of face `f`.
pub open spec fn face_block_index(f: int, d: int, u: int, v: int) -> int {
    block_index(coord(f, d, u, v, 0), coord(f, d, u, v, 1), coord(f, d, u, v, 2))
}

/// The face `f` of the block at cell `(u, v)` of slice `d` is visible: the
/// block is solid and its neighbour across that face is air, where a missing
/// neighbouring chunk counts as air.
pub open spec fn visible(
    blocks: Seq<BlockType>,
    neighbors: Seq<Option<Vec<BlockType>>>,
    f: int,
    d: int,
    u: int,
    v: int,
) -> bool {
    &&& blocks[face_block_index(f, d, u, v)] != BlockType::Air
    &&& if positive(f) {
        if d + 1 < 32 {
            blocks[face_block_index(f, d + 1, u, v)] == BlockType::Air
        } else {
            match neighbors[f] {
                None => true,
                Some(nb) => nb@[face_block_index(f, 0, u, v)] == BlockType::Air,
            }
        }
    } else {
        if d > 0 {
            blocks[face_block_index(f, d - 1, u, v)] == BlockType::Air
        } else {
            match neighbors[f] {
                None => true,
                Some(nb) => nb@[face_block_index(f, 31, u, v)] == BlockType::Air,
            }
        }
    }
}

/// The block type a visible face shows at cell `(u, v)`, none when hidden.
pub open spec fn mask_cell(
    blocks: Seq<BlockType>,
    neighbors: Seq<Option<Vec<BlockType>>>,
    f: int,
    d: int,
    u: int,
    v: int,
) -> Option<BlockType> {
    if visible(blocks, neighbors, f, d, u, v) {
        Some(blocks[face_block_index(f, d, u, v)])
    } else {
        None
    }
}

/// Which faces a chunk shows, inside the chunk: slice `d` of faces 0 and 1
/// (+X, -X) holds the blocks `(d, u, v)`, of faces 2 and 3 (+Y, -Y) the
/// blocks `(u, d, v)`, of faces 4 and 5 (+Z, -Z) the blocks `(u, v, d)`. A
/// face shows the block's type exactly when the block is solid and the block
/// next to it across the face, one step along the face's direction, is air;
/// against a solid neighbour it is culled.
pub proof fn lemma_faces_against_solid_are_culled(
    blocks: Seq<BlockType>,
    neighbors: Seq<Option<Vec<BlockType>>>,
    d: int,
    u: int,
    v: int,
)
    requires
        0 <= d < 32,
        in_slice(u, v),
    ensures
        d + 1 < 32 ==> mask_cell(blocks, neighbors, 0, d, u, v) == (if blocks[block_index(d, u, v)] != BlockType::Air
            && blocks[block_index(d + 1, u, v)] == BlockType::Air {
            Some(blocks[block_index(d, u, v)])
        } else {
            None::<BlockType>
        }),
        d > 0 ==> mask_cell(blocks, neighbors, 1, d, u, v) == (if blocks[block_index(d, u, v)] != BlockType::Air
            && blocks[block_index(d - 1, u, v)] == BlockType::Air {
            Some(blocks[block_index(d, u, v)])
        } else {
            None::<BlockType>
        }),
        d + 1 < 32 ==> mask_cell(blocks, neighbors, 2, d, u, v) == (if blocks[block_index(u, d, v)] != BlockType::Air
            && blocks[block_index(u, d + 1, v)] == BlockType::Air {
            Some(blocks[block_index(u, d, v)])
        } else {
            None::<BlockType>
        }),
        d > 0 ==> mask_cell(blocks, neighbors, 3, d, u, v) == (if blocks[block_index(u, d, v)] != BlockType::Air
            && blocks[block_index(u, d - 1, v)] == BlockType::Air {
            Some(blocks[block_index(u, d, v)])
        } else {
            None::<BlockType>
        }),
        d + 1 < 32 ==> mask_cell(blocks, neighbors, 4, d, u, v) == (if blocks[block_index(u, v, d)] != BlockType::Air
            && blocks[block_index(u, v, d + 1)] == BlockType::Air {
            Some(blocks[block_index(u, v, d)])
        } else {
            None::<BlockType>
        }),
        d > 0 ==> mask_cell(blocks, neighbors, 5, d, u, v) == (if blocks[block_index(u, v, d)] != BlockType::Air
            && blocks[block_index(u, v, d - 1)] == BlockType::Air {
            Some(blocks[block_index(u, v, d)])
        } else {
            None::<BlockType>
        }),
{
}

/// At the chunk's edge with no chunk beyond, a face shows exactly when its
/// block is solid: faces 0, 2 and 4 at slice 31, faces 1, 3 and 5 at slice 0.
pub proof fn lemma_open_edge_faces(
    blocks: Seq<BlockType>,
    neighbors: Seq<Option<Vec<BlockType>>>,
    u: int,
    v: int,
)
    requires
        in_slice(u, v),
        neighbors.len() == 6,
    ensures
        neighbors[0] is None ==> mask_cell(blocks, neighbors, 0, 31, u, v) == (if blocks[block_index(31, u, v)]
            != BlockType::Air {
            Some(blocks[block_index(31, u, v)])
        } else {
            None::<BlockType>
        }),
        neighbors[1] is None ==> mask_cell(blocks, neighbors, 1, 0, u, v) == (if blocks[block_index(0, u, v)]
            != BlockType::Air {
            Some(blocks[block_index(0, u, v)])
        } else {
            None::<BlockType>
        }),
        neighbors[2] is None ==> mask_cell(blocks, neighbors, 2, 31, u, v) == (if blocks[block_index(u, 31, v)]
            != BlockType::Air {
            Some(blocks[block_index(u, 31, v)])
        } else {
            None::<BlockType>
        }),
        neighbors[3] is None ==> mask_cell(blocks, neighbors, 3, 0, u, v) == (if blocks[block_index(u, 0, v)]
            != BlockType::Air {
            Some(blocks[block_index(u, 0, v)])
        } else {
            None::<BlockType>
        }),
        neighbors[4] is None ==> mask_cell(blocks, neighbors, 4, 31, u, v) == (if blocks[block_index(u, v, 31)]
            != BlockType::Air {
            Some(blocks[block_index(u, v, 31)])
        } else {
            None::<BlockType>
        }),
        neighbors[5] is None ==> mask_cell(blocks, neighbors, 5, 0, u, v) == (if blocks[block_index(u, v, 0)]
            != BlockType::Air {
            Some(blocks[block_index(u, v, 0)])
        } else {
            None::<BlockType>
        }),
{
}

/// The block list and neighbour lists have a chunk's size.
pub open spec fn chunk_inputs_ok(blocks: Seq<BlockType>, neighbors: Seq<Option<Vec<BlockType>>>) -> bool {
    &&& blocks.len() == 32768
    &&& neighbors.len() == 6
    &&& forall|f: int| 0 <= f < 6 ==> ((#[trigger] neighbors[f]) matches Some(nb) ==> nb@.len() == 32768)
}

/// `mask` shows, for every cell of slice `d` of face `f`, what the chunk exposes there.
pub open spec fn is_face_mask(
    blocks: Seq<BlockType>,
    neighbors: Seq<Option<Vec<BlockType>>>,
    f: int,
    d: int,
    mask: Seq<Option<BlockType>>,
) -> bool {
    &&& mask.len() == 1024
    &&& forall|u: int, v: int|
        in_slice(u, v) ==> #[trigger] mask[slice_index(u, v)] == mask_cell(blocks, neighbors, f, d, u, v)
}

/// Index of the block at coordinates given per axis.
fn index_of(pos: [usize; 3]) -> (r: usize)
    requires
        pos[0] < 32 && pos[1] < 32 && pos[2] < 32,
    ensures
        r == block_index(pos[0] as int, pos[1] as int, pos[2] as int),
        r < 32768,
{
    pos[0] * 1024 + pos[1] * CHUNK_SIZE + pos[2]
}

/// Coordinates per axis of cell `(u, v)` of slice `d` of face `f`.
fn face_pos(f: usize, d: usize, u: usize, v: usize) -> (r: [usize; 3])
    requires
        f < 6,
    ensures
        r[0] == coord(f as int, d as int, u as int, v as int, 0),
        r[1] == coord(f as int, d as int, u as int, v as int, 1),
        r[2] == coord(f as int, d as int, u as int, v as int, 2),
{
    if f < 2 {
        [d, u, v]
    } else if f < 4 {
        [u, d, v]
    } else {
        [u, v, d]
    }
}

fn is_air_at(blocks: &Vec<BlockType>, idx: usize) -> (r: bool)
    requires
        idx < blocks.len(),
    ensures
        r == (blocks@[idx as int] == BlockType::Air),
{
    blocks[idx] == BlockType::Air
}

/// Which cells of slice `d` of face `f` expose a face, and of which block type.
pub fn face_mask(blocks: &Vec<BlockType>, neighbors: &Vec<Option<Vec<BlockType>>>, f: usize, d: usize) -> (r: Vec<
    Option<BlockType>,
>)
    requires
        chunk_inputs_ok(blocks@, neighbors@),
        f < 6,
        d < CHUNK_SIZE,
    ensures
        is_face_mask(blocks@, neighbors@, f as int, d as int, r@),
{
    let mut mask: Vec<Option<BlockType>> = Vec::with_capacity(SLICE_CELLS);
    let mut u: usize = 0;
    while u < CHUNK_SIZE
        invariant
            chunk_inputs_ok(blocks@, neighbors@),
            f < 6,
            d < CHUNK_SIZE,
            0 <= u <= CHUNK_SIZE,
            mask.len() == u * 32,
            forall|uu: int, vv: int|
                in_slice(uu, vv) && uu < u ==> #[trigger] mask@[slice_index(uu, vv)] == mask_cell(
                    blocks@,
                    neighbors@,
                    f as int,
                    d as int,
                    uu,
                    vv,
                ),
        decreases CHUNK_SIZE - u,
    {
        let mut v: usize = 0;
        while v < CHUNK_SIZE
            invariant
                chunk_inputs_ok(blocks@, neighbors@),
                f < 6,
                d < CHUNK_SIZE,
                0 <= u < CHUNK_SIZE,
                0 <= v <= CHUNK_SIZE,
                mask.len() == u * 32 + v,
                forall|uu: int, vv: int|
                    in_slice(uu, vv) && slice_index(uu, vv) < u * 32 + v ==> #[trigger] mask@[slice_index(
                        uu,
                        vv,
                    )] == mask_cell(blocks@, neighbors@, f as int, d as int, uu, vv),
            decreases CHUNK_SIZE - v,
        {
            let pos = face_pos(f, d, u, v);
            let here = index_of(pos);
            let block = blocks[here];
            let cell = if block == BlockType::Air {
                None
            } else {
                let neighbor_is_air = if f == 0 || f == 2 || f == 4 {
                    if d + 1 < CHUNK_SIZE {
                        is_air_at(blocks, index_of(face_pos(f, d + 1, u, v)))
                    } else {
                        match &neighbors[f] {
                            None => true,
                            Some(nb) => {
                                proof {
                                    assert(neighbors@[f as int] matches Some(n) && n@.len() == 32768);
                                }
                                is_air_at(nb, index_of(face_pos(f, 0, u, v)))
                            },
                        }
                    }
                } else {
                    if d > 0 {
                        is_air_at(blocks, index_of(face_pos(f, d - 1, u, v)))
                    } else {
                        match &neighbors[f] {
                            None => true,
                            Some(nb) => {
                                proof {
                                    assert(neighbors@[f as int] matches Some(n) && n@.len() == 32768);
                                }
                                is_air_at(nb, index_of(face_pos(f, CHUNK_SIZE - 1, u, v)))
                            },
                        }
                    }
                };
                if neighbor_is_air {
                    Some(block)
                } else {
                    None
                }
            };
            assert(cell == mask_cell(blocks@, neighbors@, f as int, d as int, u as int, v as int));
            mask.push(cell);
            proof {
                assert forall|uu: int, vv: int|
                    in_slice(uu, vv) && slice_index(uu, vv) < u * 32 + v + 1 implies #[trigger] mask@[slice_index(
                    uu,
                    vv,
                )] == mask_cell(blocks@, neighbors@, f as int, d as int, uu, vv) by {
                    if slice_index(uu, vv) == u * 32 + v {
                        assert(uu == u && vv == v);
                    }
                }
            }
            v += 1;
        }
        u += 1;
    }
    mask
}


/// One merged face of a chunk mesh: rectangle `(u, v, w, h)` of slice `d`
/// of face `face`, showing texture-array layer `layer` of block type `kind`.
#[derive(Debug, Clone, Copy, PartialEq, Eq, Structural)]
pub struct Quad {
    pub face: usize,
    pub d: usize,
    pub u: usize,
    pub v: usize,
    pub w: usize,
    pub h: usize,
    pub kind: BlockType,
    pub layer: u32,
}

pub open spec fn face_of(f: int) -> Face {
    if f == 0 {
        Face::EAST
    } else if f == 1 {
        Face::WEST
    } else if f == 2 {
        Face::TOP
    } else if f == 3 {
        Face::BOTTOM
    } else if f == 4 {
        Face::SOUTH
    } else {
        Face::NORTH
    }
}

pub open spec fn to_quad(f: int, d: int, r: Rect) -> Quad {
    Quad {
        face: f as usize,
        d: d as usize,
        u: r.u,
        v: r.v,
        w: r.w,
        h: r.h,
        kind: r.kind,
        layer: layer_for_face_spec(r.kind, face_of(f)),
    }
}

/// The quads of the first `n` slices, slice `s` being slice `s % 32` of face `s / 32`.
pub open spec fn mesh_quads(slices: Seq<Seq<Rect>>, n: nat) -> Seq<Quad>
    decreases n,
{
    if n == 0 {
        Seq::empty()
    } else {
        mesh_quads(slices, (n - 1) as nat) + slices[n - 1].map_values(
            |r: Rect| to_quad((n - 1) / 32, (n - 1) % 32, r),
        )
    }
}

/// `rects` is the greedy meshing of slice `s % 32` of face `s / 32`.
pub open spec fn slice_meshed(
    blocks: Seq<BlockType>,
    neighbors: Seq<Option<Vec<BlockType>>>,
    s: int,
    rects: Seq<Rect>,
) -> bool {
    exists|mask: Seq<Option<BlockType>>|
        is_face_mask(blocks, neighbors, s / 32, s % 32, mask) && greedy_result(mask, rects)
}

/// `quads` is the greedy mesh of a chunk: face by face, slice by slice, the
/// greedy rectangles of each slice's face mask.
pub open spec fn is_chunk_mesh(
    blocks: Seq<BlockType>,
    neighbors: Seq<Option<Vec<BlockType>>>,
    quads: Seq<Quad>,
) -> bool {
    exists|slices: Seq<Seq<Rect>>|
        {
            &&& slices.len() == 192
            &&& forall|s: int| 0 <= s < 192 ==> slice_meshed(blocks, neighbors, s, #[trigger] slices[s])
            &&& quads == mesh_quads(slices, 192)
        }
}

/// Greedy-meshes every face slice of a chunk into quads, face by face in the
/// order east, west, top, bottom, south, north, and slice by slice.
pub fn chunk_quads(blocks: &Vec<BlockType>, neighbors: &Vec<Option<Vec<BlockType>>>) -> (r: Vec<Quad>)
    requires
        chunk_inputs_ok(blocks@, neighbors@),
    ensures
        is_chunk_mesh(blocks@, neighbors@, r@),
{
    let mut quads: Vec<Quad> = Vec::new();
    let ghost mut slices: Seq<Seq<Rect>> = Seq::empty();
    let mut f: usize = 0;
    while f < 6
        invariant
            chunk_inputs_ok(blocks@, neighbors@),
            0 <= f <= 6,
            slices.len() == f * 32,
            forall|s: int| 0 <= s < slices.len() ==> slice_meshed(blocks@, neighbors@, s, #[trigger] slices[s]),
            quads@ == mesh_quads(slices, slices.len()),
        decreases 6 - f,
    {
        let mut d: usize = 0;
        while d < CHUNK_SIZE
            invariant
                chunk_inputs_ok(blocks@, neighbors@),
                0 <= f < 6,
                0 <= d <= CHUNK_SIZE,
                slices.len() == f * 32 + d,
                forall|s: int| 0 <= s < slices.len() ==> slice_meshed(blocks@, neighbors@, s, #[trigger] slices[s]),
                quads@ == mesh_quads(slices, slices.len()),
            decreases CHUNK_SIZE - d,
        {
            let mask = face_mask(blocks, neighbors, f, d);
            let rects = greedy_slice(&mask);
            let ghost old_quads = quads@;
            let ghost n = slices.len();
            let ghost tagged = rects@.map_values(|r: Rect| to_quad(f as int, d as int, r));
            let face = crate::block::Face::from_index(f);
            let mut k: usize = 0;
            while k < rects.len()
                invariant
                    0 <= f < 6,
                    0 <= d < CHUNK_SIZE,
                    0 <= k <= rects.len(),
                    tagged == rects@.map_values(|r: Rect| to_quad(f as int, d as int, r)),
                    face == face_of(f as int),
                    quads@ == old_quads + tagged.take(k as int),
                decreases rects.len() - k,
            {
                let r = rects[k];
                let layer = crate::block::Block { kind: r.kind }.layer_for_face(face);
                quads.push(Quad { face: f, d, u: r.u, v: r.v, w: r.w, h: r.h, kind: r.kind, layer });
                assert(tagged.take(k + 1) =~= tagged.take(k as int).push(tagged[k as int]));
                k += 1;
            }
            proof {
                assert(tagged.take(rects.len() as int) =~= tagged);
                let new_slices = slices.push(rects@);
                assert((n as int) / 32 == f && (n as int) % 32 == d);
                assert(mesh_quads(new_slices, n) == mesh_quads(slices, n)) by {
                    lemma_mesh_quads_prefix(slices, new_slices, n);
                }
                assert(new_slices[n as int] == rects@);
                assert(mesh_quads(new_slices, (n + 1) as nat) =~= mesh_quads(slices, n) + tagged);
                assert(slice_meshed(blocks@, neighbors@, n as int, rects@)) by {
                    assert(is_face_mask(blocks@, neighbors@, (n as int) / 32, (n as int) % 32, mask@));
                }
                assert forall|s: int| 0 <= s < new_slices.len() implies slice_meshed(
                    blocks@,
                    neighbors@,
                    s,
                    #[trigger] new_slices[s],
                ) by {
                    if s < n {
                        assert(new_slices[s] == slices[s]);
                    }
                }
                slices = new_slices;
            }
            d += 1;
        }
        f += 1;
    }
    quads
}

proof fn lemma_mesh_quads_prefix(a: Seq<Seq<Rect>>, b: Seq<Seq<Rect>>, n: nat)
    requires
        n <= a.len(),
        n <= b.len(),
        forall|k: int| 0 <= k < n ==> a[k] == b[k],
    ensures
        mesh_quads(a, n) == mesh_quads(b, n),
    decreases n,
{
    if n > 0 {
        lemma_mesh_quads_prefix(a, b, (n - 1) as nat);
        assert(a[n - 1] == b[n - 1]);
    }
}

/// Triangle indices for `quad_count` quads of four vertices each: two
/// triangles `(0, 1, 2)` and `(2, 3, 0)` per quad.
pub fn quad_indices(quad_count: usize) -> (r: Vec<u16>)
    requires
        quad_count * 4 <= 65535,
    ensures
        r.len() == quad_count * 6,
        forall|q: int, j: int|
            0 <= q < quad_count && 0 <= j < 6 ==> #[trigger] r@[q * 6 + j] == 4 * q + (if j == 0
                || j == 5 {
                0int
            } else if j == 1 {
                1int
            } else if j == 2 || j == 3 {
                2int
            } else {
                3int
            }),
{
    let mut out: Vec<u16> = Vec::with_capacity(quad_count * 6);
    let mut q: usize = 0;
    while q < quad_count
        invariant
            0 <= q <= quad_count,
            quad_count * 4 <= 65535,
            out.len() == q * 6,
            forall|qq: int, j: int|
                0 <= qq < q && 0 <= j < 6 ==> #[trigger] out@[qq * 6 + j] == 4 * qq + (if j == 0
                    || j == 5 {
                    0int
                } else if j == 1 {
                    1int
                } else if j == 2 || j == 3 {
                    2int
                } else {
                    3int
                }),
        decreases quad_count - q,
    {
        let b = (q * 4) as u16;
        out.push(b);
        out.push(b + 1);
        out.push(b + 2);
        out.push(b + 2);
        out.push(b + 3);
        out.push(b);
        proof {
            assert forall|qq: int, j: int|
                0 <= qq < q + 1 && 0 <= j < 6 implies #[trigger] out@[qq * 6 + j] == 4 * qq + (if j == 0
                || j == 5 {
                0int
            } else if j == 1 {
                1int
            } else if j == 2 || j == 3 {
                2int
            } else {
                3int
            }) by {
                if qq < q {
                    assert(out@[qq * 6 + j] == out@[qq * 6 + j]);
                } else {
                    assert(qq * 6 + j == q * 6 + j);
                }
            }
        }
        q += 1;
    }
    out
}

} // verus!
