use vstd::prelude::*;

verus! {

/// A rasterised glyph: `width` by `height` coverage values, row by row.
#[derive(Debug)]
pub struct GlyphBitmap {
    pub width: usize,
    pub height: usize,
    pub bitmap: Vec<u8>,
}

/// A glyph as plain values: width, height, coverage row by row.
pub open spec fn glyph_view(g: GlyphBitmap) -> (int, int, Seq<u8>) {
    (g.width as int, g.height as int, g.bitmap@)
}

/// Columns the first `n` glyphs take in the atlas, each followed by one
/// column of padding.
pub open spec fn atlas_prefix(gs: Seq<(int, int, Seq<u8>)>, n: nat) -> int
    decreases n,
{
    if n == 0 {
        0
    } else {
        atlas_prefix(gs, (n - 1) as nat) + gs[n - 1].0 + 1
    }
}

/// The tallest of the first `n` glyphs, 0 for none.
pub open spec fn atlas_height(gs: Seq<(int, int, Seq<u8>)>, n: nat) -> int
    decreases n,
{
    if n == 0 {
        0
    } else if gs[n - 1].1 > atlas_height(gs, (n - 1) as nat) {
        gs[n - 1].1
    } else {
        atlas_height(gs, (n - 1) as nat)
    }
}

/// The atlas value at row `r`, column `c`, looking from glyph `k` on, whose
/// first column is `start`: the glyph's coverage where it covers the cell,
/// 0 in padding and below shorter glyphs.
pub open spec fn atlas_pixel_from(gs: Seq<(int, int, Seq<u8>)>, k: int, start: int, r: int, c: int) -> u8
    decreases gs.len() - k,
{
    if k < 0 || k >= gs.len() {
        0
    } else if c < start + gs[k].0 {
        if c >= start && r < gs[k].1 {
            gs[k].2[r * gs[k].0 + (c - start)]
        } else {
            0
        }
    } else {
        atlas_pixel_from(gs, k + 1, start + gs[k].0 + 1, r, c)
    }
}

/// Glyphs laid side by side in one row, left to right.
#[derive(Debug)]
pub struct AtlasLayout {
    /// Coverage values, row by row, `width` per row.
    pub data: Vec<u8>,
    pub width: u32,
    pub height: u32,
    /// The first column of each glyph.
    pub offsets: Vec<u32>,
}

/// The glyphs fit the atlas arithmetic: each bitmap holds its glyph, and
/// the atlas's width and size fit 32 bits.
pub open spec fn glyphs_fit(gs: Seq<(int, int, Seq<u8>)>) -> bool {
    &&& forall|k: int| 0 <= k < gs.len() ==> (#[trigger] gs[k]).2.len() >= gs[k].0 * gs[k].1 && gs[k].0 >= 0 && gs[k].1 >= 0
    &&& atlas_prefix(gs, gs.len()) * atlas_height(gs, gs.len()) <= u32::MAX
    &&& atlas_prefix(gs, gs.len()) <= u32::MAX
    &&& atlas_height(gs, gs.len()) <= u32::MAX
}

proof fn lemma_prefix_monotone(gs: Seq<(int, int, Seq<u8>)>, a: nat, b: nat)
    requires
        a <= b <= gs.len(),
        forall|k: int| 0 <= k < gs.len() ==> (#[trigger] gs[k]).0 >= 0,
    ensures
        atlas_prefix(gs, a) <= atlas_prefix(gs, b),
        a < b ==> atlas_prefix(gs, a) + gs[a as int].0 + 1 <= atlas_prefix(gs, b),
    decreases b - a,
{
    if a < b {
        lemma_prefix_monotone(gs, a, (b - 1) as nat);
        assert(gs[b - 1].0 >= 0);
    }
}

proof fn lemma_height_bounds(gs: Seq<(int, int, Seq<u8>)>, k: int, n: nat)
    requires
        0 <= k < n <= gs.len(),
        forall|j: int| 0 <= j < gs.len() ==> (#[trigger] gs[j]).1 >= 0,
    ensures
        gs[k].1 <= atlas_height(gs, n),
        atlas_height(gs, n) >= 0,
    decreases n,
{
    if k < n - 1 {
        lemma_height_bounds(gs, k, (n - 1) as nat);
    }
    lemma_height_nonneg(gs, (n - 1) as nat);
}

proof fn lemma_height_nonneg(gs: Seq<(int, int, Seq<u8>)>, n: nat)
    requires
        n <= gs.len(),
        forall|j: int| 0 <= j < gs.len() ==> (#[trigger] gs[j]).1 >= 0,
    ensures
        atlas_height(gs, n) >= 0,
    decreases n,
{
    if n > 0 {
        lemma_height_nonneg(gs, (n - 1) as nat);
    }
}

/// Looking from glyph `k` gives the same value as from the first glyph,
/// for columns from glyph `k`'s first column on.
proof fn lemma_pixel_from_skip(gs: Seq<(int, int, Seq<u8>)>, k: nat, r: int, c: int)
    requires
        k <= gs.len(),
        c >= atlas_prefix(gs, k),
        forall|j: int| 0 <= j < gs.len() ==> (#[trigger] gs[j]).0 >= 0,
    ensures
        atlas_pixel_from(gs, 0, 0, r, c) == atlas_pixel_from(gs, k as int, atlas_prefix(gs, k), r, c),
    decreases k,
{
    if k > 0 {
        let k1 = (k - 1) as nat;
        lemma_prefix_monotone(gs, k1, k);
        lemma_pixel_from_skip(gs, k1, r, c);
    }
}

proof fn lemma_row_major(r1: int, c1: int, r2: int, c2: int, w: int)
    requires
        0 <= c1 < w,
        0 <= c2 < w,
        0 <= r1,
        0 <= r2,
        r1 * w + c1 == r2 * w + c2,
    ensures
        r1 == r2 && c1 == c2,
{
    if r1 < r2 {
        assert(r1 * w + w <= r2 * w) by (nonlinear_arith)
            requires
                r1 < r2,
                w > 0,
        ;
    } else if r2 < r1 {
        assert(r2 * w + w <= r1 * w) by (nonlinear_arith)
            requires
                r2 < r1,
                w > 0,
        ;
    }
}

/// The atlas so far: cells of the columns before `cursor`, and of the
/// first `row` rows of the glyph at `cursor` up to column `col` of row
/// `row`, hold their atlas value; the rest hold 0.
spec fn atlas_partial(
    gs: Seq<(int, int, Seq<u8>)>,
    data: Seq<u8>,
    width: int,
    height: int,
    cursor: int,
    gw: int,
    row: int,
    col: int,
) -> bool {
    forall|r: int, c: int|
        0 <= r < height && 0 <= c < width ==> #[trigger] data[r * width + c] == if c < cursor || (c < cursor + gw && (
        r < row || (r == row && c < cursor + col))) {
            atlas_pixel_from(gs, 0, 0, r, c)
        } else {
            0
        }
}

/// `r` is the atlas of glyphs `gs`: as wide as the glyphs and their padding
/// columns, as tall as the tallest glyph, each glyph starting at its offset,
/// and every cell holding the glyph pixel it covers, else 0.
pub open spec fn packed(gs: Seq<(int, int, Seq<u8>)>, r: AtlasLayout) -> bool {
    &&& r.width == atlas_prefix(gs, gs.len())
    &&& r.height == atlas_height(gs, gs.len())
    &&& r.data.len() == r.width * r.height
    &&& r.offsets.len() == gs.len()
    &&& forall|k: int| 0 <= k < gs.len() ==> #[trigger] r.offsets@[k] == atlas_prefix(gs, k as nat)
    &&& forall|row: int, col: int|
        0 <= row < r.height && 0 <= col < r.width ==> #[trigger] r.data@[row * r.width + col]
            == atlas_pixel_from(gs, 0, 0, row, col)
}

/// Lays the glyphs side by side in one row, each followed by a column of
/// padding, as tall as the tallest glyph; every cell not covered by a glyph is 0.
pub fn pack_atlas(glyphs: &Vec<GlyphBitmap>) -> (r: AtlasLayout)
    requires
        glyphs_fit(glyphs@.map_values(|g: GlyphBitmap| glyph_view(g))),
    ensures
        packed(glyphs@.map_values(|g: GlyphBitmap| glyph_view(g)), r),
{
    let ghost gs = glyphs@.map_values(|g: GlyphBitmap| glyph_view(g));
    let ghost n = gs.len();
    // sizes
    let mut width: u32 = 0;
    let mut height: u32 = 0;
    let mut offsets: Vec<u32> = Vec::with_capacity(glyphs.len());
    let mut k: usize = 0;
    proof {
        lemma_prefix_monotone(gs, 0, n);
    }
    while k < glyphs.len()
        invariant
            gs == glyphs@.map_values(|g: GlyphBitmap| glyph_view(g)),
            n == gs.len(),
            glyphs_fit(gs),
            0 <= k <= n,
            width == atlas_prefix(gs, k as nat),
            height == atlas_height(gs, k as nat),
            offsets.len() == k,
            forall|j: int| 0 <= j < k ==> #[trigger] offsets@[j] == atlas_prefix(gs, j as nat),
        decreases n - k,
    {
        proof {
            assert(gs[k as int] == glyph_view(glyphs@[k as int]));
            lemma_prefix_monotone(gs, (k + 1) as nat, n);
            lemma_height_bounds(gs, k as int, n);
        }
        offsets.push(width);
        let g = &glyphs[k];
        width = width + g.width as u32 + 1;
        if g.height as u32 > height {
            height = g.height as u32;
        }
        k += 1;
    }
    proof {
        lemma_height_nonneg(gs, n);
        assert forall|j: int| 0 <= j < n implies (#[trigger] gs[j]).1 <= height by {
            lemma_height_bounds(gs, j, n);
        }
    }
    let total = (width * height) as usize;
    let mut data: Vec<u8> = Vec::with_capacity(total);
    let mut i: usize = 0;
    while i < total
        invariant
            0 <= i <= total,
            data.len() == i,
            forall|j: int| 0 <= j < i ==> #[trigger] data@[j] == 0u8,
        decreases total - i,
    {
        data.push(0);
        i += 1;
    }
    let ghost w = width as int;
    let ghost h = height as int;
    proof {
        assert(atlas_partial(gs, data@, w, h, 0, 0, 0, 0)) by {
            assert forall|r: int, c: int| 0 <= r < h && 0 <= c < w implies #[trigger] data@[r * w + c] == 0u8 by {
                assert(r * w + c < w * h) by (nonlinear_arith)
                    requires
                        0 <= r < h,
                        0 <= c < w,
                ;
            }
        }
    }
    let mut cursor: u32 = 0;
    let mut k: usize = 0;
    while k < glyphs.len()
        invariant
            gs == glyphs@.map_values(|g: GlyphBitmap| glyph_view(g)),
            n == gs.len(),
            glyphs_fit(gs),
            w == width,
            h == height,
            w == atlas_prefix(gs, n),
            forall|j: int| 0 <= j < n ==> (#[trigger] gs[j]).1 <= h,
            0 <= k <= n,
            cursor == atlas_prefix(gs, k as nat),
            data.len() == w * h,
            atlas_partial(gs, data@, w, h, cursor as int, 0, 0, 0),
        decreases n - k,
    {
        let g = &glyphs[k];
        let gw = g.width;
        let gh = g.height;
        let blen = g.bitmap.len();
        proof {
            assert(gs[k as int] == glyph_view(glyphs@[k as int]));
            lemma_prefix_monotone(gs, (k + 1) as nat, n);
            assert(gh <= h);
        }
        let mut row: usize = 0;
        while row < gh
            invariant
                gs == glyphs@.map_values(|g: GlyphBitmap| glyph_view(g)),
                glyphs_fit(gs),
                n == gs.len(),
                0 <= k < n,
                gs[k as int] == (gw as int, gh as int, g.bitmap@),
                blen == g.bitmap@.len(),
                w == width,
                h == height,
                gh <= h,
                cursor == atlas_prefix(gs, k as nat),
                cursor + gw + 1 <= w,
                0 <= row <= gh,
                data.len() == w * h,
                atlas_partial(gs, data@, w, h, cursor as int, gw as int, row as int, 0),
            decreases gh - row,
        {
            let mut col: usize = 0;
            while col < gw
                invariant
                    gs == glyphs@.map_values(|g: GlyphBitmap| glyph_view(g)),
                    glyphs_fit(gs),
                    n == gs.len(),
                    0 <= k < n,
                    gs[k as int] == (gw as int, gh as int, g.bitmap@),
                    blen == g.bitmap@.len(),
                    w == width,
                    h == height,
                    gh <= h,
                    cursor == atlas_prefix(gs, k as nat),
                    cursor + gw + 1 <= w,
                    0 <= row < gh,
                    0 <= col <= gw,
                    data.len() == w * h,
                    atlas_partial(gs, data@, w, h, cursor as int, gw as int, row as int, col as int),
                decreases gw - col,
            {
                proof {
                    assert(row * gw + col < gw * gh) by (nonlinear_arith)
                        requires
                            0 <= row < gh,
                            0 <= col < gw,
                    ;
                    assert(gs[k as int].2.len() >= gw * gh);
                    assert(row * w + cursor + col < w * h) by (nonlinear_arith)
                        requires
                            0 <= row < h,
                            cursor + col < w,
                    ;
                }
                let idx = row * (width as usize) + (cursor as usize) + col;
                let value = g.bitmap[row * gw + col];
                let ghost before = data@;
                data.set(idx, value);
                proof {
                    let c0 = cursor + col;
                    lemma_pixel_from_skip(gs, k as nat, row as int, c0 as int);
                    assert(atlas_pixel_from(gs, 0, 0, row as int, c0 as int) == value);
                    assert forall|r: int, c: int| 0 <= r < h && 0 <= c < w implies #[trigger] data@[r * w + c]
                        == if c < cursor || (c < cursor + gw && (r < row || (r == row && c < cursor + col + 1))) {
                        atlas_pixel_from(gs, 0, 0, r, c)
                    } else {
                        0
                    } by {
                        assert(r * w + c < w * h) by (nonlinear_arith)
                            requires
                                0 <= r < h,
                                0 <= c < w,
                        ;
                        if r * w + c == row * w + c0 {
                            lemma_row_major(r, c, row as int, c0 as int, w);
                        } else {
                            assert(data@[r * w + c] == before[r * w + c]);
                        }
                    }
                }
                col += 1;
            }
            proof {
                assert forall|r: int, c: int| 0 <= r < h && 0 <= c < w implies #[trigger] data@[r * w + c]
                    == if c < cursor || (c < cursor + gw && (r < row + 1 || (r == row + 1 && c < cursor + 0))) {
                    atlas_pixel_from(gs, 0, 0, r, c)
                } else {
                    0
                } by {
                    assert(data@[r * w + c] == if c < cursor || (c < cursor + gw && (r < row || (r == row && c
                        < cursor + gw))) {
                        atlas_pixel_from(gs, 0, 0, r, c)
                    } else {
                        0
                    });
                }
            }
            row += 1;
        }
        proof {
            let next = atlas_prefix(gs, (k + 1) as nat);
            assert(next == cursor + gw + 1);
            assert forall|r: int, c: int| 0 <= r < h && 0 <= c < w implies #[trigger] data@[r * w + c]
                == if c < next {
                atlas_pixel_from(gs, 0, 0, r, c)
            } else {
                0
            } by {
                assert(data@[r * w + c] == if c < cursor || (c < cursor + gw && (r < gh || (r == gh && c < cursor
                    + 0))) {
                    atlas_pixel_from(gs, 0, 0, r, c)
                } else {
                    0
                });
                if cursor <= c < next && !(c < cursor + gw && r < gh) {
                    lemma_pixel_from_skip(gs, k as nat, r, c);
                    if c == cursor + gw {
                        assert(atlas_pixel_from(gs, (k + 1) as int, next, r, c) == 0u8);
                    }
                }
            }
        }
        cursor = cursor + g.width as u32 + 1;
        k += 1;
    }
    proof {
        assert forall|row: int, col: int| 0 <= row < h && 0 <= col < w implies #[trigger] data@[row * w + col]
            == atlas_pixel_from(gs, 0, 0, row, col) by {
            assert(col < cursor);
        }
    }
    AtlasLayout { data, width, height, offsets }
}

/// What the cap height is measured from: whether the character is an
/// uppercase letter, and its glyph's bottom edge above the baseline and height.
#[derive(Debug, Clone, Copy, PartialEq, Eq, Structural)]
pub struct GlyphExtent {
    pub uppercase: bool,
    pub ymin: i32,
    pub height: u32,
}

/// The highest top edge above the baseline, at least 0, among the first `n`
/// uppercase glyphs of `es`.
pub open spec fn cap_height_spec(es: Seq<GlyphExtent>, n: nat) -> int
    decreases n,
{
    if n == 0 {
        0
    } else {
        let e = es[n - 1];
        let rest = cap_height_spec(es, (n - 1) as nat);
        let top = e.ymin + e.height;
        if e.uppercase && top > rest {
            top
        } else {
            rest
        }
    }
}

/// The cap height over the first `n` glyphs is the tallest top of an
/// uppercase glyph among them, or 0: it is at least 0 and at least the top
/// (`ymin + height`) of every uppercase glyph, and it is 0 or the top of one
/// of them.
pub proof fn lemma_cap_height_is_tallest(es: Seq<GlyphExtent>, n: nat)
    requires
        n <= es.len(),
    ensures
        cap_height_spec(es, n) >= 0,
        forall|i: int| 0 <= i < n && (#[trigger] es[i]).uppercase ==> cap_height_spec(es, n) >= es[i].ymin + es[i].height,
        cap_height_spec(es, n) == 0 || exists|i: int|
            0 <= i < n && (#[trigger] es[i]).uppercase && cap_height_spec(es, n) == es[i].ymin + es[i].height,
    decreases n,
{
    if n > 0 {
        lemma_cap_height_is_tallest(es, (n - 1) as nat);
        let c = cap_height_spec(es, n);
        let e = es[n - 1];
        if e.uppercase && e.ymin + e.height > cap_height_spec(es, (n - 1) as nat) {
            assert(es[n - 1].uppercase && c == es[n - 1].ymin + es[n - 1].height);
        } else if c != 0 {
            let i = choose|i: int|
                0 <= i < n - 1 && (#[trigger] es[i]).uppercase && cap_height_spec(es, (n - 1) as nat) == es[i].ymin
                    + es[i].height;
            assert(0 <= i < n && es[i].uppercase && c == es[i].ymin + es[i].height);
        }
    }
}

/// The cap height of a font: how far the tallest uppercase glyph reaches
/// above the baseline, 0 if none does.
pub fn cap_height(extents: &Vec<GlyphExtent>) -> (r: i64)
    ensures
        r == cap_height_spec(extents@, extents.len() as nat),
        r >= 0,
        forall|i: int| 0 <= i < extents.len() && (#[trigger] extents@[i]).uppercase ==> r >= extents@[i].ymin
            + extents@[i].height,
        r == 0 || exists|i: int|
            0 <= i < extents.len() && (#[trigger] extents@[i]).uppercase && r == extents@[i].ymin + extents@[i].height,
{
    proof {
        lemma_cap_height_is_tallest(extents@, extents.len() as nat);
    }
    let mut best: i64 = 0;
    let mut i: usize = 0;
    while i < extents.len()
        invariant
            0 <= i <= extents.len(),
            best == cap_height_spec(extents@, i as nat),
            0 <= best <= i32::MAX + u32::MAX,
        decreases extents.len() - i,
    {
        let e = extents[i];
        let top = e.ymin as i64 + e.height as i64;
        if e.uppercase && top > best {
            best = top;
        }
        i += 1;
    }
    best
}

/// The UI font as the menu draws it: its glyphs packed into one atlas, and
/// the cap height its labels are sized by.
#[derive(Debug)]
pub struct FontManager {
    pub ui_atlas: AtlasLayout,
    pub cap_height: i64,
}

impl FontManager {
    /// Packs the rasterised glyphs `glyphs` into the UI atlas and measures
    /// the cap height of the characters described by `extents`.
    pub fn new(glyphs: &Vec<GlyphBitmap>, extents: &Vec<GlyphExtent>) -> (r: Self)
        requires
            glyphs_fit(glyphs@.map_values(|g: GlyphBitmap| glyph_view(g))),
        ensures
            packed(glyphs@.map_values(|g: GlyphBitmap| glyph_view(g)), r.ui_atlas),
            r.cap_height == cap_height_spec(extents@, extents.len() as nat),
    {
        let ui_atlas = pack_atlas(glyphs);
        let cap_height = cap_height(extents);
        FontManager { ui_atlas, cap_height }
    }
}

} // verus!
