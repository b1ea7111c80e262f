use blitz::font::{cap_height, pack_atlas, FontManager, GlyphBitmap, GlyphExtent};
use blitz::vertices::{AttributeFormat, Materials, VertexAttribute, VertexFormat};
use blitz::world::{initial_chunk_positions, Pos3};

#[test]
fn glyphs_are_packed_side_by_side_with_padding() {
    let glyphs = vec![
        GlyphBitmap { width: 2, height: 2, bitmap: vec![1, 2, 3, 4] },
        GlyphBitmap { width: 1, height: 1, bitmap: vec![9] },
    ];
    let atlas = pack_atlas(&glyphs);
    assert_eq!((atlas.width, atlas.height), (5, 2));
    assert_eq!(atlas.offsets, vec![0, 3]);
    assert_eq!(atlas.data, vec![1, 2, 0, 9, 0, 3, 4, 0, 0, 0]);
}

#[test]
fn no_glyphs_make_an_empty_atlas() {
    let atlas = pack_atlas(&vec![]);
    assert_eq!((atlas.width, atlas.height), (0, 0));
    assert!(atlas.data.is_empty());
}

#[test]
fn cap_height_is_the_tallest_uppercase_top() {
    let extents = vec![
        GlyphExtent { uppercase: false, ymin: 0, height: 30 },
        GlyphExtent { uppercase: true, ymin: 0, height: 17 },
        GlyphExtent { uppercase: true, ymin: -2, height: 18 },
    ];
    assert_eq!(cap_height(&extents), 17);
    assert_eq!(cap_height(&vec![GlyphExtent { uppercase: true, ymin: -5, height: 2 }]), 0);
}

#[test]
fn vertex_attributes_pack_the_stride() {
    let f = VertexFormat::VERTEX_3D_TEXTURE_ARRAY_NORMAL;
    assert_eq!(f.stride(), 36);
    assert_eq!(
        f.attributes(),
        vec![
            VertexAttribute { location: 0, format: AttributeFormat::Vec3F32, offset: 0 },
            VertexAttribute { location: 1, format: AttributeFormat::Vec2F32, offset: 12 },
            VertexAttribute { location: 2, format: AttributeFormat::U32, offset: 20 },
            VertexAttribute { location: 3, format: AttributeFormat::Vec3F32, offset: 24 },
        ]
    );
    assert_eq!(VertexFormat::VERTEX_2D_RGBA.stride(), 32);
    assert_eq!(VertexFormat::VERTEX_2D_RGBA.attributes()[2].offset, 16);
    assert_eq!(VertexFormat::VERTEX_3D_RGBA.stride(), 28);
}

#[test]
fn materials_get_consecutive_ids() {
    let mut m: Materials<&str> = Materials::new();
    assert_eq!(m.allocate("chunk"), 0);
    assert_eq!(m.allocate("ui"), 1);
    assert_eq!(*m.get(1), "ui");
    assert_eq!(m.len(), 2);
}

#[test]
fn a_new_world_starts_with_four_chunks_below_the_origin() {
    assert_eq!(
        initial_chunk_positions(),
        vec![
            Pos3 { x: -32, y: -32, z: -32 },
            Pos3 { x: -32, y: -32, z: 0 },
            Pos3 { x: 0, y: -32, z: -32 },
            Pos3 { x: 0, y: -32, z: 0 },
        ]
    );
}

#[test]
fn font_manager_packs_and_measures_the_ui_font() {
    let glyphs = vec![
        GlyphBitmap { width: 1, height: 2, bitmap: vec![7, 8] },
        GlyphBitmap { width: 1, height: 1, bitmap: vec![255] },
    ];
    let extents = vec![
        GlyphExtent { uppercase: true, ymin: 1, height: 2 },
        GlyphExtent { uppercase: false, ymin: 0, height: 1 },
    ];
    let font = FontManager::new(&glyphs, &extents);
    assert_eq!((font.ui_atlas.width, font.ui_atlas.height), (4, 2));
    assert_eq!(font.ui_atlas.offsets, vec![0, 2]);
    assert_eq!(font.ui_atlas.data, vec![7, 0, 255, 0, 8, 0, 0, 0]);
    assert_eq!(font.cap_height, 3);
}
