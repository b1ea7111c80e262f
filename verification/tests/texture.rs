use blitz::texture::{
    load_texture, load_texture_array, rgba8_pixels, texture_from_decoded, tile_from_decoded, DecodedPng, TextureError,
    COLOR_GRAYSCALE, COLOR_GRAYSCALE_ALPHA, COLOR_RGB, COLOR_RGBA,
};

fn encode(width: u32, height: u32, color: png::ColorType, depth: png::BitDepth, data: &[u8]) -> Vec<u8> {
    let mut out = Vec::new();
    {
        let mut encoder = png::Encoder::new(&mut out, width, height);
        encoder.set_color(color);
        encoder.set_depth(depth);
        let mut writer = encoder.write_header().unwrap();
        writer.write_image_data(data).unwrap();
    }
    out
}

#[test]
fn rgb8_gains_opaque_alpha() {
    let px = vec![1, 2, 3, 4, 5, 6];
    assert_eq!(rgba8_pixels(COLOR_RGB, 8, &px, false), Some(vec![1, 2, 3, 255, 4, 5, 6, 255]));
}

#[test]
fn rgba8_is_kept() {
    let px = vec![9, 8, 7, 6];
    assert_eq!(rgba8_pixels(COLOR_RGBA, 8, &px, false), Some(px.clone()));
}

#[test]
fn sixteen_bit_samples_keep_their_high_byte() {
    let rgba16 = vec![1, 0, 2, 0, 3, 0, 4, 0];
    assert_eq!(rgba8_pixels(COLOR_RGBA, 16, &rgba16, false), Some(vec![1, 2, 3, 4]));
    let rgb16 = vec![10, 0, 20, 0, 30, 0, 40, 0, 50, 0, 60, 0];
    assert_eq!(rgba8_pixels(COLOR_RGB, 16, &rgb16, false), Some(vec![10, 20, 30, 255, 40, 50, 60, 255]));
}

#[test]
fn grey_is_copied_into_colour_only_where_allowed() {
    let px = vec![7, 200];
    assert_eq!(rgba8_pixels(COLOR_GRAYSCALE, 8, &px, true), Some(vec![7, 7, 7, 255, 200, 200, 200, 255]));
    assert_eq!(rgba8_pixels(COLOR_GRAYSCALE, 8, &px, false), None);
    assert_eq!(rgba8_pixels(4, 8, &px, true), None);
}

#[test]
fn a_trailing_partial_pixel_is_dropped() {
    let px = vec![1, 2, 3, 4];
    assert_eq!(rgba8_pixels(COLOR_RGB, 8, &px, false), Some(vec![1, 2, 3, 255]));
}

#[test]
fn a_png_file_decodes_to_rgba() {
    let file = encode(2, 1, png::ColorType::Rgb, png::BitDepth::Eight, &[255, 0, 0, 0, 0, 255]);
    let t = load_texture(&file).unwrap();
    assert_eq!((t.width, t.height), (2, 1));
    assert_eq!(t.pixels, vec![255, 0, 0, 255, 0, 0, 255, 255]);
}

#[test]
fn a_grey_png_is_refused_as_a_lone_texture() {
    let file = encode(1, 1, png::ColorType::Grayscale, png::BitDepth::Eight, &[9]);
    assert_eq!(
        load_texture(&file).unwrap_err(),
        TextureError::UnsupportedFormat { color_type: COLOR_GRAYSCALE, bit_depth: 8 }
    );
}

#[test]
fn garbage_is_a_decode_error() {
    let r = load_texture(&vec![1, 2, 3]);
    assert!(matches!(r, Err(TextureError::Decode(_))));
}

#[test]
fn texture_array_tiles_share_one_size() {
    let a = encode(1, 1, png::ColorType::Rgba, png::BitDepth::Eight, &[1, 2, 3, 4]);
    let b = encode(1, 1, png::ColorType::Grayscale, png::BitDepth::Eight, &[5]);
    let (w, h, tiles) = load_texture_array(&vec![a.clone(), b]).unwrap();
    assert_eq!((w, h), (1, 1));
    assert_eq!(tiles.len(), 2);
    assert_eq!(tiles[1].pixels, vec![5, 5, 5, 255]);
    let c = encode(2, 1, png::ColorType::Rgba, png::BitDepth::Eight, &[0; 8]);
    assert_eq!(
        load_texture_array(&vec![a, c]).unwrap_err(),
        TextureError::SizeMismatch { index: 1, expected: (1, 1), got: (2, 1) }
    );
    let (w, h, tiles) = load_texture_array(&vec![]).unwrap();
    assert_eq!((w, h, tiles.len()), (0, 0, 0));
}

#[test]
fn an_rgba_png_holds_four_bytes_per_pixel() {
    let data8: Vec<u8> = (0..3 * 2 * 4).map(|i| i as u8).collect();
    let t = load_texture(&encode(3, 2, png::ColorType::Rgba, png::BitDepth::Eight, &data8)).unwrap();
    assert_eq!(t.pixels.len(), 3 * 2 * 4);
    let data16: Vec<u8> = (0..3 * 2 * 8).map(|i| i as u8).collect();
    let t = load_texture(&encode(3, 2, png::ColorType::Rgba, png::BitDepth::Sixteen, &data16)).unwrap();
    assert_eq!((t.width, t.height), (3, 2));
    assert_eq!(t.pixels.len(), 3 * 2 * 4);
    assert_eq!(t.pixels[0..4], [0, 2, 4, 6]);
}

#[test]
fn an_rgb_png_with_a_transparent_colour_gains_real_alpha() {
    let mut out = Vec::new();
    {
        let mut encoder = png::Encoder::new(&mut out, 2, 1);
        encoder.set_color(png::ColorType::Rgb);
        encoder.set_depth(png::BitDepth::Eight);
        encoder.set_trns(vec![0u8, 10, 0, 20, 0, 30]);
        let mut writer = encoder.write_header().unwrap();
        writer.write_image_data(&[10, 20, 30, 40, 50, 60]).unwrap();
    }
    let t = load_texture(&out).unwrap();
    assert_eq!((t.width, t.height), (2, 1));
    assert_eq!(t.pixels, vec![10, 20, 30, 0, 40, 50, 60, 255]);
}

fn decoded(width: u32, height: u32, color_type: u8, bit_depth: u8, pixels: Vec<u8>) -> DecodedPng {
    DecodedPng { width, height, color_type, bit_depth, pixels }
}

#[test]
fn decoded_samples_make_a_texture_or_name_their_format() {
    let t = texture_from_decoded(decoded(1, 2, COLOR_RGB, 8, vec![1, 2, 3, 4, 5, 6]), false).unwrap();
    assert_eq!(t.pixels, vec![1, 2, 3, 255, 4, 5, 6, 255]);
    assert_eq!(
        texture_from_decoded(decoded(1, 1, COLOR_GRAYSCALE_ALPHA, 8, vec![7, 8]), true).unwrap_err(),
        TextureError::UnsupportedFormat { color_type: COLOR_GRAYSCALE_ALPHA, bit_depth: 8 }
    );
    assert_eq!(
        texture_from_decoded(decoded(1, 1, COLOR_GRAYSCALE, 8, vec![9]), false).unwrap_err(),
        TextureError::UnsupportedFormat { color_type: COLOR_GRAYSCALE, bit_depth: 8 }
    );
}

#[test]
fn a_tile_must_match_the_size_before_it() {
    let tile = tile_from_decoded(decoded(1, 1, COLOR_GRAYSCALE, 8, vec![9]), 0, None).unwrap();
    assert_eq!(tile.pixels, vec![9, 9, 9, 255]);
    assert_eq!(
        tile_from_decoded(decoded(1, 1, COLOR_GRAYSCALE, 8, vec![9]), 3, Some((2, 2))).unwrap_err(),
        TextureError::SizeMismatch { index: 3, expected: (2, 2), got: (1, 1) }
    );
    assert!(tile_from_decoded(decoded(2, 2, COLOR_RGBA, 8, vec![0; 16]), 3, Some((2, 2))).is_ok());
}
