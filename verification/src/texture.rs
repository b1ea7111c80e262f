use vstd::prelude::*;

verus! {

/// PNG colour type: one grey sample per pixel.
pub const COLOR_GRAYSCALE: u8 = 0;

/// PNG colour type: red, green and blue samples.
pub const COLOR_RGB: u8 = 2;

/// PNG colour type: a grey and an alpha sample per pixel.
pub const COLOR_GRAYSCALE_ALPHA: u8 = 4;

/// PNG colour type: red, green, blue and alpha samples.
pub const COLOR_RGBA: u8 = 6;

/// What the png crate decodes the file `bytes` to, palette, transparency
/// and low bit depths expanded: width, height, the colour type and bit
/// depth of the decoded samples, and the samples. `None` where it reports
/// an error.
pub uninterp spec fn png_decode(bytes: Seq<u8>) -> Option<(u32, u32, u8, u8, Seq<u8>)>;

/// A decoded PNG: its size, the colour type and bit depth of its samples,
/// and the samples.
#[derive(Debug)]
pub struct DecodedPng {
    pub width: u32,
    pub height: u32,
    pub color_type: u8,
    pub bit_depth: u8,
    pub pixels: Vec<u8>,
}

/// Bytes a pixel takes in samples of colour type `color` at bit depth
/// `depth` of 8 or 16: a byte or two per sample, one sample for grey, two
/// for grey with alpha, three for RGB, four for RGBA.
pub open spec fn bytes_per_pixel(color: u8, depth: u8) -> int {
    let channels: int = if color == COLOR_GRAYSCALE {
        1
    } else if color == COLOR_GRAYSCALE_ALPHA {
        2
    } else if color == COLOR_RGB {
        3
    } else if color == COLOR_RGBA {
        4
    } else {
        0
    };
    channels * (if depth == 16 { 2int } else { 1int })
}

/// The samples of `d` are its whole image: grey, grey with alpha, RGB or
/// RGBA at 8 or 16 bits, row after row, with no byte more or less.
pub open spec fn whole_image(d: DecodedPng) -> bool {
    &&& d.color_type == COLOR_GRAYSCALE || d.color_type == COLOR_GRAYSCALE_ALPHA || d.color_type == COLOR_RGB
        || d.color_type == COLOR_RGBA
    &&& d.bit_depth == 8 || d.bit_depth == 16
    &&& d.pixels@.len() == d.width * d.height * bytes_per_pixel(d.color_type, d.bit_depth)
}

/// Decodes the PNG file `bytes` with the png crate (`Decoder::new`,
/// `set_transformations(EXPAND)`, `read_info`, `output_buffer_size`,
/// `next_frame`, `info`, `output_color_type`). Claimed: the result is
/// `png_decode` of the bytes, an error exactly where that is `None`; the
/// error's text is png's message. Expanding turns palettes into RGB or RGBA,
/// transparency into an alpha sample and low bit depths into 8 bits, so the
/// samples are grey, grey with alpha, RGB or RGBA at 8 or 16 bits; the
/// buffer is `output_buffer_size` long, one row of samples per line.
/// A file declaring a size too large to allocate makes the allocation fail.
#[verifier::external_body]
fn decode_png(bytes: &Vec<u8>) -> (r: Result<DecodedPng, String>)
    ensures
        match r {
            Ok(d) => {
                &&& png_decode(bytes@) == Some((d.width, d.height, d.color_type, d.bit_depth, d.pixels@))
                &&& whole_image(d)
            },
            Err(_) => png_decode(bytes@) is None,
        },
{
    let mut decoder = png::Decoder::new(std::io::Cursor::new(bytes.as_slice()));
    decoder.set_transformations(png::Transformations::EXPAND);
    let mut reader = match decoder.read_info() {
        Ok(reader) => reader,
        Err(e) => return Err(e.to_string()),
    };
    let mut pixels = vec![0u8; reader.output_buffer_size()];
    if let Err(e) = reader.next_frame(&mut pixels) {
        return Err(e.to_string());
    }
    let (width, height) = reader.info().size();
    let (color, depth) = reader.output_color_type();
    Ok(DecodedPng { width, height, color_type: color as u8, bit_depth: depth as u8, pixels })
}

/// The RGBA8 pixels that samples `px` of colour type `color` and bit depth
/// `depth` make: RGBA8 as is; RGB8 with opaque alpha added; RGBA16 and
/// RGB16 keeping the high byte of each sample; 8-bit grey, where allowed,
/// copied into red, green and blue with opaque alpha. A trailing partial
/// pixel is dropped. `None` for any other format.
pub open spec fn rgba8_spec(color: u8, depth: u8, px: Seq<u8>, allow_grayscale: bool) -> Option<Seq<u8>> {
    if color == COLOR_RGBA && depth == 8 {
        Some(px)
    } else if color == COLOR_RGB && depth == 8 {
        Some(Seq::new((px.len() / 3) * 4, |i: int| if i % 4 < 3 { px[(i / 4) * 3 + i % 4] } else { 255u8 }))
    } else if color == COLOR_RGBA && depth == 16 {
        Some(Seq::new((px.len() / 8) * 4, |i: int| px[(i / 4) * 8 + (i % 4) * 2]))
    } else if color == COLOR_RGB && depth == 16 {
        Some(Seq::new((px.len() / 6) * 4, |i: int| if i % 4 < 3 { px[(i / 4) * 6 + (i % 4) * 2] } else { 255u8 }))
    } else if allow_grayscale && color == COLOR_GRAYSCALE && depth == 8 {
        Some(Seq::new(px.len() * 4, |i: int| if i % 4 < 3 { px[i / 4] } else { 255u8 }))
    } else {
        None
    }
}

/// Samples per pixel and bytes per sample of the formats `rgba8_spec`
/// converts by whole pixels, with whether alpha is added and which byte of
/// each sample is kept.
spec fn stride_of(color: u8, depth: u8) -> int {
    if color == COLOR_RGB && depth == 8 {
        3
    } else if color == COLOR_RGBA && depth == 16 {
        8
    } else if color == COLOR_RGB && depth == 16 {
        6
    } else {
        1
    }
}

/// Converts decoded samples to RGBA8 pixels; `None` for a format that is not supported.
pub fn rgba8_pixels(color: u8, depth: u8, px: &Vec<u8>, allow_grayscale: bool) -> (r: Option<Vec<u8>>)
    ensures
        match r {
            Some(out) => rgba8_spec(color, depth, px@, allow_grayscale) == Some(out@),
            None => rgba8_spec(color, depth, px@, allow_grayscale) is None,
        },
{
    if color == COLOR_RGBA && depth == 8 {
        let mut out: Vec<u8> = Vec::with_capacity(px.len());
        let mut i: usize = 0;
        while i < px.len()
            invariant
                0 <= i <= px.len(),
                out@ == px@.take(i as int),
            decreases px.len() - i,
        {
            out.push(px[i]);
            proof {
                assert(px@.take(i + 1) =~= px@.take(i as int).push(px@[i as int]));
            }
            i += 1;
        }
        proof {
            assert(px@.take(px.len() as int) =~= px@);
        }
        return Some(out);
    }
    let supported = (color == COLOR_RGB && depth == 8) || (color == COLOR_RGBA && depth == 16) || (color
        == COLOR_RGB && depth == 16) || (allow_grayscale && color == COLOR_GRAYSCALE && depth == 8);
    if !supported {
        return None;
    }
    let ghost target = rgba8_spec(color, depth, px@, allow_grayscale)->0;
    let (stride, step, alpha): (usize, usize, bool) = if color == COLOR_RGB && depth == 8 {
        (3, 1, true)
    } else if color == COLOR_RGBA && depth == 16 {
        (8, 2, false)
    } else if color == COLOR_RGB && depth == 16 {
        (6, 2, true)
    } else {
        (1, 0, true)
    };
    let pixels = px.len() / stride;
    assert(px@.len() <= usize::MAX);
    let mut out: Vec<u8> = Vec::new();
    let mut p: usize = 0;
    while p < pixels
        invariant
            stride == stride_of(color, depth),
            1 <= stride <= 8,
            pixels == (px@.len() as int) / (stride as int),
            target.len() == pixels * 4,
            target == rgba8_spec(color, depth, px@, allow_grayscale)->0,
            rgba8_spec(color, depth, px@, allow_grayscale) is Some,
            !(color == COLOR_RGBA && depth == 8),
            color == COLOR_RGB && depth == 8 ==> step == 1 && alpha,
            color == COLOR_RGBA && depth == 16 ==> step == 2 && !alpha,
            color == COLOR_RGB && depth == 16 ==> step == 2 && alpha,
            !(color == COLOR_RGB && depth == 8) && !(color == COLOR_RGBA && depth == 16) && !(color == COLOR_RGB
                && depth == 16) ==> step == 0 && alpha && color == COLOR_GRAYSCALE && depth == 8,
            2 * step < stride,
            !alpha ==> 3 * step < stride,
            px@.len() <= usize::MAX,
            0 <= p <= pixels,
            out@ == target.take(p * 4),
        decreases pixels - p,
    {
        proof {
            assert(p * stride + stride <= pixels * stride) by (nonlinear_arith)
                requires
                    p < pixels,
                    stride >= 1,
            ;
            assert(pixels * stride <= px@.len()) by (nonlinear_arith)
                requires
                    pixels == (px@.len() as int) / (stride as int),
                    stride >= 1,
            ;
            assert(p * stride + stride <= px@.len());
            assert(p * stride + 2 * step < px@.len());
            assert(p * stride <= usize::MAX);
        }
        let base = p * stride;
        let a = px[base];
        let b = px[base + step];
        let c = px[base + 2 * step];
        let d = if alpha {
            255u8
        } else {
            px[base + 3 * step]
        };
        out.push(a);
        out.push(b);
        out.push(c);
        out.push(d);
        proof {
            let q = p as int;
            assert forall|k: int| 0 <= k < 4 implies #[trigger] target[q * 4 + k] == out@[q * 4 + k] by {
                assert((q * 4 + k) / 4 == q && (q * 4 + k) % 4 == k) by (nonlinear_arith)
                    requires
                        0 <= k < 4,
                ;
            }
            assert(out@ =~= target.take((p + 1) * 4));
        }
        p += 1;
    }
    proof {
        assert(target.take(pixels * 4) =~= target);
    }
    Some(out)
}

/// Why a texture could not be made.
#[derive(Debug, PartialEq, Eq)]
pub enum TextureError {
    /// The file is not a PNG the png crate can decode; png's message.
    Decode(String),
    /// The PNG's colour type and bit depth are not supported.
    UnsupportedFormat { color_type: u8, bit_depth: u8 },
    /// A tile of a texture array differs in size from the first one.
    SizeMismatch { index: usize, expected: (u32, u32), got: (u32, u32) },
}

/// RGBA8 pixels and their size.
#[derive(Debug)]
pub struct TextureData {
    pub pixels: Vec<u8>,
    pub width: u32,
    pub height: u32,
}

/// The size and RGBA8 pixels of the PNG file `bytes`, where it decodes to a
/// supported format.
pub open spec fn tile_spec(bytes: Seq<u8>, allow_grayscale: bool) -> Option<(u32, u32, Seq<u8>)> {
    match png_decode(bytes) {
        Some((w, h, c, d, px)) => match rgba8_spec(c, d, px, allow_grayscale) {
            Some(out) => Some((w, h, out)),
            None => None,
        },
        None => None,
    }
}

/// Samples that fill a whole image convert to four bytes per pixel.
proof fn lemma_rgba8_len(d: DecodedPng, allow_grayscale: bool)
    requires
        whole_image(d),
        rgba8_spec(d.color_type, d.bit_depth, d.pixels@, allow_grayscale) is Some,
    ensures
        rgba8_spec(d.color_type, d.bit_depth, d.pixels@, allow_grayscale)->0.len() == d.width * d.height * 4,
{
    assert(d.width * d.height >= 0) by (nonlinear_arith);
    let n = d.width * d.height;
    let c = d.color_type;
    let b = d.bit_depth;
    let len = d.pixels@.len();
    if c == COLOR_RGB && b == 8 {
        assert(len == n * 3);
        assert((n * 3) / 3 == n) by (nonlinear_arith)
            requires
                n >= 0,
        ;
    } else if c == COLOR_RGBA && b == 16 {
        assert(len == n * 8);
        assert((n * 8) / 8 == n) by (nonlinear_arith)
            requires
                n >= 0,
        ;
    } else if c == COLOR_RGB && b == 16 {
        assert(len == n * 6);
        assert((n * 6) / 6 == n) by (nonlinear_arith)
            requires
                n >= 0,
        ;
    } else if c == COLOR_RGBA && b == 8 {
        assert(len == n * 4);
    } else {
        assert(len == n * 1);
    }
}

/// The texture that decoded samples `d` make, for a texture of its own:
/// RGBA8 pixels of its size, RGBA and RGB at 8 or 16 bits (and 8-bit grey
/// where `allow_grayscale`) being supported; else the error naming the
/// unsupported colour type and bit depth. Samples filling the whole image
/// give four bytes per pixel.
pub fn texture_from_decoded(d: DecodedPng, allow_grayscale: bool) -> (r: Result<TextureData, TextureError>)
    ensures
        match rgba8_spec(d.color_type, d.bit_depth, d.pixels@, allow_grayscale) {
            None => r == Err::<TextureData, TextureError>(
                TextureError::UnsupportedFormat { color_type: d.color_type, bit_depth: d.bit_depth },
            ),
            Some(out) => r matches Ok(t) && t.width == d.width && t.height == d.height && t.pixels@ == out,
        },
        whole_image(d) ==> (r matches Ok(t) ==> t.pixels@.len() == t.width * t.height * 4),
{
    proof {
        if whole_image(d) && rgba8_spec(d.color_type, d.bit_depth, d.pixels@, allow_grayscale) is Some {
            lemma_rgba8_len(d, allow_grayscale);
        }
    }
    match rgba8_pixels(d.color_type, d.bit_depth, &d.pixels, allow_grayscale) {
        Some(pixels) => Ok(TextureData { pixels, width: d.width, height: d.height }),
        None => Err(TextureError::UnsupportedFormat { color_type: d.color_type, bit_depth: d.bit_depth }),
    }
}

/// Tile `index` of a texture array from its decoded samples `d`: as
/// [`texture_from_decoded`] with grey allowed, and, where the tiles before
/// it set the size `expected`, a size mismatch error unless `d` has that size.
pub fn tile_from_decoded(d: DecodedPng, index: usize, expected: Option<(u32, u32)>) -> (r: Result<
    TextureData,
    TextureError,
>)
    ensures
        match rgba8_spec(d.color_type, d.bit_depth, d.pixels@, true) {
            None => r == Err::<TextureData, TextureError>(
                TextureError::UnsupportedFormat { color_type: d.color_type, bit_depth: d.bit_depth },
            ),
            Some(out) => match expected {
                Some((w, h)) if w != d.width || h != d.height => r == Err::<TextureData, TextureError>(
                    TextureError::SizeMismatch { index, expected: (w, h), got: (d.width, d.height) },
                ),
                _ => r matches Ok(t) && t.width == d.width && t.height == d.height && t.pixels@ == out,
            },
        },
        whole_image(d) ==> (r matches Ok(t) ==> t.pixels@.len() == t.width * t.height * 4),
{
    let (width, height) = (d.width, d.height);
    let tile = texture_from_decoded(d, true)?;
    match expected {
        Some((w, h)) => {
            if w != width || h != height {
                return Err(TextureError::SizeMismatch { index, expected: (w, h), got: (width, height) });
            }
        },
        None => {},
    }
    Ok(tile)
}

/// Decodes the PNG file `bytes` to RGBA8 pixels, for a texture of its own;
/// RGBA and RGB at 8 or 16 bits are supported, four bytes per pixel.
pub fn load_texture(bytes: &Vec<u8>) -> (r: Result<TextureData, TextureError>)
    ensures
        match png_decode(bytes@) {
            None => r matches Err(TextureError::Decode(_)),
            Some((w, h, c, d, px)) => match rgba8_spec(c, d, px, false) {
                None => r == Err::<TextureData, TextureError>(
                    TextureError::UnsupportedFormat { color_type: c, bit_depth: d },
                ),
                Some(out) => r matches Ok(t) && t.width == w && t.height == h && t.pixels@ == out,
            },
        },
        r matches Ok(t) ==> t.pixels@.len() == t.width * t.height * 4,
{
    match decode_png(bytes) {
        Ok(d) => texture_from_decoded(d, false),
        Err(message) => Err(TextureError::Decode(message)),
    }
}

/// Width of the tile the file `bytes` decodes to (0 if none).
pub open spec fn tile_width(bytes: Seq<u8>) -> u32 {
    match tile_spec(bytes, true) {
        Some((w, _, _)) => w,
        None => 0,
    }
}

/// Height of the tile the file `bytes` decodes to (0 if none).
pub open spec fn tile_height(bytes: Seq<u8>) -> u32 {
    match tile_spec(bytes, true) {
        Some((_, h, _)) => h,
        None => 0,
    }
}

/// Pixels of the tile the file `bytes` decodes to (empty if none).
pub open spec fn tile_pixels(bytes: Seq<u8>) -> Seq<u8> {
    match tile_spec(bytes, true) {
        Some((_, _, px)) => px,
        None => Seq::empty(),
    }
}

/// Tile `i` of `files` decodes to a supported format of the size of tile 0.
pub open spec fn tile_fits(files: Seq<Seq<u8>>, i: int) -> bool {
    &&& tile_spec(files[i], true) is Some
    &&& tile_spec(files[0], true) is Some
    &&& tile_width(files[i]) == tile_width(files[0])
    &&& tile_height(files[i]) == tile_height(files[0])
}

/// The error tile `i` of `files` fails with, given that the ones before it fit.
pub open spec fn tile_error_matches(files: Seq<Seq<u8>>, i: int, e: TextureError) -> bool {
    match png_decode(files[i]) {
        None => e is Decode,
        Some((w, h, c, d, px)) => if rgba8_spec(c, d, px, true) is None {
            e == TextureError::UnsupportedFormat { color_type: c, bit_depth: d }
        } else {
            e == TextureError::SizeMismatch {
                index: i as usize,
                expected: (tile_width(files[0]), tile_height(files[0])),
                got: (w, h),
            }
        },
    }
}

/// Decodes the PNG files `files` to the tiles of a texture array, all of
/// the size of the first; RGBA and RGB at 8 or 16 bits and 8-bit grey are
/// supported. Returns the tiles' width and height (zero for no tiles) and
/// their pixels, four bytes per pixel, or the error of the first tile that
/// fails.
pub fn load_texture_array(files: &Vec<Vec<u8>>) -> (r: Result<(u32, u32, Vec<TextureData>), TextureError>)
    ensures
        ({
            let fs = files@.map_values(|f: Vec<u8>| f@);
            match r {
                Ok((w, h, tiles)) => {
                    &&& forall|i: int| 0 <= i < fs.len() ==> tile_fits(fs, i)
                    &&& tiles.len() == fs.len()
                    &&& forall|i: int|
                        0 <= i < fs.len() ==> (#[trigger] tiles@[i]).pixels@ == tile_pixels(fs[i])
                            && tiles@[i].width == w && tiles@[i].height == h && tiles@[i].pixels@.len() == w * h * 4
                    &&& fs.len() > 0 ==> w == tile_width(fs[0]) && h == tile_height(fs[0])
                    &&& fs.len() == 0 ==> w == 0 && h == 0
                },
                Err(e) => exists|k: int|
                    0 <= k < fs.len() && (forall|j: int| 0 <= j < k ==> tile_fits(fs, j)) && !tile_fits(fs, k)
                        && tile_error_matches(fs, k, e),
            }
        }),
{
    let ghost fs = files@.map_values(|f: Vec<u8>| f@);
    let mut tiles: Vec<TextureData> = Vec::with_capacity(files.len());
    let mut base_width: u32 = 0;
    let mut base_height: u32 = 0;
    let mut i: usize = 0;
    while i < files.len()
        invariant
            fs == files@.map_values(|f: Vec<u8>| f@),
            0 <= i <= files.len(),
            tiles.len() == i,
            forall|j: int| 0 <= j < i ==> tile_fits(fs, j),
            forall|j: int|
                0 <= j < i ==> (#[trigger] tiles@[j]).pixels@ == tile_pixels(fs[j]) && tiles@[j].width
                    == base_width && tiles@[j].height == base_height && tiles@[j].pixels@.len() == base_width
                    * base_height * 4,
            i > 0 ==> base_width == tile_width(fs[0]) && base_height == tile_height(fs[0]),
            i == 0 ==> base_width == 0 && base_height == 0,
        decreases files.len() - i,
    {
        proof {
            assert(fs[i as int] == files@[i as int]@);
        }
        let decoded = match decode_png(&files[i]) {
            Ok(d) => d,
            Err(message) => {
                proof {
                    assert(!tile_fits(fs, i as int));
                }
                return Err(TextureError::Decode(message));
            },
        };
        let (width, height) = (decoded.width, decoded.height);
        let expected = if i == 0 {
            None
        } else {
            Some((base_width, base_height))
        };
        let tile = match tile_from_decoded(decoded, i, expected) {
            Ok(t) => t,
            Err(e) => {
                proof {
                    if i > 0 {
                        assert(tile_fits(fs, 0));
                    }
                    assert(!tile_fits(fs, i as int));
                }
                return Err(e);
            },
        };
        if i == 0 {
            base_width = width;
            base_height = height;
        }
        proof {
            assert(tile_spec(fs[i as int], true) == Some((width, height, tile.pixels@)));
            if i > 0 {
                assert(tile_fits(fs, 0));
            }
            assert(tile_fits(fs, i as int));
        }
        tiles.push(tile);
        i += 1;
    }
    Ok((base_width, base_height, tiles))
}

} // verus!
