//! Mapzen Terrarium terrain tiles: a WebP raster whose RGB pixels encode
//! elevation as `R * 256 + G + B / 256 - 32768` metres.
//!
//! Elevations are kept exactly, in 1/256 m units: every Terrarium value is
//! a multiple of 1/256 m, so `elev_x256[i] as f32 / 256.0` recovers the
//! metre value without rounding.

use image_webp::{DecodingError, WebPDecoder};
use std::io::Cursor;
use vstd::prelude::*;

verus! {

#[verifier::external_type_specification]
#[verifier::external_body]
pub struct ExDecodingError(DecodingError);

/// The image that image-webp decodes from `bytes` (width, height, whether
/// it has alpha, and its RGB or RGBA pixels row by row), or `None` where
/// decoding fails. The decoder reads only the given bytes, with its default
/// options, so this is a function of the bytes alone.
pub uninterp spec fn webp_rgb(bytes: Seq<u8>) -> Option<(u32, u32, bool, Seq<u8>)>;

/// Bytes per pixel of a decoded WebP image: RGBA with alpha, else RGB.
pub open spec fn bytes_per_pixel(has_alpha: bool) -> int {
    if has_alpha { 4 } else { 3 }
}

/// Decode a WebP image with image-webp: `WebPDecoder::new` over the bytes,
/// its `dimensions` and `has_alpha`, then `read_image` into a buffer of
/// `output_buffer_size` bytes. Where the decoder cannot give that size
/// (more than `usize::MAX` bytes) the answer is its own `ImageTooLarge`,
/// as `read_image` gives for a buffer of any other length. The pixels are
/// named by [`webp_rgb`]; per the crate's source there are
/// `width * height * (4 with alpha, else 3)` of them.
#[verifier::external_body]
fn webp_decode_rgb(bytes: &[u8]) -> (r: Result<(u32, u32, bool, Vec<u8>), DecodingError>)
    ensures
        match r {
            Ok((w, h, a, px)) => webp_rgb(bytes@) == Some((w, h, a, px@))
                && px@.len() == w * h * bytes_per_pixel(a),
            Err(_) => webp_rgb(bytes@) is None,
        },
{
    let mut decoder = WebPDecoder::new(Cursor::new(bytes))?;
    let (w, h) = decoder.dimensions();
    let has_alpha = decoder.has_alpha();
    let size = decoder.output_buffer_size().ok_or(DecodingError::ImageTooLarge)?;
    let mut buf = vec![0u8; size];
    decoder.read_image(&mut buf)?;
    Ok((w, h, has_alpha, buf))
}

/// Why a terrain tile could not be decoded.
pub enum TerrainError {
    Webp(DecodingError),
    PixelFormat,
}

/// Decoded raster of one terrain tile, row-major, north row first.
pub struct TerrainTile {
    pub width: u32,
    pub height: u32,
    pub z: u8,
    pub x: u32,
    pub y: u32,
    /// Elevation of each pixel in 1/256 m; `width * height` entries.
    pub elev_x256: Vec<i32>,
}

/// Terrarium elevation of one pixel, in 1/256 m.
pub open spec fn terrarium_x256(r: u8, g: u8, b: u8) -> int {
    r as int * 65536 + g as int * 256 + b as int - 32768 * 256
}

/// Elevations of the first `pixels` pixels of a raster with `bpp` bytes per
/// pixel (red, green, blue first).
pub fn terrarium_elevations(buf: &[u8], pixels: usize, bpp: usize) -> (elev: Vec<i32>)
    requires
        3 <= bpp,
        pixels * bpp <= buf@.len(),
    ensures
        elev@.len() == pixels,
        forall|i: int|
            0 <= i < pixels ==> #[trigger] elev@[i] as int == terrarium_x256(
                buf@[i * bpp],
                buf@[i * bpp + 1],
                buf@[i * bpp + 2],
            ),
{
    let mut elev: Vec<i32> = Vec::with_capacity(pixels);
    let blen = buf.len();
    for i in 0..pixels
        invariant
            blen == buf@.len(),
            3 <= bpp,
            pixels * bpp <= buf@.len(),
            elev@.len() == i,
            forall|j: int|
                0 <= j < i ==> #[trigger] elev@[j] as int == terrarium_x256(
                    buf@[j * bpp],
                    buf@[j * bpp + 1],
                    buf@[j * bpp + 2],
                ),
    {
        assert(i * bpp + bpp <= pixels * bpp) by (nonlinear_arith)
            requires
                i < pixels,
                3 <= bpp,
        ;
        let base = i * bpp;
        let r = buf[base] as i32;
        let g = buf[base + 1] as i32;
        let b = buf[base + 2] as i32;
        elev.push(r * 65536 + g * 256 + b - 32768 * 256);
    }
    elev
}

/// `elev` holds the Terrarium elevation of each of the first `pixels`
/// pixels of `buf`, a raster with `bpp` bytes per pixel.
pub open spec fn terrarium_raster(elev: Seq<i32>, buf: Seq<u8>, pixels: int, bpp: int) -> bool {
    &&& elev.len() == pixels
    &&& forall|i: int|
        0 <= i < pixels ==> #[trigger] elev[i] as int == terrarium_x256(
            buf[i * bpp],
            buf[i * bpp + 1],
            buf[i * bpp + 2],
        )
}

/// The terrain tile of a decoded `w` by `h` raster `buf` with `bpp` bytes
/// per pixel, at tile coordinates `z/x/y`.
pub fn terrain_tile_from_pixels(z: u8, x: u32, y: u32, w: u32, h: u32, bpp: usize, buf: &[u8]) -> (t: TerrainTile)
    requires
        3 <= bpp,
        w * h * bpp <= buf@.len(),
    ensures
        t.width == w,
        t.height == h,
        t.z == z,
        t.x == x,
        t.y == y,
        terrarium_raster(t.elev_x256@, buf@, w * h, bpp as int),
{
    let blen = buf.len();
    assert(w * h <= w * h * bpp) by (nonlinear_arith)
        requires
            bpp >= 3,
            w >= 0,
            h >= 0,
    ;
    let pixels = (w as usize) * (h as usize);
    let elev_x256 = terrarium_elevations(buf, pixels, bpp);
    TerrainTile { width: w, height: h, z, x, y, elev_x256 }
}

/// `t` is the terrain tile of the decoded image `img` at tile coordinates
/// `z/x/y`: the image's size, and the Terrarium elevation of each pixel.
pub open spec fn decoded_tile(z: u8, x: u32, y: u32, img: (u32, u32, bool, Seq<u8>), t: TerrainTile) -> bool {
    &&& t.width == img.0
    &&& t.height == img.1
    &&& t.z == z
    &&& t.x == x
    &&& t.y == y
    &&& terrarium_raster(t.elev_x256@, img.3, img.0 * img.1, bytes_per_pixel(img.2))
}

/// Decode a Terrarium WebP tile: the tile of the image the bytes decode to,
/// or the decoder's error where they do not decode.
pub fn decode_terrarium_webp(z: u8, x: u32, y: u32, bytes: &[u8]) -> (r: Result<TerrainTile, TerrainError>)
    ensures
        match webp_rgb(bytes@) {
            Some(img) => r matches Ok(t) && decoded_tile(z, x, y, img, t),
            None => r matches Err(TerrainError::Webp(_)),
        },
{
    let (w, h, has_alpha, buf) = match webp_decode_rgb(bytes) {
        Ok(img) => img,
        Err(e) => return Err(TerrainError::Webp(e)),
    };
    let bpp: usize = if has_alpha { 4 } else { 3 };
    Ok(terrain_tile_from_pixels(z, x, y, w, h, bpp, buf.as_slice()))
}

/// Clamp `v` into `0..=hi`.
pub open spec fn clamp_index(v: int, hi: int) -> int {
    if v < 0 { 0 } else if v > hi { hi } else { v }
}

/// Raster indices of the four pixels a bilinear sample reads, for a sample
/// whose pixel coordinates floor to `(x_floor, y_floor)`: the clamped pixel
/// and its right, lower and lower-right neighbours (each clamped to the
/// raster).
pub open spec fn corner_indices(x_floor: int, y_floor: int, w: int, h: int) -> Seq<int> {
    let x0 = clamp_index(x_floor, w - 1);
    let y0 = clamp_index(y_floor, h - 1);
    let x1 = if x0 + 1 < w - 1 { x0 + 1 } else { w - 1 };
    let y1 = if y0 + 1 < h - 1 { y0 + 1 } else { h - 1 };
    seq![y0 * w + x0, y0 * w + x1, y1 * w + x0, y1 * w + x1]
}

/// Raster index of pixel (`col`, `row`).
fn cell_index(row: u64, col: u64, w: u64, h: u64, n: usize) -> (r: usize)
    requires
        row < h,
        col < w,
        w * h == n,
    ensures
        r as int == row * w + col,
        r < n,
{
    assert(0 <= row * w + col < w * h) by (nonlinear_arith)
        requires
            row < h,
            col < w,
    ;
    (row * w + col) as usize
}

impl TerrainTile {
    /// The four raster indices a bilinear sample at floored pixel
    /// coordinates reads: top-left, top-right, bottom-left, bottom-right.
    /// All are inside the raster.
    pub fn sample_corners(&self, x_floor: i64, y_floor: i64) -> (r: [usize; 4])
        requires
            self.width >= 1,
            self.height >= 1,
            self.elev_x256@.len() == self.width as int * self.height as int,
        ensures
            r@.map_values(|i: usize| i as int) == corner_indices(x_floor as int, y_floor as int, self.width as int, self.height as int),
            forall|k: int| 0 <= k < 4 ==> #[trigger] r@[k] < self.elev_x256@.len(),
    {
        let n = self.elev_x256.len();
        let w = self.width as u64;
        let h = self.height as u64;
        let x0: u64 = if x_floor < 0 {
            0
        } else if x_floor >= w as i64 {
            w - 1
        } else {
            x_floor as u64
        };
        let y0: u64 = if y_floor < 0 {
            0
        } else if y_floor >= h as i64 {
            h - 1
        } else {
            y_floor as u64
        };
        let x1: u64 = if x0 + 1 < w - 1 { x0 + 1 } else { w - 1 };
        let y1: u64 = if y0 + 1 < h - 1 { y0 + 1 } else { h - 1 };
        let r = [cell_index(y0, x0, w, h, n), cell_index(y0, x1, w, h, n), cell_index(y1, x0, w, h, n), cell_index(y1, x1, w, h, n)];
        assert(r@.map_values(|i: usize| i as int) =~= corner_indices(x_floor as int, y_floor as int, w as int, h as int));
        r
    }
}

} // verus!
