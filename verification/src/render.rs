//! Inputs of a tile render: the source vector tiles and the optional
//! terrain raster, and their decoding.

use crate::mvt::{decode_buildings, DecodedTile, MvtError};
use crate::terrain::{decode_terrarium_webp, decoded_tile, webp_rgb, TerrainError, TerrainTile};
use vstd::prelude::*;

verus! {

/// Coordinate extent of the decoded source tiles.
pub const MVT_EXTENT: u32 = 4096;

/// One source vector tile: its tile coordinates and raw bytes.
pub struct MvtInput<'a> {
    pub z: u8,
    pub x: u32,
    pub y: u32,
    pub bytes: &'a [u8],
}

/// Optional terrain raster covering the output tile: Terrarium-encoded
/// WebP bytes.
pub struct TerrainInput<'a> {
    pub z: u8,
    pub x: u32,
    pub y: u32,
    pub webp: &'a [u8],
}

/// Why a render's inputs could not be decoded.
pub enum RenderError {
    Mvt(MvtError),
    Terrain(TerrainError),
}

/// A decoded source tile with its tile coordinates.
pub struct DecodedSource {
    pub z: u8,
    pub x: u32,
    pub y: u32,
    pub tile: DecodedTile,
}

/// Decode every source tile, in order, keeping its coordinates. The
/// decoder accepts every input and yields no building features.
pub fn decode_sources(sources: &[MvtInput]) -> (r: Result<Vec<DecodedSource>, RenderError>)
    ensures
        r matches Ok(v) && v@.len() == sources@.len() && forall|i: int|
            0 <= i < v@.len() ==> {
                &&& #[trigger] v@[i].z == sources@[i].z
                &&& v@[i].x == sources@[i].x
                &&& v@[i].y == sources@[i].y
                &&& v@[i].tile.extent == MVT_EXTENT
                &&& v@[i].tile.buildings@.len() == 0
            },
{
    let mut out: Vec<DecodedSource> = Vec::new();
    let n = sources.len();
    let mut i: usize = 0;
    while i < n
        invariant
            n == sources@.len(),
            i <= n,
            out@.len() == i,
            forall|j: int|
                0 <= j < i ==> {
                    &&& #[trigger] out@[j].z == sources@[j].z
                    &&& out@[j].x == sources@[j].x
                    &&& out@[j].y == sources@[j].y
                    &&& out@[j].tile.extent == MVT_EXTENT
                    &&& out@[j].tile.buildings@.len() == 0
                },
        decreases n - i,
    {
        let s = &sources[i];
        let buildings = match decode_buildings(s.bytes) {
            Ok(b) => b,
            Err(e) => return Err(RenderError::Mvt(e)),
        };
        out.push(DecodedSource { z: s.z, x: s.x, y: s.y, tile: DecodedTile { extent: MVT_EXTENT, buildings } });
        i = i + 1;
    }
    Ok(out)
}

/// Decode the terrain raster, if one is given: `Ok(None)` without one,
/// else the tile of the decoded image (with the input's tile coordinates),
/// or the decoder's error where the bytes do not decode.
pub fn decode_terrain(terrain: Option<TerrainInput>) -> (r: Result<Option<TerrainTile>, RenderError>)
    ensures
        match terrain {
            None => r matches Ok(None),
            Some(t) => match webp_rgb(t.webp@) {
                Some(img) => r matches Ok(Some(tile)) && decoded_tile(t.z, t.x, t.y, img, tile),
                None => r matches Err(RenderError::Terrain(TerrainError::Webp(_))),
            },
        },
{
    match terrain {
        None => Ok(None),
        Some(t) => match decode_terrarium_webp(t.z, t.x, t.y, t.webp) {
            Ok(tile) => Ok(Some(tile)),
            Err(e) => Err(RenderError::Terrain(e)),
        },
    }
}

} // verus!
