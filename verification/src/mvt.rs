//! Building features as decoded from an Overture buildings vector tile.
//! Real-valued attributes are carried as `f64` bit patterns.

use vstd::prelude::*;

verus! {

/// Invalid-tile error of the decoder.
pub enum MvtError {
    Invalid(&'static str),
}

/// One building feature of the `buildings` layer. Ring vertices are tile
/// units; `*_bits` fields hold `f64::to_bits` of metre values.
pub struct BuildingFeature {
    pub id: Option<u64>,
    pub gers_id: Option<String>,
    pub name: Option<String>,
    pub subtype: Option<String>,
    pub class: Option<String>,
    pub rings: Vec<Vec<[i32; 2]>>,
    pub height_bits: Option<u64>,
    pub min_height_bits: Option<u64>,
    pub roof_height_bits: Option<u64>,
    pub roof_shape: Option<String>,
    pub num_floors: Option<u32>,
    pub level: Option<i32>,
    pub is_underground: Option<bool>,
    pub has_parts: Option<bool>,
}

/// The feature is flagged underground: `is_underground` set, or a negative
/// `level`.
pub open spec fn underground(f: BuildingFeature) -> bool {
    f.is_underground == Some(true) || (f.level matches Some(l) && l < 0)
}

impl BuildingFeature {
    /// Flagged as an underground structure: `is_underground` set, or a
    /// negative `level`. Such features are dropped before extrusion.
    pub fn is_underground_structure(&self) -> (r: bool)
        ensures
            r == underground(*self),
    {
        match self.is_underground {
            Some(true) => true,
            _ => match self.level {
                Some(l) => l < 0,
                None => false,
            },
        }
    }
}

/// A decoded source tile: its coordinate extent and building features.
pub struct DecodedTile {
    pub extent: u32,
    pub buildings: Vec<BuildingFeature>,
}

/// Decode the `buildings` layer of an MVT tile. Every input decodes to an
/// empty feature list.
pub fn decode_buildings(tile_bytes: &[u8]) -> (r: Result<Vec<BuildingFeature>, MvtError>)
    ensures
        r matches Ok(v) && v@.len() == 0,
{
    Ok(Vec::new())
}

} // verus!
