use buildings_core::render::{decode_sources, decode_terrain, MvtInput, TerrainInput, MVT_EXTENT};
use buildings_core::terrain::{
    decode_terrarium_webp, terrain_tile_from_pixels, terrarium_elevations, TerrainTile,
};
use image_webp::{ColorType, WebPEncoder};

fn webp_rgb(w: u32, h: u32, pixels: &[u8]) -> Vec<u8> {
    let mut out = Vec::new();
    WebPEncoder::new(&mut out).encode(pixels, w, h, ColorType::Rgb8).unwrap();
    out
}

#[test]
fn terrarium_formula_exact_in_256ths() {
    // R=128, G=0, B=0 is sea level; R=128, G=1, B=128 is 1.5 m.
    let buf = [128u8, 0, 0, 128, 1, 128, 0, 0, 0];
    let elev = terrarium_elevations(&buf, 3, 3);
    assert_eq!(elev, vec![0, 384, -32768 * 256]);
    assert_eq!(elev[1] as f32 / 256.0, 1.5);
}

#[test]
fn terrarium_skips_alpha_bytes() {
    let buf = [128u8, 2, 0, 255, 127, 255, 255, 255];
    let elev = terrarium_elevations(&buf, 2, 4);
    assert_eq!(elev, vec![512, -1]);
}

#[test]
fn decode_lossless_tile_keeps_coordinates_and_elevations() {
    // 2x2 raster: 0 m, 1.5 m, 100 m, -1/256 m.
    let pixels = [128u8, 0, 0, 128, 1, 128, 128, 100, 0, 127, 255, 255];
    let bytes = webp_rgb(2, 2, &pixels);
    let tile = match decode_terrarium_webp(15, 29104, 12902, &bytes) {
        Ok(t) => t,
        Err(_) => panic!("valid webp must decode"),
    };
    assert_eq!((tile.z, tile.x, tile.y), (15, 29104, 12902));
    assert_eq!((tile.width, tile.height), (2, 2));
    assert_eq!(tile.elev_x256, vec![0, 384, 25600, -1]);
}

#[test]
fn decode_rgba_tile_skips_alpha() {
    // 2x1 raster with alpha: 2 m, then -1/256 m.
    let pixels = [128u8, 2, 0, 255, 127, 255, 255, 255];
    let mut bytes = Vec::new();
    WebPEncoder::new(&mut bytes).encode(&pixels, 2, 1, ColorType::Rgba8).unwrap();
    let tile = match decode_terrarium_webp(14, 1, 2, &bytes) {
        Ok(t) => t,
        Err(_) => panic!("valid webp must decode"),
    };
    assert_eq!((tile.width, tile.height), (2, 1));
    assert_eq!(tile.elev_x256, vec![512, -1]);
}

#[test]
fn decode_rejects_garbage() {
    assert!(decode_terrarium_webp(1, 0, 0, b"not a webp").is_err());
}

#[test]
fn sample_corners_clamp_to_raster() {
    let tile = TerrainTile { width: 4, height: 3, z: 0, x: 0, y: 0, elev_x256: vec![0; 12] };
    assert_eq!(tile.sample_corners(1, 1), [5, 6, 9, 10]);
    assert_eq!(tile.sample_corners(-5, -2), [0, 1, 4, 5]);
    assert_eq!(tile.sample_corners(3, 2), [11, 11, 11, 11]);
    assert_eq!(tile.sample_corners(100, 0), [3, 3, 7, 7]);
}

#[test]
fn decode_sources_keeps_order_and_coordinates() {
    let a: [u8; 0] = [];
    let b = [1u8, 2, 3];
    let inputs = [
        MvtInput { z: 14, x: 14552, y: 6451, bytes: &a },
        MvtInput { z: 14, x: 14553, y: 6451, bytes: &b },
    ];
    let decoded = match decode_sources(&inputs) {
        Ok(d) => d,
        Err(_) => panic!("the decoder accepts every tile"),
    };
    assert_eq!(decoded.len(), 2);
    assert_eq!((decoded[1].z, decoded[1].x, decoded[1].y), (14, 14553, 6451));
    assert_eq!(decoded[0].tile.extent, MVT_EXTENT);
    assert!(decoded[0].tile.buildings.is_empty());
}

#[test]
fn decode_terrain_none_and_bad_bytes() {
    assert!(matches!(decode_terrain(None), Ok(None)));
    let bad = [0u8; 4];
    assert!(decode_terrain(Some(TerrainInput { z: 1, x: 0, y: 0, webp: &bad })).is_err());
}

#[test]
fn tile_from_pixels_keeps_size_and_coordinates() {
    let buf = [128u8, 0, 0, 9, 128, 1, 128, 9];
    let t = terrain_tile_from_pixels(14, 7, 9, 2, 1, 4, &buf);
    assert_eq!((t.width, t.height, t.z, t.x, t.y), (2, 1, 14, 7, 9));
    assert_eq!(t.elev_x256, vec![0, 384]);
}
