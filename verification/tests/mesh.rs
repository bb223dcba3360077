use buildings_core::fragments::{gather_buildings, group_fragments_by_id};
use buildings_core::height_config::{
    lookup_height, FootprintBucket, FootprintCurve, FootprintTable, HeightConfig, ModelMode, NameTable, UrbanThresholds,
};
use buildings_core::mesh::{
    classify_urban, default_height_meters, doubled_signed_area, feature_slot, group_polygons, polygon_to_aabb,
    polygon_vertex_count, roof_hole_starts, strip_close, wall_edge, wall_quad_indices, AreaFilter, HeightChoice,
    HeightCascadeInput, Polygon, Source, UrbanLevel,
};
use buildings_core::mvt::{BuildingFeature, DecodedTile};

fn cascade<'a>(
    explicit: Option<u64>,
    floors: Option<u32>,
    class: Option<&'a str>,
    subtype: Option<&'a str>,
    area_bits: u32,
) -> HeightCascadeInput<'a> {
    HeightCascadeInput {
        explicit_height_bits: explicit,
        num_floors: floors,
        class,
        subtype,
        footprint_m2_bits: area_bits,
        perimeter_m_bits: 0,
        has_name: false,
        has_parts: false,
        roof_shape: None,
        min_height_bits: None,
    }
}

fn f32b(v: f32) -> u32 {
    v.to_bits()
}

fn f64b(v: f64) -> u64 {
    v.to_bits()
}

fn square(x0: i32, y0: i32, side: i32) -> Vec<[i32; 2]> {
    vec![[x0, y0], [x0 + side, y0], [x0 + side, y0 + side], [x0, y0 + side], [x0, y0]]
}

fn curve(heights: [f64; 4]) -> FootprintCurve {
    FootprintCurve {
        buckets: vec![
            FootprintBucket { max_area_m2_bits: f32b(60.0), height_m_bits: f64b(heights[0]) },
            FootprintBucket { max_area_m2_bits: f32b(200.0), height_m_bits: f64b(heights[1]) },
            FootprintBucket { max_area_m2_bits: f32b(800.0), height_m_bits: f64b(heights[2]) },
            FootprintBucket { max_area_m2_bits: f32b(1.0e9), height_m_bits: f64b(heights[3]) },
        ],
    }
}

fn name_table(entries: &[(&str, f64)]) -> NameTable {
    let mut t = NameTable::new();
    for (k, v) in entries {
        t.insert(k.to_string(), f64b(*v));
    }
    t
}

fn config(model: ModelMode) -> HeightConfig {
    HeightConfig {
        meters_per_floor_bits: f64b(3.3),
        class_height_m: name_table(&[("house", 6.0), ("office", 40.0)]),
        subtype_height_m: name_table(&[("residential", 8.0)]),
        urban_thresholds: UrbanThresholds {
            dense_urban_min_bits: f32b(1500.0),
            urban_min_bits: f32b(800.0),
            suburban_min_bits: f32b(200.0),
        },
        footprint: FootprintTable {
            dense_urban: curve([12.0, 15.0, 18.0, 24.0]),
            urban: curve([9.0, 9.0, 12.0, 12.0]),
            suburban: curve([6.0, 6.0, 9.0, 10.0]),
            rural: curve([4.0, 6.0, 9.0, 10.0]),
        },
        model,
    }
}

fn feature(id: Option<u64>, rings: Vec<Vec<[i32; 2]>>) -> BuildingFeature {
    BuildingFeature {
        id,
        gers_id: None,
        name: None,
        subtype: None,
        class: None,
        rings,
        height_bits: None,
        min_height_bits: None,
        roof_height_bits: None,
        roof_shape: None,
        num_floors: None,
        level: None,
        is_underground: None,
        has_parts: None,
    }
}

#[test]
fn strip_close_drops_only_a_repeated_first_vertex() {
    assert_eq!(strip_close(&square(0, 0, 10)).len(), 4);
    assert_eq!(strip_close(&vec![[0, 0], [1, 0], [1, 1]]).len(), 3);
    assert_eq!(strip_close(&vec![[5, 5]]), vec![[5, 5]]);
}

#[test]
fn signed_area_is_twice_the_shoelace_area() {
    let ring = strip_close(&square(0, 0, 100));
    assert_eq!(doubled_signed_area(&ring), 20000);
    let mut rev = ring.clone();
    rev.reverse();
    assert_eq!(doubled_signed_area(&rev), -20000);
}

#[test]
fn group_polygons_attaches_holes_to_the_last_outer() {
    let mut hole = square(10, 10, 20);
    hole.reverse();
    let rings = vec![
        // A leading hole with no outer yet is dropped.
        hole.clone(),
        square(0, 0, 100),
        hole,
        // Degenerate ring: fewer than 3 vertices after stripping.
        vec![[0, 0], [1, 1], [0, 0]],
        square(200, 0, 50),
    ];
    let polys = group_polygons(&rings);
    assert_eq!(polys.len(), 2);
    assert_eq!(polys[0].outer.len(), 4);
    assert_eq!(polys[0].holes.len(), 1);
    assert_eq!(polys[1].holes.len(), 0);
    assert_eq!(polygon_vertex_count(&polys[0]), 8);
}

#[test]
fn aabb_of_a_polygon() {
    let p = Polygon { outer: vec![[3, 9], [7, 2], [5, 11]], holes: vec![vec![[4, 4], [5, 5], [4, 5]]] };
    let b = polygon_to_aabb(&p);
    assert_eq!(b.outer, vec![[3, 2], [7, 2], [7, 11], [3, 11]]);
    assert!(b.holes.is_empty());
}

#[test]
fn area_filter_bounds() {
    let off = AreaFilter { min_m2_bits: 0, max_m2_bits: 0 };
    assert!(off.accepts(f32b(0.0)));
    assert!(off.accepts(f32b(1.0e8)));
    let f = AreaFilter { min_m2_bits: f32b(10.0), max_m2_bits: f32b(100.0) };
    assert!(!f.accepts(f32b(9.5)));
    assert!(f.accepts(f32b(10.0)));
    assert!(f.accepts(f32b(99.0)));
    assert!(!f.accepts(f32b(100.0)));
    // NaN compares false both ways, so it passes.
    assert!(f.accepts(f32::NAN.to_bits()));
}

#[test]
fn urban_levels_by_threshold() {
    let cfg = config(ModelMode::Off);
    assert_eq!(classify_urban(f32b(0.0), &cfg), UrbanLevel::Rural);
    assert_eq!(classify_urban(f32b(200.0), &cfg), UrbanLevel::Suburban);
    assert_eq!(classify_urban(f32b(799.0), &cfg), UrbanLevel::Suburban);
    assert_eq!(classify_urban(f32b(800.0), &cfg), UrbanLevel::Urban);
    assert_eq!(classify_urban(f32b(2000.0), &cfg), UrbanLevel::DenseUrban);
    assert_eq!(UrbanLevel::DenseUrban.as_str(), "dense_urban");
    assert_eq!(UrbanLevel::Rural.as_str(), "rural");
}

#[test]
fn cascade_prefers_explicit_then_floors() {
    let cfg = config(ModelMode::Off);
    let c = default_height_meters(&cascade(Some(f64b(10.0)), Some(3), Some("office"), None, f32b(50.0)), UrbanLevel::Rural, &cfg);
    assert_eq!(c, HeightChoice::Explicit { height_bits: f64b(10.0) });
    assert_eq!(c.method(), "explicit");
    let c = default_height_meters(&cascade(Some(f64b(0.0)), Some(3), Some("office"), None, f32b(50.0)), UrbanLevel::Rural, &cfg);
    assert_eq!(c, HeightChoice::NumFloors { floors: 3 });
    assert_eq!(c.method(), "num_floors");
}

#[test]
fn cascade_tables_then_footprint() {
    let cfg = config(ModelMode::Off);
    let c = default_height_meters(&cascade(None, None, Some("office"), Some("residential"), f32b(50.0)), UrbanLevel::Rural, &cfg);
    assert_eq!(c, HeightChoice::Class { height_bits: f64b(40.0) });
    let c = default_height_meters(&cascade(None, None, Some("castle"), Some("residential"), f32b(50.0)), UrbanLevel::Rural, &cfg);
    assert_eq!(c, HeightChoice::Subtype { height_bits: f64b(8.0) });
    assert_eq!(c.method(), "subtype");
    let c = default_height_meters(&cascade(None, None, None, None, f32b(300.0)), UrbanLevel::Rural, &cfg);
    assert_eq!(c, HeightChoice::Footprint { height_bits: f64b(9.0), density: false });
    assert_eq!(c.method(), "footprint");
    let c = default_height_meters(&cascade(None, None, None, None, f32b(2000.0)), UrbanLevel::DenseUrban, &cfg);
    assert_eq!(c, HeightChoice::Footprint { height_bits: f64b(24.0), density: true });
    assert_eq!(c.method(), "density");
}

#[test]
fn model_mode_replaces_the_tables() {
    let cfg = config(ModelMode::On);
    let c = default_height_meters(&cascade(None, None, Some("office"), None, f32b(50.0)), UrbanLevel::Urban, &cfg);
    assert_eq!(c, HeightChoice::Model);
    assert_eq!(c.method(), "model");
    let c = default_height_meters(&cascade(Some(f64b(12.0)), None, Some("office"), None, f32b(50.0)), UrbanLevel::Urban, &cfg);
    assert_eq!(c, HeightChoice::Explicit { height_bits: f64b(12.0) });
}

#[test]
fn footprint_lookup_falls_back() {
    let empty = FootprintCurve { buckets: vec![] };
    assert_eq!(f64::from_bits(empty.lookup(f32b(5.0))), 3.0);
    let c = curve([4.0, 6.0, 9.0, 10.0]);
    assert_eq!(f64::from_bits(c.lookup(f32b(59.9))), 4.0);
    assert_eq!(f64::from_bits(c.lookup(f32b(60.0))), 6.0);
    assert_eq!(f64::from_bits(c.lookup(f32b(2.0e9))), 10.0);
}

#[test]
fn wall_edges_forward_and_reversed() {
    assert_eq!(wall_edge(4, 0, false), (0, 1));
    assert_eq!(wall_edge(4, 3, false), (3, 0));
    assert_eq!(wall_edge(4, 0, true), (3, 2));
    assert_eq!(wall_edge(4, 2, true), (1, 0));
    assert_eq!(wall_edge(4, 3, true), (0, 3));
    assert_eq!(wall_quad_indices(8), [8, 10, 9, 8, 11, 10]);
}

#[test]
fn roof_layout_skips_short_holes() {
    let (starts, total) = roof_hole_starts(5, &vec![4, 2, 3]);
    assert_eq!(starts, vec![5, 9]);
    assert_eq!(total, 12);
    assert_eq!(feature_slot(7), 7);
    assert_eq!(feature_slot(70000), 65534);
}

#[test]
fn fragments_group_by_feature_id() {
    assert_eq!(
        group_fragments_by_id(&vec![Some(7), None, Some(3), Some(7), None, Some(3)]),
        vec![vec![0, 3], vec![1], vec![2, 5], vec![4]]
    );
    assert!(group_fragments_by_id(&vec![]).is_empty());
}

#[test]
fn gather_drops_underground_and_merges_tiles() {
    let mut flagged = feature(Some(2), vec![square(0, 0, 100)]);
    flagged.is_underground = Some(true);
    let mut below = feature(Some(3), vec![square(0, 0, 100)]);
    below.level = Some(-1);
    let mut level0 = feature(Some(4), vec![square(0, 0, 100)]);
    level0.level = Some(0);
    let t0 = DecodedTile {
        extent: 4096,
        buildings: vec![feature(Some(1), vec![square(0, 0, 100)]), flagged, below, level0],
    };
    let t1 = DecodedTile {
        extent: 4096,
        buildings: vec![feature(Some(1), vec![square(0, 0, 50)]), feature(None, vec![square(0, 0, 10), square(20, 0, 10)])],
    };
    let sources = [Source { z: 14, x: 0, y: 0, tile: &t0 }, Source { z: 14, x: 1, y: 0, tile: &t1 }];
    let (frags, buildings) = gather_buildings(&sources);
    assert_eq!(frags.len(), 5);
    let ids: Vec<Option<u64>> = frags.iter().map(|f| f.feature_id).collect();
    assert_eq!(ids, vec![Some(1), Some(4), Some(1), None, None]);
    assert_eq!((frags[2].source_idx, frags[2].feature_idx), (1, 0));
    // Building 1 spans both tiles; each id-less polygon stands alone.
    assert_eq!(buildings, vec![vec![0, 2], vec![1], vec![3], vec![4]]);
}

#[test]
fn name_table_insert_replaces_and_keeps_keys_unique() {
    let mut t = NameTable::new();
    t.insert("house".to_string(), f64b(6.0));
    t.insert("office".to_string(), f64b(40.0));
    t.insert("house".to_string(), f64b(7.5));
    assert_eq!(t.entries().len(), 2);
    assert_eq!(lookup_height(&t, "house"), Some(f64b(7.5)));
    assert_eq!(lookup_height(&t, "office"), Some(f64b(40.0)));
    assert_eq!(lookup_height(&t, "castle"), None);
}
