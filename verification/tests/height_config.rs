use buildings_core::height_config::{lookup_height, HeightConfig, ModelMode};

fn f64b(v: f64) -> u64 {
    v.to_bits()
}

fn f32b(v: f32) -> u32 {
    v.to_bits()
}

#[test]
fn default_config_values() {
    let cfg = HeightConfig::default();
    assert_eq!(cfg.meters_per_floor_bits, f64b(3.3));
    assert_eq!(lookup_height(&cfg.class_height_m, "house"), Some(f64b(6.0)));
    assert_eq!(lookup_height(&cfg.class_height_m, "office"), Some(f64b(40.0)));
    assert_eq!(lookup_height(&cfg.class_height_m, "silo"), Some(f64b(5.0)));
    assert_eq!(lookup_height(&cfg.class_height_m, "transportation"), Some(f64b(12.0)));
    assert_eq!(lookup_height(&cfg.class_height_m, "castle"), None);
    assert_eq!(lookup_height(&cfg.subtype_height_m, "residential"), Some(f64b(8.0)));
    assert_eq!(lookup_height(&cfg.subtype_height_m, "service"), Some(f64b(5.0)));
    assert_eq!(cfg.class_height_m.entries().len(), 69);
    assert_eq!(cfg.subtype_height_m.entries().len(), 13);
    assert_eq!(cfg.urban_thresholds.dense_urban_min_bits, f32b(1500.0));
    assert_eq!(cfg.urban_thresholds.urban_min_bits, f32b(800.0));
    assert_eq!(cfg.urban_thresholds.suburban_min_bits, f32b(200.0));
    assert_eq!(cfg.model, ModelMode::Off);
}

#[test]
fn default_density_floors() {
    let cfg = HeightConfig::default();
    for area in [0.0f32, 10.0, 59.9, 60.0, 199.0, 200.0, 799.0, 800.0, 5000.0, 1.0e9, 1.0e12] {
        let urban = f64::from_bits(cfg.footprint.urban.lookup(f32b(area)));
        let dense = f64::from_bits(cfg.footprint.dense_urban.lookup(f32b(area)));
        assert!(urban >= 9.0, "urban {area}: {urban}");
        assert!(dense >= 12.0, "dense {area}: {dense}");
    }
    assert_eq!(f64::from_bits(cfg.footprint.dense_urban.lookup(f32b(1000.0))), 24.0);
    assert_eq!(f64::from_bits(cfg.footprint.rural.lookup(f32b(30.0))), 4.0);
    assert_eq!(f64::from_bits(cfg.footprint.suburban.lookup(f32b(900.0))), 10.0);
}
