use buildings_core::features::{one_hot_slot, tile_anchors, Anchor, FeatureEncoder};
use buildings_core::mvt::{BuildingFeature, DecodedTile};

fn encoder() -> FeatureEncoder {
    FeatureEncoder {
        class_vocab: vec!["house".to_string(), "office".to_string()],
        subtype_vocab: vec!["residential".to_string()],
    }
}

fn feature() -> BuildingFeature {
    BuildingFeature {
        id: None,
        gers_id: None,
        name: None,
        subtype: None,
        class: None,
        rings: vec![],
        height_bits: None,
        min_height_bits: None,
        roof_height_bits: None,
        roof_shape: None,
        num_floors: None,
        level: None,
        is_underground: None,
        has_parts: None,
    }
}

#[test]
fn encoder_len_and_names_agree() {
    let enc = encoder();
    // 10 numeric + (2 class + other) + (1 subtype + other).
    assert_eq!(enc.len(), 15);
    assert!(!enc.is_empty());
    let names = enc.feature_names();
    assert_eq!(names.len(), enc.len());
    assert_eq!(names[0], "log1p_area_m2");
    assert_eq!(names[10], "class=house");
    assert_eq!(names[12], "class=other");
    assert_eq!(names[13], "subtype=residential");
    assert_eq!(names[14], "subtype=other");
}

#[test]
fn empty_vocab_encoder_has_twelve_features() {
    let enc = FeatureEncoder { class_vocab: vec![], subtype_vocab: vec![] };
    assert_eq!(enc.len(), 12);
    let names = enc.feature_names();
    assert_eq!(names[9], "has_parts");
    assert_eq!(names[10], "class=other");
    assert_eq!(names[11], "subtype=other");
}

#[test]
fn one_hot_slot_known_unknown_and_missing() {
    let enc = encoder();
    assert_eq!(one_hot_slot(&enc.class_vocab, Some("office")), Some(1));
    assert_eq!(one_hot_slot(&enc.class_vocab, Some("castle")), Some(2));
    assert_eq!(one_hot_slot(&enc.class_vocab, None), None);
}

#[test]
fn tile_anchors_counts_and_classifies() {
    let mut explicit = feature();
    explicit.height_bits = Some(10.0f64.to_bits());
    let mut floors = feature();
    floors.height_bits = Some(0.0f64.to_bits());
    floors.num_floors = Some(3);
    let mut underground = feature();
    underground.height_bits = Some(50.0f64.to_bits());
    underground.is_underground = Some(true);
    let plain = feature();
    let tile = DecodedTile { extent: 4096, buildings: vec![explicit, floors, underground, plain] };
    let (count, anchors) = tile_anchors(&tile);
    assert_eq!(count, 3);
    assert_eq!(
        anchors,
        vec![Anchor::Height { height_bits: 10.0f64.to_bits() }, Anchor::Floors { floors: 3 }]
    );
}

#[test]
fn tile_anchors_empty_tile() {
    let tile = DecodedTile { extent: 4096, buildings: vec![] };
    let (count, anchors) = tile_anchors(&tile);
    assert_eq!(count, 0);
    assert!(anchors.is_empty());
}
