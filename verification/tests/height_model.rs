use buildings_core::features::FeatureEncoder;
use buildings_core::height_model::{GbtModel, ModelError, PreparedModel, Tree};

fn bits(v: f32) -> u32 {
    v.to_bits()
}

fn approx(a: f32, b: f32) -> bool {
    (a - b).abs() < 1e-4
}

/// Model over an empty-vocab encoder (12 features) with two depth-1 trees:
/// tree 0 splits feature 0, NaN left, leaves 0.5 / 1.0; tree 1 splits
/// feature 5, NaN right, leaves -0.2 / 0.3.
fn two_tree_model() -> GbtModel {
    let encoder = FeatureEncoder { class_vocab: vec![], subtype_vocab: vec![] };
    let feature_names = encoder.feature_names();
    GbtModel {
        version: 1,
        name: "test".to_string(),
        target: "log1p_height_m".to_string(),
        base_score_bits: bits(2.0),
        clamp_min_m_bits: bits(2.5),
        clamp_max_m_bits: bits(300.0),
        encoder,
        feature_names,
        trees: vec![
            Tree {
                feature: vec![0, -1, -1],
                threshold_bits: vec![bits(5.0), bits(0.5), bits(1.0)],
                left: vec![1, 0, 0],
                right: vec![2, 0, 0],
                default_left: vec![true, false, false],
            },
            Tree {
                feature: vec![5, -1, -1],
                threshold_bits: vec![bits(2.0), bits(-0.2), bits(0.3)],
                left: vec![1, 0, 0],
                right: vec![2, 0, 0],
                default_left: vec![false, false, false],
            },
        ],
    }
}

fn feats(v0: f32, v5: f32) -> Vec<u32> {
    let mut f = vec![bits(0.0); 12];
    f[0] = bits(v0);
    f[5] = bits(v5);
    f
}

/// Base score plus the leaves the walker reaches, summed in tree order.
fn predicted(m: &GbtModel, x: &[u32]) -> f32 {
    let mut s = f32::from_bits(m.base_score_bits);
    for v in m.leaf_values(x) {
        s += f32::from_bits(v);
    }
    s
}

#[test]
fn walker_takes_both_branches() {
    let m = two_tree_model();
    assert!(approx(predicted(&m, &feats(3.0, 1.0)), 2.0 + 0.5 - 0.2));
    assert!(approx(predicted(&m, &feats(7.0, 9.0)), 2.0 + 1.0 + 0.3));
}

#[test]
fn walker_routes_nan_by_default_direction() {
    let m = two_tree_model();
    assert!(approx(predicted(&m, &feats(f32::NAN, f32::NAN)), 2.0 + 0.5 + 0.3));
}

#[test]
fn leaf_only_tree_and_empty_trees() {
    let mut m = two_tree_model();
    m.trees = vec![Tree {
        feature: vec![-1],
        threshold_bits: vec![bits(0.25)],
        left: vec![0],
        right: vec![0],
        default_left: vec![false],
    }];
    assert!(m.validate().is_ok(), "leaf-only tree is valid");
    assert!(approx(predicted(&m, &feats(0.0, 0.0)), 2.25));

    m.trees = vec![];
    assert!(m.validate().is_ok(), "empty forest is valid");
    assert!(approx(predicted(&m, &feats(0.0, 0.0)), 2.0));
}

#[test]
fn validate_rejects_malformed_models() {
    let mut m = two_tree_model();
    m.trees[0].feature[0] = 12; // == encoder.len(), out of range
    assert!(m.validate().is_err());

    let mut m = two_tree_model();
    m.trees[0].left[0] = 0; // child <= parent: cycle
    assert!(m.validate().is_err());

    let mut m = two_tree_model();
    m.trees[0].right[0] = 40; // out of bounds
    assert!(m.validate().is_err());

    let mut m = two_tree_model();
    m.trees[1].threshold_bits.pop(); // mismatched array lengths
    assert!(m.validate().is_err());

    let mut m = two_tree_model();
    m.feature_names[0] = "wrong".to_string();
    assert!(m.validate().is_err());

    let mut m = two_tree_model();
    m.version = 2;
    assert!(m.validate().is_err());

    let mut m = two_tree_model();
    m.clamp_min_m_bits = bits(400.0); // min >= max
    assert!(m.validate().is_err());
}

#[test]
fn validate_reports_the_first_defect() {
    let mut m = two_tree_model();
    m.trees[0].left[0] = 0;
    match m.validate() {
        Err(ModelError::Invalid(msg)) => {
            assert_eq!(msg, "child index must be greater than parent (acyclic)")
        }
        _ => panic!("expected an invalid-model error"),
    }
    let mut m = two_tree_model();
    m.clamp_max_m_bits = f32::INFINITY.to_bits();
    match m.validate() {
        Err(ModelError::Invalid(msg)) => assert_eq!(msg, "clamp bounds must be finite"),
        _ => panic!("expected an invalid-model error"),
    }
}

#[test]
fn prepared_arena_matches_soa_walker() {
    let m = two_tree_model();
    assert!(m.validate().is_ok());
    let prepared = PreparedModel::new(two_tree_model());
    for (v0, v5) in [
        (3.0, 1.0),
        (7.0, 9.0),
        (3.0, 9.0),
        (7.0, 1.0),
        (f32::NAN, 1.0),
        (3.0, f32::NAN),
        (f32::NAN, f32::NAN),
    ] {
        let f = feats(v0, v5);
        assert_eq!(prepared.leaf_values(&f), m.leaf_values(&f), "flat/SoA divergence at ({v0}, {v5})");
    }
}

#[test]
fn n_features_is_encoder_length() {
    assert_eq!(two_tree_model().n_features(), 12);
}
