use buildings_core::dataset::{is_model_population, top_k_by_freq, top_k_indices};
use buildings_core::features::FeatureEncoder;
use buildings_core::gbt::{apply_splits, export_model, export_tree, new_tree, noop_tree, GrowNode, Lcg};
use buildings_core::overture::{
    cache_file_name, fetch_release_url, maybe_gunzip, overture_source, pick_latest_release, release_prefixes, tiles_in_range,
    SOURCE_Z,
};
use buildings_core::plateau::{fnv1a, mesh_code_range, parse_mesh_code, url_cache_file_name, urlencode, MeshCode};
use std::io::Write;

#[test]
fn release_url_and_cache_names() {
    assert_eq!(
        fetch_release_url("2025-01-22.0"),
        "https://overturemaps-tiles-us-west-2-beta.s3.amazonaws.com/2025-01-22.0/buildings.pmtiles"
    );
    assert_eq!(cache_file_name("2025-01-22.0", 14, 14552, 6451), "ov-2025-01-22.0-14-14552-6451.mvt");
    assert_eq!(cache_file_name("r", 0, 0, 9), "ov-r-0-0-9.mvt");
}

#[test]
fn tiles_cover_the_range_column_by_column() {
    assert_eq!(tiles_in_range(3, 7, 4, 8), vec![(3, 7), (3, 8), (4, 7), (4, 8)]);
    assert!(tiles_in_range(5, 0, 4, 0).is_empty());
    assert_eq!(tiles_in_range(9, 9, 9, 9), vec![(9, 9)]);
}

#[test]
fn empty_payload_is_no_tile() {
    assert!(overture_source(1, 2, vec![]).is_none());
    let s = overture_source(1, 2, vec![7]).unwrap();
    assert_eq!((s.z, s.x, s.y, s.bytes), (SOURCE_Z, 1, 2, vec![7]));
}

#[test]
fn gzip_payloads_are_inflated_and_others_kept() {
    let raw = b"mvt tile bytes".to_vec();
    let mut enc = flate2::write::GzEncoder::new(Vec::new(), flate2::Compression::default());
    enc.write_all(&raw).unwrap();
    let gz = enc.finish().unwrap();
    assert_ne!(gz, raw);
    assert_eq!(maybe_gunzip(&gz).unwrap(), raw);
    assert_eq!(maybe_gunzip(&raw).unwrap(), raw);
    assert!(maybe_gunzip(&[0x1f, 0x8b, 0, 0]).is_err());
}

#[test]
fn listing_parse_and_latest_release_prefers_non_beta() {
    let xml = b"<ListBucketResult><CommonPrefixes><Prefix>2024-12-18.0/</Prefix></CommonPrefixes>\
<CommonPrefixes><Prefix>2025-01-22.0-beta/</Prefix></CommonPrefixes>\
<CommonPrefixes><Prefix>2025-01-22.0/</Prefix></CommonPrefixes>\
<CommonPrefixes><Prefix>tools/</Prefix></CommonPrefixes></ListBucketResult>";
    let rels = release_prefixes(xml);
    let names: Vec<String> = rels.iter().map(|r| String::from_utf8(r.clone()).unwrap()).collect();
    assert_eq!(names, vec!["2024-12-18.0", "2025-01-22.0-beta", "2025-01-22.0"]);
    let i = pick_latest_release(&rels).unwrap();
    assert_eq!(names[i], "2025-01-22.0");
}

#[test]
fn latest_release_falls_back_to_beta_and_empty_is_none() {
    let only_beta = vec![b"2025-02-01.0-beta".to_vec(), b"2025-01-01.0".to_vec()];
    assert_eq!(pick_latest_release(&only_beta), Some(0));
    assert_eq!(pick_latest_release(&vec![]), None);
}

#[test]
fn fnv1a_known_values() {
    assert_eq!(fnv1a(b""), 0xcbf29ce484222325);
    assert_eq!(fnv1a(b"a"), 0xaf63dc4c8601ec8c);
    assert_eq!(url_cache_file_name("", "json"), "cbf29ce484222325.json");
}

#[test]
fn urlencode_reserved_and_unreserved() {
    assert_eq!(urlencode("aZ09-_.~"), b"aZ09-_.~".to_vec());
    assert_eq!(urlencode("a b/c"), b"a%20b%2Fc".to_vec());
    assert_eq!(urlencode("\u{e9}"), b"%C3%A9".to_vec());
}

#[test]
fn mesh_code_from_gml_url() {
    let url = "https://example.org/udx/bldg/53394509_bldg_6697_op.gml";
    let (s, e) = mesh_code_range(url);
    assert_eq!(&url[s..e], "53394509");
    assert_eq!(
        parse_mesh_code(&url[s..e]),
        Some(MeshCode { lat1: 53, lon1: 39, lat2: 4, lon2: 5, lat3: 0, lon3: 9 })
    );
    assert_eq!(parse_mesh_code("5339450"), None);
    assert_eq!(parse_mesh_code("5339450x"), None);
    let (s, e) = mesh_code_range("no_slash");
    assert_eq!((s, e), (0, 2));
}

#[test]
fn top_k_by_freq_breaks_ties_in_key_order() {
    // Frequencies: a=2, b=3, c=2, d=1 (key order). top 2 -> [b, a].
    let entries = vec![("a".to_string(), 2), ("b".to_string(), 3), ("c".to_string(), 2), ("d".to_string(), 1)];
    assert_eq!(top_k_by_freq(&entries, 2), vec!["b", "a"]);
    assert_eq!(top_k_by_freq(&entries, 9), vec!["b", "a", "c", "d"]);
    assert!(top_k_by_freq(&entries, 0).is_empty());
    assert_eq!(top_k_indices(&vec![1, 5, 5], 3), vec![1, 2, 0]);
}

#[test]
fn lcg_is_deterministic_and_wrapping() {
    let mut a = Lcg(7);
    let mut b = Lcg(7);
    let x = a.next_u64();
    assert_eq!(x, b.next_u64());
    assert_eq!(x, 7u64.wrapping_mul(6364136223846793005).wrapping_add(1442695040888963407));
    assert_eq!(a.0, x);
    assert_ne!(a.next_u64(), x);
}

#[test]
fn grown_tree_exports_and_validates() {
    let mut nodes = new_tree();
    let next = apply_splits(&mut nodes, &vec![0], &vec![Some((3, 5.0f32.to_bits(), true))], 12);
    assert_eq!(next, vec![1, 2]);
    let next2 = apply_splits(&mut nodes, &next, &vec![None, Some((0, 1.0f32.to_bits(), false))], 12);
    assert_eq!(next2, vec![3, 4]);
    assert_eq!(nodes.len(), 5);
    assert_eq!(nodes[2].depth, 1);
    assert_eq!(nodes[3].depth, 2);
    nodes[1].value_bits = 0.5f32.to_bits();
    let t = export_tree(&nodes, 12);
    assert_eq!(t.feature, vec![3, -1, 0, -1, -1]);
    assert_eq!(t.left, vec![1, 0, 3, 0, 0]);
    assert_eq!(t.right, vec![2, 0, 4, 0, 0]);
    assert_eq!(t.default_left, vec![true, false, false, false, false]);
    assert_eq!(t.threshold_bits[1], 0.5f32.to_bits());

    let noop = vec![GrowNode { split: None, value_bits: 0, depth: 0 }];
    assert!(noop_tree(&noop));
    assert!(!noop_tree(&nodes));
    let enc = FeatureEncoder { class_vocab: vec![], subtype_vocab: vec![] };
    let m = export_model(&vec![nodes, noop], 2.0f32.to_bits(), 2.5f32.to_bits(), 300.0f32.to_bits(), enc, "t".to_string());
    assert_eq!(m.trees.len(), 1);
    assert_eq!(m.target, "log1p_height_m");
    assert!(m.validate().is_ok());
}

#[test]
fn model_population_has_neither_height_nor_floors() {
    assert!(is_model_population(None, None));
    assert!(!is_model_population(Some(12.0f32.to_bits()), None));
    assert!(!is_model_population(None, Some(3)));
    assert!(!is_model_population(Some(12.0f32.to_bits()), Some(3)));
}
