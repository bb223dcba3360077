use buildings_core::cities::{all, get, TruthSource};

#[test]
fn preset_names_are_unique() {
    let mut names: Vec<&str> = all().iter().map(|c| c.name).collect();
    names.sort_unstable();
    let before = names.len();
    names.dedup();
    assert_eq!(before, names.len(), "duplicate preset name");
}

#[test]
fn dutch_presets_use_bag3d_and_japanese_use_plateau() {
    for c in all() {
        let is_nl = matches!(c.name, "delft" | "amsterdam" | "rotterdam" | "groningen" | "maastricht");
        match (&c.truth, is_nl) {
            (TruthSource::Bag3d, true) | (TruthSource::Plateau { .. }, false) => {}
            _ => panic!("{} has wrong truth source {:?}", c.name, c.truth.label()),
        }
    }
    assert!(matches!(get("delft").expect("delft preset exists").truth, TruthSource::Bag3d));
}

#[test]
fn truth_labels_are_stable() {
    assert_eq!(get("chiyoda").unwrap().truth.label(), "plateau:13101");
    assert_eq!(get("rotterdam").unwrap().truth.label(), "3dbag");
}

#[test]
fn unknown_preset_is_none_and_boxes_are_millidegrees() {
    assert!(get("atlantis").is_none());
    let c = get("chiyoda").unwrap();
    assert_eq!((c.bbox.west, c.bbox.south, c.bbox.east, c.bbox.north), (139760, 35675, 139775, 35687));
    assert_eq!(c.note, "high-rise office core");
    assert_eq!(all().len(), 13);
}
