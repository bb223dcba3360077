//! Feature-vector layout shared by the offline trainer and the inference
//! path: ten fixed numeric features, then a one-hot group per categorical
//! field (`class`, then `subtype`), each with a trailing `=other` slot.

use vstd::prelude::*;
use crate::float_bits::{f64_bits_is_positive, f64_is_positive};
use crate::mvt::{underground, BuildingFeature, DecodedTile};
use crate::text::{concat_str, str_eq};

verus! {

/// Number of fixed numeric features that precede the one-hot groups.
pub const NUM_NUMERIC_FEATURES: usize = 10;

/// Upper bound on the encoded feature-vector length.
pub const MAX_FEATURES: usize = 64;

/// Name of numeric feature `i` (indices 0-9), in encoding order.
pub open spec fn numeric_name(i: int) -> Seq<char> {
    if i == 0 {
        "log1p_area_m2"@
    } else if i == 1 {
        "log1p_perimeter_m"@
    } else if i == 2 {
        "compactness"@
    } else if i == 3 {
        "log1p_buildings_in_tile"@
    } else if i == 4 {
        "log1p_anchor_count"@
    } else if i == 5 {
        "log1p_anchor_median_m"@
    } else if i == 6 {
        "log1p_anchor_p90_m"@
    } else if i == 7 {
        "min_height_m"@
    } else if i == 8 {
        "has_name"@
    } else {
        "has_parts"@
    }
}

fn numeric_feature_name(i: usize) -> (r: &'static str)
    requires
        i < NUM_NUMERIC_FEATURES,
    ensures
        r@ == numeric_name(i as int),
{
    if i == 0 {
        "log1p_area_m2"
    } else if i == 1 {
        "log1p_perimeter_m"
    } else if i == 2 {
        "compactness"
    } else if i == 3 {
        "log1p_buildings_in_tile"
    } else if i == 4 {
        "log1p_anchor_count"
    } else if i == 5 {
        "log1p_anchor_median_m"
    } else if i == 6 {
        "log1p_anchor_p90_m"
    } else if i == 7 {
        "min_height_m"
    } else if i == 8 {
        "has_name"
    } else {
        "has_parts"
    }
}

/// Encoder mapping a building to a fixed-order feature vector. The two
/// vocabularies are learned by the trainer and shipped inside the model
/// artifact, so every prediction re-uses the train-time layout.
pub struct FeatureEncoder {
    pub class_vocab: Vec<String>,
    pub subtype_vocab: Vec<String>,
}

/// Encoded length of an encoder with vocabularies of these sizes.
pub open spec fn encoded_len(n_class: int, n_subtype: int) -> int {
    NUM_NUMERIC_FEATURES + n_class + 1 + n_subtype + 1
}

/// Name of feature `i` of `enc`: the numeric names, then `class=<v>` for
/// each class-vocab entry and `class=other`, then the same for subtypes.
pub open spec fn feature_name(enc: FeatureEncoder, i: int) -> Seq<char> {
    let nc = enc.class_vocab@.len() as int;
    let ns = enc.subtype_vocab@.len() as int;
    if i < NUM_NUMERIC_FEATURES {
        numeric_name(i)
    } else if i < NUM_NUMERIC_FEATURES + nc {
        "class="@ + enc.class_vocab@[i - NUM_NUMERIC_FEATURES]@
    } else if i == NUM_NUMERIC_FEATURES + nc {
        "class=other"@
    } else if i < NUM_NUMERIC_FEATURES + nc + 1 + ns {
        "subtype="@ + enc.subtype_vocab@[i - NUM_NUMERIC_FEATURES - nc - 1]@
    } else {
        "subtype=other"@
    }
}

/// Whatever the vocabularies, the ten numeric features come first, named
/// in encoding order: footprint area, perimeter, compactness, buildings in
/// the tile, anchor count, anchor median height, anchor 90th-percentile
/// height, minimum height, has-name and has-parts.
pub proof fn law_numeric_feature_names(enc: FeatureEncoder)
    ensures
        feature_name(enc, 0) == "log1p_area_m2"@,
        feature_name(enc, 1) == "log1p_perimeter_m"@,
        feature_name(enc, 2) == "compactness"@,
        feature_name(enc, 3) == "log1p_buildings_in_tile"@,
        feature_name(enc, 4) == "log1p_anchor_count"@,
        feature_name(enc, 5) == "log1p_anchor_median_m"@,
        feature_name(enc, 6) == "log1p_anchor_p90_m"@,
        feature_name(enc, 7) == "min_height_m"@,
        feature_name(enc, 8) == "has_name"@,
        feature_name(enc, 9) == "has_parts"@,
{
}

impl FeatureEncoder {
    /// Total encoded length: the 10 numeric features, then one slot per
    /// class-vocab entry plus `class=other`, then the same for subtypes.
    pub fn len(&self) -> (r: usize)
        requires
            self.class_vocab@.len() + self.subtype_vocab@.len() + 12 <= usize::MAX,
        ensures
            r == encoded_len(self.class_vocab@.len() as int, self.subtype_vocab@.len() as int),
    {
        NUM_NUMERIC_FEATURES + self.class_vocab.len() + 1 + self.subtype_vocab.len() + 1
    }

    /// Always `false`: there are always the 10 numeric features.
    pub fn is_empty(&self) -> (r: bool)
        ensures
            r == false,
    {
        false
    }

    /// The feature names in encoding order, index-for-index with the
    /// encoded vector.
    pub fn feature_names(&self) -> (names: Vec<String>)
        requires
            self.class_vocab@.len() + self.subtype_vocab@.len() + 12 <= usize::MAX,
        ensures
            names@.len() == encoded_len(self.class_vocab@.len() as int, self.subtype_vocab@.len() as int),
            forall|i: int| 0 <= i < names@.len() ==> #[trigger] names@[i]@ == feature_name(*self, i),
    {
        let mut names: Vec<String> = Vec::with_capacity(self.len());
        for i in 0..NUM_NUMERIC_FEATURES
            invariant
                names@.len() == i,
                forall|k: int| 0 <= k < i ==> #[trigger] names@[k]@ == feature_name(*self, k),
        {
            names.push(numeric_feature_name(i).to_owned());
        }
        let nc = self.class_vocab.len();
        for j in 0..nc
            invariant
                nc == self.class_vocab@.len(),
                names@.len() == NUM_NUMERIC_FEATURES + j,
                forall|k: int| 0 <= k < NUM_NUMERIC_FEATURES + j ==> #[trigger] names@[k]@ == feature_name(*self, k),
        {
            names.push(concat_str("class=", self.class_vocab[j].as_str()));
        }
        names.push("class=other".to_owned());
        let ns = self.subtype_vocab.len();
        for j in 0..ns
            invariant
                nc == self.class_vocab@.len(),
                ns == self.subtype_vocab@.len(),
                names@.len() == NUM_NUMERIC_FEATURES + nc + 1 + j,
                forall|k: int| 0 <= k < NUM_NUMERIC_FEATURES + nc + 1 + j ==> #[trigger] names@[k]@ == feature_name(*self, k),
        {
            names.push(concat_str("subtype=", self.subtype_vocab[j].as_str()));
        }
        names.push("subtype=other".to_owned());
        names
    }
}

/// Which slot of a `vocab.len() + 1` one-hot group a categorical value
/// fires: the first matching vocab entry, the trailing `=other` slot for a
/// value that is present but not in the vocab, or none for an absent value.
pub fn one_hot_slot(vocab: &Vec<String>, value: Option<&str>) -> (r: Option<usize>)
    ensures
        value is None ==> r is None,
        value matches Some(v) ==> (r matches Some(i) && (
            (i < vocab@.len() && vocab@[i as int]@ == v@ && forall|j: int| 0 <= j < i ==> vocab@[j]@ != v@)
            || (i == vocab@.len() && forall|j: int| 0 <= j < vocab@.len() ==> vocab@[j]@ != v@))),
{
    match value {
        None => None,
        Some(v) => {
            let mut i: usize = 0;
            while i < vocab.len()
                invariant
                    i <= vocab@.len(),
                    value == Some(v),
                    forall|j: int| 0 <= j < i ==> vocab@[j]@ != v@,
                decreases vocab@.len() - i,
            {
                if str_eq(vocab[i].as_str(), v) {
                    return Some(i);
                }
                i = i + 1;
            }
            Some(vocab.len())
        },
    }
}

/// What makes a building a height anchor of its tile: a trusted height
/// from cascade steps 1-2.
#[derive(Clone, Copy, PartialEq, Eq, Debug, Structural)]
pub enum Anchor {
    /// Explicit Overture `height` (an `f64`), positive.
    Height { height_bits: u64 },
    /// `num_floors`, positive (its height is floors times metres per floor).
    Floors { floors: u32 },
}

/// The anchor a feature provides, if any: a positive explicit height, or
/// failing that a positive floor count.
pub open spec fn anchor_of(f: BuildingFeature) -> Option<Anchor> {
    if f.height_bits matches Some(h) && f64_is_positive(h) {
        Some(Anchor::Height { height_bits: f.height_bits.unwrap() })
    } else if f.num_floors matches Some(l) && l > 0 {
        Some(Anchor::Floors { floors: f.num_floors.unwrap() })
    } else {
        None
    }
}

/// Buildings among the first `k` features that are not flagged
/// underground.
pub open spec fn counted_buildings(feats: Seq<BuildingFeature>, k: int) -> int
    decreases k,
{
    if k <= 0 {
        0
    } else {
        counted_buildings(feats, k - 1) + if underground(feats[k - 1]) { 0int } else { 1 }
    }
}

/// Anchors of the first `k` features, in order, skipping features flagged
/// underground.
pub open spec fn tile_anchor_list(feats: Seq<BuildingFeature>, k: int) -> Seq<Anchor>
    decreases k,
{
    if k <= 0 {
        Seq::empty()
    } else if !underground(feats[k - 1]) && anchor_of(feats[k - 1]) is Some {
        tile_anchor_list(feats, k - 1).push(anchor_of(feats[k - 1]).unwrap())
    } else {
        tile_anchor_list(feats, k - 1)
    }
}

proof fn lemma_counted_buildings_bound(feats: Seq<BuildingFeature>, k: int)
    requires
        0 <= k,
    ensures
        0 <= counted_buildings(feats, k) <= k,
    decreases k,
{
    if k > 0 {
        lemma_counted_buildings_bound(feats, k - 1);
    }
}

/// First pass over a source tile: how many buildings it holds (features
/// not flagged underground) and, in order, the anchors among them.
pub fn tile_anchors(tile: &DecodedTile) -> (r: (u32, Vec<Anchor>))
    requires
        tile.buildings@.len() <= u32::MAX,
    ensures
        r.0 == counted_buildings(tile.buildings@, tile.buildings@.len() as int),
        r.1@ == tile_anchor_list(tile.buildings@, tile.buildings@.len() as int),
{
    let feats = &tile.buildings;
    let mut count: u32 = 0;
    let mut anchors: Vec<Anchor> = Vec::new();
    for k in 0..feats.len()
        invariant
            feats@.len() <= u32::MAX,
            count == counted_buildings(feats@, k as int),
            anchors@ == tile_anchor_list(feats@, k as int),
    {
        proof { lemma_counted_buildings_bound(feats@, k as int); }
        let feat = &feats[k];
        if !feat.is_underground_structure() {
            count = count + 1;
            let anchor = match feat.height_bits {
                Some(h) if f64_bits_is_positive(h) => Some(Anchor::Height { height_bits: h }),
                _ => match feat.num_floors {
                    Some(l) if l > 0 => Some(Anchor::Floors { floors: l }),
                    _ => None,
                },
            };
            if let Some(a) = anchor {
                anchors.push(a);
            }
        }
    }
    (count, anchors)
}

} // verus!
