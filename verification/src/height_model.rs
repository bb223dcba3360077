//! Gradient-boosted-tree building-height model: structural validation of a
//! model artifact, and the tree walks of the inference path.
//!
//! The model predicts `log1p(height_m)` as `base_score + Σ leaf_i`. Trees
//! are stored struct-of-arrays; node `i` is a leaf iff `feature[i] < 0`, its
//! value then held in `threshold[i]`. A split sends a feature vector left
//! when the feature is below the threshold, and a NaN feature follows the
//! node's learned `default_left`. `f32` quantities are held as their bit
//! patterns; the summation of leaf values happens in floating point outside
//! this crate.

use vstd::prelude::*;
use crate::features::{encoded_len, feature_name, FeatureEncoder, MAX_FEATURES};
use crate::float_bits::{f32_bits_is_finite, f32_bits_is_nan, f32_bits_lt, f32_is_finite, f32_is_nan, f32_lt};

verus! {

/// `serde_json`'s parse error, carried by [`ModelError::Json`].
#[verifier::external_type_specification]
#[verifier::external_body]
pub struct ExJsonError(serde_json::Error);

/// One regression tree, struct-of-arrays over its nodes.
pub struct Tree {
    pub feature: Vec<i16>,
    /// Split threshold, or leaf value when `feature < 0` (`f32` bits).
    pub threshold_bits: Vec<u32>,
    pub left: Vec<u16>,
    pub right: Vec<u16>,
    pub default_left: Vec<bool>,
}

/// A trained GBT height model plus its feature encoding.
pub struct GbtModel {
    pub version: u32,
    pub name: String,
    pub target: String,
    /// Constant added to every prediction (`f32` bits).
    pub base_score_bits: u32,
    pub clamp_min_m_bits: u32,
    pub clamp_max_m_bits: u32,
    pub encoder: FeatureEncoder,
    pub feature_names: Vec<String>,
    pub trees: Vec<Tree>,
}

/// Error from loading or validating a [`GbtModel`].
pub enum ModelError {
    Json(serde_json::Error),
    Invalid(&'static str),
}

/// The first structural defect of split node `i`, if any.
pub open spec fn node_error(t: Tree, i: int, n_features: int) -> Option<&'static str> {
    let n = t.feature@.len() as int;
    let l = t.left@[i] as int;
    let r = t.right@[i] as int;
    if t.feature@[i] >= n_features {
        Some("split feature index out of range")
    } else if l >= n || r >= n {
        Some("child index out of range")
    } else if l <= i || r <= i {
        Some("child index must be greater than parent (acyclic)")
    } else {
        None
    }
}

/// The first defect among nodes `i..` of `t`.
pub open spec fn nodes_error_from(t: Tree, i: int, n_features: int) -> Option<&'static str>
    decreases t.feature@.len() - i,
{
    if i < 0 || i >= t.feature@.len() {
        None
    } else if t.feature@[i] < 0 {
        nodes_error_from(t, i + 1, n_features)
    } else {
        match node_error(t, i, n_features) {
            Some(e) => Some(e),
            None => nodes_error_from(t, i + 1, n_features),
        }
    }
}

/// The first defect of tree `t`: empty, mismatched array lengths, too many
/// nodes for `u16` child indices, or a defective split node.
pub open spec fn tree_error(t: Tree, n_features: int) -> Option<&'static str> {
    let n = t.feature@.len();
    if n == 0 {
        Some("tree has no nodes")
    } else if t.threshold_bits@.len() != n || t.left@.len() != n || t.right@.len() != n
        || t.default_left@.len() != n {
        Some("tree arrays have mismatched lengths")
    } else if n > u16::MAX {
        Some("tree has too many nodes for u16 indices")
    } else {
        nodes_error_from(t, 0, n_features)
    }
}

/// The first defective tree among `trees[k..]`.
pub open spec fn trees_error_from(trees: Seq<Tree>, k: int, n_features: int) -> Option<&'static str>
    decreases trees.len() - k,
{
    if k < 0 || k >= trees.len() {
        None
    } else {
        match tree_error(trees[k], n_features) {
            Some(e) => Some(e),
            None => trees_error_from(trees, k + 1, n_features),
        }
    }
}

/// Feature names equal the encoder's, entry for entry.
pub open spec fn names_match(names: Seq<String>, enc: FeatureEncoder) -> bool {
    &&& names.len() == encoded_len(enc.class_vocab@.len() as int, enc.subtype_vocab@.len() as int)
    &&& forall|i: int| 0 <= i < names.len() ==> #[trigger] names[i]@ == feature_name(enc, i)
}

/// What [`GbtModel::validate`] returns: the first failing check, in order —
/// version, encoder length in `1..=MAX_FEATURES`, feature names, finite
/// clamp bounds, `clamp_min < clamp_max`, then every tree.
pub open spec fn validate_result(m: GbtModel) -> Result<(), ModelError> {
    let n_features = encoded_len(m.encoder.class_vocab@.len() as int, m.encoder.subtype_vocab@.len() as int);
    if m.version != 1 {
        Err(ModelError::Invalid("unsupported version (expected 1)"))
    } else if n_features == 0 {
        Err(ModelError::Invalid("encoder has zero features"))
    } else if n_features > MAX_FEATURES {
        Err(ModelError::Invalid("encoder length exceeds MAX_FEATURES"))
    } else if !names_match(m.feature_names@, m.encoder) {
        Err(ModelError::Invalid("feature_names do not match encoder.feature_names()"))
    } else if !f32_is_finite(m.clamp_min_m_bits) || !f32_is_finite(m.clamp_max_m_bits) {
        Err(ModelError::Invalid("clamp bounds must be finite"))
    } else if !f32_lt(m.clamp_min_m_bits, m.clamp_max_m_bits) {
        Err(ModelError::Invalid("clamp_min_m must be < clamp_max_m"))
    } else {
        match trees_error_from(m.trees@, 0, n_features) {
            Some(e) => Err(ModelError::Invalid(e)),
            None => Ok(()),
        }
    }
}

/// The model passes [`GbtModel::validate`].
pub open spec fn model_valid(m: GbtModel) -> bool {
    validate_result(m) is Ok
}

/// Every split node of `t` reads a feature below `n_features` and has both
/// children in bounds and after it; all arrays share one non-zero length.
pub open spec fn tree_well_formed(t: Tree, n_features: int) -> bool {
    let n = t.feature@.len();
    &&& n > 0
    &&& n <= u16::MAX
    &&& t.threshold_bits@.len() == n
    &&& t.left@.len() == n
    &&& t.right@.len() == n
    &&& t.default_left@.len() == n
    &&& forall|i: int| 0 <= i < n && #[trigger] t.feature@[i] >= 0 ==> {
        &&& t.feature@[i] < n_features
        &&& i < t.left@[i] < n
        &&& i < t.right@[i] < n
    }
}

proof fn lemma_nodes_error_none(t: Tree, i: int, n_features: int)
    requires
        0 <= i,
        nodes_error_from(t, i, n_features) is None,
    ensures
        forall|j: int| i <= j < t.feature@.len() && #[trigger] t.feature@[j] >= 0 ==> node_error(t, j, n_features) is None,
    decreases t.feature@.len() - i,
{
    if i < t.feature@.len() {
        lemma_nodes_error_none(t, i + 1, n_features);
    }
}

proof fn lemma_tree_error_none(t: Tree, n_features: int)
    requires
        tree_error(t, n_features) is None,
    ensures
        tree_well_formed(t, n_features),
{
    lemma_nodes_error_none(t, 0, n_features);
}

proof fn lemma_trees_error_none(trees: Seq<Tree>, k: int, n_features: int)
    requires
        0 <= k,
        trees_error_from(trees, k, n_features) is None,
    ensures
        forall|j: int| k <= j < trees.len() ==> tree_well_formed(#[trigger] trees[j], n_features),
    decreases trees.len() - k,
{
    if k < trees.len() {
        lemma_tree_error_none(trees[k], n_features);
        lemma_trees_error_none(trees, k + 1, n_features);
    }
}

/// A valid model's trees are all well formed over its encoder's features.
pub proof fn lemma_valid_model_trees(m: GbtModel)
    requires
        model_valid(m),
    ensures
        forall|j: int| 0 <= j < m.trees@.len() ==> tree_well_formed(#[trigger] m.trees@[j],
            encoded_len(m.encoder.class_vocab@.len() as int, m.encoder.subtype_vocab@.len() as int)),
        encoded_len(m.encoder.class_vocab@.len() as int, m.encoder.subtype_vocab@.len() as int) <= MAX_FEATURES,
{
    let nf = encoded_len(m.encoder.class_vocab@.len() as int, m.encoder.subtype_vocab@.len() as int);
    lemma_trees_error_none(m.trees@, 0, nf);
}

proof fn lemma_nodes_no_error(t: Tree, i: int, n_features: int)
    requires
        0 <= i,
        tree_well_formed(t, n_features),
    ensures
        nodes_error_from(t, i, n_features) is None,
    decreases t.feature@.len() - i,
{
    if i < t.feature@.len() {
        lemma_nodes_no_error(t, i + 1, n_features);
    }
}

proof fn lemma_trees_no_error(trees: Seq<Tree>, k: int, n_features: int)
    requires
        0 <= k,
        forall|j: int| k <= j < trees.len() ==> tree_well_formed(#[trigger] trees[j], n_features),
    ensures
        trees_error_from(trees, k, n_features) is None,
    decreases trees.len() - k,
{
    if k < trees.len() {
        lemma_nodes_no_error(trees[k], 0, n_features);
        lemma_trees_no_error(trees, k + 1, n_features);
    }
}

/// A model passes validation when its version is 1, its encoder is within
/// the feature budget, its names are the encoder's, its clamp range is
/// finite and ordered, and all its trees are well formed.
pub proof fn lemma_well_formed_trees_valid(m: GbtModel)
    requires
        m.version == 1,
        encoded_len(m.encoder.class_vocab@.len() as int, m.encoder.subtype_vocab@.len() as int) <= MAX_FEATURES,
        names_match(m.feature_names@, m.encoder),
        f32_is_finite(m.clamp_min_m_bits),
        f32_is_finite(m.clamp_max_m_bits),
        f32_lt(m.clamp_min_m_bits, m.clamp_max_m_bits),
        forall|j: int| 0 <= j < m.trees@.len() ==> tree_well_formed(#[trigger] m.trees@[j],
            encoded_len(m.encoder.class_vocab@.len() as int, m.encoder.subtype_vocab@.len() as int)),
    ensures
        model_valid(m),
{
    let nf = encoded_len(m.encoder.class_vocab@.len() as int, m.encoder.subtype_vocab@.len() as int);
    lemma_trees_no_error(m.trees@, 0, nf);
}

fn check_tree(t: &Tree, n_features: usize) -> (r: Option<&'static str>)
    ensures
        r == tree_error(*t, n_features as int),
{
    let n = t.feature.len();
    if n == 0 {
        return Some("tree has no nodes");
    }
    if t.threshold_bits.len() != n || t.left.len() != n || t.right.len() != n || t.default_left.len() != n {
        return Some("tree arrays have mismatched lengths");
    }
    if n > 65535 {
        return Some("tree has too many nodes for u16 indices");
    }
    let mut i: usize = 0;
    while i < n
        invariant
            n == t.feature@.len(),
            n == t.left@.len(),
            n == t.right@.len(),
            i <= n,
            tree_error(*t, n_features as int) == nodes_error_from(*t, 0, n_features as int),
            nodes_error_from(*t, 0, n_features as int) == nodes_error_from(*t, i as int, n_features as int),
        decreases n - i,
    {
        let feat = t.feature[i];
        if feat >= 0 {
            let l = t.left[i] as usize;
            let r = t.right[i] as usize;
            if feat as usize >= n_features {
                return Some("split feature index out of range");
            }
            if l >= n || r >= n {
                return Some("child index out of range");
            }
            if l <= i || r <= i {
                return Some("child index must be greater than parent (acyclic)");
            }
        }
        i = i + 1;
    }
    None
}

fn check_names(names: &Vec<String>, enc: &FeatureEncoder) -> (r: bool)
    requires
        enc.class_vocab@.len() + enc.subtype_vocab@.len() + 12 <= usize::MAX,
    ensures
        r == names_match(names@, *enc),
{
    let expected = enc.feature_names();
    if names.len() != expected.len() {
        return false;
    }
    let mut i: usize = 0;
    while i < names.len()
        invariant
            names@.len() == expected@.len(),
            names@.len() == encoded_len(enc.class_vocab@.len() as int, enc.subtype_vocab@.len() as int),
            forall|k: int| 0 <= k < expected@.len() ==> #[trigger] expected@[k]@ == feature_name(*enc, k),
            i <= names@.len(),
            forall|k: int| 0 <= k < i ==> #[trigger] names@[k]@ == feature_name(*enc, k),
        decreases names@.len() - i,
    {
        if names[i] != expected[i] {
            return false;
        }
        i = i + 1;
    }
    true
}

impl GbtModel {
    /// Reject structurally unsound artifacts so the tree walks need no
    /// bounds checks and no cycle guard. Checks, in order: `version == 1`;
    /// encoder length in `1..=MAX_FEATURES`; `feature_names` equal to the
    /// encoder's names; finite clamp bounds with `clamp_min < clamp_max`;
    /// and for every tree, five arrays of one non-empty length (at most
    /// `u16::MAX`), split features within the encoder, and children in
    /// bounds and strictly after their parent (so every walk terminates).
    pub fn validate(&self) -> (r: Result<(), ModelError>)
        requires
            self.encoder.class_vocab@.len() + self.encoder.subtype_vocab@.len() + 12 <= usize::MAX,
        ensures
            r == validate_result(*self),
    {
        if self.version != 1 {
            return Err(ModelError::Invalid("unsupported version (expected 1)"));
        }
        let n_features = self.encoder.len();
        if n_features == 0 {
            return Err(ModelError::Invalid("encoder has zero features"));
        }
        if n_features > MAX_FEATURES {
            return Err(ModelError::Invalid("encoder length exceeds MAX_FEATURES"));
        }
        if !check_names(&self.feature_names, &self.encoder) {
            return Err(ModelError::Invalid("feature_names do not match encoder.feature_names()"));
        }
        if !f32_bits_is_finite(self.clamp_min_m_bits) || !f32_bits_is_finite(self.clamp_max_m_bits) {
            return Err(ModelError::Invalid("clamp bounds must be finite"));
        }
        if !f32_bits_lt(self.clamp_min_m_bits, self.clamp_max_m_bits) {
            return Err(ModelError::Invalid("clamp_min_m must be < clamp_max_m"));
        }
        let mut k: usize = 0;
        while k < self.trees.len()
            invariant
                k <= self.trees@.len(),
                n_features == encoded_len(self.encoder.class_vocab@.len() as int, self.encoder.subtype_vocab@.len() as int),
                trees_error_from(self.trees@, 0, n_features as int) == trees_error_from(self.trees@, k as int, n_features as int),
                validate_result(*self) == (match trees_error_from(self.trees@, 0, n_features as int) {
                    Some(e) => Err(ModelError::Invalid(e)),
                    None => Ok::<(), ModelError>(()),
                }),
            decreases self.trees@.len() - k,
        {
            match check_tree(&self.trees[k], n_features) {
                Some(e) => {
                    return Err(ModelError::Invalid(e));
                },
                None => {},
            }
            k = k + 1;
        }
        Ok(())
    }

    /// Encoded feature-vector length this model expects.
    pub fn n_features(&self) -> (r: usize)
        requires
            self.encoder.class_vocab@.len() + self.encoder.subtype_vocab@.len() + 12 <= usize::MAX,
        ensures
            r == encoded_len(self.encoder.class_vocab@.len() as int, self.encoder.subtype_vocab@.len() as int),
    {
        self.encoder.len()
    }
}

// ---------------- tree walks ----------------

/// Whether the walk at split node `i` of `t` goes left for feature vector
/// `x`: a NaN feature follows `default_left`, otherwise the feature must be
/// below the threshold.
pub open spec fn goes_left(t: Tree, x: Seq<u32>, i: int) -> bool {
    let v = x[t.feature@[i] as int];
    if f32_is_nan(v) {
        t.default_left@[i]
    } else {
        f32_lt(v, t.threshold_bits@[i])
    }
}

/// The leaf a walk starting at node `i` of `t` reaches.
pub open spec fn walk_from(t: Tree, x: Seq<u32>, i: int) -> int
    decreases t.feature@.len() - i,
{
    if i < 0 || i >= t.feature@.len() || t.feature@[i] < 0 {
        i
    } else {
        let c = if goes_left(t, x, i) { t.left@[i] as int } else { t.right@[i] as int };
        if c <= i || c >= t.feature@.len() { i } else { walk_from(t, x, c) }
    }
}

/// Walk `t` from its root and return the index of the leaf reached.
pub fn leaf_index(t: &Tree, feats: &[u32]) -> (leaf: usize)
    requires
        tree_well_formed(*t, feats@.len() as int),
    ensures
        leaf == walk_from(*t, feats@, 0),
        leaf < t.feature@.len(),
        t.feature@[leaf as int] < 0,
{
    let n = t.feature.len();
    let mut i: usize = 0;
    while t.feature[i] >= 0
        invariant
            n == t.feature@.len(),
            tree_well_formed(*t, feats@.len() as int),
            i < n,
            walk_from(*t, feats@, 0) == walk_from(*t, feats@, i as int),
        decreases n - i,
    {
        let f = t.feature[i] as usize;
        let x = feats[f];
        let go_left = if f32_bits_is_nan(x) {
            t.default_left[i]
        } else {
            f32_bits_lt(x, t.threshold_bits[i])
        };
        i = if go_left { t.left[i] as usize } else { t.right[i] as usize };
    }
    i
}

proof fn lemma_tree_wf_widen(t: Tree, nf: int, wider: int)
    requires
        tree_well_formed(t, nf),
        nf <= wider,
    ensures
        tree_well_formed(t, wider),
{
}

impl GbtModel {
    /// The `f32` bits of the leaf each tree routes `feats` to, in tree
    /// order. `predict_log1p` is `base_score` plus these values summed in
    /// order.
    pub fn leaf_values(&self, feats: &[u32]) -> (vals: Vec<u32>)
        requires
            model_valid(*self),
            feats@.len() >= encoded_len(self.encoder.class_vocab@.len() as int, self.encoder.subtype_vocab@.len() as int),
        ensures
            vals@.len() == self.trees@.len(),
            forall|k: int| 0 <= k < self.trees@.len() ==> #[trigger] vals@[k]
                == self.trees@[k].threshold_bits@[walk_from(self.trees@[k], feats@, 0)],
    {
        proof { lemma_valid_model_trees(*self); }
        let ghost nf = encoded_len(self.encoder.class_vocab@.len() as int, self.encoder.subtype_vocab@.len() as int);
        let mut vals: Vec<u32> = Vec::with_capacity(self.trees.len());
        for k in 0..self.trees.len()
            invariant
                vals@.len() == k,
                nf <= feats@.len(),
                forall|j: int| 0 <= j < self.trees@.len() ==> tree_well_formed(#[trigger] self.trees@[j], nf),
                forall|j: int| 0 <= j < k ==> #[trigger] vals@[j]
                    == self.trees@[j].threshold_bits@[walk_from(self.trees@[j], feats@, 0)],
        {
            let t = &self.trees[k];
            proof { lemma_tree_wf_widen(*t, nf, feats@.len() as int); }
            let leaf = leaf_index(t, feats);
            vals.push(t.threshold_bits[leaf]);
        }
        vals
    }
}

// ---------------- flattened arena ----------------

/// One node of the flattened arena; child indices are absolute.
#[derive(Clone, Copy)]
pub struct FlatNode {
    pub threshold_bits: u32,
    pub left: u32,
    pub right: u32,
    pub feature: i16,
    pub default_left: bool,
}

/// A [`GbtModel`] repacked for the inference hot path: every tree
/// concatenated into one arena with child indices rebased to absolute.
pub struct PreparedModel {
    pub model: GbtModel,
    nodes: Vec<FlatNode>,
    roots: Vec<u32>,
}

/// Arena offset of tree `k`: the node counts of the trees before it.
pub open spec fn tree_offset(trees: Seq<Tree>, k: int) -> int
    decreases k,
{
    if k <= 0 { 0 } else { tree_offset(trees, k - 1) + trees[k - 1].feature@.len() }
}

/// Node `i` of tree `t` moved into the arena at offset `base`.
pub open spec fn flat_node(t: Tree, i: int, base: int) -> FlatNode {
    FlatNode {
        threshold_bits: t.threshold_bits@[i],
        left: (base + t.left@[i]) as u32,
        right: (base + t.right@[i]) as u32,
        feature: t.feature@[i],
        default_left: t.default_left@[i],
    }
}

/// The arena entry holding node `i` of tree `k`.
pub open spec fn arena_entry(nodes: Seq<FlatNode>, trees: Seq<Tree>, k: int, i: int) -> FlatNode {
    nodes[tree_offset(trees, k) + i]
}

/// Whether the arena walk at node `j` goes left for `x`.
pub open spec fn flat_goes_left(nodes: Seq<FlatNode>, x: Seq<u32>, j: int) -> bool {
    let v = x[nodes[j].feature as int];
    if f32_is_nan(v) {
        nodes[j].default_left
    } else {
        f32_lt(v, nodes[j].threshold_bits)
    }
}

/// The arena node a walk starting at `j` reaches.
pub open spec fn flat_walk(nodes: Seq<FlatNode>, x: Seq<u32>, j: int) -> int
    decreases nodes.len() - j,
{
    if j < 0 || j >= nodes.len() || nodes[j].feature < 0 {
        j
    } else {
        let c = if flat_goes_left(nodes, x, j) { nodes[j].left as int } else { nodes[j].right as int };
        if c <= j || c >= nodes.len() { j } else { flat_walk(nodes, x, c) }
    }
}

/// The arena holds every tree of `model`, in order, with rebased children.
pub open spec fn arena_matches(nodes: Seq<FlatNode>, roots: Seq<u32>, model: GbtModel) -> bool {
    let trees = model.trees@;
    &&& roots.len() == trees.len()
    &&& nodes.len() == tree_offset(trees, trees.len() as int)
    &&& tree_offset(trees, trees.len() as int) + u16::MAX <= u32::MAX
    &&& forall|k: int| 0 <= k < trees.len() ==> #[trigger] roots[k] == tree_offset(trees, k)
    &&& forall|k: int, i: int| 0 <= k < trees.len() && 0 <= i < trees[k].feature@.len()
        ==> #[trigger] arena_entry(nodes, trees, k, i) == flat_node(trees[k], i, tree_offset(trees, k))
}

proof fn lemma_tree_offset_nonneg(trees: Seq<Tree>, j: int)
    ensures
        tree_offset(trees, j) >= 0,
    decreases j,
{
    if j > 0 {
        lemma_tree_offset_nonneg(trees, j - 1);
    }
}

proof fn lemma_tree_offset_mono(trees: Seq<Tree>, j: int, k: int)
    requires
        0 <= j <= k <= trees.len(),
    ensures
        tree_offset(trees, j) + (if j < k { trees[j].feature@.len() as int } else { 0 }) <= tree_offset(trees, k),
        tree_offset(trees, j) >= 0,
    decreases k - j,
{
    lemma_tree_offset_nonneg(trees, j);
    if j < k {
        lemma_tree_offset_mono(trees, j, k - 1);
    }
}

/// Inside tree `k`'s arena block, the arena walk mirrors the tree walk.
proof fn lemma_flat_walk_mirrors(nodes: Seq<FlatNode>, roots: Seq<u32>, model: GbtModel, x: Seq<u32>, k: int, i: int)
    requires
        arena_matches(nodes, roots, model),
        0 <= k < model.trees@.len(),
        0 <= i < model.trees@[k].feature@.len(),
        tree_well_formed(model.trees@[k], x.len() as int),
    ensures
        flat_walk(nodes, x, tree_offset(model.trees@, k) + i)
            == tree_offset(model.trees@, k) + walk_from(model.trees@[k], x, i),
    decreases model.trees@[k].feature@.len() - i,
{
    let trees = model.trees@;
    let t = trees[k];
    let off = tree_offset(trees, k);
    lemma_tree_offset_mono(trees, k, trees.len() as int);
    let e = arena_entry(nodes, trees, k, i);
    assert(e == flat_node(t, i, off));
    assert(nodes[off + i] == e);
    if t.feature@[i] >= 0 {
        assert(flat_goes_left(nodes, x, off + i) == goes_left(t, x, i));
        let c = if goes_left(t, x, i) { t.left@[i] as int } else { t.right@[i] as int };
        lemma_flat_walk_mirrors(nodes, roots, model, x, k, c);
    }
}

/// The flattened arena routes every feature vector to the same leaf as
/// the tree it came from: the arena walk from tree `k`'s root ends at that
/// tree's leaf, offset into the arena.
pub proof fn law_arena_walk_matches_tree_walk(p: PreparedModel, x: Seq<u32>, k: int)
    requires
        p.wf(),
        0 <= k < p.source().trees@.len(),
        x.len() >= encoded_len(p.source().encoder.class_vocab@.len() as int, p.source().encoder.subtype_vocab@.len() as int),
    ensures
        flat_walk(p.arena(), x, p.roots_view()[k] as int)
            == p.roots_view()[k] + walk_from(p.source().trees@[k], x, 0),
{
    lemma_valid_model_trees(p.source());
    let nf = encoded_len(p.source().encoder.class_vocab@.len() as int, p.source().encoder.subtype_vocab@.len() as int);
    assert(tree_well_formed(p.source().trees@[k], nf));
    lemma_tree_wf_widen(p.source().trees@[k], nf, x.len() as int);
    lemma_flat_walk_mirrors(p.arena(), p.roots_view(), p.source(), x, k, 0);
}

impl PreparedModel {
    /// The model this arena was built from.
    pub closed spec fn source(&self) -> GbtModel {
        self.model
    }

    /// The flattened arena.
    pub closed spec fn arena(&self) -> Seq<FlatNode> {
        self.nodes@
    }

    /// Arena index of each tree's root.
    pub closed spec fn roots_view(&self) -> Seq<u32> {
        self.roots@
    }

    /// The model is valid and the arena is its exact repacking.
    pub closed spec fn wf(&self) -> bool {
        &&& model_valid(self.model)
        &&& arena_matches(self.nodes@, self.roots@, self.model)
    }

    /// Flatten a validated model into one arena, rebasing child indices to
    /// absolute positions.
    pub fn new(model: GbtModel) -> (p: Self)
        requires
            model_valid(model),
            tree_offset(model.trees@, model.trees@.len() as int) + u16::MAX <= u32::MAX,
        ensures
            p.wf(),
            p.source() == model,
    {
        proof { lemma_valid_model_trees(model); }
        let ghost trees = model.trees@;
        let ghost nf = encoded_len(model.encoder.class_vocab@.len() as int, model.encoder.subtype_vocab@.len() as int);
        let mut nodes: Vec<FlatNode> = Vec::new();
        let mut roots: Vec<u32> = Vec::with_capacity(model.trees.len());
        for k in 0..model.trees.len()
            invariant
                trees == model.trees@,
                tree_offset(trees, trees.len() as int) + u16::MAX <= u32::MAX,
                forall|j: int| 0 <= j < trees.len() ==> tree_well_formed(#[trigger] trees[j], nf),
                roots@.len() == k,
                nodes@.len() == tree_offset(trees, k as int),
                forall|j: int| 0 <= j < k ==> #[trigger] roots@[j] == tree_offset(trees, j),
                forall|j: int, i: int| 0 <= j < k && 0 <= i < trees[j].feature@.len()
                    ==> #[trigger] arena_entry(nodes@, trees, j, i) == flat_node(trees[j], i, tree_offset(trees, j)),
        {
            proof { lemma_tree_offset_mono(trees, k as int, trees.len() as int); }
            let t = &model.trees[k];
            let base = nodes.len() as u32;
            roots.push(base);
            let ghost nodes_k = nodes@;
            for i in 0..t.feature.len()
                invariant
                    trees == model.trees@,
                    *t == trees[k as int],
                    tree_well_formed(*t, nf),
                    base == tree_offset(trees, k as int),
                    base + u16::MAX <= u32::MAX,
                    nodes@.len() == base + i,
                    nodes@.subrange(0, base as int) == nodes_k.subrange(0, base as int),
                    nodes_k.len() == base,
                    forall|m: int| 0 <= m < i ==> #[trigger] nodes@[base + m] == flat_node(*t, m, base as int),
            {
                nodes.push(FlatNode {
                    threshold_bits: t.threshold_bits[i],
                    left: base + t.left[i] as u32,
                    right: base + t.right[i] as u32,
                    feature: t.feature[i],
                    default_left: t.default_left[i],
                });
                assert(nodes@.subrange(0, base as int) =~= nodes_k.subrange(0, base as int));
            }
            proof {
                assert forall|j: int, i: int| 0 <= j < k + 1 && 0 <= i < trees[j].feature@.len()
                    implies #[trigger] arena_entry(nodes@, trees, j, i) == flat_node(trees[j], i, tree_offset(trees, j)) by {
                    if j < k {
                        lemma_tree_offset_mono(trees, j, k as int);
                        assert(nodes@[tree_offset(trees, j) + i] == nodes@.subrange(0, base as int)[tree_offset(trees, j) + i]);
                        assert(nodes_k[tree_offset(trees, j) + i] == nodes_k.subrange(0, base as int)[tree_offset(trees, j) + i]);
                        assert(arena_entry(nodes_k, trees, j, i) == flat_node(trees[j], i, tree_offset(trees, j)));
                    } else {
                        assert(nodes@[base + i] == flat_node(*t, i, base as int));
                    }
                }
            }
        }
        PreparedModel { model, nodes, roots }
    }

    /// Arena walk; the same leaves as [`GbtModel::leaf_values`].
    pub fn leaf_values(&self, feats: &[u32]) -> (vals: Vec<u32>)
        requires
            self.wf(),
            feats@.len() >= encoded_len(self.source().encoder.class_vocab@.len() as int,
                self.source().encoder.subtype_vocab@.len() as int),
        ensures
            vals@.len() == self.source().trees@.len(),
            forall|k: int| 0 <= k < self.source().trees@.len() ==> #[trigger] vals@[k]
                == self.source().trees@[k].threshold_bits@[walk_from(self.source().trees@[k], feats@, 0)],
    {
        proof { lemma_valid_model_trees(self.model); }
        let ghost trees = self.model.trees@;
        let ghost nf = encoded_len(self.model.encoder.class_vocab@.len() as int,
            self.model.encoder.subtype_vocab@.len() as int);
        let mut vals: Vec<u32> = Vec::with_capacity(self.roots.len());
        for k in 0..self.roots.len()
            invariant
                self.wf(),
                trees == self.model.trees@,
                nf == encoded_len(self.model.encoder.class_vocab@.len() as int,
                    self.model.encoder.subtype_vocab@.len() as int),
                nf <= feats@.len(),
                self.roots@.len() == trees.len(),
                forall|j: int| 0 <= j < trees.len() ==> tree_well_formed(#[trigger] trees[j], nf),
                vals@.len() == k,
                forall|j: int| 0 <= j < k ==> #[trigger] vals@[j]
                    == trees[j].threshold_bits@[walk_from(trees[j], feats@, 0)],
        {
            let ghost t = trees[k as int];
            let ghost off = tree_offset(trees, k as int);
            proof {
                lemma_tree_wf_widen(t, nf, feats@.len() as int);
                lemma_tree_offset_mono(trees, k as int, trees.len() as int);
                lemma_flat_walk_mirrors(self.nodes@, self.roots@, self.model, feats@, k as int, 0);
            }
            let mut j = self.roots[k] as usize;
            assert(j == off);
            while self.nodes[j].feature >= 0
                invariant
                    self.wf(),
                    trees == self.model.trees@,
                    0 <= k < trees.len(),
                    t == trees[k as int],
                    off == tree_offset(trees, k as int),
                    off + t.feature@.len() <= self.nodes@.len(),
                    tree_well_formed(t, feats@.len() as int),
                    off <= j < off + t.feature@.len(),
                    flat_walk(self.nodes@, feats@, off) == flat_walk(self.nodes@, feats@, j as int),
                    flat_walk(self.nodes@, feats@, off) == off + walk_from(t, feats@, 0),
                decreases self.nodes@.len() - j,
            {
                let ghost i = j - off;
                assert(arena_entry(self.nodes@, trees, k as int, i) == flat_node(t, i, off));
                assert(self.nodes@[j as int] == flat_node(t, i, off));
                let n = self.nodes[j];
                let x = feats[n.feature as usize];
                let go_left = if f32_bits_is_nan(x) { n.default_left } else { f32_bits_lt(x, n.threshold_bits) };
                j = if go_left { n.left as usize } else { n.right as usize };
            }
            proof {
                let i = j - off;
                assert(arena_entry(self.nodes@, trees, k as int, i) == flat_node(t, i, off));
                assert(walk_from(t, feats@, 0) == i);
            }
            vals.push(self.nodes[j].threshold_bits);
        }
        vals
    }
}

} // verus!
