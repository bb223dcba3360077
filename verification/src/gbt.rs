//! Tree bookkeeping of the gradient-boosted-tree trainer: the node arena a
//! tree grows in level by level, its export to the model artifact's
//! struct-of-arrays form, and the trainer's deterministic random stream.
//!
//! Leaf values and split thresholds are `f32` bit patterns; the split
//! search itself (real-valued gains) is not part of this module.

use crate::features::{encoded_len, feature_name, FeatureEncoder, MAX_FEATURES};
use crate::float_bits::{f32_bits_lt, f32_is_finite, f32_lt, F32_ABS_MASK};
use crate::height_model::{lemma_well_formed_trees_valid, model_valid, tree_well_formed, GbtModel, Tree};
use vstd::prelude::*;

verus! {

/// Multiplier of the trainer's linear congruential generator.
pub const LCG_MUL: u64 = 6364136223846793005;

/// Increment of the trainer's linear congruential generator.
pub const LCG_INC: u64 = 1442695040888963407;

/// The generator's next state (and output) after state `s`, modulo 2^64.
pub open spec fn lcg_next(s: u64) -> u64 {
    vstd::wrapping::u64_specs::wrapping_add(vstd::wrapping::u64_specs::wrapping_mul(s, LCG_MUL), LCG_INC)
}

/// 64-bit linear congruential generator: deterministic per seed.
pub struct Lcg(pub u64);

impl Lcg {
    /// Advance the state and return it.
    pub fn next_u64(&mut self) -> (r: u64)
        ensures
            r == lcg_next(old(self).0),
            final(self).0 == r,
    {
        self.0 = self.0.wrapping_mul(LCG_MUL).wrapping_add(LCG_INC);
        self.0
    }
}

/// A split of a grown node.
#[derive(Clone, Copy, PartialEq, Eq, Debug, Structural)]
pub struct GrowSplit {
    pub feature: usize,
    pub threshold_bits: u32,
    pub default_left: bool,
    pub left: usize,
    pub right: usize,
}

/// A node of a tree under construction: a leaf until it is split.
#[derive(Clone, Copy, PartialEq, Eq, Debug, Structural)]
pub struct GrowNode {
    pub split: Option<GrowSplit>,
    /// Leaf output (`f32` bits); meaningful for leaves only.
    pub value_bits: u32,
    pub depth: usize,
}

/// Every split node reads a feature below `n_feats` and has both children
/// in the arena and after it (so nodes are in breadth-first order and
/// every walk from the root ends at a leaf).
pub open spec fn grown_well_formed(nodes: Seq<GrowNode>, n_feats: int) -> bool {
    forall|i: int|
        0 <= i < nodes.len() && (#[trigger] nodes[i]).split is Some ==> {
            let s = nodes[i].split.unwrap();
            &&& s.feature < n_feats
            &&& i < s.left < nodes.len()
            &&& i < s.right < nodes.len()
        }
}

/// A fresh tree: one leaf at depth 0.
pub fn new_tree() -> (nodes: Vec<GrowNode>)
    ensures
        nodes@ == seq![GrowNode { split: None, value_bits: 0, depth: 0 }],
{
    let mut nodes: Vec<GrowNode> = Vec::new();
    nodes.push(GrowNode { split: None, value_bits: 0, depth: 0 });
    assert(nodes@ =~= seq![GrowNode { split: None, value_bits: 0, depth: 0 }]);
    nodes
}

/// Number of chosen splits among the first `k` frontier slots.
pub open spec fn splits_before(best: Seq<Option<(usize, u32, bool)>>, k: int) -> int
    decreases k,
{
    if k <= 0 {
        0
    } else {
        splits_before(best, k - 1) + if best[k - 1] is Some { 1int } else { 0 }
    }
}

proof fn lemma_splits_before_mono(best: Seq<Option<(usize, u32, bool)>>, j: int, k: int)
    requires
        0 <= j <= k,
    ensures
        0 <= splits_before(best, j) <= splits_before(best, k),
        splits_before(best, k) - splits_before(best, j) <= k - j,
    decreases k - j,
{
    if j < k {
        lemma_splits_before_mono(best, j, k - 1);
    } else {
        lemma_splits_before_nonneg(best, j);
    }
}

proof fn lemma_splits_before_nonneg(best: Seq<Option<(usize, u32, bool)>>, k: int)
    ensures
        0 <= splits_before(best, k) <= if k > 0 { k } else { 0 },
    decreases k,
{
    if k > 0 {
        lemma_splits_before_nonneg(best, k - 1);
    }
}

/// A fresh leaf at `depth`.
pub open spec fn leaf_at(depth: int) -> GrowNode {
    GrowNode { split: None, value_bits: 0, depth: depth as usize }
}

/// The split frontier slot `t` receives: its chosen feature, threshold and
/// NaN direction, with children at `n0 + 2 * (splits before t)` and the
/// next index.
pub open spec fn split_for(n0: int, best: Seq<Option<(usize, u32, bool)>>, t: int) -> GrowSplit {
    GrowSplit {
        feature: best[t].unwrap().0,
        threshold_bits: best[t].unwrap().1,
        default_left: best[t].unwrap().2,
        left: (n0 + 2 * splits_before(best, t)) as usize,
        right: (n0 + 2 * splits_before(best, t) + 1) as usize,
    }
}

/// Nodes from `n0` on are fresh leaves at `depth + 1`.
#[verifier::opaque]
pub open spec fn new_leaves_from(n0: int, depth: int, nodes: Seq<GrowNode>) -> bool {
    forall|i: int| n0 <= i < nodes.len() ==> #[trigger] nodes[i] == leaf_at(depth + 1)
}

/// Each of the first `s` frontier nodes with a chosen split carries it.
#[verifier::opaque]
pub open spec fn splits_applied(n0: int, frontier: Seq<usize>, best: Seq<Option<(usize, u32, bool)>>, s: int, nodes: Seq<GrowNode>) -> bool {
    forall|t: int| 0 <= t < s && (#[trigger] best[t]) is Some ==> nodes[frontier[t] as int].split == Some(split_for(n0, best, t))
}

/// Frontier slot `t < s` split node `i`.
pub open spec fn split_by_slot(frontier: Seq<usize>, best: Seq<Option<(usize, u32, bool)>>, s: int, i: int) -> bool {
    exists|t: int| 0 <= t < s && frontier[t] == i && (#[trigger] best[t]) is Some
}

/// Old nodes not split by the first `s` frontier slots are unchanged.
#[verifier::opaque]
pub open spec fn others_unchanged(old_nodes: Seq<GrowNode>, frontier: Seq<usize>, best: Seq<Option<(usize, u32, bool)>>, s: int, nodes: Seq<GrowNode>) -> bool {
    forall|i: int| 0 <= i < old_nodes.len() && !split_by_slot(frontier, best, s, i) ==> #[trigger] nodes[i] == old_nodes[i]
}

/// Old nodes keep their depth.
#[verifier::opaque]
pub open spec fn depths_kept(old_nodes: Seq<GrowNode>, nodes: Seq<GrowNode>) -> bool {
    forall|i: int| 0 <= i < old_nodes.len() ==> #[trigger] nodes[i].depth == old_nodes[i].depth
}

/// The state of [`apply_splits`] after the first `s` frontier slots: the
/// splits chosen so far are applied, and nothing else has changed.
pub open spec fn applied_upto(
    old_nodes: Seq<GrowNode>,
    frontier: Seq<usize>,
    best: Seq<Option<(usize, u32, bool)>>,
    depth: usize,
    n_feats: int,
    s: int,
    nodes: Seq<GrowNode>,
) -> bool {
    &&& nodes.len() == old_nodes.len() + 2 * splits_before(best, s)
    &&& new_leaves_from(old_nodes.len() as int, depth as int, nodes)
    &&& splits_applied(old_nodes.len() as int, frontier, best, s, nodes)
    &&& others_unchanged(old_nodes, frontier, best, s, nodes)
    &&& depths_kept(old_nodes, nodes)
    &&& grown_well_formed(nodes, n_feats)
}

/// The frontier is a list of distinct leaves of the arena, with split
/// choices over features below `n_feats`.
#[verifier::opaque]
pub open spec fn frontier_ok(
    nodes: Seq<GrowNode>,
    frontier: Seq<usize>,
    best: Seq<Option<(usize, u32, bool)>>,
    n_feats: int,
) -> bool {
    &&& frontier.len() == best.len()
    &&& forall|s: int| 0 <= s < frontier.len() ==> #[trigger] frontier[s] < nodes.len()
    &&& forall|s: int| 0 <= s < frontier.len() ==> nodes[#[trigger] frontier[s] as int].split is None
    &&& forall|s: int, t: int| 0 <= s < t < frontier.len() ==> #[trigger] frontier[s] != #[trigger] frontier[t]
    &&& forall|s: int| 0 <= s < best.len() && (#[trigger] best[s]) is Some ==> best[s].unwrap().0 < n_feats
}

proof fn lemma_apply_step_none(
    old_nodes: Seq<GrowNode>,
    frontier: Seq<usize>,
    best: Seq<Option<(usize, u32, bool)>>,
    depth: usize,
    n_feats: int,
    s: int,
    nodes: Seq<GrowNode>,
)
    requires
        0 <= s < frontier.len(),
        applied_upto(old_nodes, frontier, best, depth, n_feats, s, nodes),
        best[s] is None,
    ensures
        applied_upto(old_nodes, frontier, best, depth, n_feats, s + 1, nodes),
{
    reveal(splits_applied);
    reveal(others_unchanged);
    assert forall|i: int| 0 <= i < old_nodes.len() && !split_by_slot(frontier, best, s + 1, i)
        implies #[trigger] nodes[i] == old_nodes[i] by {
        assert(!split_by_slot(frontier, best, s, i));
    }
}

/// The arena after applying the split of frontier slot `s` to `before`.
pub open spec fn with_split(before: Seq<GrowNode>, frontier: Seq<usize>, best: Seq<Option<(usize, u32, bool)>>, depth: usize, s: int) -> Seq<GrowNode> {
    let nid = frontier[s] as int;
    let b = best[s].unwrap();
    before.push(leaf_at(depth + 1)).push(leaf_at(depth + 1)).update(nid, GrowNode {
        split: Some(GrowSplit {
            feature: b.0,
            threshold_bits: b.1,
            default_left: b.2,
            left: before.len() as usize,
            right: (before.len() + 1) as usize,
        }),
        ..before[nid]
    })
}

proof fn lemma_split_target_untouched(
    old_nodes: Seq<GrowNode>,
    frontier: Seq<usize>,
    best: Seq<Option<(usize, u32, bool)>>,
    depth: usize,
    n_feats: int,
    s: int,
    before: Seq<GrowNode>,
)
    requires
        0 <= s < frontier.len(),
        frontier_ok(old_nodes, frontier, best, n_feats),
        applied_upto(old_nodes, frontier, best, depth, n_feats, s, before),
    ensures
        before[frontier[s] as int] == old_nodes[frontier[s] as int],
        (frontier[s] as int) < old_nodes.len(),
        best[s] is Some ==> best[s].unwrap().0 < n_feats,
        forall|t: int| 0 <= t < s ==> #[trigger] frontier[t] != frontier[s],
{
    reveal(frontier_ok);
    reveal(others_unchanged);
    lemma_splits_before_nonneg(best, s);
    let nid = frontier[s] as int;
    if split_by_slot(frontier, best, s, nid) {
        let t = choose|t: int| 0 <= t < s && frontier[t] == nid && (#[trigger] best[t]) is Some;
        assert(frontier[t] != frontier[s]);
    }
}

proof fn lemma_apply_step_split(
    old_nodes: Seq<GrowNode>,
    frontier: Seq<usize>,
    best: Seq<Option<(usize, u32, bool)>>,
    depth: usize,
    n_feats: int,
    s: int,
    before: Seq<GrowNode>,
)
    requires
        0 <= s < frontier.len(),
        frontier_ok(old_nodes, frontier, best, n_feats),
        applied_upto(old_nodes, frontier, best, depth, n_feats, s, before),
        best[s] is Some,
        before.len() + 2 <= usize::MAX,
    ensures
        applied_upto(old_nodes, frontier, best, depth, n_feats, s + 1, with_split(before, frontier, best, depth, s)),
{
    let n0 = old_nodes.len() as int;
    let nid = frontier[s] as int;
    let after = with_split(before, frontier, best, depth, s);
    lemma_split_target_untouched(old_nodes, frontier, best, depth, n_feats, s, before);
    lemma_splits_before_nonneg(best, s);
    assert(before.len() >= n0);
    assert(after.len() == before.len() + 2);
    assert(new_leaves_from(n0, depth as int, after)) by {
        reveal(new_leaves_from);
    }
    assert(splits_applied(n0, frontier, best, s + 1, after)) by {
        reveal(splits_applied);
        assert forall|t: int| 0 <= t < s + 1 && (#[trigger] best[t]) is Some
            implies after[frontier[t] as int].split == Some(split_for(n0, best, t)) by {
            if t < s {
                reveal(frontier_ok);
                assert(after[frontier[t] as int] == before[frontier[t] as int]);
            }
        }
    }
    assert(others_unchanged(old_nodes, frontier, best, s + 1, after)) by {
        reveal(others_unchanged);
        assert forall|i: int| 0 <= i < n0 && !split_by_slot(frontier, best, s + 1, i)
            implies #[trigger] after[i] == old_nodes[i] by {
            assert(!split_by_slot(frontier, best, s, i));
            if i == nid {
                assert(split_by_slot(frontier, best, s + 1, i));
            }
            assert(after[i] == before[i]);
        }
    }
    assert(depths_kept(old_nodes, after)) by {
        reveal(depths_kept);
        assert forall|i: int| 0 <= i < n0 implies #[trigger] after[i].depth == old_nodes[i].depth by {
            assert(before[i].depth == old_nodes[i].depth);
        }
    }
    assert forall|i: int|
        0 <= i < after.len() && (#[trigger] after[i]).split is Some implies {
            let sp = after[i].split.unwrap();
            &&& sp.feature < n_feats
            &&& i < sp.left < after.len()
            &&& i < sp.right < after.len()
        } by {
        if i != nid {
            if i < before.len() {
                assert(after[i] == before[i]);
            } else {
                reveal(new_leaves_from);
                assert(after[i] == leaf_at(depth + 1));
            }
        }
    }
}

/// Apply the chosen splits of one level (one optional split per frontier
/// node) and return the next frontier: the new children, in order.
/// Frontier nodes are distinct leaves of the arena and chosen features are
/// below `n_feats`; the arena stays well formed.
pub fn apply_splits(
    nodes: &mut Vec<GrowNode>,
    frontier: &Vec<usize>,
    best: &Vec<Option<(usize, u32, bool)>>,
    n_feats: usize,
) -> (next: Vec<usize>)
    requires
        frontier@.len() > 0,
        old(nodes)@.len() + 2 * frontier@.len() <= usize::MAX,
        grown_well_formed(old(nodes)@, n_feats as int),
        frontier_ok(old(nodes)@, frontier@, best@, n_feats as int),
        old(nodes)@[frontier@[0] as int].depth < usize::MAX,
    ensures
        applied_upto(
            old(nodes)@,
            frontier@,
            best@,
            old(nodes)@[frontier@[0] as int].depth,
            n_feats as int,
            frontier@.len() as int,
            final(nodes)@,
        ),
        next@.len() == final(nodes)@.len() - old(nodes)@.len(),
        forall|k: int| 0 <= k < next@.len() ==> #[trigger] next@[k] == old(nodes)@.len() + k,
{
    let ghost old_nodes = nodes@;
    proof {
        reveal(frontier_ok);
    }
    let n0 = nodes.len();
    let depth = nodes[frontier[0]].depth;
    let mut next: Vec<usize> = Vec::new();
    proof {
        reveal(new_leaves_from);
        reveal(splits_applied);
        reveal(others_unchanged);
        reveal(depths_kept);
    }
    for s in 0..frontier.len()
        invariant
            n0 == old_nodes.len(),
            n0 + 2 * frontier@.len() <= usize::MAX,
            best@.len() == frontier@.len(),
            depth == old_nodes[frontier@[0] as int].depth,
            depth < usize::MAX,
            frontier_ok(old_nodes, frontier@, best@, n_feats as int),
            applied_upto(old_nodes, frontier@, best@, depth, n_feats as int, s as int, nodes@),
            next@.len() == nodes@.len() - n0,
            forall|k: int| 0 <= k < next@.len() ==> #[trigger] next@[k] == n0 + k,
    {
        proof {
            lemma_splits_before_mono(best@, s as int, frontier@.len() as int);
            lemma_splits_before_nonneg(best@, s as int);
        }
        let nid = frontier[s];
        match best[s] {
            Some(b) => {
                let ghost before = nodes@;
                proof {
                    lemma_split_target_untouched(old_nodes, frontier@, best@, depth, n_feats as int, s as int, before);
                    lemma_apply_step_split(old_nodes, frontier@, best@, depth, n_feats as int, s as int, before);
                }
                let left = nodes.len();
                let right = left + 1;
                nodes.push(GrowNode { split: None, value_bits: 0, depth: depth + 1 });
                nodes.push(GrowNode { split: None, value_bits: 0, depth: depth + 1 });
                let mut node = nodes[nid];
                node.split = Some(GrowSplit { feature: b.0, threshold_bits: b.1, default_left: b.2, left, right });
                nodes.set(nid, node);
                next.push(left);
                next.push(right);
                assert(nodes@ =~= with_split(before, frontier@, best@, depth, s as int));
            },
            None => {
                proof {
                    lemma_apply_step_none(old_nodes, frontier@, best@, depth, n_feats as int, s as int, nodes@);
                }
            },
        }
    }
    next
}

/// Export a grown tree to the artifact's arrays: split nodes keep their
/// feature, threshold, children and NaN direction; leaves get feature `-1`
/// and their value in the threshold slot (children 0, NaN right).
pub open spec fn exported(nodes: Seq<GrowNode>, t: Tree) -> bool {
    let n = nodes.len();
    &&& t.feature@.len() == n
    &&& t.threshold_bits@.len() == n
    &&& t.left@.len() == n
    &&& t.right@.len() == n
    &&& t.default_left@.len() == n
    &&& forall|i: int|
        0 <= i < n ==> match (#[trigger] nodes[i]).split {
            Some(s) => t.feature@[i] == s.feature as i16 && t.threshold_bits@[i] == s.threshold_bits
                && t.left@[i] == s.left as u16 && t.right@[i] == s.right as u16
                && t.default_left@[i] == s.default_left,
            None => t.feature@[i] == -1 && t.threshold_bits@[i] == nodes[i].value_bits && t.left@[i] == 0
                && t.right@[i] == 0 && !t.default_left@[i],
        }
}

/// Convert a grown tree into the artifact's struct-of-arrays form.
pub fn export_tree(nodes: &Vec<GrowNode>, n_feats: usize) -> (t: Tree)
    requires
        0 < nodes@.len() <= u16::MAX,
        n_feats <= 0x7fff,
        grown_well_formed(nodes@, n_feats as int),
    ensures
        exported(nodes@, t),
        tree_well_formed(t, n_feats as int),
{
    let n = nodes.len();
    let mut feature: Vec<i16> = Vec::with_capacity(n);
    let mut threshold_bits: Vec<u32> = Vec::with_capacity(n);
    let mut left: Vec<u16> = Vec::with_capacity(n);
    let mut right: Vec<u16> = Vec::with_capacity(n);
    let mut default_left: Vec<bool> = Vec::with_capacity(n);
    for i in 0..n
        invariant
            n == nodes@.len(),
            n <= u16::MAX,
            n_feats <= 0x7fff,
            grown_well_formed(nodes@, n_feats as int),
            feature@.len() == i,
            threshold_bits@.len() == i,
            left@.len() == i,
            right@.len() == i,
            default_left@.len() == i,
            forall|j: int|
                0 <= j < i ==> match (#[trigger] nodes@[j]).split {
                    Some(s) => feature@[j] == s.feature as i16 && threshold_bits@[j] == s.threshold_bits
                        && left@[j] == s.left as u16 && right@[j] == s.right as u16 && default_left@[j] == s.default_left,
                    None => feature@[j] == -1 && threshold_bits@[j] == nodes@[j].value_bits && left@[j] == 0
                        && right@[j] == 0 && !default_left@[j],
                },
    {
        let node = nodes[i];
        match node.split {
            None => {
                feature.push(-1);
                threshold_bits.push(node.value_bits);
                left.push(0);
                right.push(0);
                default_left.push(false);
            },
            Some(s) => {
                assert(s.feature < n_feats && s.left < n && s.right < n);
                feature.push(s.feature as i16);
                threshold_bits.push(s.threshold_bits);
                left.push(s.left as u16);
                right.push(s.right as u16);
                default_left.push(s.default_left);
            },
        }
    }
    let t = Tree { feature, threshold_bits, left, right, default_left };
    assert forall|i: int| 0 <= i < n && #[trigger] t.feature@[i] >= 0 implies {
        &&& t.feature@[i] < n_feats
        &&& i < t.left@[i] < n
        &&& i < t.right@[i] < n
    } by {
        assert(nodes@[i].split is Some);
    }
    t
}

/// `f32::to_bits(1e-9)`: leaf values smaller than this are negligible.
pub const NEGLIGIBLE_LEAF_BITS: u32 = 0x3089_705f;

/// A tree that never split and whose single leaf is negligible adds
/// nothing to a prediction.
pub open spec fn is_noop_tree(nodes: Seq<GrowNode>) -> bool {
    nodes.len() == 1 && nodes[0].split is None && f32_lt(nodes[0].value_bits & F32_ABS_MASK, NEGLIGIBLE_LEAF_BITS)
}

/// Whether a grown tree is a no-op (see [`is_noop_tree`]).
pub fn noop_tree(nodes: &Vec<GrowNode>) -> (r: bool)
    ensures
        r == is_noop_tree(nodes@),
{
    nodes.len() == 1 && nodes[0].split.is_none() && f32_bits_lt(nodes[0].value_bits & F32_ABS_MASK, NEGLIGIBLE_LEAF_BITS)
}

/// Indices of the trees an export keeps: all but the no-op ones, in
/// order.
pub open spec fn kept_trees(trees: Seq<Seq<GrowNode>>, k: int) -> Seq<int>
    decreases k,
{
    if k <= 0 {
        Seq::empty()
    } else if is_noop_tree(trees[k - 1]) {
        kept_trees(trees, k - 1)
    } else {
        kept_trees(trees, k - 1).push(k - 1)
    }
}

/// Assemble the model artifact from grown trees: version 1, target
/// `log1p_height_m`, the given base score, clamp range, encoder and name,
/// the encoder's feature names, and every tree but the no-op ones, each
/// exported (see [`export_tree`]). With the encoder within the feature
/// budget and a finite, ordered clamp range, the artifact passes
/// [`GbtModel::validate`].
pub fn export_model(
    trees: &Vec<Vec<GrowNode>>,
    base_score_bits: u32,
    clamp_min_m_bits: u32,
    clamp_max_m_bits: u32,
    encoder: FeatureEncoder,
    name: String,
) -> (m: GbtModel)
    requires
        encoded_len(encoder.class_vocab@.len() as int, encoder.subtype_vocab@.len() as int) <= MAX_FEATURES,
        forall|k: int|
            0 <= k < trees@.len() ==> 0 < (#[trigger] trees@[k])@.len() <= u16::MAX && grown_well_formed(
                trees@[k]@,
                encoded_len(encoder.class_vocab@.len() as int, encoder.subtype_vocab@.len() as int),
            ),
    ensures
        m.version == 1,
        m.target@ == "log1p_height_m"@,
        m.name == name,
        m.base_score_bits == base_score_bits,
        m.clamp_min_m_bits == clamp_min_m_bits,
        m.clamp_max_m_bits == clamp_max_m_bits,
        m.encoder == encoder,
        m.feature_names@.len() == encoded_len(encoder.class_vocab@.len() as int, encoder.subtype_vocab@.len() as int),
        forall|i: int| 0 <= i < m.feature_names@.len() ==> #[trigger] m.feature_names@[i]@ == feature_name(encoder, i),
        m.trees@.len() == kept_trees(trees@.map_values(|t: Vec<GrowNode>| t@), trees@.len() as int).len(),
        forall|j: int|
            0 <= j < m.trees@.len() ==> exported(
                trees@[kept_trees(trees@.map_values(|t: Vec<GrowNode>| t@), trees@.len() as int)[j]]@,
                #[trigger] m.trees@[j],
            ),
        f32_is_finite(clamp_min_m_bits) && f32_is_finite(clamp_max_m_bits) && f32_lt(clamp_min_m_bits, clamp_max_m_bits)
            ==> model_valid(m),
{
    let ghost nf = encoded_len(encoder.class_vocab@.len() as int, encoder.subtype_vocab@.len() as int);
    let ghost tv = trees@.map_values(|t: Vec<GrowNode>| t@);
    let n_feats = encoder.len();
    let mut out: Vec<Tree> = Vec::new();
    for k in 0..trees.len()
        invariant
            n_feats == nf,
            nf <= MAX_FEATURES,
            tv == trees@.map_values(|t: Vec<GrowNode>| t@),
            forall|k: int|
                0 <= k < trees@.len() ==> 0 < (#[trigger] trees@[k])@.len() <= u16::MAX && grown_well_formed(trees@[k]@, nf),
            out@.len() == kept_trees(tv, k as int).len(),
            forall|j: int| 0 <= j < out@.len() ==> exported(trees@[kept_trees(tv, k as int)[j]]@, #[trigger] out@[j]),
            forall|j: int| 0 <= j < out@.len() ==> tree_well_formed(#[trigger] out@[j], nf),
    {
        if !noop_tree(&trees[k]) {
            let t = export_tree(&trees[k], n_feats);
            out.push(t);
        }
        assert(tv[k as int] == trees@[k as int]@);
    }
    let feature_names = encoder.feature_names();
    let m = GbtModel {
        version: 1,
        name,
        target: "log1p_height_m".to_string(),
        base_score_bits,
        clamp_min_m_bits,
        clamp_max_m_bits,
        encoder,
        feature_names,
        trees: out,
    };
    proof {
        if f32_is_finite(clamp_min_m_bits) && f32_is_finite(clamp_max_m_bits) && f32_lt(clamp_min_m_bits, clamp_max_m_bits) {
            lemma_well_formed_trees_valid(m);
        }
    }
    m
}

} // verus!
