//! Buildings split across source tiles: every footprint polygon of every
//! source feature is a fragment, and fragments whose features share a
//! feature id are one building. Features without an id cannot be matched,
//! so each of their fragments stands alone.

use crate::mesh::{group_polygons, group_spec, polygon_view, Polygon, RingView, Source};
use crate::mvt::{underground, BuildingFeature};
use std::collections::HashMap;
use vstd::prelude::*;

verus! {

broadcast use vstd::std_specs::hash::group_hash_axioms;

/// One footprint polygon of one source feature, in that source tile's
/// units.
pub struct Fragment {
    pub source_idx: usize,
    pub feature_idx: usize,
    /// Id of the feature, shared by all fragments of one building.
    pub feature_id: Option<u64>,
    pub polygon: Polygon,
}

/// A fragment as (source index, feature index, feature id, polygon).
pub type FragmentView = (int, int, Option<u64>, (RingView, Seq<RingView>));

pub open spec fn fragment_view(f: Fragment) -> FragmentView {
    (f.source_idx as int, f.feature_idx as int, f.feature_id, polygon_view(f.polygon))
}

/// The rings of a feature as vertex sequences.
pub open spec fn rings_view(f: BuildingFeature) -> Seq<RingView> {
    f.rings@.map_values(|r: Vec<[i32; 2]>| r@)
}

/// Fragments of feature `f` of source `s`: none when it is flagged
/// underground, else one per polygon its rings group into.
pub open spec fn feature_fragments(s: int, f: int, feat: BuildingFeature) -> Seq<FragmentView> {
    if underground(feat) {
        Seq::empty()
    } else {
        group_spec(rings_view(feat)).map_values(|p: (RingView, Seq<RingView>)| (s, f, feat.id, p))
    }
}

/// Fragments of the first `k` features of source `s`.
pub open spec fn tile_fragments(s: int, feats: Seq<BuildingFeature>, k: int) -> Seq<FragmentView>
    decreases k,
{
    if k <= 0 {
        Seq::empty()
    } else {
        tile_fragments(s, feats, k - 1) + feature_fragments(s, k - 1, feats[k - 1])
    }
}

/// Fragments of the first `k` sources, given each source's features.
pub open spec fn sources_fragments(tiles: Seq<Seq<BuildingFeature>>, k: int) -> Seq<FragmentView>
    decreases k,
{
    if k <= 0 {
        Seq::empty()
    } else {
        sources_fragments(tiles, k - 1) + tile_fragments(k - 1, tiles[k - 1], tiles[k - 1].len() as int)
    }
}

/// The features of each source.
pub open spec fn source_features<'a>(sources: Seq<Source<'a>>) -> Seq<Seq<BuildingFeature>> {
    sources.map_values(|s: Source<'a>| s.tile.buildings@)
}

/// Every fragment of every source, source by source and feature by
/// feature, skipping features flagged underground.
pub fn collect_fragments(sources: &[Source]) -> (out: Vec<Fragment>)
    ensures
        out@.map_values(|f: Fragment| fragment_view(f)) == sources_fragments(source_features(sources@), sources@.len() as int),
{
    let ghost tiles = source_features(sources@);
    let mut out: Vec<Fragment> = Vec::new();
    for s in 0..sources.len()
        invariant
            tiles == source_features(sources@),
            out@.map_values(|f: Fragment| fragment_view(f)) == sources_fragments(tiles, s as int),
    {
        let feats = &sources[s].tile.buildings;
        assert(feats@ == tiles[s as int]);
        for f in 0..feats.len()
            invariant
                tiles == source_features(sources@),
                feats@ == tiles[s as int],
                out@.map_values(|f: Fragment| fragment_view(f)) == sources_fragments(tiles, s as int) + tile_fragments(
                    s as int,
                    feats@,
                    f as int,
                ),
        {
            let feat = &feats[f];
            let ghost before = out@.map_values(|f: Fragment| fragment_view(f));
            if !feat.is_underground_structure() {
                let mut polys = group_polygons(&feat.rings);
                let ghost pv = polys@.map_values(|p: Polygon| polygon_view(p));
                let m = polys.len();
                for j in 0..m
                    invariant
                        m == polys@.len(),
                        pv.len() == m,
                        forall|t: int| j <= t < m ==> polygon_view(#[trigger] polys@[t]) == pv[t],
                        out@.map_values(|f: Fragment| fragment_view(f)) == before + pv.take(j as int).map_values(
                            |p: (RingView, Seq<RingView>)| (s as int, f as int, feat.id, p),
                        ),
                {
                    let ghost prev = out@.map_values(|f: Fragment| fragment_view(f));
                    let mut p = Polygon { outer: Vec::new(), holes: Vec::new() };
                    std::mem::swap(&mut p, &mut polys[j]);
                    out.push(Fragment { source_idx: s, feature_idx: f, feature_id: feat.id, polygon: p });
                    assert(out@.map_values(|f: Fragment| fragment_view(f)) =~= prev.push((s as int, f as int, feat.id, pv[j as int])));
                    assert(pv.take(j + 1).map_values(|p: (RingView, Seq<RingView>)| (s as int, f as int, feat.id, p)) =~= pv.take(
                        j as int,
                    ).map_values(|p: (RingView, Seq<RingView>)| (s as int, f as int, feat.id, p)).push(
                        (s as int, f as int, feat.id, pv[j as int]),
                    ));
                }
                assert(pv.take(m as int) =~= pv);
            } else {
                assert(feature_fragments(s as int, f as int, *feat) =~= Seq::<FragmentView>::empty());
            }
            assert(tile_fragments(s as int, feats@, f + 1) == tile_fragments(s as int, feats@, f as int) + feature_fragments(
                s as int,
                f as int,
                feats@[f as int],
            ));
            assert(out@.map_values(|f: Fragment| fragment_view(f)) =~= sources_fragments(tiles, s as int) + tile_fragments(
                s as int,
                feats@,
                f + 1,
            ));
        }
        assert(sources_fragments(tiles, s + 1) == sources_fragments(tiles, s as int) + tile_fragments(
            s as int,
            tiles[s as int],
            tiles[s as int].len() as int,
        ));
    }
    out
}

/// The feature ids of a fragment list.
pub open spec fn fragment_ids(frags: Seq<FragmentView>) -> Seq<Option<u64>> {
    frags.map_values(|f: FragmentView| f.2)
}

/// The buildings of `sources`: every fragment (see [`collect_fragments`]),
/// and for each building, in order of first appearance, the ascending
/// indices of its fragments (see [`group_fragments_by_id`]).
pub fn gather_buildings(sources: &[Source]) -> (r: (Vec<Fragment>, Vec<Vec<usize>>))
    ensures
        r.0@.map_values(|f: Fragment| fragment_view(f)) == sources_fragments(source_features(sources@), sources@.len() as int),
        grouped_exactly(
            r.1@.map_values(|g: Vec<usize>| g@),
            fragment_ids(r.0@.map_values(|f: Fragment| fragment_view(f))),
            r.0@.len() as int,
        ),
{
    let frags = collect_fragments(sources);
    let mut ids: Vec<Option<u64>> = Vec::new();
    for i in 0..frags.len()
        invariant
            ids@ == fragment_ids(frags@.map_values(|f: Fragment| fragment_view(f))).take(i as int),
    {
        ids.push(frags[i].feature_id);
        assert(ids@ =~= fragment_ids(frags@.map_values(|f: Fragment| fragment_view(f))).take(i + 1));
    }
    assert(ids@ =~= fragment_ids(frags@.map_values(|f: Fragment| fragment_view(f))));
    let groups = group_fragments_by_id(&ids);
    (frags, groups)
}

/// First index in `j..=k` whose id equals the id at `k`.
pub open spec fn first_index(ids: Seq<Option<u64>>, k: int, j: int) -> int
    decreases k - j,
{
    if j >= k {
        k
    } else if ids[j] == ids[k] {
        j
    } else {
        first_index(ids, k, j + 1)
    }
}

/// The fragment that opens the building of fragment `k`: the first one with
/// the same id, or `k` itself when it has no id.
pub open spec fn leader(ids: Seq<Option<u64>>, k: int) -> int {
    if ids[k] is None {
        k
    } else {
        first_index(ids, k, 0)
    }
}

/// Number of buildings opened by the first `k` fragments.
pub open spec fn opened(ids: Seq<Option<u64>>, k: int) -> int
    decreases k,
{
    if k <= 0 {
        0
    } else {
        opened(ids, k - 1) + if leader(ids, k - 1) == k - 1 { 1int } else { 0 }
    }
}

/// Index of the building that fragment `k` belongs to, buildings numbered
/// in the order their first fragment appears.
pub open spec fn building_of(ids: Seq<Option<u64>>, k: int) -> int {
    opened(ids, leader(ids, k))
}

proof fn lemma_first_index(ids: Seq<Option<u64>>, k: int, j: int)
    requires
        0 <= j <= k < ids.len(),
    ensures
        j <= first_index(ids, k, j) <= k,
        ids[first_index(ids, k, j)] == ids[k],
        forall|i: int| j <= i < first_index(ids, k, j) ==> ids[i] != ids[k],
    decreases k - j,
{
    if j < k && ids[j] != ids[k] {
        lemma_first_index(ids, k, j + 1);
    }
}

/// The leader is the first fragment carrying the id.
proof fn lemma_leader(ids: Seq<Option<u64>>, k: int)
    requires
        0 <= k < ids.len(),
    ensures
        0 <= leader(ids, k) <= k,
        ids[leader(ids, k)] == ids[k],
        ids[k] is Some ==> forall|i: int| 0 <= i < leader(ids, k) ==> ids[i] != ids[k],
        leader(ids, leader(ids, k)) == leader(ids, k),
{
    if ids[k] is Some {
        lemma_first_index(ids, k, 0);
        let l = leader(ids, k);
        lemma_first_index(ids, l, 0);
        let m = first_index(ids, l, 0);
        if m < l {
            assert(ids[m] == ids[k]);
        }
    }
}

/// Two fragments with the same id have the same leader.
proof fn lemma_same_id_same_leader(ids: Seq<Option<u64>>, i: int, j: int)
    requires
        0 <= i < ids.len(),
        0 <= j < ids.len(),
        ids[i] is Some,
        ids[i] == ids[j],
    ensures
        leader(ids, i) == leader(ids, j),
{
    lemma_leader(ids, i);
    lemma_leader(ids, j);
    let (a, b) = (leader(ids, i), leader(ids, j));
    if a < b {
        assert(ids[a] == ids[j]);
    } else if b < a {
        assert(ids[b] == ids[i]);
    }
}

/// A fragment with an id that no earlier fragment carries leads.
proof fn lemma_fresh_id_leads(ids: Seq<Option<u64>>, k: int)
    requires
        0 <= k < ids.len(),
        forall|i: int| 0 <= i < k ==> ids[i] != ids[k],
    ensures
        leader(ids, k) == k,
{
    lemma_leader(ids, k);
}

proof fn lemma_opened_mono(ids: Seq<Option<u64>>, j: int, k: int)
    requires
        0 <= j <= k,
    ensures
        opened(ids, j) <= opened(ids, k),
    decreases k - j,
{
    if j < k {
        lemma_opened_mono(ids, j, k - 1);
    }
}

/// Every fragment among the first `k` belongs to one of the buildings they
/// opened.
proof fn lemma_building_in_range(ids: Seq<Option<u64>>, i: int, k: int)
    requires
        0 <= i < k <= ids.len(),
    ensures
        0 <= building_of(ids, i) < opened(ids, k),
{
    lemma_leader(ids, i);
    let l = leader(ids, i);
    lemma_opened_mono(ids, 0, l);
    lemma_opened_mono(ids, l + 1, k);
}

/// Group fragments by id: element `b` lists, in ascending order, the
/// fragments of building `b`.
pub open spec fn grouped_exactly(groups: Seq<Seq<usize>>, ids: Seq<Option<u64>>, k: int) -> bool {
    &&& groups.len() == opened(ids, k)
    &&& forall|b: int, p: int, q: int|
        0 <= b < groups.len() && 0 <= p < q < groups[b].len() ==> #[trigger] groups[b][p] < #[trigger] groups[b][q]
    &&& forall|b: int, p: int| 0 <= b < groups.len() && 0 <= p < groups[b].len()
        ==> #[trigger] groups[b][p] < k && building_of(ids, groups[b][p] as int) == b
    &&& forall|i: int| 0 <= i < k ==> groups[building_of(ids, i)].contains(#[trigger] (i as usize))
}

/// Assign fragments, given by the ids of their features, to buildings.
/// Fragments with the same id share a building; each fragment without an
/// id opens its own. Buildings are listed in the order their first
/// fragment appears, each with its fragments in ascending order.
pub fn group_fragments_by_id(ids: &Vec<Option<u64>>) -> (groups: Vec<Vec<usize>>)
    ensures
        grouped_exactly(groups@.map_values(|g: Vec<usize>| g@), ids@, ids@.len() as int),
{
    let ghost idv = ids@;
    let mut by_id: HashMap<u64, usize> = HashMap::new();
    let mut groups: Vec<Vec<usize>> = Vec::new();
    let n = ids.len();
    for k in 0..n
        invariant
            n == idv.len(),
            idv == ids@,
            vstd::std_specs::hash::obeys_key_model::<u64>(),
            grouped_exactly(groups@.map_values(|g: Vec<usize>| g@), idv, k as int),
            forall|x: u64| #[trigger] by_id@.contains_key(x) <==> exists|i: int| 0 <= i < k && idv[i] == Some(x),
            forall|i: int| 0 <= i < k && #[trigger] idv[i] is Some ==> by_id@[idv[i].unwrap()] == building_of(idv, i),
    {
        let ghost gv = groups@.map_values(|g: Vec<usize>| g@);
        proof {
            lemma_leader(idv, k as int);
        }
        match ids[k] {
            Some(x) => {
                match by_id.get(&x) {
                    Some(b) => {
                        let b = *b;
                        let ghost i = choose|i: int| 0 <= i < k && idv[i] == Some(x);
                        proof {
                            lemma_same_id_same_leader(idv, i, k as int);
                            lemma_building_in_range(idv, i, k as int);
                        }
                        let mut g: Vec<usize> = Vec::new();
                        std::mem::swap(&mut g, &mut groups[b]);
                        g.push(k);
                        groups.set(b, g);
                        proof {
                            assert(groups@.map_values(|g: Vec<usize>| g@) =~= gv.update(b as int, gv[b as int].push(k)));
                            lemma_regroup_push(gv, groups@.map_values(|g: Vec<usize>| g@), idv, k, b as int);
                        }
                    },
                    None => {
                        proof { lemma_fresh_id_leads(idv, k as int); }
                        by_id.insert(x, groups.len());
                        let mut single: Vec<usize> = Vec::new();
                        single.push(k);
                        assert(single@ =~= seq![k]);
                        groups.push(single);
                        proof {
                            assert(groups@.map_values(|g: Vec<usize>| g@) =~= gv.push(seq![k]));
                            lemma_regroup_open(gv, groups@.map_values(|g: Vec<usize>| g@), idv, k);
                        }
                    },
                }
            },
            None => {
                let mut single: Vec<usize> = Vec::new();
                single.push(k);
                assert(single@ =~= seq![k]);
                groups.push(single);
                proof {
                    assert(groups@.map_values(|g: Vec<usize>| g@) =~= gv.push(seq![k]));
                    lemma_regroup_open(gv, groups@.map_values(|g: Vec<usize>| g@), idv, k);
                }
            },
        }
    }
    groups
}

proof fn lemma_regroup_push(gv: Seq<Seq<usize>>, gw: Seq<Seq<usize>>, ids: Seq<Option<u64>>, k: usize, b: int)
    requires
        0 <= (k as int) < ids.len(),
        grouped_exactly(gv, ids, (k as int)),
        0 <= b < gv.len(),
        building_of(ids, (k as int)) == b,
        leader(ids, (k as int)) < (k as int),
        gw == gv.update(b, gv[b].push(k)),
    ensures
        grouped_exactly(gw, ids, (k as int) + 1),
{
    assert(opened(ids, (k as int) + 1) == opened(ids, (k as int)));
    assert forall|c: int, p: int, q: int|
        0 <= c < gw.len() && 0 <= p < q < gw[c].len() implies #[trigger] gw[c][p] < #[trigger] gw[c][q] by {
        if c == b && q == gv[b].len() {
            assert(gv[b][p] < (k as int));
            assert(gw[c][q] == (k as int));
            assert(gw[c][p] == gv[b][p]);
        } else {
            assert(gw[c][p] == gv[c][p] && gw[c][q] == gv[c][q]);
        }
    }
    assert forall|i: int| 0 <= i < (k as int) + 1 implies gw[building_of(ids, i)].contains(#[trigger] (i as usize)) by {
        if i == (k as int) {
            assert(gw[b][gv[b].len() as int] == (k as int));
        } else {
            lemma_building_in_range(ids, i, (k as int));
            let c = building_of(ids, i);
            let p = choose|p: int| 0 <= p < gv[c].len() && gv[c][p] == i as usize;
            assert(gw[c][p] == i as usize);
        }
    }
}

proof fn lemma_regroup_open(gv: Seq<Seq<usize>>, gw: Seq<Seq<usize>>, ids: Seq<Option<u64>>, k: usize)
    requires
        0 <= (k as int) < ids.len(),
        grouped_exactly(gv, ids, (k as int)),
        leader(ids, (k as int)) == (k as int),
        gw == gv.push(seq![k]),
    ensures
        grouped_exactly(gw, ids, (k as int) + 1),
{
    assert(opened(ids, (k as int) + 1) == opened(ids, (k as int)) + 1);
    assert(building_of(ids, (k as int)) == gv.len());
    assert forall|i: int| 0 <= i < (k as int) + 1 implies gw[building_of(ids, i)].contains(#[trigger] (i as usize)) by {
        if i == (k as int) {
            assert(gw[gv.len() as int][0] == (k as int));
        } else {
            lemma_building_in_range(ids, i, (k as int));
            let c = building_of(ids, i);
            let p = choose|p: int| 0 <= p < gv[c].len() && gv[c][p] == i as usize;
            assert(gw[c][p] == i as usize);
        }
    }
}

/// Fragments share a building exactly when they are the same fragment or
/// their features carry the same id.
pub proof fn law_same_building_iff_same_id(ids: Seq<Option<u64>>, i: int, j: int)
    requires
        0 <= i < ids.len(),
        0 <= j < ids.len(),
    ensures
        (building_of(ids, i) == building_of(ids, j)) <==> (i == j || (ids[i] is Some && ids[i] == ids[j])),
{
    lemma_leader(ids, i);
    lemma_leader(ids, j);
    let (a, b) = (leader(ids, i), leader(ids, j));
    if ids[i] is Some && ids[i] == ids[j] {
        lemma_same_id_same_leader(ids, i, j);
    }
    if a < b {
        lemma_opened_mono(ids, a + 1, b);
    } else if b < a {
        lemma_opened_mono(ids, b + 1, a);
    } else if a == b && i != j {
        if ids[i] is None {
            assert(a == i);
        }
        if ids[j] is None {
            assert(b == j);
        }
    }
}

} // verus!
