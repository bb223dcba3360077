//! Footprint polygon bookkeeping and per-building metadata for extrusion.
//!
//! Real-valued quantities (metres, square metres) are carried as the bit
//! patterns of the `f32` values the renderer computes, so they can be stored
//! and written out unchanged.

use crate::features::{anchor_of, Anchor};
use crate::float_bits::{f32_bits_le, f32_bits_lt, f32_is_positive, f32_le, f32_lt, f64_bits_is_positive, f64_is_positive};
use crate::height_config::{curve_height, lookup_height, table_lookup, HeightConfig, ModelMode, UrbanThresholds};
use crate::mvt::DecodedTile;
use vstd::prelude::*;

verus! {

/// One decoded source tile and where it sits in the tile pyramid.
pub struct Source<'a> {
    pub z: u8,
    pub x: u32,
    pub y: u32,
    pub tile: &'a DecodedTile,
}

/// Footprint-area window; a bound of zero (or less) is disabled.
#[derive(Clone, Copy, PartialEq, Eq, Debug, Structural)]
pub struct AreaFilter {
    pub min_m2_bits: u32,
    pub max_m2_bits: u32,
}

/// The window admits `area`: not below an enabled minimum, and below an
/// enabled maximum.
pub open spec fn area_accepted(f: AreaFilter, area: u32) -> bool {
    !(f32_is_positive(f.min_m2_bits) && f32_lt(area, f.min_m2_bits))
        && !(f32_is_positive(f.max_m2_bits) && f32_le(f.max_m2_bits, area))
}

impl AreaFilter {
    pub fn accepts(&self, area_m2_bits: u32) -> (r: bool)
        ensures
            r == area_accepted(*self, area_m2_bits),
    {
        if f32_bits_lt(0, self.min_m2_bits) && f32_bits_lt(area_m2_bits, self.min_m2_bits) {
            return false;
        }
        if f32_bits_lt(0, self.max_m2_bits) && f32_bits_le(self.max_m2_bits, area_m2_bits) {
            return false;
        }
        true
    }
}

/// Coarse neighbourhood density, from the building count of the source
/// tiles. Raises the footprint heuristic's heights in built-up areas.
#[derive(Clone, Copy, PartialEq, Eq, Debug, Structural)]
pub enum UrbanLevel {
    Rural,
    Suburban,
    Urban,
    DenseUrban,
}

/// Position of a density class, from rural (0) to dense urban (3).
pub open spec fn urban_rank(u: UrbanLevel) -> int {
    match u {
        UrbanLevel::Rural => 0,
        UrbanLevel::Suburban => 1,
        UrbanLevel::Urban => 2,
        UrbanLevel::DenseUrban => 3,
    }
}

impl UrbanLevel {
    /// Stable lowercase tag of the class.
    pub fn as_str(self) -> (r: &'static str)
        ensures
            self == UrbanLevel::Rural ==> r@ == "rural"@,
            self == UrbanLevel::Suburban ==> r@ == "suburban"@,
            self == UrbanLevel::Urban ==> r@ == "urban"@,
            self == UrbanLevel::DenseUrban ==> r@ == "dense_urban"@,
    {
        match self {
            UrbanLevel::Rural => "rural",
            UrbanLevel::Suburban => "suburban",
            UrbanLevel::Urban => "urban",
            UrbanLevel::DenseUrban => "dense_urban",
        }
    }
}

/// Density class of an average per-source building count: the highest
/// class whose threshold the count reaches.
pub open spec fn urban_level_of(avg: u32, t: UrbanThresholds) -> UrbanLevel {
    if f32_le(t.dense_urban_min_bits, avg) {
        UrbanLevel::DenseUrban
    } else if f32_le(t.urban_min_bits, avg) {
        UrbanLevel::Urban
    } else if f32_le(t.suburban_min_bits, avg) {
        UrbanLevel::Suburban
    } else {
        UrbanLevel::Rural
    }
}

/// Classify by average building count per source tile (an `f32`).
pub fn classify_urban(avg_buildings_per_source_bits: u32, cfg: &HeightConfig) -> (u: UrbanLevel)
    ensures
        u == urban_level_of(avg_buildings_per_source_bits, cfg.urban_thresholds),
{
    let t = &cfg.urban_thresholds;
    let avg = avg_buildings_per_source_bits;
    if f32_bits_le(t.dense_urban_min_bits, avg) {
        UrbanLevel::DenseUrban
    } else if f32_bits_le(t.urban_min_bits, avg) {
        UrbanLevel::Urban
    } else if f32_bits_le(t.suburban_min_bits, avg) {
        UrbanLevel::Suburban
    } else {
        UrbanLevel::Rural
    }
}

/// Denser neighbourhoods never classify lower: a larger average gives a
/// class at least as high, whatever the thresholds.
pub proof fn law_classify_urban_monotone(a: u32, b: u32, t: UrbanThresholds)
    requires
        f32_le(a, b),
    ensures
        urban_rank(urban_level_of(a, t)) <= urban_rank(urban_level_of(b, t)),
{
}

/// Which cascade step settled a building's height, with what that step
/// contributes. Steps that need real arithmetic (floors times metres per
/// floor, the model's prediction) carry their inputs only.
#[derive(Clone, Copy, PartialEq, Eq, Debug, Structural)]
pub enum HeightChoice {
    /// Overture `height` (an `f64`), positive.
    Explicit { height_bits: u64 },
    /// Overture `num_floors`, positive; times metres per floor.
    NumFloors { floors: u32 },
    /// The gradient-boosted model predicts the height.
    Model,
    /// Height of the building's `class` in the class table.
    Class { height_bits: u64 },
    /// Height of the building's `subtype` in the subtype table.
    Subtype { height_bits: u64 },
    /// Footprint curve of the density class; `density` when that class is
    /// not rural.
    Footprint { height_bits: u64, density: bool },
}

/// The height cascade: explicit height, then floors, then either the model
/// (model mode on) or the class table, the subtype table and the
/// footprint curve of the density class.
pub open spec fn height_choice(
    explicit_height_bits: Option<u64>,
    num_floors: Option<u32>,
    class: Option<Seq<char>>,
    subtype: Option<Seq<char>>,
    footprint_m2_bits: u32,
    urban: UrbanLevel,
    cfg: HeightConfig,
) -> HeightChoice {
    if explicit_height_bits matches Some(h) && f64_is_positive(h) {
        HeightChoice::Explicit { height_bits: explicit_height_bits.unwrap() }
    } else if num_floors matches Some(l) && l > 0 {
        HeightChoice::NumFloors { floors: num_floors.unwrap() }
    } else if cfg.model == ModelMode::On {
        HeightChoice::Model
    } else if class matches Some(c) && table_lookup(cfg.class_height_m@, c) is Some {
        HeightChoice::Class { height_bits: table_lookup(cfg.class_height_m@, class.unwrap()).unwrap() }
    } else if subtype matches Some(st) && table_lookup(cfg.subtype_height_m@, st) is Some {
        HeightChoice::Subtype { height_bits: table_lookup(cfg.subtype_height_m@, subtype.unwrap()).unwrap() }
    } else {
        let buckets = match urban {
            UrbanLevel::DenseUrban => cfg.footprint.dense_urban.buckets@,
            UrbanLevel::Urban => cfg.footprint.urban.buckets@,
            UrbanLevel::Suburban => cfg.footprint.suburban.buckets@,
            UrbanLevel::Rural => cfg.footprint.rural.buckets@,
        };
        HeightChoice::Footprint {
            height_bits: curve_height(buckets, footprint_m2_bits),
            density: urban != UrbanLevel::Rural,
        }
    }
}

/// What the height cascade reads of a building, decoupled from
/// [`BuildingFeature`](crate::mvt::BuildingFeature) so that the renderer and
/// the height optimizer resolve height through the same code, with merged
/// (multi-fragment) geometry. `*_bits` fields hold `to_bits` of the float
/// values: `f64` for the explicit height, `f32` for the others.
pub struct HeightCascadeInput<'a> {
    /// Overture `height`.
    pub explicit_height_bits: Option<u64>,
    /// Overture `num_floors`.
    pub num_floors: Option<u32>,
    pub class: Option<&'a str>,
    pub subtype: Option<&'a str>,
    /// Merged footprint area across all fragments, in square metres.
    pub footprint_m2_bits: u32,
    /// Merged outer-ring perimeter across all fragments, in metres.
    pub perimeter_m_bits: u32,
    pub has_name: bool,
    pub has_parts: bool,
    pub roof_shape: Option<&'a str>,
    pub min_height_bits: Option<u32>,
}

/// Pick the cascade step that settles a building's height.
pub fn default_height_meters(
    input: &HeightCascadeInput,
    urban: UrbanLevel,
    cfg: &HeightConfig,
) -> (c: HeightChoice)
    ensures
        c == height_choice(
            input.explicit_height_bits,
            input.num_floors,
            match input.class { Some(s) => Some(s@), None => None },
            match input.subtype { Some(s) => Some(s@), None => None },
            input.footprint_m2_bits,
            urban,
            *cfg,
        ),
{
    let explicit_height_bits = input.explicit_height_bits;
    let num_floors = input.num_floors;
    let class = input.class;
    let subtype = input.subtype;
    let footprint_m2_bits = input.footprint_m2_bits;
    if let Some(h) = explicit_height_bits {
        if f64_bits_is_positive(h) {
            return HeightChoice::Explicit { height_bits: h };
        }
    }
    if let Some(l) = num_floors {
        if l > 0 {
            return HeightChoice::NumFloors { floors: l };
        }
    }
    if cfg.model == ModelMode::On {
        return HeightChoice::Model;
    }
    if let Some(cls) = class {
        if let Some(h) = lookup_height(&cfg.class_height_m, cls) {
            return HeightChoice::Class { height_bits: h };
        }
    }
    if let Some(st) = subtype {
        if let Some(h) = lookup_height(&cfg.subtype_height_m, st) {
            return HeightChoice::Subtype { height_bits: h };
        }
    }
    let curve = match urban {
        UrbanLevel::DenseUrban => &cfg.footprint.dense_urban,
        UrbanLevel::Urban => &cfg.footprint.urban,
        UrbanLevel::Suburban => &cfg.footprint.suburban,
        UrbanLevel::Rural => &cfg.footprint.rural,
    };
    let h = curve.lookup(footprint_m2_bits);
    HeightChoice::Footprint { height_bits: h, density: urban != UrbanLevel::Rural }
}

/// The tag the glb carries for a cascade step.
pub open spec fn method_tag(c: HeightChoice) -> Seq<char> {
    match c {
        HeightChoice::Explicit { .. } => "explicit"@,
        HeightChoice::NumFloors { .. } => "num_floors"@,
        HeightChoice::Model => "model"@,
        HeightChoice::Class { .. } => "class"@,
        HeightChoice::Subtype { .. } => "subtype"@,
        HeightChoice::Footprint { density, .. } => if density { "density"@ } else { "footprint"@ },
    }
}

impl HeightChoice {
    /// Stable tag naming the cascade step, surfaced in the glb.
    pub fn method(&self) -> (r: &'static str)
        ensures
            r@ == method_tag(*self),
    {
        match self {
            HeightChoice::Explicit { .. } => "explicit",
            HeightChoice::NumFloors { .. } => "num_floors",
            HeightChoice::Model => "model",
            HeightChoice::Class { .. } => "class",
            HeightChoice::Subtype { .. } => "subtype",
            HeightChoice::Footprint { density, .. } => if *density { "density" } else { "footprint" },
        }
    }
}

/// A positive explicit height always settles the cascade, whatever else the
/// building carries and whatever the configuration.
pub proof fn law_explicit_height_wins(
    h: u64,
    num_floors: Option<u32>,
    class: Option<Seq<char>>,
    subtype: Option<Seq<char>>,
    area: u32,
    urban: UrbanLevel,
    cfg: HeightConfig,
)
    requires
        f64_is_positive(h),
    ensures
        height_choice(Some(h), num_floors, class, subtype, area, urban, cfg) == (HeightChoice::Explicit { height_bits: h }),
{
}

/// With the model off the cascade never asks the model; with it on, a
/// building with neither a positive height nor floors always goes to the
/// model.
pub proof fn law_model_mode_decides_third_step(
    explicit: Option<u64>,
    num_floors: Option<u32>,
    class: Option<Seq<char>>,
    subtype: Option<Seq<char>>,
    area: u32,
    urban: UrbanLevel,
    cfg: HeightConfig,
)
    ensures
        cfg.model == ModelMode::Off ==> height_choice(explicit, num_floors, class, subtype, area, urban, cfg) != HeightChoice::Model,
        cfg.model == ModelMode::On
            && !(explicit matches Some(h) && f64_is_positive(h))
            && !(num_floors matches Some(l) && l > 0)
            ==> height_choice(explicit, num_floors, class, subtype, area, urban, cfg) == HeightChoice::Model,
{
}

/// Footprint heights are tagged `density` exactly outside rural areas.
pub proof fn law_density_tag_outside_rural(
    explicit: Option<u64>,
    num_floors: Option<u32>,
    class: Option<Seq<char>>,
    subtype: Option<Seq<char>>,
    area: u32,
    urban: UrbanLevel,
    cfg: HeightConfig,
)
    ensures
        height_choice(explicit, num_floors, class, subtype, area, urban, cfg) matches HeightChoice::Footprint { density, .. }
            ==> density == (urban != UrbanLevel::Rural),
{
}

/// A footprint height comes from the curve of the building's own density
/// class: dense urban from `footprint.dense_urban`, urban from
/// `footprint.urban`, suburban from `footprint.suburban`, rural from
/// `footprint.rural`, read at the building's footprint area.
pub proof fn law_footprint_curve_of_density_class(
    explicit: Option<u64>,
    num_floors: Option<u32>,
    class: Option<Seq<char>>,
    subtype: Option<Seq<char>>,
    area: u32,
    urban: UrbanLevel,
    cfg: HeightConfig,
)
    ensures
        height_choice(explicit, num_floors, class, subtype, area, urban, cfg) matches HeightChoice::Footprint { height_bits, .. }
            ==> {
                &&& urban == UrbanLevel::DenseUrban ==> height_bits == curve_height(cfg.footprint.dense_urban.buckets@, area)
                &&& urban == UrbanLevel::Urban ==> height_bits == curve_height(cfg.footprint.urban.buckets@, area)
                &&& urban == UrbanLevel::Suburban ==> height_bits == curve_height(cfg.footprint.suburban.buckets@, area)
                &&& urban == UrbanLevel::Rural ==> height_bits == curve_height(cfg.footprint.rural.buckets@, area)
            },
{
}

/// With the model off and neither a positive height nor floors, a class
/// found in the class table settles the height at that class's height;
/// otherwise a subtype found in the subtype table settles it at that
/// subtype's height; otherwise the footprint curve does.
pub proof fn law_table_steps_read_their_tables(
    explicit: Option<u64>,
    num_floors: Option<u32>,
    class: Option<Seq<char>>,
    subtype: Option<Seq<char>>,
    area: u32,
    urban: UrbanLevel,
    cfg: HeightConfig,
)
    requires
        cfg.model == ModelMode::Off,
        !(explicit matches Some(h) && f64_is_positive(h)),
        !(num_floors matches Some(l) && l > 0),
    ensures
        ({
            let c = height_choice(explicit, num_floors, class, subtype, area, urban, cfg);
            let by_class = match class { Some(k) => table_lookup(cfg.class_height_m@, k), None => None };
            let by_subtype = match subtype { Some(k) => table_lookup(cfg.subtype_height_m@, k), None => None };
            &&& by_class matches Some(h) ==> c == (HeightChoice::Class { height_bits: h })
            &&& by_class is None ==> (by_subtype matches Some(h) ==> c == (HeightChoice::Subtype { height_bits: h }))
            &&& by_class is None && by_subtype is None ==> c is Footprint
        }),
{
}

/// The density class is the highest whose threshold the average reaches:
/// dense urban exactly when it reaches the dense-urban threshold, urban
/// when it reaches the urban threshold but not the dense-urban one,
/// suburban when it reaches only the suburban threshold, rural when it
/// reaches none.
pub proof fn law_urban_class_thresholds(avg: u32, t: UrbanThresholds)
    ensures
        (urban_level_of(avg, t) == UrbanLevel::DenseUrban) == f32_le(t.dense_urban_min_bits, avg),
        (urban_level_of(avg, t) == UrbanLevel::Urban)
            == (!f32_le(t.dense_urban_min_bits, avg) && f32_le(t.urban_min_bits, avg)),
        (urban_level_of(avg, t) == UrbanLevel::Suburban)
            == (!f32_le(t.dense_urban_min_bits, avg) && !f32_le(t.urban_min_bits, avg)
                && f32_le(t.suburban_min_bits, avg)),
        (urban_level_of(avg, t) == UrbanLevel::Rural)
            == (!f32_le(t.dense_urban_min_bits, avg) && !f32_le(t.urban_min_bits, avg)
                && !f32_le(t.suburban_min_bits, avg)),
{
}

/// Per-building metadata, indexed by the feature id written into the mesh.
/// `*_bits` fields hold `f32::to_bits` of the metre values.
pub struct FeatureProps {
    /// MVT feature id, stable for dedup across source tiles of one release.
    pub feature_id: Option<u64>,
    /// GERS feature id, stable across releases.
    pub gers_id: Option<String>,
    pub name: Option<String>,
    pub subtype: Option<String>,
    pub class: Option<String>,
    /// Resolved extrusion height.
    pub height_m_bits: u32,
    /// Upstream `height`, when present and positive.
    pub source_height_m_bits: Option<u32>,
    /// Which cascade step produced the height.
    pub height_method: &'static str,
    pub min_height_m_bits: u32,
    pub roof_height_m_bits: u32,
    pub roof_shape: Option<String>,
    pub num_floors: u16,
    /// Ground elevation sampled at the centroid.
    pub ground_elev_m_bits: u32,
    pub footprint_m2_bits: u32,
}

/// One outer ring with zero or more holes, in tile units, closing duplicate
/// vertex stripped.
pub struct Polygon {
    pub outer: Vec<[i32; 2]>,
    pub holes: Vec<Vec<[i32; 2]>>,
}

/// A ring as a sequence of vertices.
pub type RingView = Seq<[i32; 2]>;

/// A polygon as (outer ring, holes).
pub open spec fn polygon_view(p: Polygon) -> (RingView, Seq<RingView>) {
    (p.outer@, p.holes@.map_values(|h: Vec<[i32; 2]>| h@))
}

/// `ring` without its closing vertex, when the last vertex repeats the
/// first (and there are at least two).
pub open spec fn stripped(ring: RingView) -> RingView {
    if ring.len() >= 2 && ring[0][0] == ring.last()[0] && ring[0][1] == ring.last()[1] {
        ring.drop_last()
    } else {
        ring
    }
}

/// Drop the closing duplicate vertex of a ring, if present.
pub fn strip_close(ring: &Vec<[i32; 2]>) -> (r: Vec<[i32; 2]>)
    ensures
        r@ == stripped(ring@),
{
    let n = ring.len();
    let keep = if n >= 2 && ring[0][0] == ring[n - 1][0] && ring[0][1] == ring[n - 1][1] {
        n - 1
    } else {
        n
    };
    let mut r: Vec<[i32; 2]> = Vec::with_capacity(keep);
    for i in 0..keep
        invariant
            keep <= ring@.len(),
            r@ =~= ring@.take(i as int),
    {
        r.push(ring[i]);
    }
    assert(ring@.take(keep as int) =~= stripped(ring@));
    r
}

/// Shoelace term of edge `i` of `ring` (closing edge wraps around).
pub open spec fn cross_term(ring: RingView, i: int) -> int {
    let p = ring[i];
    let q = ring[(i + 1) % (ring.len() as int)];
    p[0] as int * q[1] as int - q[0] as int * p[1] as int
}

/// Sum of the first `k` shoelace terms.
pub open spec fn cross_sum(ring: RingView, k: int) -> int
    decreases k,
{
    if k <= 0 { 0 } else { cross_sum(ring, k - 1) + cross_term(ring, k - 1) }
}

/// Twice the signed area of `ring` in tile units (positive for the outer
/// rings of the tile-space winding MVT uses).
pub open spec fn doubled_area(ring: RingView) -> int {
    cross_sum(ring, ring.len() as int)
}

/// Twice the signed shoelace area of a ring, computed exactly.
pub fn doubled_signed_area(ring: &Vec<[i32; 2]>) -> (a: i128)
    requires
        ring@.len() > 0,
    ensures
        a == doubled_area(ring@),
{
    let n = ring.len();
    let mut a: i128 = 0;
    for i in 0..n
        invariant
            n == ring@.len(),
            n > 0,
            a == cross_sum(ring@, i as int),
            -(i as int) * 0x8000_0000_0000_0000 <= a <= (i as int) * 0x8000_0000_0000_0000,
    {
        let p = ring[i];
        let q = ring[(i + 1) % n];
        let (px, py, qx, qy) = (p[0] as i128, p[1] as i128, q[0] as i128, q[1] as i128);
        proof {
            lemma_i32_product_bound(px as int, qy as int);
            lemma_i32_product_bound(qx as int, py as int);
        }
        let t1 = px * qy;
        let t2 = qx * py;
        assert((i as int) * 0x8000_0000_0000_0000 <= 0xffff_ffff_ffff_ffff * 0x8000_0000_0000_0000) by (nonlinear_arith)
            requires i < 0x1_0000_0000_0000_0000int, i >= 0;
        a = a + (t1 - t2);
    }
    a
}

proof fn lemma_i32_product_bound(a: int, b: int)
    by (nonlinear_arith)
    requires
        -0x8000_0000 <= a < 0x8000_0000,
        -0x8000_0000 <= b < 0x8000_0000,
    ensures
        -0x4000_0000_0000_0000 <= a * b <= 0x4000_0000_0000_0000,
{
}

/// MVT ring grouping: a ring (after stripping its closing vertex, and only
/// if it keeps at least 3 vertices) with positive tile-space area starts a
/// new polygon; any other ring is a hole of the most recent polygon, or is
/// dropped when there is none yet.
pub open spec fn group_spec(rings: Seq<RingView>) -> Seq<(RingView, Seq<RingView>)>
    decreases rings.len(),
{
    if rings.len() == 0 {
        Seq::empty()
    } else {
        let acc = group_spec(rings.drop_last());
        let r = stripped(rings.last());
        if r.len() < 3 {
            acc
        } else if doubled_area(r) > 0 {
            acc.push((r, Seq::<RingView>::empty()))
        } else if acc.len() > 0 {
            acc.update(acc.len() - 1, (acc.last().0, acc.last().1.push(r)))
        } else {
            acc
        }
    }
}

/// A hole ring (at least 3 vertices once closed, non-positive area) that
/// follows an outer ring joins the polygon of the latest outer ring: the
/// last polygon gains it as its newest hole, and every other polygon,
/// including the outer ring of the last one, is unchanged.
pub proof fn law_hole_joins_latest_polygon(rings: Seq<RingView>, r: RingView)
    requires
        stripped(r).len() >= 3,
        doubled_area(stripped(r)) <= 0,
        group_spec(rings).len() > 0,
    ensures
        ({
            let before = group_spec(rings);
            let after = group_spec(rings.push(r));
            &&& after.len() == before.len()
            &&& forall|j: int| 0 <= j < before.len() - 1 ==> #[trigger] after[j] == before[j]
            &&& after.last().0 == before.last().0
            &&& after.last().1 == before.last().1.push(stripped(r))
        }),
{
    assert(rings.push(r).drop_last() =~= rings);
}

/// An outer ring (at least 3 vertices once closed, positive area) starts a
/// new polygon with no holes after all earlier ones, which are unchanged.
pub proof fn law_outer_ring_starts_polygon(rings: Seq<RingView>, r: RingView)
    requires
        stripped(r).len() >= 3,
        doubled_area(stripped(r)) > 0,
    ensures
        group_spec(rings.push(r)) == group_spec(rings).push((stripped(r), Seq::<RingView>::empty())),
{
    assert(rings.push(r).drop_last() =~= rings);
}

/// A ring with fewer than 3 vertices once closed, or a hole ring before
/// any outer ring, changes nothing.
pub proof fn law_degenerate_or_orphan_ring_dropped(rings: Seq<RingView>, r: RingView)
    requires
        stripped(r).len() < 3 || (doubled_area(stripped(r)) <= 0 && group_spec(rings).len() == 0),
    ensures
        group_spec(rings.push(r)) == group_spec(rings),
{
    assert(rings.push(r).drop_last() =~= rings);
}

/// Group MVT rings into polygons (outer rings with their holes).
pub fn group_polygons(rings: &Vec<Vec<[i32; 2]>>) -> (out: Vec<Polygon>)
    ensures
        out@.map_values(|p: Polygon| polygon_view(p)) == group_spec(rings@.map_values(|r: Vec<[i32; 2]>| r@)),
{
    let ghost rv = rings@.map_values(|r: Vec<[i32; 2]>| r@);
    let mut out: Vec<Polygon> = Vec::new();
    for k in 0..rings.len()
        invariant
            rv == rings@.map_values(|r: Vec<[i32; 2]>| r@),
            out@.map_values(|p: Polygon| polygon_view(p)) == group_spec(rv.take(k as int)),
    {
        assert(rv.take(k + 1).drop_last() =~= rv.take(k as int));
        assert(rv.take(k + 1).last() == rings@[k as int]@);
        let r = strip_close(&rings[k]);
        if r.len() < 3 {
        } else if doubled_signed_area(&r) > 0 {
            let ghost before = out@;
            let poly = Polygon { outer: r, holes: Vec::new() };
            assert(polygon_view(poly).1 =~= Seq::<RingView>::empty());
            out.push(poly);
            assert(out@.map_values(|p: Polygon| polygon_view(p)) =~= before.map_values(|p: Polygon| polygon_view(p)).push(
                (r@, Seq::<RingView>::empty())));
        } else if out.len() > 0 {
            let ghost before = out@;
            let mut last = out.pop().unwrap();
            let ghost lv = polygon_view(last);
            last.holes.push(r);
            assert(polygon_view(last) =~= (lv.0, lv.1.push(r@)));
            out.push(last);
            assert(out@.map_values(|p: Polygon| polygon_view(p)) =~= before.map_values(|p: Polygon| polygon_view(p)).update(
                before.len() - 1, (lv.0, lv.1.push(r@))));
        }
    }
    assert(rv.take(rings@.len() as int) =~= rv);
    out
}

/// Ring vertices an extrusion consumes: the outer ring and every hole, each
/// only when it has at least 3 vertices.
pub open spec fn vertex_count_spec(outer: RingView, holes: Seq<RingView>) -> int {
    (if outer.len() >= 3 { outer.len() as int } else { 0 }) + holes_vertex_count(holes, holes.len() as int)
}

/// Vertices of the first `k` holes that have at least 3 vertices.
pub open spec fn holes_vertex_count(holes: Seq<RingView>, k: int) -> int
    decreases k,
{
    if k <= 0 {
        0
    } else {
        holes_vertex_count(holes, k - 1) + if holes[k - 1].len() >= 3 { holes[k - 1].len() as int } else { 0 }
    }
}

/// Ring vertices an extrusion of this polygon will consume.
pub fn polygon_vertex_count(polygon: &Polygon) -> (n: usize)
    requires
        polygon.outer@.len() + holes_vertex_count(polygon_view(*polygon).1, polygon.holes@.len() as int) <= usize::MAX,
    ensures
        n == vertex_count_spec(polygon_view(*polygon).0, polygon_view(*polygon).1),
{
    let ghost hv = polygon_view(*polygon).1;
    let outer = if polygon.outer.len() >= 3 { polygon.outer.len() } else { 0 };
    let mut total = outer;
    proof { lemma_holes_count_mono(hv, 0, hv.len() as int); }
    for k in 0..polygon.holes.len()
        invariant
            hv == polygon_view(*polygon).1,
            hv.len() == polygon.holes@.len(),
            total == outer + holes_vertex_count(hv, k as int),
            outer <= polygon.outer@.len(),
            polygon.outer@.len() + holes_vertex_count(hv, hv.len() as int) <= usize::MAX,
    {
        proof { lemma_holes_count_mono(hv, k + 1, hv.len() as int); }
        let h = &polygon.holes[k];
        assert(h@ == hv[k as int]);
        if h.len() >= 3 {
            total = total + h.len();
        }
    }
    total
}

proof fn lemma_holes_count_mono(holes: Seq<RingView>, j: int, k: int)
    requires
        0 <= j <= k,
    ensures
        0 <= holes_vertex_count(holes, j) <= holes_vertex_count(holes, k),
    decreases k - j,
{
    if j < k {
        lemma_holes_count_mono(holes, j, k - 1);
    } else if j > 0 {
        lemma_holes_count_nonneg(holes, j);
    }
}

proof fn lemma_holes_count_nonneg(holes: Seq<RingView>, j: int)
    ensures
        0 <= holes_vertex_count(holes, j),
    decreases j,
{
    if j > 0 {
        lemma_holes_count_nonneg(holes, j - 1);
    }
}

/// Least x (index 0) or y (index 1) coordinate of the first `k` vertices;
/// `i32::MAX` for none.
pub open spec fn ring_min(ring: RingView, axis: int, k: int) -> i32
    decreases k,
{
    if k <= 0 {
        i32::MAX
    } else {
        let m = ring_min(ring, axis, k - 1);
        let v = ring[k - 1][axis];
        if v < m { v } else { m }
    }
}

/// Greatest x or y coordinate of the first `k` vertices; `i32::MIN` for none.
pub open spec fn ring_max(ring: RingView, axis: int, k: int) -> i32
    decreases k,
{
    if k <= 0 {
        i32::MIN
    } else {
        let m = ring_max(ring, axis, k - 1);
        let v = ring[k - 1][axis];
        if v > m { v } else { m }
    }
}

/// Replace a polygon with its axis-aligned bounding rectangle of the outer
/// ring: four corners, no holes.
pub fn polygon_to_aabb(polygon: &Polygon) -> (r: Polygon)
    ensures
        ({
            let o = polygon.outer@;
            let n = o.len() as int;
            let (min_x, max_x) = (ring_min(o, 0, n), ring_max(o, 0, n));
            let (min_y, max_y) = (ring_min(o, 1, n), ring_max(o, 1, n));
            r.outer@ == seq![[min_x, min_y], [max_x, min_y], [max_x, max_y], [min_x, max_y]]
        }),
        r.holes@.len() == 0,
{
    let mut min_x = i32::MAX;
    let mut max_x = i32::MIN;
    let mut min_y = i32::MAX;
    let mut max_y = i32::MIN;
    for i in 0..polygon.outer.len()
        invariant
            min_x == ring_min(polygon.outer@, 0, i as int),
            max_x == ring_max(polygon.outer@, 0, i as int),
            min_y == ring_min(polygon.outer@, 1, i as int),
            max_y == ring_max(polygon.outer@, 1, i as int),
    {
        let p = polygon.outer[i];
        if p[0] < min_x {
            min_x = p[0];
        }
        if p[0] > max_x {
            max_x = p[0];
        }
        if p[1] < min_y {
            min_y = p[1];
        }
        if p[1] > max_y {
            max_y = p[1];
        }
    }
    let outer = vec![[min_x, min_y], [max_x, min_y], [max_x, max_y], [min_x, max_y]];
    Polygon { outer, holes: Vec::new() }
}

/// Vertex indices `(a, b)` of wall edge `i` of a ring of `n` vertices: the
/// ring is walked forwards, or backwards from its last vertex when
/// `reverse` (rings are walled clockwise so their normals face out).
pub open spec fn wall_edge_spec(n: int, i: int, reverse: bool) -> (int, int) {
    if reverse {
        (n - 1 - i, (n + n - 2 - i) % n)
    } else {
        (i, (i + 1) % n)
    }
}

/// Wall edge `i` of a ring of `n` vertices.
pub fn wall_edge(n: usize, i: usize, reverse: bool) -> (r: (usize, usize))
    requires
        i < n,
    ensures
        r.0 as int == wall_edge_spec(n as int, i as int, reverse).0,
        r.1 as int == wall_edge_spec(n as int, i as int, reverse).1,
        r.0 < n,
        r.1 < n,
{
    if reverse {
        let a = n - 1 - i;
        let b = if a == 0 { n - 1 } else { a - 1 };
        assert((n + n - 2 - i) % (n as int) == b) by {
            if a == 0 {
                vstd::arithmetic::div_mod::lemma_fundamental_div_mod_converse(n + n - 2 - i, n as int, 0, (n - 1) as int);
            } else {
                vstd::arithmetic::div_mod::lemma_fundamental_div_mod_converse(n + n - 2 - i, n as int, 1, (a - 1) as int);
            }
        }
        (a, b)
    } else {
        let b = if i + 1 == n { 0 } else { i + 1 };
        assert((i + 1) % (n as int) == b) by {
            if i + 1 == n {
                vstd::arithmetic::div_mod::lemma_fundamental_div_mod_converse(i + 1, n as int, 1, 0);
            } else {
                vstd::arithmetic::div_mod::lemma_fundamental_div_mod_converse(i + 1, n as int, 0, (i + 1) as int);
            }
        }
        (i, b)
    }
}

/// A ring walled backwards has the same edges as walled forwards, each
/// traversed the other way: backward edge `i` is forward edge `j` reversed.
pub proof fn law_reversed_walls_reverse_edges(n: int, i: int)
    requires
        0 <= i < n,
    ensures
        ({
            let j = if i == n - 1 { n - 1 } else { n - 2 - i };
            &&& 0 <= j < n
            &&& wall_edge_spec(n, i, true).0 == wall_edge_spec(n, j, false).1
            &&& wall_edge_spec(n, i, true).1 == wall_edge_spec(n, j, false).0
        }),
{
    let j = if i == n - 1 { n - 1 } else { n - 2 - i };
    if i == n - 1 {
        vstd::arithmetic::div_mod::lemma_fundamental_div_mod_converse(n + n - 2 - i, n, 0, n - 1);
        vstd::arithmetic::div_mod::lemma_fundamental_div_mod_converse(j + 1, n, 1, 0);
    } else {
        vstd::arithmetic::div_mod::lemma_fundamental_div_mod_converse(n + n - 2 - i, n, 1, n - 2 - i);
        vstd::arithmetic::div_mod::lemma_fundamental_div_mod_converse(j + 1, n, 0, j + 1);
    }
}

/// Index list of one wall quad whose four vertices start at `base`
/// (bottom a, bottom b, top b, top a): two triangles sharing the diagonal
/// from bottom a to top b.
pub fn wall_quad_indices(base: u32) -> (r: [u32; 6])
    requires
        base + 3 <= u32::MAX,
    ensures
        r@ == seq![base, (base + 2) as u32, (base + 1) as u32, base, (base + 3) as u32, (base + 2) as u32],
{
    [base, base + 2, base + 1, base, base + 3, base + 2]
}

/// Sum of the lengths of the first `k` rings among `lens` that have at
/// least 3 vertices.
pub open spec fn kept_len_sum(lens: Seq<usize>, k: int) -> int
    decreases k,
{
    if k <= 0 {
        0
    } else {
        kept_len_sum(lens, k - 1) + if lens[k - 1] >= 3 { lens[k - 1] as int } else { 0 }
    }
}

/// Start offsets, in the roof's flat vertex list, of the holes that have at
/// least 3 vertices (shorter ones are left out of the roof).
pub open spec fn hole_starts_spec(outer_len: int, lens: Seq<usize>, k: int) -> Seq<int>
    decreases k,
{
    if k <= 0 {
        Seq::empty()
    } else if lens[k - 1] >= 3 {
        hole_starts_spec(outer_len, lens, k - 1).push(outer_len + kept_len_sum(lens, k - 1))
    } else {
        hole_starts_spec(outer_len, lens, k - 1)
    }
}

proof fn lemma_kept_len_sum_mono(lens: Seq<usize>, j: int, k: int)
    requires
        0 <= j <= k,
    ensures
        0 <= kept_len_sum(lens, j) <= kept_len_sum(lens, k),
    decreases k - j,
{
    if j < k {
        lemma_kept_len_sum_mono(lens, j, k - 1);
    } else {
        lemma_kept_len_sum_nonneg(lens, j);
    }
}

proof fn lemma_kept_len_sum_nonneg(lens: Seq<usize>, k: int)
    ensures
        0 <= kept_len_sum(lens, k),
    decreases k,
{
    if k > 0 {
        lemma_kept_len_sum_nonneg(lens, k - 1);
    }
}

/// Layout of a roof's vertex list (outer ring, then each hole of at least
/// 3 vertices): where each hole starts, and the total vertex count.
pub fn roof_hole_starts(outer_len: usize, hole_lens: &Vec<usize>) -> (r: (Vec<usize>, usize))
    requires
        outer_len + kept_len_sum(hole_lens@, hole_lens@.len() as int) <= usize::MAX,
    ensures
        r.0@.map_values(|x: usize| x as int) == hole_starts_spec(outer_len as int, hole_lens@, hole_lens@.len() as int),
        r.1 == outer_len + kept_len_sum(hole_lens@, hole_lens@.len() as int),
{
    let mut starts: Vec<usize> = Vec::new();
    let mut running = outer_len;
    let n = hole_lens.len();
    for k in 0..n
        invariant
            n == hole_lens@.len(),
            running == outer_len + kept_len_sum(hole_lens@, k as int),
            outer_len + kept_len_sum(hole_lens@, n as int) <= usize::MAX,
            starts@.map_values(|x: usize| x as int) == hole_starts_spec(outer_len as int, hole_lens@, k as int),
    {
        proof { lemma_kept_len_sum_mono(hole_lens@, k + 1, n as int); }
        let len = hole_lens[k];
        if len >= 3 {
            let ghost before = starts@.map_values(|x: usize| x as int);
            starts.push(running);
            assert(starts@.map_values(|x: usize| x as int) =~= before.push(running as int));
            running = running + len;
        }
    }
    (starts, running)
}

/// Feature slot written into the mesh for the `n`-th emitted building:
/// `n`, saturating one below `u16::MAX`.
pub fn feature_slot(n: usize) -> (r: u16)
    ensures
        r as int == if n < 0xfffe { n as int } else { 0xfffe },
{
    if n < 0xfffe {
        n as u16
    } else {
        0xfffe
    }
}

/// The tile context and the cascade agree on what is trusted: a feature is
/// an anchor exactly when the cascade settles its height at step 1 or 2,
/// with the same height or floor count.
pub proof fn law_anchor_iff_cascade_trusts(
    f: crate::mvt::BuildingFeature,
    class: Option<Seq<char>>,
    subtype: Option<Seq<char>>,
    area: u32,
    urban: UrbanLevel,
    cfg: HeightConfig,
)
    ensures
        ({
            let c = height_choice(f.height_bits, f.num_floors, class, subtype, area, urban, cfg);
            &&& forall|h: u64| (anchor_of(f) == Some(Anchor::Height { height_bits: h })) <==> (c == HeightChoice::Explicit { height_bits: h })
            &&& forall|n: u32| (anchor_of(f) == Some(Anchor::Floors { floors: n })) <==> (c == HeightChoice::NumFloors { floors: n })
            &&& (anchor_of(f) is None <==> !(c is Explicit || c is NumFloors))
        }),
{
}

} // verus!
