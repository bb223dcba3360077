//! Tunable parameters of the height cascade.
//!
//! Real-valued parameters are carried as bit patterns: `f32::to_bits` for
//! areas and building counts, `f64::to_bits` for heights.

use crate::float_bits::{f32_bits_lt, f32_lt};
use crate::text::str_eq;
use vstd::prelude::*;

verus! {

/// `f64::to_bits(3.0)`: the height of an empty footprint curve.
pub const EMPTY_CURVE_HEIGHT_BITS: u64 = 0x4008_0000_0000_0000;

/// Whether the gradient-boosted model replaces the legacy class / subtype /
/// footprint tables as the third cascade step.
#[derive(Clone, Copy, PartialEq, Eq, Debug, Structural)]
pub enum ModelMode {
    Off,
    On,
}

/// Density classifier thresholds (average buildings per source tile).
#[derive(Clone, Copy, PartialEq, Eq, Debug, Structural)]
pub struct UrbanThresholds {
    pub dense_urban_min_bits: u32,
    pub urban_min_bits: u32,
    pub suburban_min_bits: u32,
}

/// One step of a footprint curve: areas below `max_area_m2` get `height_m`.
#[derive(Clone, Copy, PartialEq, Eq, Debug, Structural)]
pub struct FootprintBucket {
    pub max_area_m2_bits: u32,
    pub height_m_bits: u64,
}

/// Piecewise-constant `area -> height` function, buckets ascending by
/// their (exclusive) upper bound.
pub struct FootprintCurve {
    pub buckets: Vec<FootprintBucket>,
}

/// One footprint curve per density class.
pub struct FootprintTable {
    pub dense_urban: FootprintCurve,
    pub urban: FootprintCurve,
    pub suburban: FootprintCurve,
    pub rural: FootprintCurve,
}

/// No two entries of `s` share a key.
pub open spec fn keys_distinct(s: Seq<(String, u64)>) -> bool {
    forall|i: int, j: int| 0 <= i < j < s.len() ==> (#[trigger] s[i]).0@ != (#[trigger] s[j]).0@
}

/// A map from names to heights (`f64` bits): its entries, each key once.
pub struct NameTable {
    entries: Vec<(String, u64)>,
}

impl View for NameTable {
    type V = Seq<(String, u64)>;

    closed spec fn view(&self) -> Seq<(String, u64)> {
        self.entries@
    }
}

impl NameTable {
    #[verifier::type_invariant]
    spec fn keys_unique(self) -> bool {
        keys_distinct(self.entries@)
    }

    /// The empty table.
    pub fn new() -> (t: NameTable)
        ensures
            t@.len() == 0,
    {
        NameTable { entries: Vec::new() }
    }

    /// The table's entries; no key occurs twice.
    pub fn entries(&self) -> (r: &Vec<(String, u64)>)
        ensures
            r@ == self@,
            keys_distinct(self@),
    {
        proof { use_type_invariant(self); }
        &self.entries
    }

    /// Position of the entry with key `key`, if there is one.
    fn position(&self, key: &str) -> (r: Option<usize>)
        ensures
            match r {
                Some(i) => i < self@.len() && self@[i as int].0@ == key@,
                None => forall|j: int| 0 <= j < self@.len() ==> (#[trigger] self@[j]).0@ != key@,
            },
    {
        let n = self.entries.len();
        let mut i: usize = 0;
        while i < n
            invariant
                n == self@.len(),
                i <= n,
                forall|j: int| 0 <= j < i ==> (#[trigger] self@[j]).0@ != key@,
            decreases n - i,
        {
            if str_eq(self.entries[i].0.as_str(), key) {
                return Some(i);
            }
            i = i + 1;
        }
        None
    }

    /// Store `value` under `key`, replacing the value already stored there.
    pub fn insert(&mut self, key: String, value: u64)
        ensures
            keys_distinct(final(self)@),
            forall|k: Seq<char>| #[trigger] table_lookup(final(self)@, k)
                == if k == key@ { Some(value) } else { table_lookup(old(self)@, k) },
    {
        proof { use_type_invariant(&*self); }
        let ghost s0 = self@;
        let ghost kv = key@;
        let found = self.position(key.as_str());
        let mut entries: Vec<(String, u64)> = Vec::new();
        std::mem::swap(&mut entries, &mut self.entries);
        match found {
            Some(i) => {
                entries.set(i, (key, value));
                proof { lemma_replaced_entry(s0, entries@, i as int, kv, value); }
            },
            None => {
                entries.push((key, value));
                proof { lemma_pushed_entry(s0, entries@, kv, value); }
            },
        }
        self.entries = entries;
    }
}

proof fn lemma_replaced_entry(s0: Seq<(String, u64)>, s1: Seq<(String, u64)>, i: int, key: Seq<char>, value: u64)
    requires
        keys_distinct(s0),
        0 <= i < s0.len(),
        s0[i].0@ == key,
        s1.len() == s0.len(),
        s1[i].0@ == key,
        s1[i].1 == value,
        forall|j: int| 0 <= j < s0.len() && j != i ==> s1[j] == s0[j],
    ensures
        keys_distinct(s1),
        forall|k: Seq<char>| #[trigger] table_lookup(s1, k)
            == if k == key { Some(value) } else { table_lookup(s0, k) },
{
    assert forall|a: int, b: int| 0 <= a < b < s1.len() implies (#[trigger] s1[a]).0@ != (#[trigger] s1[b]).0@ by {
        assert(s0[a].0@ != s0[b].0@);
    }
    assert forall|k: Seq<char>| #[trigger] table_lookup(s1, k)
        == if k == key { Some(value) } else { table_lookup(s0, k) } by {
        lemma_lookup_distinct(s1, k);
        lemma_lookup_distinct(s0, k);
        lemma_same_key_entries(s0, s1, i, k, key);
    }
}

proof fn lemma_same_key_entries(s0: Seq<(String, u64)>, s1: Seq<(String, u64)>, i: int, k: Seq<char>, key: Seq<char>)
    requires
        0 <= i < s0.len(),
        s0[i].0@ == key,
        s1.len() == s0.len(),
        s1[i].0@ == key,
        forall|j: int| 0 <= j < s0.len() && j != i ==> s1[j] == s0[j],
        keys_distinct(s0),
        keys_distinct(s1),
    ensures
        k == key ==> table_lookup(s1, k) == Some(s1[i].1),
        k != key ==> table_lookup(s1, k) == table_lookup(s0, k),
{
    lemma_lookup_distinct(s1, k);
    lemma_lookup_distinct(s0, k);
    if k != key {
        if exists|j: int| 0 <= j < s0.len() && (#[trigger] s0[j]).0@ == k {
            let j = choose|j: int| 0 <= j < s0.len() && (#[trigger] s0[j]).0@ == k;
            assert(s1[j] == s0[j]);
        } else {
            assert forall|j: int| 0 <= j < s1.len() implies (#[trigger] s1[j]).0@ != k by {
                if j != i {
                    assert(s1[j] == s0[j]);
                }
            }
        }
    }
}

proof fn lemma_pushed_entry(s0: Seq<(String, u64)>, s1: Seq<(String, u64)>, key: Seq<char>, value: u64)
    requires
        keys_distinct(s0),
        forall|j: int| 0 <= j < s0.len() ==> (#[trigger] s0[j]).0@ != key,
        s1.len() == s0.len() + 1,
        s1[s0.len() as int].0@ == key,
        s1[s0.len() as int].1 == value,
        forall|j: int| 0 <= j < s0.len() ==> s1[j] == s0[j],
    ensures
        keys_distinct(s1),
        forall|k: Seq<char>| #[trigger] table_lookup(s1, k)
            == if k == key { Some(value) } else { table_lookup(s0, k) },
{
    assert forall|a: int, b: int| 0 <= a < b < s1.len() implies (#[trigger] s1[a]).0@ != (#[trigger] s1[b]).0@ by {
        assert(s1[a] == s0[a]);
        if b < s0.len() {
            assert(s1[b] == s0[b]);
        }
    }
    assert forall|k: Seq<char>| #[trigger] table_lookup(s1, k)
        == if k == key { Some(value) } else { table_lookup(s0, k) } by {
        lemma_lookup_distinct(s1, k);
        lemma_lookup_distinct(s0, k);
        lemma_pushed_key(s0, s1, k, key);
    }
}

proof fn lemma_pushed_key(s0: Seq<(String, u64)>, s1: Seq<(String, u64)>, k: Seq<char>, key: Seq<char>)
    requires
        s1.len() == s0.len() + 1,
        s1[s0.len() as int].0@ == key,
        forall|j: int| 0 <= j < s0.len() ==> s1[j] == s0[j],
        keys_distinct(s0),
        keys_distinct(s1),
    ensures
        k == key ==> table_lookup(s1, k) == Some(s1[s0.len() as int].1),
        k != key ==> table_lookup(s1, k) == table_lookup(s0, k),
{
    lemma_lookup_distinct(s1, k);
    lemma_lookup_distinct(s0, k);
    if k != key {
        if exists|j: int| 0 <= j < s0.len() && (#[trigger] s0[j]).0@ == k {
            let j = choose|j: int| 0 <= j < s0.len() && (#[trigger] s0[j]).0@ == k;
            assert(s1[j] == s0[j]);
        } else {
            assert forall|j: int| 0 <= j < s1.len() implies (#[trigger] s1[j]).0@ != k by {
                if j < s0.len() {
                    assert(s1[j] == s0[j]);
                }
            }
        }
    }
}

/// Parameters of the height cascade.
pub struct HeightConfig {
    /// Metres per floor, applied to `num_floors`.
    pub meters_per_floor_bits: u64,
    /// Overture `class` -> height.
    pub class_height_m: NameTable,
    /// Overture `subtype` -> height, the coarser fallback.
    pub subtype_height_m: NameTable,
    pub urban_thresholds: UrbanThresholds,
    pub footprint: FootprintTable,
    pub model: ModelMode,
}

/// Height of the first bucket among the first `k` whose bound exceeds
/// `area`, if any.
pub open spec fn first_bucket_height(buckets: Seq<FootprintBucket>, area: u32, k: int) -> Option<u64>
    decreases k,
{
    if k <= 0 {
        None
    } else {
        match first_bucket_height(buckets, area, k - 1) {
            Some(h) => Some(h),
            None => if f32_lt(area, buckets[k - 1].max_area_m2_bits) {
                Some(buckets[k - 1].height_m_bits)
            } else {
                None
            },
        }
    }
}

/// The curve's height for `area`: the first bucket whose bound exceeds it,
/// else the last bucket, else 3 m.
pub open spec fn curve_height(buckets: Seq<FootprintBucket>, area: u32) -> u64 {
    match first_bucket_height(buckets, area, buckets.len() as int) {
        Some(h) => h,
        None => if buckets.len() > 0 {
            buckets.last().height_m_bits
        } else {
            EMPTY_CURVE_HEIGHT_BITS
        },
    }
}

impl FootprintCurve {
    /// Height for a footprint of `area_m2_bits` (an `f32`).
    pub fn lookup(&self, area_m2_bits: u32) -> (h: u64)
        ensures
            h == curve_height(self.buckets@, area_m2_bits),
    {
        let n = self.buckets.len();
        let mut i: usize = 0;
        while i < n
            invariant
                n == self.buckets@.len(),
                i <= n,
                first_bucket_height(self.buckets@, area_m2_bits, i as int) is None,
            decreases n - i,
        {
            let b = self.buckets[i];
            if f32_bits_lt(area_m2_bits, b.max_area_m2_bits) {
                proof { lemma_first_bucket_extends(self.buckets@, area_m2_bits, i as int + 1, n as int); }
                return b.height_m_bits;
            }
            i = i + 1;
        }
        if n > 0 {
            self.buckets[n - 1].height_m_bits
        } else {
            EMPTY_CURVE_HEIGHT_BITS
        }
    }
}

proof fn lemma_first_bucket_extends(buckets: Seq<FootprintBucket>, area: u32, j: int, k: int)
    requires
        0 <= j <= k,
        first_bucket_height(buckets, area, j) is Some,
    ensures
        first_bucket_height(buckets, area, k) == first_bucket_height(buckets, area, j),
    decreases k - j,
{
    if j < k {
        lemma_first_bucket_extends(buckets, area, j, k - 1);
    }
}

/// Value of the first entry among the first `k` whose key is `key`.
pub open spec fn table_get(table: Seq<(String, u64)>, key: Seq<char>, k: int) -> Option<u64>
    decreases k,
{
    if k <= 0 {
        None
    } else {
        match table_get(table, key, k - 1) {
            Some(h) => Some(h),
            None => if table[k - 1].0@ == key { Some(table[k - 1].1) } else { None },
        }
    }
}

/// Value stored under `key` in a name table.
pub open spec fn table_lookup(table: Seq<(String, u64)>, key: Seq<char>) -> Option<u64> {
    table_get(table, key, table.len() as int)
}

proof fn lemma_table_get_extends(table: Seq<(String, u64)>, key: Seq<char>, j: int, k: int)
    requires
        0 <= j <= k,
        table_get(table, key, j) is Some,
    ensures
        table_get(table, key, k) == table_get(table, key, j),
    decreases k - j,
{
    if j < k {
        lemma_table_get_extends(table, key, j, k - 1);
    }
}

/// In a table whose keys are distinct, a key's value is that of the one
/// entry with that key, and a key no entry has is absent.
pub proof fn lemma_lookup_distinct(s: Seq<(String, u64)>, k: Seq<char>)
    requires
        keys_distinct(s),
    ensures
        forall|i: int| 0 <= i < s.len() && (#[trigger] s[i]).0@ == k ==> table_lookup(s, k) == Some(s[i].1),
        (forall|i: int| 0 <= i < s.len() ==> (#[trigger] s[i]).0@ != k) ==> table_lookup(s, k) is None,
{
    lemma_table_get_absent(s, k, s.len() as int);
    assert forall|i: int| 0 <= i < s.len() && (#[trigger] s[i]).0@ == k implies table_lookup(s, k) == Some(s[i].1) by {
        lemma_table_get_absent(s, k, i);
        assert(table_get(s, k, i + 1) == Some(s[i].1));
        lemma_table_get_extends(s, k, i + 1, s.len() as int);
    }
}

proof fn lemma_table_get_absent(s: Seq<(String, u64)>, k: Seq<char>, n: int)
    requires
        0 <= n <= s.len(),
        keys_distinct(s),
    ensures
        (forall|i: int| 0 <= i < n ==> (#[trigger] s[i]).0@ != k) ==> table_get(s, k, n) is None,
        forall|i: int| n <= i < s.len() && (#[trigger] s[i]).0@ == k ==> table_get(s, k, n) is None,
    decreases n,
{
    if n > 0 {
        lemma_table_get_absent(s, k, n - 1);
        assert forall|i: int| n <= i < s.len() && (#[trigger] s[i]).0@ == k implies table_get(s, k, n) is None by {
            assert(s[n - 1].0@ != s[i].0@);
        }
    }
}

/// Look a name up in a name table.
pub fn lookup_height(table: &NameTable, key: &str) -> (r: Option<u64>)
    ensures
        r == table_lookup(table@, key@),
{
    let entries = table.entries();
    let n = entries.len();
    let mut i: usize = 0;
    while i < n
        invariant
            entries@ == table@,
            n == table@.len(),
            i <= n,
            table_get(table@, key@, i as int) is None,
        decreases n - i,
    {
        if str_eq(entries[i].0.as_str(), key) {
            proof { lemma_table_get_extends(table@, key@, i as int + 1, n as int); }
            return Some(entries[i].1);
        }
        i = i + 1;
    }
    None
}

/// Value of the last entry among the first `n` with key `k`: what inserting
/// the entries in order leaves under `k`.
pub open spec fn last_value(entries: Seq<(Seq<char>, u64)>, k: Seq<char>, n: int) -> Option<u64>
    decreases n,
{
    if n <= 0 {
        None
    } else if entries[n - 1].0 == k {
        Some(entries[n - 1].1)
    } else {
        last_value(entries, k, n - 1)
    }
}


/// `f64::to_bits(3.0)`.
pub const HEIGHT_3_M: u64 = 0x4008000000000000;

/// `f64::to_bits(4.0)`.
pub const HEIGHT_4_M: u64 = 0x4010000000000000;

/// `f64::to_bits(5.0)`.
pub const HEIGHT_5_M: u64 = 0x4014000000000000;

/// `f64::to_bits(6.0)`.
pub const HEIGHT_6_M: u64 = 0x4018000000000000;

/// `f64::to_bits(8.0)`.
pub const HEIGHT_8_M: u64 = 0x4020000000000000;

/// `f64::to_bits(9.0)`.
pub const HEIGHT_9_M: u64 = 0x4022000000000000;

/// `f64::to_bits(10.0)`.
pub const HEIGHT_10_M: u64 = 0x4024000000000000;

/// `f64::to_bits(12.0)`.
pub const HEIGHT_12_M: u64 = 0x4028000000000000;

/// `f64::to_bits(15.0)`.
pub const HEIGHT_15_M: u64 = 0x402e000000000000;

/// `f64::to_bits(18.0)`.
pub const HEIGHT_18_M: u64 = 0x4032000000000000;

/// `f64::to_bits(24.0)`.
pub const HEIGHT_24_M: u64 = 0x4038000000000000;

/// `f64::to_bits(25.0)`.
pub const HEIGHT_25_M: u64 = 0x4039000000000000;

/// `f64::to_bits(30.0)`.
pub const HEIGHT_30_M: u64 = 0x403e000000000000;

/// `f64::to_bits(35.0)`.
pub const HEIGHT_35_M: u64 = 0x4041800000000000;

/// `f64::to_bits(40.0)`.
pub const HEIGHT_40_M: u64 = 0x4044000000000000;

/// `f64::to_bits(3.3)`: default metres per floor.
pub const METERS_PER_FLOOR_BITS: u64 = 0x400a_6666_6666_6666;

/// `f32::to_bits(1.0e9)`: the open upper bound of a curve's last bucket.
pub const SENTINEL_OPEN_BITS: u32 = 0x4e6e_6b28;

/// `f32::to_bits(60.0)`.
pub const F32_60: u32 = 0x4270_0000;

/// `f32::to_bits(200.0)`.
pub const F32_200: u32 = 0x4348_0000;

/// `f32::to_bits(800.0)`.
pub const F32_800: u32 = 0x4448_0000;

/// `f32::to_bits(1500.0)`.
pub const F32_1500: u32 = 0x44bb_8000;

/// Default heights of Overture classes, in insertion order.
pub open spec fn default_class_entries() -> Seq<(Seq<char>, u64)> {
    seq![
        ("house"@, HEIGHT_6_M),
        ("detached"@, HEIGHT_6_M),
        ("semidetached_house"@, HEIGHT_6_M),
        ("terrace"@, HEIGHT_6_M),
        ("bungalow"@, HEIGHT_6_M),
        ("static_caravan"@, HEIGHT_6_M),
        ("houseboat"@, HEIGHT_6_M),
        ("apartments"@, HEIGHT_25_M),
        ("residential"@, HEIGHT_25_M),
        ("dormitory"@, HEIGHT_25_M),
        ("hotel"@, HEIGHT_35_M),
        ("office"@, HEIGHT_40_M),
        ("commercial"@, HEIGHT_30_M),
        ("retail"@, HEIGHT_6_M),
        ("supermarket"@, HEIGHT_6_M),
        ("shop"@, HEIGHT_6_M),
        ("kiosk"@, HEIGHT_6_M),
        ("mall"@, HEIGHT_6_M),
        ("school"@, HEIGHT_12_M),
        ("kindergarten"@, HEIGHT_12_M),
        ("university"@, HEIGHT_12_M),
        ("college"@, HEIGHT_12_M),
        ("civic"@, HEIGHT_12_M),
        ("government"@, HEIGHT_12_M),
        ("public"@, HEIGHT_12_M),
        ("library"@, HEIGHT_12_M),
        ("museum"@, HEIGHT_12_M),
        ("theatre"@, HEIGHT_12_M),
        ("hospital"@, HEIGHT_18_M),
        ("clinic"@, HEIGHT_18_M),
        ("industrial"@, HEIGHT_10_M),
        ("warehouse"@, HEIGHT_10_M),
        ("factory"@, HEIGHT_10_M),
        ("manufacture"@, HEIGHT_10_M),
        ("garage"@, HEIGHT_4_M),
        ("garages"@, HEIGHT_4_M),
        ("carport"@, HEIGHT_4_M),
        ("parking"@, HEIGHT_4_M),
        ("shed"@, HEIGHT_3_M),
        ("hut"@, HEIGHT_3_M),
        ("container"@, HEIGHT_3_M),
        ("cabin"@, HEIGHT_3_M),
        ("tent"@, HEIGHT_3_M),
        ("service"@, HEIGHT_3_M),
        ("barn"@, HEIGHT_5_M),
        ("farm"@, HEIGHT_5_M),
        ("farm_auxiliary"@, HEIGHT_5_M),
        ("cowshed"@, HEIGHT_5_M),
        ("stable"@, HEIGHT_5_M),
        ("sty"@, HEIGHT_5_M),
        ("greenhouse"@, HEIGHT_5_M),
        ("silo"@, HEIGHT_5_M),
        ("church"@, HEIGHT_12_M),
        ("chapel"@, HEIGHT_12_M),
        ("cathedral"@, HEIGHT_12_M),
        ("mosque"@, HEIGHT_12_M),
        ("temple"@, HEIGHT_12_M),
        ("synagogue"@, HEIGHT_12_M),
        ("shrine"@, HEIGHT_12_M),
        ("religious"@, HEIGHT_12_M),
        ("monastery"@, HEIGHT_12_M),
        ("stadium"@, HEIGHT_15_M),
        ("sports_hall"@, HEIGHT_15_M),
        ("sports_centre"@, HEIGHT_15_M),
        ("grandstand"@, HEIGHT_15_M),
        ("train_station"@, HEIGHT_12_M),
        ("bus_station"@, HEIGHT_12_M),
        ("terminal"@, HEIGHT_12_M),
        ("transportation"@, HEIGHT_12_M)
    ]
}

/// Default heights of Overture subtypes, in insertion order.
pub open spec fn default_subtype_entries() -> Seq<(Seq<char>, u64)> {
    seq![
        ("residential"@, HEIGHT_8_M),
        ("commercial"@, HEIGHT_15_M),
        ("industrial"@, HEIGHT_10_M),
        ("agricultural"@, HEIGHT_5_M),
        ("outbuilding"@, HEIGHT_5_M),
        ("service"@, HEIGHT_5_M),
        ("civic"@, HEIGHT_12_M),
        ("education"@, HEIGHT_12_M),
        ("entertainment"@, HEIGHT_12_M),
        ("religious"@, HEIGHT_12_M),
        ("medical"@, HEIGHT_18_M),
        ("military"@, HEIGHT_8_M),
        ("transportation"@, HEIGHT_8_M)
    ]
}

/// A four-step footprint curve with bounds 60, 200 and 800 m² and an open
/// last bucket.
pub open spec fn four_step_curve(h0: u64, h1: u64, h2: u64, h3: u64) -> Seq<FootprintBucket> {
    seq![
        FootprintBucket { max_area_m2_bits: F32_60, height_m_bits: h0 },
        FootprintBucket { max_area_m2_bits: F32_200, height_m_bits: h1 },
        FootprintBucket { max_area_m2_bits: F32_800, height_m_bits: h2 },
        FootprintBucket { max_area_m2_bits: SENTINEL_OPEN_BITS, height_m_bits: h3 },
    ]
}

/// Default footprint curves: dense urban 12/15/18/24 m (large central lots
/// are typically full-block towers), urban 9/9/12/12 m, suburban 6/6/9/10 m,
/// rural 4/6/9/10 m.
pub open spec fn default_dense_urban_curve() -> Seq<FootprintBucket> {
    four_step_curve(HEIGHT_12_M, HEIGHT_15_M, HEIGHT_18_M, HEIGHT_24_M)
}

pub open spec fn default_urban_curve() -> Seq<FootprintBucket> {
    four_step_curve(HEIGHT_9_M, HEIGHT_9_M, HEIGHT_12_M, HEIGHT_12_M)
}

pub open spec fn default_suburban_curve() -> Seq<FootprintBucket> {
    four_step_curve(HEIGHT_6_M, HEIGHT_6_M, HEIGHT_9_M, HEIGHT_10_M)
}

pub open spec fn default_rural_curve() -> Seq<FootprintBucket> {
    four_step_curve(HEIGHT_4_M, HEIGHT_6_M, HEIGHT_9_M, HEIGHT_10_M)
}

/// The table that inserting `pairs` in order into an empty table gives.
fn table_of(pairs: &[(&str, u64)]) -> (t: NameTable)
    ensures
        forall|k: Seq<char>| #[trigger] table_lookup(t@, k)
            == last_value(pairs@.map_values(|p: (&str, u64)| (p.0@, p.1)), k, pairs@.len() as int),
{
    let ghost pv = pairs@.map_values(|p: (&str, u64)| (p.0@, p.1));
    let mut t = NameTable::new();
    for i in 0..pairs.len()
        invariant
            pv == pairs@.map_values(|p: (&str, u64)| (p.0@, p.1)),
            forall|k: Seq<char>| #[trigger] table_lookup(t@, k) == last_value(pv, k, i as int),
    {
        let (key, h) = pairs[i];
        t.insert(key.to_string(), h);
    }
    t
}

fn curve_of(h0: u64, h1: u64, h2: u64, h3: u64) -> (c: FootprintCurve)
    ensures
        c.buckets@ == four_step_curve(h0, h1, h2, h3),
{
    let mut buckets: Vec<FootprintBucket> = Vec::new();
    buckets.push(FootprintBucket { max_area_m2_bits: F32_60, height_m_bits: h0 });
    buckets.push(FootprintBucket { max_area_m2_bits: F32_200, height_m_bits: h1 });
    buckets.push(FootprintBucket { max_area_m2_bits: F32_800, height_m_bits: h2 });
    buckets.push(FootprintBucket { max_area_m2_bits: SENTINEL_OPEN_BITS, height_m_bits: h3 });
    assert(buckets@ =~= four_step_curve(h0, h1, h2, h3));
    FootprintCurve { buckets }
}

impl Default for HeightConfig {
    /// The default cascade parameters: 3.3 m per floor (fits Overture
    /// commercial buildings without blowing up residential walk-ups), the
    /// default class and subtype tables, density thresholds of 1500, 800
    /// and 200 buildings per source tile, the default footprint curves, and
    /// the model off.
    fn default() -> (c: Self)
        ensures
            c.meters_per_floor_bits == METERS_PER_FLOOR_BITS,
            forall|k: Seq<char>| #[trigger] table_lookup(c.class_height_m@, k)
                == last_value(default_class_entries(), k, default_class_entries().len() as int),
            forall|k: Seq<char>| #[trigger] table_lookup(c.subtype_height_m@, k)
                == last_value(default_subtype_entries(), k, default_subtype_entries().len() as int),
            c.urban_thresholds == (UrbanThresholds {
                dense_urban_min_bits: F32_1500,
                urban_min_bits: F32_800,
                suburban_min_bits: F32_200,
            }),
            c.footprint.dense_urban.buckets@ == default_dense_urban_curve(),
            c.footprint.urban.buckets@ == default_urban_curve(),
            c.footprint.suburban.buckets@ == default_suburban_curve(),
            c.footprint.rural.buckets@ == default_rural_curve(),
            c.model == ModelMode::Off,
    {
        let class_pairs: [(&str, u64); 69] = [
        ("house", HEIGHT_6_M),
        ("detached", HEIGHT_6_M),
        ("semidetached_house", HEIGHT_6_M),
        ("terrace", HEIGHT_6_M),
        ("bungalow", HEIGHT_6_M),
        ("static_caravan", HEIGHT_6_M),
        ("houseboat", HEIGHT_6_M),
        ("apartments", HEIGHT_25_M),
        ("residential", HEIGHT_25_M),
        ("dormitory", HEIGHT_25_M),
        ("hotel", HEIGHT_35_M),
        ("office", HEIGHT_40_M),
        ("commercial", HEIGHT_30_M),
        ("retail", HEIGHT_6_M),
        ("supermarket", HEIGHT_6_M),
        ("shop", HEIGHT_6_M),
        ("kiosk", HEIGHT_6_M),
        ("mall", HEIGHT_6_M),
        ("school", HEIGHT_12_M),
        ("kindergarten", HEIGHT_12_M),
        ("university", HEIGHT_12_M),
        ("college", HEIGHT_12_M),
        ("civic", HEIGHT_12_M),
        ("government", HEIGHT_12_M),
        ("public", HEIGHT_12_M),
        ("library", HEIGHT_12_M),
        ("museum", HEIGHT_12_M),
        ("theatre", HEIGHT_12_M),
        ("hospital", HEIGHT_18_M),
        ("clinic", HEIGHT_18_M),
        ("industrial", HEIGHT_10_M),
        ("warehouse", HEIGHT_10_M),
        ("factory", HEIGHT_10_M),
        ("manufacture", HEIGHT_10_M),
        ("garage", HEIGHT_4_M),
        ("garages", HEIGHT_4_M),
        ("carport", HEIGHT_4_M),
        ("parking", HEIGHT_4_M),
        ("shed", HEIGHT_3_M),
        ("hut", HEIGHT_3_M),
        ("container", HEIGHT_3_M),
        ("cabin", HEIGHT_3_M),
        ("tent", HEIGHT_3_M),
        ("service", HEIGHT_3_M),
        ("barn", HEIGHT_5_M),
        ("farm", HEIGHT_5_M),
        ("farm_auxiliary", HEIGHT_5_M),
        ("cowshed", HEIGHT_5_M),
        ("stable", HEIGHT_5_M),
        ("sty", HEIGHT_5_M),
        ("greenhouse", HEIGHT_5_M),
        ("silo", HEIGHT_5_M),
        ("church", HEIGHT_12_M),
        ("chapel", HEIGHT_12_M),
        ("cathedral", HEIGHT_12_M),
        ("mosque", HEIGHT_12_M),
        ("temple", HEIGHT_12_M),
        ("synagogue", HEIGHT_12_M),
        ("shrine", HEIGHT_12_M),
        ("religious", HEIGHT_12_M),
        ("monastery", HEIGHT_12_M),
        ("stadium", HEIGHT_15_M),
        ("sports_hall", HEIGHT_15_M),
        ("sports_centre", HEIGHT_15_M),
        ("grandstand", HEIGHT_15_M),
        ("train_station", HEIGHT_12_M),
        ("bus_station", HEIGHT_12_M),
        ("terminal", HEIGHT_12_M),
        ("transportation", HEIGHT_12_M)
        ];
        let subtype_pairs: [(&str, u64); 13] = [
        ("residential", HEIGHT_8_M),
        ("commercial", HEIGHT_15_M),
        ("industrial", HEIGHT_10_M),
        ("agricultural", HEIGHT_5_M),
        ("outbuilding", HEIGHT_5_M),
        ("service", HEIGHT_5_M),
        ("civic", HEIGHT_12_M),
        ("education", HEIGHT_12_M),
        ("entertainment", HEIGHT_12_M),
        ("religious", HEIGHT_12_M),
        ("medical", HEIGHT_18_M),
        ("military", HEIGHT_8_M),
        ("transportation", HEIGHT_8_M)
        ];
        assert(class_pairs@.map_values(|p: (&str, u64)| (p.0@, p.1)) =~= default_class_entries());
        assert(subtype_pairs@.map_values(|p: (&str, u64)| (p.0@, p.1)) =~= default_subtype_entries());
        HeightConfig {
            meters_per_floor_bits: METERS_PER_FLOOR_BITS,
            class_height_m: table_of(&class_pairs),
            subtype_height_m: table_of(&subtype_pairs),
            urban_thresholds: UrbanThresholds {
                dense_urban_min_bits: F32_1500,
                urban_min_bits: F32_800,
                suburban_min_bits: F32_200,
            },
            footprint: FootprintTable {
                dense_urban: curve_of(HEIGHT_12_M, HEIGHT_15_M, HEIGHT_18_M, HEIGHT_24_M),
                urban: curve_of(HEIGHT_9_M, HEIGHT_9_M, HEIGHT_12_M, HEIGHT_12_M),
                suburban: curve_of(HEIGHT_6_M, HEIGHT_6_M, HEIGHT_9_M, HEIGHT_10_M),
                rural: curve_of(HEIGHT_4_M, HEIGHT_6_M, HEIGHT_9_M, HEIGHT_10_M),
            },
            model: ModelMode::Off,
        }
    }
}

/// Under the default curves, urban buildings are never lower than 9 m and
/// dense-urban ones never lower than 12 m, whatever their footprint: the
/// urban curve gives 9 or 12 m, the dense-urban one 12, 15, 18 or 24 m.
/// (For non-negative finite `f64`s the order of bit patterns is the order
/// of values.)
pub proof fn law_default_density_floors(area_m2_bits: u32)
    ensures
        curve_height(default_urban_curve(), area_m2_bits) == HEIGHT_9_M
            || curve_height(default_urban_curve(), area_m2_bits) == HEIGHT_12_M,
        curve_height(default_urban_curve(), area_m2_bits) >= HEIGHT_9_M,
        ({
            let h = curve_height(default_dense_urban_curve(), area_m2_bits);
            h == HEIGHT_12_M || h == HEIGHT_15_M || h == HEIGHT_18_M || h == HEIGHT_24_M
        }),
        curve_height(default_dense_urban_curve(), area_m2_bits) >= HEIGHT_12_M,
{
    reveal_with_fuel(first_bucket_height, 5);
}

} // verus!
