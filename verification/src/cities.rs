//! City presets of the height calibrator: small (1-2 km) boxes with a
//! representative building stock, and where each draws its ground truth.
//! Japanese presets use PLATEAU LOD1; the Dutch presets use 3D BAG and
//! exist to measure how the model carries across countries.

use crate::text::{concat_str, str_eq};
use vstd::prelude::*;

verus! {

/// Where a preset's ground-truth building heights come from.
#[derive(Clone, Copy, PartialEq, Eq, Debug)]
pub enum TruthSource {
    /// PLATEAU LOD1 (Japan), keyed by the 5-digit municipal code.
    Plateau { city_code: &'static str },
    /// 3D BAG (Netherlands), queried by bounding box.
    Bag3d,
}

/// Short label of a truth source for listings and reports.
pub open spec fn truth_label(t: TruthSource) -> Seq<char> {
    match t {
        TruthSource::Plateau { city_code } => "plateau:"@ + city_code@,
        TruthSource::Bag3d => "3dbag"@,
    }
}

impl TruthSource {
    /// Short label, such as `plateau:13101` or `3dbag`.
    pub fn label(&self) -> (r: String)
        ensures
            r@ == truth_label(*self),
    {
        match self {
            TruthSource::Plateau { city_code } => concat_str("plateau:", city_code),
            TruthSource::Bag3d => "3dbag".to_string(),
        }
    }
}

/// A longitude/latitude box in thousandths of a degree.
#[derive(Clone, Copy, PartialEq, Eq, Debug)]
pub struct BBoxMilli {
    pub west: i32,
    pub south: i32,
    pub east: i32,
    pub north: i32,
}

/// One preset: its name, truth source, box and a short description.
#[derive(Clone, Copy, PartialEq, Eq, Debug)]
pub struct City {
    pub name: &'static str,
    pub truth: TruthSource,
    pub bbox: BBoxMilli,
    pub note: &'static str,
}

/// The presets, in listing order.
pub open spec fn city_table() -> Seq<City> {
    seq![
        City {
            name: "chiyoda",
            truth: TruthSource::Plateau { city_code: "13101" },
            bbox: BBoxMilli { west: 139760, south: 35675, east: 139775, north: 35687 },
            note: "high-rise office core",
        },
        City {
            name: "setagaya",
            truth: TruthSource::Plateau { city_code: "13112" },
            bbox: BBoxMilli { west: 139665, south: 35640, east: 139680, north: 35650 },
            note: "dense low-rise residential",
        },
        City {
            name: "nishi-yokohama",
            truth: TruthSource::Plateau { city_code: "14100" },
            bbox: BBoxMilli { west: 139625, south: 35450, east: 139640, north: 35465 },
            note: "tower apartments + warehouses",
        },
        City {
            name: "tsukuba",
            truth: TruthSource::Plateau { city_code: "08220" },
            bbox: BBoxMilli { west: 140105, south: 36075, east: 140120, north: 36090 },
            note: "planned low/mid-rise + research",
        },
        City {
            name: "iiyama",
            truth: TruthSource::Plateau { city_code: "20213" },
            bbox: BBoxMilli { west: 138360, south: 36845, east: 138380, north: 36860 },
            note: "small mountain town, low-rise",
        },
        City {
            name: "hachioji",
            truth: TruthSource::Plateau { city_code: "13201" },
            bbox: BBoxMilli { west: 139332, south: 35655, east: 139348, north: 35668 },
            note: "suburban terminal station",
        },
        City {
            name: "kanazawa",
            truth: TruthSource::Plateau { city_code: "17201" },
            bbox: BBoxMilli { west: 136647, south: 36560, east: 136663, north: 36573 },
            note: "regional core",
        },
        City {
            name: "takamatsu",
            truth: TruthSource::Plateau { city_code: "37201" },
            bbox: BBoxMilli { west: 134043, south: 34338, east: 134058, north: 34351 },
            note: "regional CBD",
        },
        City {
            name: "delft",
            truth: TruthSource::Bag3d,
            bbox: BBoxMilli { west: 4352, south: 51995, east: 4368, north: 52008 },
            note: "NL historic center, low-rise",
        },
        City {
            name: "amsterdam",
            truth: TruthSource::Bag3d,
            bbox: BBoxMilli { west: 4880, south: 52360, east: 4900, north: 52375 },
            note: "NL canal belt, mid-rise",
        },
        City {
            name: "rotterdam",
            truth: TruthSource::Bag3d,
            bbox: BBoxMilli { west: 4465, south: 51915, east: 4485, north: 51928 },
            note: "NL CBD high-rise",
        },
        City {
            name: "groningen",
            truth: TruthSource::Bag3d,
            bbox: BBoxMilli { west: 6558, south: 53212, east: 6578, north: 53225 },
            note: "NL regional center",
        },
        City {
            name: "maastricht",
            truth: TruthSource::Bag3d,
            bbox: BBoxMilli { west: 5685, south: 50843, east: 5705, north: 50855 },
            note: "NL historic south",
        },
    ]
}

/// All presets, in listing order.
pub fn all() -> (v: Vec<City>)
    ensures
        v@ == city_table(),
{
    let mut v: Vec<City> = Vec::new();
    v.push(
        City {
            name: "chiyoda",
            truth: TruthSource::Plateau { city_code: "13101" },
            bbox: BBoxMilli { west: 139760, south: 35675, east: 139775, north: 35687 },
            note: "high-rise office core",
        },
    );
    v.push(
        City {
            name: "setagaya",
            truth: TruthSource::Plateau { city_code: "13112" },
            bbox: BBoxMilli { west: 139665, south: 35640, east: 139680, north: 35650 },
            note: "dense low-rise residential",
        },
    );
    v.push(
        City {
            name: "nishi-yokohama",
            truth: TruthSource::Plateau { city_code: "14100" },
            bbox: BBoxMilli { west: 139625, south: 35450, east: 139640, north: 35465 },
            note: "tower apartments + warehouses",
        },
    );
    v.push(
        City {
            name: "tsukuba",
            truth: TruthSource::Plateau { city_code: "08220" },
            bbox: BBoxMilli { west: 140105, south: 36075, east: 140120, north: 36090 },
            note: "planned low/mid-rise + research",
        },
    );
    v.push(
        City {
            name: "iiyama",
            truth: TruthSource::Plateau { city_code: "20213" },
            bbox: BBoxMilli { west: 138360, south: 36845, east: 138380, north: 36860 },
            note: "small mountain town, low-rise",
        },
    );
    v.push(
        City {
            name: "hachioji",
            truth: TruthSource::Plateau { city_code: "13201" },
            bbox: BBoxMilli { west: 139332, south: 35655, east: 139348, north: 35668 },
            note: "suburban terminal station",
        },
    );
    v.push(
        City {
            name: "kanazawa",
            truth: TruthSource::Plateau { city_code: "17201" },
            bbox: BBoxMilli { west: 136647, south: 36560, east: 136663, north: 36573 },
            note: "regional core",
        },
    );
    v.push(
        City {
            name: "takamatsu",
            truth: TruthSource::Plateau { city_code: "37201" },
            bbox: BBoxMilli { west: 134043, south: 34338, east: 134058, north: 34351 },
            note: "regional CBD",
        },
    );
    v.push(
        City {
            name: "delft",
            truth: TruthSource::Bag3d,
            bbox: BBoxMilli { west: 4352, south: 51995, east: 4368, north: 52008 },
            note: "NL historic center, low-rise",
        },
    );
    v.push(
        City {
            name: "amsterdam",
            truth: TruthSource::Bag3d,
            bbox: BBoxMilli { west: 4880, south: 52360, east: 4900, north: 52375 },
            note: "NL canal belt, mid-rise",
        },
    );
    v.push(
        City {
            name: "rotterdam",
            truth: TruthSource::Bag3d,
            bbox: BBoxMilli { west: 4465, south: 51915, east: 4485, north: 51928 },
            note: "NL CBD high-rise",
        },
    );
    v.push(
        City {
            name: "groningen",
            truth: TruthSource::Bag3d,
            bbox: BBoxMilli { west: 6558, south: 53212, east: 6578, north: 53225 },
            note: "NL regional center",
        },
    );
    v.push(
        City {
            name: "maastricht",
            truth: TruthSource::Bag3d,
            bbox: BBoxMilli { west: 5685, south: 50843, east: 5705, north: 50855 },
            note: "NL historic south",
        },
    );
    assert(v@ =~= city_table());
    v
}

/// Index of the first preset among the first `k` named `name`.
pub open spec fn first_named(table: Seq<City>, name: Seq<char>, k: int) -> Option<int>
    decreases k,
{
    if k <= 0 {
        None
    } else {
        match first_named(table, name, k - 1) {
            Some(i) => Some(i),
            None => if table[k - 1].name@ == name { Some(k - 1) } else { None },
        }
    }
}

proof fn lemma_first_named_extends(table: Seq<City>, name: Seq<char>, j: int, k: int)
    requires
        0 <= j <= k,
        first_named(table, name, j) is Some,
    ensures
        first_named(table, name, k) == first_named(table, name, j),
    decreases k - j,
{
    if j < k {
        lemma_first_named_extends(table, name, j, k - 1);
    }
}

/// The preset called `name`, if any.
pub fn get(name: &str) -> (r: Option<City>)
    ensures
        r == (match first_named(city_table(), name@, city_table().len() as int) {
            Some(i) => Some(city_table()[i]),
            None => None,
        }),
{
    let cities = all();
    let n = cities.len();
    let mut i: usize = 0;
    while i < n
        invariant
            cities@ == city_table(),
            n == cities@.len(),
            i <= n,
            first_named(cities@, name@, i as int) is None,
        decreases n - i,
    {
        if str_eq(cities[i].name, name) {
            proof { lemma_first_named_extends(cities@, name@, i as int + 1, n as int); }
            return Some(cities[i]);
        }
        i = i + 1;
    }
    None
}

/// No two presets share a name.
pub proof fn law_city_names_distinct(i: int, j: int)
    requires
        0 <= i < j < city_table().len(),
    ensures
        city_table()[i].name@ != city_table()[j].name@,
{
    reveal_strlit("chiyoda");
    reveal_strlit("setagaya");
    reveal_strlit("nishi-yokohama");
    reveal_strlit("tsukuba");
    reveal_strlit("iiyama");
    reveal_strlit("hachioji");
    reveal_strlit("kanazawa");
    reveal_strlit("takamatsu");
    reveal_strlit("delft");
    reveal_strlit("amsterdam");
    reveal_strlit("rotterdam");
    reveal_strlit("groningen");
    reveal_strlit("maastricht");
    assert("chiyoda"@.len() == 7 && "chiyoda"@[0] == 'c');
    assert("setagaya"@.len() == 8 && "setagaya"@[0] == 's');
    assert("nishi-yokohama"@.len() == 14 && "nishi-yokohama"@[0] == 'n');
    assert("tsukuba"@.len() == 7 && "tsukuba"@[0] == 't');
    assert("iiyama"@.len() == 6 && "iiyama"@[0] == 'i');
    assert("hachioji"@.len() == 8 && "hachioji"@[0] == 'h');
    assert("kanazawa"@.len() == 8 && "kanazawa"@[0] == 'k');
    assert("takamatsu"@.len() == 9 && "takamatsu"@[0] == 't');
    assert("delft"@.len() == 5 && "delft"@[0] == 'd');
    assert("amsterdam"@.len() == 9 && "amsterdam"@[0] == 'a');
    assert("rotterdam"@.len() == 9 && "rotterdam"@[0] == 'r');
    assert("groningen"@.len() == 9 && "groningen"@[0] == 'g');
    assert("maastricht"@.len() == 10 && "maastricht"@[0] == 'm');
}

/// The Dutch presets (Delft, Amsterdam, Rotterdam, Groningen, Maastricht)
/// draw their truth from 3D BAG, every other preset from PLATEAU.
pub proof fn law_dutch_presets_use_bag3d(i: int)
    requires
        0 <= i < city_table().len(),
    ensures
        (city_table()[i].truth is Bag3d) <==> {
            let n = city_table()[i].name@;
            n == "delft"@ || n == "amsterdam"@ || n == "rotterdam"@ || n == "groningen"@ || n == "maastricht"@
        },
{
    reveal_strlit("chiyoda");
    reveal_strlit("setagaya");
    reveal_strlit("nishi-yokohama");
    reveal_strlit("tsukuba");
    reveal_strlit("iiyama");
    reveal_strlit("hachioji");
    reveal_strlit("kanazawa");
    reveal_strlit("takamatsu");
    reveal_strlit("delft");
    reveal_strlit("amsterdam");
    reveal_strlit("rotterdam");
    reveal_strlit("groningen");
    reveal_strlit("maastricht");
    assert("chiyoda"@.len() == 7 && "chiyoda"@[0] == 'c');
    assert("setagaya"@.len() == 8 && "setagaya"@[0] == 's');
    assert("nishi-yokohama"@.len() == 14 && "nishi-yokohama"@[0] == 'n');
    assert("tsukuba"@.len() == 7 && "tsukuba"@[0] == 't');
    assert("iiyama"@.len() == 6 && "iiyama"@[0] == 'i');
    assert("hachioji"@.len() == 8 && "hachioji"@[0] == 'h');
    assert("kanazawa"@.len() == 8 && "kanazawa"@[0] == 'k');
    assert("takamatsu"@.len() == 9 && "takamatsu"@[0] == 't');
    assert("delft"@.len() == 5 && "delft"@[0] == 'd');
    assert("amsterdam"@.len() == 9 && "amsterdam"@[0] == 'a');
    assert("rotterdam"@.len() == 9 && "rotterdam"@[0] == 'r');
    assert("groningen"@.len() == 9 && "groningen"@[0] == 'g');
    assert("maastricht"@.len() == 10 && "maastricht"@[0] == 'm');
}

/// Every preset box is non-empty: west of east and south of north.
pub proof fn law_city_boxes_nonempty(i: int)
    requires
        0 <= i < city_table().len(),
    ensures
        city_table()[i].bbox.west < city_table()[i].bbox.east,
        city_table()[i].bbox.south < city_table()[i].bbox.north,
{
}

/// Cache subdirectory where each truth source memoises its downloads.
pub fn truth_cache_subdir(t: &TruthSource) -> (r: &'static str)
    ensures
        t is Plateau ==> r@ == "plateau"@,
        t is Bag3d ==> r@ == "3dbag"@,
{
    match t {
        TruthSource::Plateau { .. } => "plateau",
        TruthSource::Bag3d => "3dbag",
    }
}

/// Default cache root of the calibrator, relative to the working directory.
pub fn default_cache_dir() -> (r: &'static str)
    ensures
        r@ == "target/height-optimizer-cache"@,
{
    "target/height-optimizer-cache"
}

} // verus!
