//! Overture buildings tiles for the height calibrator: release discovery
//! from the bucket listing, the PMTiles archive URL, the tile grid covering
//! a box, on-disk cache names, and gzip-wrapped tile payloads.

use crate::text::concat_str;
use std::io::Read;
use vstd::prelude::*;
use vstd::string::StringExecFns;

verus! {

/// Root of the public Overture tiles bucket.
pub const BUCKET: &'static str = "https://overturemaps-tiles-us-west-2-beta.s3.amazonaws.com";

/// Zoom of the Overture buildings source tiles.
pub const SOURCE_Z: u8 = 14;

/// One fetched, decompressed source tile.
pub struct OvertureSource {
    pub z: u8,
    pub x: u32,
    pub y: u32,
    pub bytes: Vec<u8>,
}

/// URL of a release's buildings PMTiles archive.
pub fn fetch_release_url(release: &str) -> (r: String)
    ensures
        r@ == BUCKET@ + "/"@ + release@ + "/buildings.pmtiles"@,
{
    let mut r = concat_str(BUCKET, "/");
    r.append(release);
    r.append("/buildings.pmtiles");
    r
}

/// The source tile for a fetched payload: none for an empty payload (the
/// archive has no tile there).
pub fn overture_source(x: u32, y: u32, bytes: Vec<u8>) -> (r: Option<OvertureSource>)
    ensures
        bytes@.len() == 0 ==> r is None,
        bytes@.len() > 0 ==> (r matches Some(s) && s.z == SOURCE_Z && s.x == x && s.y == y && s.bytes@ == bytes@),
{
    if bytes.len() == 0 {
        None
    } else {
        Some(OvertureSource { z: SOURCE_Z, x, y, bytes })
    }
}

// ---------------------------------------------------------------------
// Tile grid

/// The tiles of the inclusive range `x0..=x1` by `y0..=y1`, column by
/// column: tile `k` is `(x0 + k / ny, y0 + k % ny)` with `ny` rows.
pub fn tiles_in_range(x0: u32, y0: u32, x1: u32, y1: u32) -> (tiles: Vec<(u32, u32)>)
    requires
        x0 <= x1 ==> (x1 - x0 + 1) * (if y0 <= y1 { y1 - y0 + 1 } else { 0int }) <= usize::MAX,
    ensures
        ({
            let nx: int = if x0 <= x1 { x1 - x0 + 1 } else { 0 };
            let ny: int = if y0 <= y1 { y1 - y0 + 1 } else { 0 };
            &&& tiles@.len() == nx * ny
            &&& forall|k: int|
                0 <= k < tiles@.len() ==> #[trigger] tiles@[k] == ((x0 + k / ny) as u32, (y0 + k % ny) as u32)
        }),
{
    let ghost nx: int = if x0 <= x1 { x1 - x0 + 1 } else { 0 };
    let ghost ny: int = if y0 <= y1 { y1 - y0 + 1 } else { 0 };
    let mut tiles: Vec<(u32, u32)> = Vec::new();
    if x0 > x1 || y0 > y1 {
        assert(nx * ny == 0) by (nonlinear_arith)
            requires
                nx == 0 || ny == 0,
        ;
        return tiles;
    }
    let mut x: u64 = x0 as u64;
    while x <= x1 as u64
        invariant
            x0 <= x <= x1 as int + 1,
            y0 <= y1,
            ny == y1 - y0 + 1,
            nx == x1 - x0 + 1,
            nx * ny <= usize::MAX,
            tiles@.len() == (x - x0) * ny,
            forall|k: int|
                0 <= k < tiles@.len() ==> #[trigger] tiles@[k] == ((x0 + k / ny) as u32, (y0 + k % ny) as u32),
        decreases x1 as int + 1 - x,
    {
        let mut y: u64 = y0 as u64;
        while y <= y1 as u64
            invariant
                x0 <= x <= x1,
                y0 <= y <= y1 as int + 1,
                ny == y1 - y0 + 1,
                nx == x1 - x0 + 1,
                nx * ny <= usize::MAX,
                tiles@.len() == (x - x0) * ny + (y - y0),
                forall|k: int|
                    0 <= k < tiles@.len() ==> #[trigger] tiles@[k] == ((x0 + k / ny) as u32, (y0 + k % ny) as u32),
            decreases y1 as int + 1 - y,
        {
            proof {
                let k = (x - x0) * ny + (y - y0);
                vstd::arithmetic::div_mod::lemma_fundamental_div_mod_converse(k, ny, x - x0, y - y0);
                assert(k < nx * ny) by (nonlinear_arith)
                    requires
                        k == (x - x0) * ny + (y - y0),
                        0 <= x - x0 < nx,
                        0 <= y - y0 < ny,
                ;
            }
            tiles.push((x as u32, y as u32));
            y = y + 1;
        }
        proof {
            assert((x - x0) * ny + ny == (x + 1 - x0) * ny) by (nonlinear_arith);
        }
        x = x + 1;
    }
    tiles
}

// ---------------------------------------------------------------------
// Cache file names

/// The character of decimal digit `d`.
pub open spec fn digit_char(d: int) -> char {
    (48 + d) as char
}

/// Decimal representation of `v`, without leading zeros.
pub open spec fn decimal(v: nat) -> Seq<char>
    decreases v,
{
    if v < 10 {
        seq![digit_char(v as int)]
    } else {
        decimal(v / 10) + seq![digit_char((v % 10) as int)]
    }
}

fn digit_str(d: u64) -> (r: &'static str)
    requires
        d < 10,
    ensures
        r@ == seq![digit_char(d as int)],
{
    proof {
        reveal_strlit("0");
        reveal_strlit("1");
        reveal_strlit("2");
        reveal_strlit("3");
        reveal_strlit("4");
        reveal_strlit("5");
        reveal_strlit("6");
        reveal_strlit("7");
        reveal_strlit("8");
        reveal_strlit("9");
    }
    let r = match d {
        0 => "0",
        1 => "1",
        2 => "2",
        3 => "3",
        4 => "4",
        5 => "5",
        6 => "6",
        7 => "7",
        8 => "8",
        _ => "9",
    };
    assert(r@ =~= seq![digit_char(d as int)]);
    r
}

/// Append the decimal representation of `v`.
pub fn push_decimal(s: &mut String, v: u64)
    ensures
        final(s)@ == old(s)@ + decimal(v as nat),
    decreases v,
{
    if v >= 10 {
        push_decimal(s, v / 10);
    }
    s.append(digit_str(v % 10));
    assert(final(s)@ =~= old(s)@ + decimal(v as nat)) by {
        if v >= 10 {
            assert(decimal(v as nat) == decimal((v / 10) as nat) + seq![digit_char((v % 10) as int)]);
        }
    }
}

/// Cache file name of one source tile of a release:
/// `ov-{release}-{z}-{x}-{y}.mvt`.
pub fn cache_file_name(release: &str, z: u8, x: u32, y: u32) -> (r: String)
    ensures
        r@ == "ov-"@ + release@ + "-"@ + decimal(z as nat) + "-"@ + decimal(x as nat) + "-"@ + decimal(y as nat)
            + ".mvt"@,
{
    let mut r = concat_str("ov-", release);
    r.append("-");
    push_decimal(&mut r, z as u64);
    r.append("-");
    push_decimal(&mut r, x as u64);
    r.append("-");
    push_decimal(&mut r, y as u64);
    r.append(".mvt");
    r
}

// ---------------------------------------------------------------------
// Gzip payloads

#[verifier::external_type_specification]
#[verifier::external_body]
pub struct ExIoError(std::io::Error);

/// What decompressing `data` as one gzip member gives: the decompressed
/// bytes, or none when `data` is not valid gzip.
pub uninterp spec fn gunzipped(data: Seq<u8>) -> Option<Seq<u8>>;

/// `flate2::read::GzDecoder` over `data`, read to the end with
/// `Read::read_to_end`: the decompressed bytes, or the I/O error the
/// decoder reports. The outcome depends on the bytes alone.
#[verifier::external_body]
fn gunzip(data: &[u8]) -> (r: Result<Vec<u8>, std::io::Error>)
    ensures
        match r {
            Ok(v) => gunzipped(data@) == Some(v@),
            Err(_) => gunzipped(data@) is None,
        },
{
    let mut out = Vec::new();
    flate2::read::GzDecoder::new(data).read_to_end(&mut out).map(|_| out)
}

/// The payload starts with the gzip magic bytes `1f 8b`.
pub open spec fn is_gzip(b: Seq<u8>) -> bool {
    b.len() >= 2 && b[0] == 0x1f && b[1] == 0x8b
}

/// Decompress a tile payload when it is gzip-wrapped, else keep it.
pub fn maybe_gunzip(b: &[u8]) -> (r: Result<Vec<u8>, std::io::Error>)
    ensures
        !is_gzip(b@) ==> (r matches Ok(v) && v@ == b@),
        is_gzip(b@) ==> match r {
            Ok(v) => gunzipped(b@) == Some(v@),
            Err(_) => gunzipped(b@) is None,
        },
{
    if b.len() >= 2 && b[0] == 0x1f && b[1] == 0x8b {
        gunzip(b)
    } else {
        let mut v: Vec<u8> = Vec::with_capacity(b.len());
        for i in 0..b.len()
            invariant
                v@ == b@.take(i as int),
        {
            v.push(b[i]);
            assert(v@ =~= b@.take(i + 1));
        }
        assert(v@ =~= b@);
        Ok(v)
    }
}

// ---------------------------------------------------------------------
// Release discovery

/// `<Prefix>`, the opening tag of a listed key prefix.
pub open spec fn open_tag() -> Seq<u8> {
    seq![60u8, 80u8, 114u8, 101u8, 102u8, 105u8, 120u8, 62u8]
}

/// `</Prefix>`, its closing tag.
pub open spec fn close_tag() -> Seq<u8> {
    seq![60u8, 47u8, 80u8, 114u8, 101u8, 102u8, 105u8, 120u8, 62u8]
}

/// `pat` occurs in `s` at `i`.
pub open spec fn occurs_at(s: Seq<u8>, pat: Seq<u8>, i: int) -> bool {
    0 <= i && i + pat.len() <= s.len() && s.subrange(i, i + pat.len()) == pat
}

/// First position at or after `from` where `pat` occurs, or `s.len()`.
pub open spec fn next_occ(s: Seq<u8>, pat: Seq<u8>, from: int) -> int
    decreases s.len() + 1 - from,
{
    if from < 0 || from + pat.len() > s.len() {
        s.len() as int
    } else if occurs_at(s, pat, from) {
        from
    } else {
        next_occ(s, pat, from + 1)
    }
}

pub proof fn lemma_next_occ(s: Seq<u8>, pat: Seq<u8>, from: int)
    requires
        0 <= from,
        pat.len() > 0,
    ensures
        next_occ(s, pat, from) == s.len() || (from <= next_occ(s, pat, from) && next_occ(s, pat, from) + pat.len() <= s.len()),
    decreases s.len() + 1 - from,
{
    if from + pat.len() <= s.len() && !occurs_at(s, pat, from) {
        lemma_next_occ(s, pat, from + 1);
    }
}

/// `p` without its trailing `/` characters.
pub open spec fn trim_slashes(p: Seq<u8>) -> Seq<u8>
    decreases p.len(),
{
    if p.len() > 0 && p.last() == 47u8 {
        trim_slashes(p.drop_last())
    } else {
        p
    }
}

/// Shaped like a dated release: at least 10 bytes, `-` at 4 and 7.
pub open spec fn looks_like_release(p: Seq<u8>) -> bool {
    p.len() >= 10 && p[4] == 45u8 && p[7] == 45u8
}

/// Release names of a bucket listing, from position `from` on: for each
/// `<Prefix>` tag, the text up to the first `</Prefix>` before the next
/// `<Prefix>`, trailing slashes trimmed, kept when shaped like a release.
pub open spec fn listed_releases(s: Seq<u8>, from: int) -> Seq<Seq<u8>>
    decreases s.len() - from,
{
    if from < 0 {
        Seq::empty()
    } else {
        let p = next_occ(s, open_tag(), from);
        if p >= s.len() {
            Seq::empty()
        } else {
            proof {
                lemma_next_occ(s, open_tag(), from);
            }
            let start = p + 8;
            let q = next_occ(s, open_tag(), start);
            let e = next_occ(s, close_tag(), start);
            let here = if e + 9 <= q && looks_like_release(trim_slashes(s.subrange(start, e))) {
                seq![trim_slashes(s.subrange(start, e))]
            } else {
                Seq::empty()
            };
            here + listed_releases(s, start)
        }
    }
}

/// Position of the first occurrence of `pat` at or after `from`, or
/// `s.len()`.
fn find_from(s: &[u8], pat: &[u8], from: usize) -> (r: usize)
    requires
        pat@.len() > 0,
    ensures
        r == next_occ(s@, pat@, from as int),
{
    let n = s.len();
    let m = pat.len();
    let mut i = from;
    while i <= n && m <= n - i
        invariant
            n == s@.len(),
            m == pat@.len(),
            m > 0,
            from <= i,
            next_occ(s@, pat@, from as int) == next_occ(s@, pat@, i as int),
        decreases n - i,
    {
        let mut j: usize = 0;
        while j < m && s[i + j] == pat[j]
            invariant
                i + m <= n,
                n == s@.len(),
                m == pat@.len(),
                j <= m,
                forall|t: int| 0 <= t < j ==> s@[i + t] == pat@[t],
            decreases m - j,
        {
            j = j + 1;
        }
        if j == m {
            assert(s@.subrange(i as int, i + m) =~= pat@);
            return i;
        }
        assert(!occurs_at(s@, pat@, i as int)) by {
            if s@.subrange(i as int, i + m) == pat@ {
                assert(s@.subrange(i as int, i + m)[j as int] == s@[i + j]);
            }
        }
        i = i + 1;
    }
    n
}

/// `p` without its trailing `/` bytes.
fn trim_slashes_exec(s: &[u8], start: usize, end: usize) -> (r: Vec<u8>)
    requires
        start <= end <= s@.len(),
    ensures
        r@ == trim_slashes(s@.subrange(start as int, end as int)),
{
    let mut e = end;
    while e > start && s[e - 1] == 47
        invariant
            start <= e <= end,
            end <= s@.len(),
            trim_slashes(s@.subrange(start as int, end as int)) == trim_slashes(s@.subrange(start as int, e as int)),
        decreases e,
    {
        assert(s@.subrange(start as int, e as int).drop_last() =~= s@.subrange(start as int, e - 1));
        e = e - 1;
    }
    let mut r: Vec<u8> = Vec::new();
    for k in start..e
        invariant
            r@ == s@.subrange(start as int, k as int),
            e <= s@.len(),
    {
        r.push(s[k]);
        assert(r@ =~= s@.subrange(start as int, k + 1));
    }
    r
}

/// The release names a bucket listing (S3 `ListObjectsV2` XML) holds, in
/// listing order (see [`listed_releases`]).
pub fn release_prefixes(xml: &[u8]) -> (r: Vec<Vec<u8>>)
    ensures
        r@.map_values(|v: Vec<u8>| v@) == listed_releases(xml@, 0),
{
    let open: [u8; 8] = [60, 80, 114, 101, 102, 105, 120, 62];
    let close: [u8; 9] = [60, 47, 80, 114, 101, 102, 105, 120, 62];
    assert(open@ =~= open_tag());
    assert(close@ =~= close_tag());
    let n = xml.len();
    let mut out: Vec<Vec<u8>> = Vec::new();
    let mut from: usize = 0;
    loop
        invariant
            n == xml@.len(),
            from <= n,
            open@ == open_tag(),
            close@ == close_tag(),
            out@.map_values(|v: Vec<u8>| v@) + listed_releases(xml@, from as int) == listed_releases(xml@, 0),
        decreases n - from,
    {
        let p = find_from(xml, open.as_slice(), from);
        proof { lemma_next_occ(xml@, open_tag(), from as int); }
        if p >= n {
            assert(out@.map_values(|v: Vec<u8>| v@) =~= out@.map_values(|v: Vec<u8>| v@) + listed_releases(xml@, from as int));
            return out;
        }
        let start = p + 8;
        let q = find_from(xml, open.as_slice(), start);
        let e = find_from(xml, close.as_slice(), start);
        proof {
            lemma_next_occ(xml@, close_tag(), start as int);
            lemma_next_occ(xml@, open_tag(), start as int);
        }
        let ghost before = out@.map_values(|v: Vec<u8>| v@);
        if e < n && e + 9 <= q {
            let v = trim_slashes_exec(xml, start, e);
            if v.len() >= 10 && v[4] == 45 && v[7] == 45 {
                out.push(v);
            }
        }
        assert(out@.map_values(|v: Vec<u8>| v@) + listed_releases(xml@, start as int) =~= listed_releases(xml@, 0)) by {
            assert(listed_releases(xml@, from as int) == (if next_occ(xml@, close_tag(), start as int) + 9 <= q
                && looks_like_release(trim_slashes(xml@.subrange(start as int, next_occ(xml@, close_tag(), start as int)))) {
                seq![trim_slashes(xml@.subrange(start as int, next_occ(xml@, close_tag(), start as int)))]
            } else {
                Seq::empty()
            }) + listed_releases(xml@, start as int));
            if !(e < n && e + 9 <= q) {
                assert(!(e + 9 <= q));
            }
        }
        from = start;
    }
}

/// Byte-wise lexicographic `a < b` (the order of `String`s), comparing
/// from position `i` on.
pub open spec fn bytes_lt_from(a: Seq<u8>, b: Seq<u8>, i: int) -> bool
    decreases a.len() - i,
{
    if i < 0 || i >= a.len() {
        0 <= i < b.len()
    } else if i >= b.len() {
        false
    } else if a[i] != b[i] {
        a[i] < b[i]
    } else {
        bytes_lt_from(a, b, i + 1)
    }
}

/// Lexicographic `a < b`.
pub open spec fn bytes_lt(a: Seq<u8>, b: Seq<u8>) -> bool {
    bytes_lt_from(a, b, 0)
}

fn bytes_less(a: &Vec<u8>, b: &Vec<u8>) -> (r: bool)
    ensures
        r == bytes_lt(a@, b@),
{
    let mut i: usize = 0;
    while i < a.len() && i < b.len() && a[i] == b[i]
        invariant
            i <= a@.len(),
            i <= b@.len(),
            bytes_lt(a@, b@) == bytes_lt_from(a@, b@, i as int),
        decreases a@.len() - i,
    {
        i = i + 1;
    }
    if i >= a.len() {
        i < b.len()
    } else if i >= b.len() {
        false
    } else {
        a[i] < b[i]
    }
}

/// Index of the greatest of the first `k` candidates (the first such on
/// ties).
pub open spec fn greatest_index(c: Seq<Seq<u8>>, k: int) -> int
    decreases k,
{
    if k <= 1 {
        0
    } else if bytes_lt(c[greatest_index(c, k - 1)], c[k - 1]) {
        k - 1
    } else {
        greatest_index(c, k - 1)
    }
}

proof fn lemma_bytes_lt_irrefl(a: Seq<u8>, i: int)
    requires
        0 <= i,
    ensures
        !bytes_lt_from(a, a, i),
    decreases a.len() - i,
{
    if i < a.len() {
        lemma_bytes_lt_irrefl(a, i + 1);
    }
}

proof fn lemma_bytes_lt_trans(a: Seq<u8>, b: Seq<u8>, c: Seq<u8>, i: int)
    requires
        0 <= i,
        bytes_lt_from(a, b, i),
        bytes_lt_from(b, c, i),
    ensures
        bytes_lt_from(a, c, i),
    decreases a.len() - i,
{
    if i < a.len() && i < b.len() && i < c.len() && a[i] == b[i] && b[i] == c[i] {
        lemma_bytes_lt_trans(a, b, c, i + 1);
    }
}

/// Comparing 10-byte prefixes: a prefix strictly below another makes the
/// whole string strictly below.
proof fn lemma_prefix_lt(a: Seq<u8>, b: Seq<u8>, i: int)
    requires
        a.len() >= 10,
        b.len() >= 10,
        0 <= i <= 10,
        bytes_lt_from(a.subrange(0, 10), b.subrange(0, 10), i),
    ensures
        bytes_lt_from(a, b, i),
    decreases 10 - i,
{
    let pa = a.subrange(0, 10);
    let pb = b.subrange(0, 10);
    if i < 10 {
        assert(pa[i] == a[i] && pb[i] == b[i]);
        if a[i] == b[i] {
            lemma_prefix_lt(a, b, i + 1);
        }
    }
}

/// No candidate among the first `k` is greater than the one
/// [`greatest_index`] names.
proof fn lemma_greatest_is_max(c: Seq<Seq<u8>>, k: int)
    requires
        1 <= k <= c.len(),
    ensures
        forall|j: int| 0 <= j < k ==> !#[trigger] bytes_lt(c[greatest_index(c, k)], c[j]),
    decreases k,
{
    lemma_greatest_index_range(c, k);
    if k > 1 {
        lemma_greatest_is_max(c, k - 1);
        lemma_greatest_index_range(c, k - 1);
        let g = greatest_index(c, k - 1);
        if bytes_lt(c[g], c[k - 1]) {
            assert forall|j: int| 0 <= j < k implies !#[trigger] bytes_lt(c[k - 1], c[j]) by {
                if j == k - 1 {
                    lemma_bytes_lt_irrefl(c[j], 0);
                } else {
                    assert(!bytes_lt(c[g], c[j]));
                    if bytes_lt(c[k - 1], c[j]) {
                        lemma_bytes_lt_trans(c[g], c[k - 1], c[j], 0);
                    }
                }
            }
        }
    } else {
        lemma_bytes_lt_irrefl(c[0], 0);
    }
}

/// A candidate of date `date` that does not end with `-beta`.
pub open spec fn stable_of(r: Seq<u8>, date: Seq<u8>) -> bool {
    r.len() >= 10 && r.subrange(0, 10) == date && !is_beta(r)
}

proof fn lemma_stable_index_max(c: Seq<Seq<u8>>, date: Seq<u8>, k: int)
    requires
        0 <= k <= c.len(),
    ensures
        match stable_index(c, date, k) {
            Some(i) => 0 <= i < k && stable_of(c[i], date)
                && forall|j: int| 0 <= j < k && stable_of(c[j], date) ==> !#[trigger] bytes_lt(c[i], c[j]),
            None => forall|j: int| 0 <= j < k ==> !stable_of(#[trigger] c[j], date),
        },
    decreases k,
{
    if k > 0 {
        lemma_stable_index_max(c, date, k - 1);
        let r = c[k - 1];
        if stable_of(r, date) {
            match stable_index(c, date, k - 1) {
                Some(i) => {
                    if bytes_lt(c[i], r) {
                        assert forall|j: int| 0 <= j < k && stable_of(c[j], date) implies !#[trigger] bytes_lt(c[k - 1], c[j]) by {
                            if j == k - 1 {
                                lemma_bytes_lt_irrefl(r, 0);
                            } else {
                                assert(!bytes_lt(c[i], c[j]));
                                if bytes_lt(r, c[j]) {
                                    lemma_bytes_lt_trans(c[i], r, c[j], 0);
                                }
                            }
                        }
                    }
                },
                None => {
                    lemma_bytes_lt_irrefl(r, 0);
                },
            }
        }
    }
}

/// The release chosen among listed candidates (each at least a 10-byte
/// date long) is of the latest date, and it is the greatest candidate of
/// that date that does not end with `-beta`: no such candidate of that
/// date is greater. Only when every candidate of the latest date is a
/// beta is a beta chosen, and then the greatest candidate of all.
pub proof fn law_latest_release_choice(c: Seq<Seq<u8>>)
    requires
        c.len() > 0,
        forall|j: int| 0 <= j < c.len() ==> #[trigger] c[j].len() >= 10,
    ensures
        chosen_release(c) matches Some(i) && 0 <= i < c.len() && {
            &&& forall|j: int| 0 <= j < c.len() ==> !#[trigger] bytes_lt(c[i].subrange(0, 10), c[j].subrange(0, 10))
            &&& !is_beta(c[i]) ==> forall|j: int|
                0 <= j < c.len() && !is_beta(c[j]) && c[j].subrange(0, 10) == c[i].subrange(0, 10)
                    ==> !#[trigger] bytes_lt(c[i], c[j])
            &&& is_beta(c[i]) ==> forall|j: int|
                0 <= j < c.len() ==> !#[trigger] bytes_lt(c[i], c[j])
                    && (c[j].subrange(0, 10) == c[i].subrange(0, 10) ==> is_beta(c[j]))
        },
{
    let n = c.len() as int;
    lemma_greatest_index_range(c, n);
    lemma_greatest_is_max(c, n);
    let g = greatest_index(c, n);
    let date = c[g].subrange(0, 10);
    lemma_stable_index_max(c, date, n);
    assert forall|j: int| 0 <= j < n implies !#[trigger] bytes_lt(date, c[j].subrange(0, 10)) by {
        if bytes_lt(date, c[j].subrange(0, 10)) {
            lemma_prefix_lt(c[g], c[j], 0);
            assert(bytes_lt(c[g], c[j]));
        }
    }
    match stable_index(c, date, n) {
        Some(i) => {
            assert(c[i].subrange(0, 10) == date);
            assert forall|j: int|
                0 <= j < n && !is_beta(c[j]) && c[j].subrange(0, 10) == c[i].subrange(0, 10)
                    implies !#[trigger] bytes_lt(c[i], c[j]) by {
                assert(stable_of(c[j], date));
            }
        },
        None => {
            assert(!stable_of(c[g], date));
            assert forall|j: int| 0 <= j < n implies !#[trigger] bytes_lt(c[g], c[j])
                && (c[j].subrange(0, 10) == c[g].subrange(0, 10) ==> is_beta(c[j])) by {
                assert(!stable_of(c[j], date));
            }
        },
    }
}

/// `-beta`, the suffix of pre-releases.
pub open spec fn beta_suffix() -> Seq<u8> {
    seq![45u8, 98u8, 101u8, 116u8, 97u8]
}

/// The release ends with `-beta`.
pub open spec fn is_beta(r: Seq<u8>) -> bool {
    r.len() >= 5 && r.subrange(r.len() - 5, r.len() as int) == beta_suffix()
}

/// Index of the greatest non-beta candidate among the first `k` whose
/// first 10 bytes are `date`, if any.
pub open spec fn stable_index(c: Seq<Seq<u8>>, date: Seq<u8>, k: int) -> Option<int>
    decreases k,
{
    if k <= 0 {
        None
    } else {
        let prev = stable_index(c, date, k - 1);
        let r = c[k - 1];
        if r.len() >= 10 && r.subrange(0, 10) == date && !is_beta(r) {
            match prev {
                Some(i) => if bytes_lt(c[i], r) { Some(k - 1) } else { Some(i) },
                None => Some(k - 1),
            }
        } else {
            prev
        }
    }
}

/// The release to use among listed candidates: the latest (greatest), but
/// a non-beta release of the same date is preferred over a beta one.
pub open spec fn chosen_release(c: Seq<Seq<u8>>) -> Option<int> {
    if c.len() == 0 {
        None
    } else {
        let latest = greatest_index(c, c.len() as int);
        match stable_index(c, c[latest].subrange(0, 10), c.len() as int) {
            Some(i) => Some(i),
            None => Some(latest),
        }
    }
}

proof fn lemma_greatest_index_range(c: Seq<Seq<u8>>, k: int)
    requires
        1 <= k,
    ensures
        0 <= greatest_index(c, k) < k,
    decreases k,
{
    if k > 1 {
        lemma_greatest_index_range(c, k - 1);
    }
}

/// Pick the release to use among candidates (see [`chosen_release`]).
/// Candidates are release names from [`release_prefixes`], each at least 10
/// bytes long.
pub fn pick_latest_release(cands: &Vec<Vec<u8>>) -> (r: Option<usize>)
    requires
        forall|i: int| 0 <= i < cands@.len() ==> #[trigger] cands@[i]@.len() >= 10,
    ensures
        r is None <==> chosen_release(cands@.map_values(|v: Vec<u8>| v@)) is None,
        r matches Some(i) ==> chosen_release(cands@.map_values(|v: Vec<u8>| v@)) == Some(i as int),
{
    let ghost c = cands@.map_values(|v: Vec<u8>| v@);
    let n = cands.len();
    if n == 0 {
        return None;
    }
    let mut latest: usize = 0;
    for k in 1..n
        invariant
            n == cands@.len(),
            c == cands@.map_values(|v: Vec<u8>| v@),
            latest == greatest_index(c, k as int),
            latest < k,
    {
        if bytes_less(&cands[latest], &cands[k]) {
            latest = k;
        }
    }
    let date = &cands[latest];
    let mut best: Option<usize> = None;
    for k in 0..n
        invariant
            n == cands@.len(),
            c == cands@.map_values(|v: Vec<u8>| v@),
            latest < n,
            date@ == c[latest as int],
            date@.len() >= 10,
            forall|i: int| 0 <= i < cands@.len() ==> #[trigger] cands@[i]@.len() >= 10,
            best is None <==> stable_index(c, c[latest as int].subrange(0, 10), k as int) is None,
            best matches Some(b) ==> stable_index(c, c[latest as int].subrange(0, 10), k as int) == Some(b as int),
            best matches Some(b) ==> b < k,
    {
        let r = &cands[k];
        let mut same_date = true;
        let mut t: usize = 0;
        assert(r@.subrange(0, 0) =~= date@.subrange(0, 0));
        while t < 10
            invariant
                t <= 10,
                r@.len() >= 10,
                date@.len() >= 10,
                same_date == (r@.subrange(0, t as int) == date@.subrange(0, t as int)),
            decreases 10 - t,
        {
            if r[t] != date[t] {
                same_date = false;
            }
            proof {
                assert(r@.subrange(0, t + 1) == date@.subrange(0, t + 1) <==> (r@.subrange(0, t as int) == date@.subrange(0, t as int) && r@[t as int] == date@[t as int])) by {
                    if r@.subrange(0, t + 1) == date@.subrange(0, t + 1) {
                        assert(r@.subrange(0, t as int) =~= r@.subrange(0, t + 1).subrange(0, t as int));
                        assert(date@.subrange(0, t as int) =~= date@.subrange(0, t + 1).subrange(0, t as int));
                        assert(r@.subrange(0, t + 1)[t as int] == r@[t as int]);
                        assert(date@.subrange(0, t + 1)[t as int] == date@[t as int]);
                    }
                    if r@.subrange(0, t as int) == date@.subrange(0, t as int) && r@[t as int] == date@[t as int] {
                        assert(r@.subrange(0, t + 1) =~= date@.subrange(0, t + 1));
                    }
                }
            }
            t = t + 1;
        }
        let len = r.len();
        let beta = len >= 5 && r[len - 5] == 45 && r[len - 4] == 98 && r[len - 3] == 101 && r[len - 2] == 116 && r[len - 1] == 97;
        assert(beta == is_beta(r@)) by {
            if len >= 5 {
                let tail = r@.subrange(len - 5, len as int);
                if beta {
                    assert(tail =~= beta_suffix());
                } else if tail == beta_suffix() {
                    assert(tail[0] == r@[len - 5] && tail[1] == r@[len - 4] && tail[2] == r@[len - 3] && tail[3] == r@[len - 2] && tail[4] == r@[len - 1]);
                }
            }
        }
        assert(c[k as int] == r@);
        if same_date && !beta {
            match best {
                Some(b) => {
                    if bytes_less(&cands[b], r) {
                        best = Some(k);
                    }
                },
                None => {
                    best = Some(k);
                },
            }
        }
    }
    match best {
        Some(b) => Some(b),
        None => Some(latest),
    }
}

} // verus!
