//! PLATEAU truth fetching helpers: cache file names (FNV-1a of the URL),
//! query-string encoding, and the standard mesh code in a CityGML file
//! name.

use vstd::prelude::*;
use vstd::string::{StringExecFns, StringSliceAdditionalSpecFns};

verus! {

/// FNV-1a 64-bit offset basis.
pub const FNV_OFFSET: u64 = 0xcbf2_9ce4_8422_2325;

/// FNV-1a 64-bit prime.
pub const FNV_PRIME: u64 = 0x0100_0000_01b3;

/// FNV-1a hash of the first `k` bytes.
pub open spec fn fnv1a_spec(bytes: Seq<u8>, k: int) -> u64
    decreases k,
{
    if k <= 0 {
        FNV_OFFSET
    } else {
        vstd::wrapping::u64_specs::wrapping_mul(fnv1a_spec(bytes, k - 1) ^ (bytes[k - 1] as u64), FNV_PRIME)
    }
}

/// FNV-1a (64-bit) of a byte string.
pub fn fnv1a(bytes: &[u8]) -> (h: u64)
    ensures
        h == fnv1a_spec(bytes@, bytes@.len() as int),
{
    let mut h: u64 = FNV_OFFSET;
    for i in 0..bytes.len()
        invariant
            h == fnv1a_spec(bytes@, i as int),
    {
        h = (h ^ (bytes[i] as u64)).wrapping_mul(FNV_PRIME);
    }
    h
}

/// The lowercase hexadecimal digit for `d < 16`.
pub open spec fn hex_char(d: int) -> char {
    if d < 10 { (48 + d) as char } else { (87 + d) as char }
}

/// `v` as exactly `n` lowercase hex digits (most significant first).
pub open spec fn hex_digits(v: u64, n: nat) -> Seq<char>
    decreases n,
{
    if n == 0 {
        Seq::empty()
    } else {
        hex_digits(v / 16, (n - 1) as nat) + seq![hex_char((v % 16) as int)]
    }
}

fn hex_str(d: u64) -> (r: &'static str)
    requires
        d < 16,
    ensures
        r@ == seq![hex_char(d as int)],
{
    proof {
        reveal_strlit("0");
        reveal_strlit("1");
        reveal_strlit("2");
        reveal_strlit("3");
        reveal_strlit("4");
        reveal_strlit("5");
        reveal_strlit("6");
        reveal_strlit("7");
        reveal_strlit("8");
        reveal_strlit("9");
        reveal_strlit("a");
        reveal_strlit("b");
        reveal_strlit("c");
        reveal_strlit("d");
        reveal_strlit("e");
        reveal_strlit("f");
    }
    let r = match d {
        0 => "0",
        1 => "1",
        2 => "2",
        3 => "3",
        4 => "4",
        5 => "5",
        6 => "6",
        7 => "7",
        8 => "8",
        9 => "9",
        10 => "a",
        11 => "b",
        12 => "c",
        13 => "d",
        14 => "e",
        _ => "f",
    };
    assert(r@ =~= seq![hex_char(d as int)]);
    r
}

/// Append `v` as `n` lowercase hex digits.
fn push_hex(s: &mut String, v: u64, n: u32)
    ensures
        final(s)@ == old(s)@ + hex_digits(v, n as nat),
    decreases n,
{
    if n > 0 {
        push_hex(s, v / 16, n - 1);
        s.append(hex_str(v % 16));
        assert(final(s)@ =~= old(s)@ + hex_digits(v, n as nat));
    } else {
        assert(final(s)@ =~= old(s)@ + hex_digits(v, n as nat));
    }
}

/// Cache file name of a fetched URL: the URL's FNV-1a hash as 16 hex
/// digits, a dot, and the extension.
pub fn url_cache_file_name(url: &str, ext: &str) -> (r: String)
    ensures
        r@ == hex_digits(fnv1a_spec(url.spec_bytes(), url.spec_bytes().len() as int), 16) + "."@ + ext@,
{
    let h = fnv1a(url.as_bytes());
    let mut r = String::new();
    assert(r@ =~= Seq::<char>::empty());
    push_hex(&mut r, h, 16);
    r.append(".");
    r.append(ext);
    r
}

/// RFC 3986 unreserved: ASCII letters and digits, `-`, `_`, `.`, `~`.
pub open spec fn unreserved(b: u8) -> bool {
    (48 <= b <= 57) || (65 <= b <= 90) || (97 <= b <= 122) || b == 45 || b == 95 || b == 46 || b == 126
}

/// Uppercase hexadecimal digit (ASCII) for `d < 16`.
pub open spec fn upper_hex(d: int) -> u8 {
    if d < 10 { (48 + d) as u8 } else { (55 + d) as u8 }
}

/// A byte as it appears in a query string: itself when unreserved, else
/// `%XX` with uppercase hex.
pub open spec fn encode_byte(b: u8) -> Seq<u8> {
    if unreserved(b) {
        seq![b]
    } else {
        seq![37u8, upper_hex((b / 16) as int), upper_hex((b % 16) as int)]
    }
}

/// Percent-encoding of the first `k` bytes.
pub open spec fn url_encoded(s: Seq<u8>, k: int) -> Seq<u8>
    decreases k,
{
    if k <= 0 {
        Seq::empty()
    } else {
        url_encoded(s, k - 1) + encode_byte(s[k - 1])
    }
}

fn upper_hex_byte(d: u8) -> (r: u8)
    requires
        d < 16,
    ensures
        r == upper_hex(d as int),
{
    if d < 10 { 48 + d } else { 55 + d }
}

/// Percent-encode a string for a URL query: every byte outside the
/// unreserved set becomes `%XX`. The result is ASCII.
pub fn urlencode(s: &str) -> (r: Vec<u8>)
    ensures
        r@ == url_encoded(s.spec_bytes(), s.spec_bytes().len() as int),
{
    let bytes = s.as_bytes();
    let mut out: Vec<u8> = Vec::new();
    for i in 0..bytes.len()
        invariant
            bytes@ == s.spec_bytes(),
            out@ == url_encoded(bytes@, i as int),
    {
        let b = bytes[i];
        let ghost before = out@;
        if (48 <= b && b <= 57) || (65 <= b && b <= 90) || (97 <= b && b <= 122) || b == 45 || b == 95 || b == 46 || b == 126 {
            out.push(b);
        } else {
            out.push(37);
            out.push(upper_hex_byte(b / 16));
            out.push(upper_hex_byte(b % 16));
        }
        assert(out@ =~= before + encode_byte(b));
    }
    out
}

/// Digits of a Japanese standard third-order mesh code `PPQQSTUV`: the
/// first-order pair (`PP` latitude, `QQ` longitude), the second-order
/// digits (`S` latitude, `T` longitude), the third-order digits (`U`
/// latitude, `V` longitude).
#[derive(Clone, Copy, PartialEq, Eq, Debug, Structural)]
pub struct MeshCode {
    pub lat1: u32,
    pub lon1: u32,
    pub lat2: u32,
    pub lon2: u32,
    pub lat3: u32,
    pub lon3: u32,
}

/// An ASCII decimal digit.
pub open spec fn is_digit(b: u8) -> bool {
    48 <= b <= 57
}

/// The mesh code a string spells: at least 8 bytes, all decimal digits,
/// read from the first 8.
pub open spec fn mesh_code_of(code: Seq<u8>) -> Option<MeshCode> {
    if code.len() < 8 || !(forall|i: int| 0 <= i < code.len() ==> is_digit(#[trigger] code[i])) {
        None
    } else {
        let d = |i: int| (code[i] - 48) as u32;
        Some(MeshCode {
            lat1: (d(0) * 10 + d(1)) as u32,
            lon1: (d(2) * 10 + d(3)) as u32,
            lat2: d(4),
            lon2: d(5),
            lat3: d(6),
            lon3: d(7),
        })
    }
}

/// Parse a third-order mesh code.
pub fn parse_mesh_code(code: &str) -> (r: Option<MeshCode>)
    ensures
        r == mesh_code_of(code.spec_bytes()),
{
    let b = code.as_bytes();
    if b.len() < 8 {
        return None;
    }
    let mut i: usize = 0;
    while i < b.len()
        invariant
            b@ == code.spec_bytes(),
            i <= b@.len(),
            forall|j: int| 0 <= j < i ==> is_digit(#[trigger] b@[j]),
        decreases b@.len() - i,
    {
        if b[i] < 48 || b[i] > 57 {
            return None;
        }
        i = i + 1;
    }
    let d0 = (b[0] - 48) as u32;
    let d1 = (b[1] - 48) as u32;
    let d2 = (b[2] - 48) as u32;
    let d3 = (b[3] - 48) as u32;
    Some(MeshCode {
        lat1: d0 * 10 + d1,
        lon1: d2 * 10 + d3,
        lat2: (b[4] - 48) as u32,
        lon2: (b[5] - 48) as u32,
        lat3: (b[6] - 48) as u32,
        lon3: (b[7] - 48) as u32,
    })
}

/// Start of the last path segment: just after the last `/`, or 0.
pub open spec fn last_segment_start(s: Seq<u8>, k: int) -> int
    decreases k,
{
    if k <= 0 {
        0
    } else if s[k - 1] == 47u8 {
        k
    } else {
        last_segment_start(s, k - 1)
    }
}

/// End of the segment starting at `i`: the first `_` at or after `i`, or
/// the end.
pub open spec fn segment_end(s: Seq<u8>, i: int) -> int
    decreases s.len() - i,
{
    if i < 0 || i >= s.len() {
        s.len() as int
    } else if s[i] == 95u8 {
        i
    } else {
        segment_end(s, i + 1)
    }
}

/// Byte range of the mesh code in a CityGML file URL: the file name (after
/// the last `/`) up to its first `_`, as in
/// `.../53394509_bldg_6697_op.gml`.
pub fn mesh_code_range(url: &str) -> (r: (usize, usize))
    ensures
        r.0 == last_segment_start(url.spec_bytes(), url.spec_bytes().len() as int),
        r.1 == segment_end(url.spec_bytes(), r.0 as int),
        r.0 <= r.1 <= url.spec_bytes().len(),
{
    let b = url.as_bytes();
    let n = b.len();
    let mut k = n;
    while k > 0 && b[k - 1] != 47
        invariant
            b@ == url.spec_bytes(),
            k <= n == b@.len(),
            last_segment_start(b@, n as int) == last_segment_start(b@, k as int),
        decreases k,
    {
        k = k - 1;
    }
    let start = k;
    let mut e = start;
    while e < n && b[e] != 95
        invariant
            b@ == url.spec_bytes(),
            start <= e <= n == b@.len(),
            segment_end(b@, start as int) == segment_end(b@, e as int),
        decreases n - e,
    {
        e = e + 1;
    }
    (start, e)
}

} // verus!
