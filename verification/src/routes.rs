//! Decisions of the tile worker's `/{z}/{x}/{y}.glb` route: which path
//! parameters are missing or malformed, and which zoom level is served.
//! Path parameters are read the way `str::parse` reads an unsigned integer:
//! an optional `+`, then one or more decimal digits, within the type's range.

use crate::plateau::is_digit;
use vstd::prelude::*;
use vstd::string::StringSliceAdditionalSpecFns;

verus! {

/// The only zoom level the worker serves glb tiles for.
pub const SERVED_ZOOM: u8 = 14;

/// Value of the decimal digits `d[0..k]`.
pub open spec fn decimal_value(d: Seq<u8>, k: int) -> int
    decreases k,
{
    if k <= 0 {
        0
    } else {
        decimal_value(d, k - 1) * 10 + (d[k - 1] - 48)
    }
}

/// `s` without one leading `+`.
pub open spec fn sign_stripped(s: Seq<u8>) -> Seq<u8> {
    if s.len() > 0 && s[0] == 43u8 { s.subrange(1, s.len() as int) } else { s }
}

/// Every byte of `d` is a decimal digit.
pub open spec fn all_digits(d: Seq<u8>) -> bool {
    forall|i: int| 0 <= i < d.len() ==> is_digit(#[trigger] d[i])
}

/// The digits of an unsigned integer: `s` without one leading `+`, when
/// what is left is one or more decimal digits.
pub open spec fn unsigned_digits(s: Seq<u8>) -> Option<Seq<u8>> {
    let d = sign_stripped(s);
    if d.len() > 0 && all_digits(d) {
        Some(d)
    } else {
        None
    }
}

/// The unsigned integer that `s` spells, when it is at most `max`.
pub open spec fn parsed_unsigned(s: Seq<u8>, max: int) -> Option<int> {
    match unsigned_digits(s) {
        Some(d) => if decimal_value(d, d.len() as int) <= max {
            Some(decimal_value(d, d.len() as int))
        } else {
            None
        },
        None => None,
    }
}

proof fn lemma_decimal_value_nonneg(d: Seq<u8>, k: int)
    requires
        0 <= k <= d.len(),
        forall|i: int| 0 <= i < d.len() ==> is_digit(#[trigger] d[i]),
    ensures
        decimal_value(d, k) >= 0,
    decreases k,
{
    if k > 0 {
        lemma_decimal_value_nonneg(d, k - 1);
    }
}

/// Parse an unsigned integer no larger than `max`.
fn parse_unsigned(s: &str, max: u32) -> (r: Option<u32>)
    ensures
        match parsed_unsigned(s.spec_bytes(), max as int) {
            Some(v) => 0 <= v <= max && r == Some(v as u32),
            None => r is None,
        },
{
    let b = s.as_bytes();
    let start: usize = if b.len() > 0 && b[0] == 43u8 { 1 } else { 0 };
    let ghost d = sign_stripped(b@);
    if start >= b.len() {
        assert(d.len() == 0);
        return None;
    }
    assert forall|j: int| 0 <= j < d.len() implies #[trigger] d[j] == b@[j + start] by {}
    let mut i: usize = start;
    while i < b.len()
        invariant
            b@ == s.spec_bytes(),
            start <= i <= b@.len(),
            d == sign_stripped(b@),
            d.len() == b@.len() - start,
            forall|j: int| 0 <= j < d.len() ==> #[trigger] d[j] == b@[j + start],
            forall|j: int| start <= j < i ==> is_digit(#[trigger] b@[j]),
        decreases b@.len() - i,
    {
        if b[i] < 48 || b[i] > 57 {
            assert(d[i - start] == b@[i as int]);
            assert(!is_digit(d[i - start]));
            assert(!all_digits(d));
            return None;
        }
        i = i + 1;
    }
    assert forall|j: int| 0 <= j < d.len() implies is_digit(#[trigger] d[j]) by {
        assert(d[j] == b@[j + start]);
    }
    // `acc` is the value read so far, capped at `max + 1`.
    let cap: u64 = max as u64 + 1;
    let mut acc: u64 = 0;
    let mut i: usize = start;
    while i < b.len()
        invariant
            b@ == s.spec_bytes(),
            start <= i <= b@.len(),
            d == sign_stripped(b@),
            d.len() == b@.len() - start,
            forall|j: int| 0 <= j < d.len() ==> #[trigger] d[j] == b@[j + start],
            forall|j: int| 0 <= j < d.len() ==> is_digit(#[trigger] d[j]),
            cap == max + 1,
            acc == if decimal_value(d, i - start) > max { cap as int } else { decimal_value(d, i - start) },
        decreases b@.len() - i,
    {
        proof {
            lemma_decimal_value_nonneg(d, i - start);
            assert(d[i - start] == b@[i as int]);
        }
        let digit = (b[i] - 48) as u64;
        if acc < cap {
            let next = acc * 10 + digit;
            acc = if next > max as u64 { cap } else { next };
        }
        i = i + 1;
    }
    proof {
        lemma_decimal_value_nonneg(d, d.len() as int);
    }
    if acc < cap {
        Some(acc as u32)
    } else {
        None
    }
}

/// `s` parsed as a `u8`.
pub fn parse_u8(s: &str) -> (r: Option<u8>)
    ensures
        match parsed_unsigned(s.spec_bytes(), 255) {
            Some(v) => 0 <= v <= 255 && r == Some(v as u8),
            None => r is None,
        },
{
    match parse_unsigned(s, 255) {
        Some(v) => Some(v as u8),
        None => None,
    }
}

/// `s` parsed as a `u32`.
pub fn parse_u32(s: &str) -> (r: Option<u32>)
    ensures
        match parsed_unsigned(s.spec_bytes(), 0xffff_ffff) {
            Some(v) => 0 <= v && r == Some(v as u32),
            None => r is None,
        },
{
    parse_unsigned(s, 0xffff_ffff)
}

/// One of the three path parameters of a tile request.
#[derive(Clone, Copy, PartialEq, Eq, Debug, Structural)]
pub enum TileParam {
    Z,
    X,
    Y,
}

/// How the worker answers a `/{z}/{x}/{y}.glb` request.
#[derive(Clone, Copy, PartialEq, Eq, Debug, Structural)]
pub enum TileRequest {
    /// A path parameter is missing: `400 Bad Request`.
    BadRequest,
    /// A parameter does not parse as its integer type (`u8` for the zoom,
    /// `u32` for the column and row): an error naming it.
    Invalid(TileParam),
    /// A zoom level other than [`SERVED_ZOOM`]: `404`.
    NotServed,
    /// The tile to render.
    Tile { z: u8, x: u32, y: u32 },
}

/// The bytes of an optional parameter.
pub open spec fn param_bytes(p: Option<&str>) -> Option<Seq<u8>> {
    match p {
        Some(s) => Some(s.spec_bytes()),
        None => None,
    }
}

/// The answer to a tile request with parameters `z`, `x`, `y`: missing
/// parameters first, then the zoom, column and row parsed in that order,
/// then the zoom level.
pub open spec fn tile_request_of(z: Option<Seq<u8>>, x: Option<Seq<u8>>, y: Option<Seq<u8>>) -> TileRequest {
    if z is None || x is None || y is None {
        TileRequest::BadRequest
    } else if parsed_unsigned(z.unwrap(), 255) is None {
        TileRequest::Invalid(TileParam::Z)
    } else if parsed_unsigned(x.unwrap(), 0xffff_ffff) is None {
        TileRequest::Invalid(TileParam::X)
    } else if parsed_unsigned(y.unwrap(), 0xffff_ffff) is None {
        TileRequest::Invalid(TileParam::Y)
    } else if parsed_unsigned(z.unwrap(), 255).unwrap() != SERVED_ZOOM {
        TileRequest::NotServed
    } else {
        TileRequest::Tile {
            z: SERVED_ZOOM,
            x: parsed_unsigned(x.unwrap(), 0xffff_ffff).unwrap() as u32,
            y: parsed_unsigned(y.unwrap(), 0xffff_ffff).unwrap() as u32,
        }
    }
}

/// Decide the answer to a `/{z}/{x}/{y}.glb` request from its path
/// parameters.
pub fn glb_tile_request(z: Option<&str>, x: Option<&str>, y: Option<&str>) -> (r: TileRequest)
    ensures
        r == tile_request_of(param_bytes(z), param_bytes(x), param_bytes(y)),
{
    let (zs, xs, ys) = match (z, x, y) {
        (Some(zs), Some(xs), Some(ys)) => (zs, xs, ys),
        _ => return TileRequest::BadRequest,
    };
    let zv = match parse_u8(zs) {
        Some(v) => v,
        None => return TileRequest::Invalid(TileParam::Z),
    };
    let xv = match parse_u32(xs) {
        Some(v) => v,
        None => return TileRequest::Invalid(TileParam::X),
    };
    let yv = match parse_u32(ys) {
        Some(v) => v,
        None => return TileRequest::Invalid(TileParam::Y),
    };
    if zv != SERVED_ZOOM {
        return TileRequest::NotServed;
    }
    TileRequest::Tile { z: zv, x: xv, y: yv }
}

} // verus!
