//! Small verified string helpers shared by the other modules.

use vstd::prelude::*;
use vstd::utf8::encode_utf8_decode_utf8;
use vstd::string::StringExecFns;

verus! {

/// Byte-wise equality of two string slices, which is equality of their
/// character sequences (UTF-8 encoding is injective).
pub fn str_eq(a: &str, b: &str) -> (r: bool)
    ensures
        r == (a@ == b@),
{
    let x = a.as_bytes();
    let y = b.as_bytes();
    proof {
        encode_utf8_decode_utf8(a@);
        encode_utf8_decode_utf8(b@);
        assert(x@ == vstd::utf8::encode_utf8(a@));
        assert(y@ == vstd::utf8::encode_utf8(b@));
        assert(a@ == b@ ==> x@ == y@);
    }
    if x.len() != y.len() {
        return false;
    }
    let mut i: usize = 0;
    while i < x.len()
        invariant
            x@.len() == y@.len(),
            i <= x@.len(),
            a@ == b@ ==> x@ == y@,
            forall|k: int| 0 <= k < i ==> x@[k] == y@[k],
        decreases x@.len() - i,
    {
        if x[i] != y[i] {
            return false;
        }
        i = i + 1;
    }
    assert(x@ =~= y@);
    true
}

/// `prefix` followed by `s`, as a new `String`.
pub fn concat_str(prefix: &str, s: &str) -> (r: String)
    ensures
        r@ == prefix@ + s@,
{
    let mut r = prefix.to_owned();
    r.append(s);
    r
}

} // verus!
