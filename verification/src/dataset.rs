//! Vocabulary selection of the calibrator's dataset builder: the most
//! frequent categorical values, ties broken by key order.

use crate::overture::bytes_lt;
use vstd::prelude::*;
use vstd::utf8::encode_utf8;

verus! {

/// Entry `a` ranks before entry `b`: a higher count, or an equal count and
/// an earlier position (key order).
pub open spec fn ranks_before(counts: Seq<usize>, a: int, b: int) -> bool {
    counts[a] > counts[b] || (counts[a] == counts[b] && a < b)
}

/// `r` lists the `min(k, n)` best-ranked of `n` entries, best first.
pub open spec fn is_top_k(counts: Seq<usize>, k: int, r: Seq<usize>) -> bool {
    let n = counts.len() as int;
    &&& r.len() == (if k < n { k } else { n })
    &&& forall|i: int| 0 <= i < r.len() ==> #[trigger] r[i] < n
    &&& forall|i: int, j: int| 0 <= i < j < r.len() ==> ranks_before(counts, #[trigger] r[i] as int, #[trigger] r[j] as int)
    &&& forall|t: int, i: int|
        0 <= t < n && 0 <= i < r.len() && !r.contains(t as usize) ==> #[trigger] ranks_before(counts, r[i] as int, t)
}

/// Positions of the `k` best-ranked entries (see [`is_top_k`]).
pub fn top_k_indices(counts: &Vec<usize>, k: usize) -> (r: Vec<usize>)
    ensures
        is_top_k(counts@, k as int, r@),
{
    let n = counts.len();
    let m = if k < n { k } else { n };
    let mut taken: Vec<bool> = Vec::new();
    for i in 0..n
        invariant
            taken@.len() == i,
            forall|t: int| 0 <= t < i ==> !#[trigger] taken@[t],
            count_set(taken@, i as int) == 0,
    {
        let ghost prev = taken@;
        taken.push(false);
        proof {
            lemma_count_prefix(taken@, prev, i as int);
            assert(count_set(taken@, i + 1) == count_set(taken@, i as int));
        }
    }
    let mut r: Vec<usize> = Vec::new();
    for j in 0..m
        invariant
            n == counts@.len(),
            m <= n,
            taken@.len() == n,
            r@.len() == j,
            count_set(taken@, n as int) == j,
            forall|i: int| 0 <= i < r@.len() ==> #[trigger] r@[i] < n,
            forall|t: int| 0 <= t < n ==> (#[trigger] taken@[t] <==> r@.contains(t as usize)),
            forall|i: int, q: int| 0 <= i < q < r@.len() ==> ranks_before(counts@, #[trigger] r@[i] as int, #[trigger] r@[q] as int),
            forall|t: int, i: int|
                0 <= t < n && 0 <= i < r@.len() && !r@.contains(t as usize) ==> #[trigger] ranks_before(counts@, r@[i] as int, t),
    {
        // Best untaken entry.
        let mut best: usize = n;
        for t in 0..n
            invariant
                n == counts@.len(),
                taken@.len() == n,
                best == n || (best < t && !taken@[best as int]),
                best == n ==> forall|u: int| 0 <= u < t ==> #[trigger] taken@[u],
                best < n ==> forall|u: int| 0 <= u < t && !#[trigger] taken@[u] && u != best ==> ranks_before(counts@, best as int, u),
        {
            if !taken[t] {
                if best == n || counts[t] > counts[best] {
                    best = t;
                }
            }
        }
        proof {
            // Some entry is untaken: fewer than n are taken.
            if best == n {
                lemma_count_set_all(taken@, n as int);
            }
        }
        let ghost before = r@;
        proof {
            lemma_count_set_update(taken@, best as int, n as int);
        }
        r.push(best);
        taken.set(best, true);
        proof {
            assert forall|t: int| 0 <= t < n implies (#[trigger] taken@[t] <==> r@.contains(t as usize)) by {
                if t == best {
                    assert(r@[j as int] == best);
                } else if before.contains(t as usize) {
                    let w = choose|w: int| 0 <= w < before.len() && before[w] == t as usize;
                    assert(r@[w] == t as usize);
                } else if r@.contains(t as usize) {
                    let w = choose|w: int| 0 <= w < r@.len() && r@[w] == t as usize;
                    if w < j {
                        assert(before[w] == t as usize);
                    }
                }
            }
            assert forall|i: int, q: int| 0 <= i < q < r@.len() implies ranks_before(counts@, #[trigger] r@[i] as int, #[trigger] r@[q] as int) by {
                if q == j {
                    assert(!before.contains(best)) by {
                        if before.contains(best) {
                            let w = choose|w: int| 0 <= w < before.len() && before[w] == best;
                            assert(r@.contains(best));
                        }
                    }
                    assert(before[i] == r@[i]);
                }
            }
            assert forall|t: int, i: int|
                0 <= t < n && 0 <= i < r@.len() && !r@.contains(t as usize) implies #[trigger] ranks_before(counts@, r@[i] as int, t) by {
                assert(!before.contains(t as usize)) by {
                    if before.contains(t as usize) {
                        let w = choose|w: int| 0 <= w < before.len() && before[w] == t as usize;
                        assert(r@[w] == t as usize);
                    }
                }
                if i == j {
                    assert(t != best) by {
                        assert(r@[j as int] == best);
                    }
                    assert(!taken@[t]);
                } else {
                    assert(before[i] == r@[i]);
                }
            }
        }
    }
    r
}

proof fn lemma_count_prefix(a: Seq<bool>, b: Seq<bool>, k: int)
    requires
        0 <= k <= b.len() <= a.len(),
        forall|u: int| 0 <= u < b.len() ==> a[u] == b[u],
    ensures
        count_set(a, k) == count_set(b, k),
    decreases k,
{
    if k > 0 {
        lemma_count_prefix(a, b, k - 1);
    }
}

/// Number of set flags among the first `k`.
pub open spec fn count_set(flags: Seq<bool>, k: int) -> int
    decreases k,
{
    if k <= 0 {
        0
    } else {
        count_set(flags, k - 1) + if flags[k - 1] { 1int } else { 0 }
    }
}

proof fn lemma_count_set_update(flags: Seq<bool>, i: int, k: int)
    requires
        0 <= i < flags.len(),
        !flags[i],
        0 <= k <= flags.len(),
    ensures
        count_set(flags.update(i, true), k) == count_set(flags, k) + if i < k { 1int } else { 0 },
    decreases k,
{
    if k > 0 {
        lemma_count_set_update(flags, i, k - 1);
    }
}

proof fn lemma_count_set_all(flags: Seq<bool>, k: int)
    requires
        0 <= k <= flags.len(),
        forall|u: int| 0 <= u < k ==> #[trigger] flags[u],
    ensures
        count_set(flags, k) == k,
    decreases k,
{
    if k > 0 {
        lemma_count_set_all(flags, k - 1);
    }
}

/// Buildings the cascade resolves with steps 3-5, those with neither an
/// explicit height (`f32` bits) nor a floor count: the only ones the model
/// ever sees.
pub fn is_model_population(source_height_bits: Option<u32>, num_floors: Option<u32>) -> (r: bool)
    ensures
        r == (source_height_bits is None && num_floors is None),
{
    source_height_bits.is_none() && num_floors.is_none()
}

/// The count stored under `key` in a count table (0 when absent).
pub open spec fn count_of(entries: Seq<(String, usize)>, key: Seq<char>) -> int
    decreases entries.len(),
{
    if entries.len() == 0 {
        0
    } else if entries.last().0@ == key {
        entries.last().1 as int
    } else {
        count_of(entries.drop_last(), key)
    }
}

/// The counts of a count table.
pub open spec fn entry_counts(entries: Seq<(String, usize)>) -> Seq<usize> {
    entries.map_values(|e: (String, usize)| e.1)
}

/// `a` orders before `b` as `str` does: by their UTF-8 bytes.
pub open spec fn key_lt(a: Seq<char>, b: Seq<char>) -> bool {
    bytes_lt(encode_utf8(a), encode_utf8(b))
}

/// The keys of a count table come in strictly increasing order, as a
/// `BTreeMap` yields them.
pub open spec fn keys_ascending(entries: Seq<(String, usize)>) -> bool {
    forall|i: int, j: int| 0 <= i < j < entries.len() ==> key_lt((#[trigger] entries[i]).0@, (#[trigger] entries[j]).0@)
}

/// The `k` most frequent keys of a count table given in key order: by
/// descending count, ties in key order.
pub fn top_k_by_freq(entries: &Vec<(String, usize)>, k: usize) -> (r: Vec<String>)
    requires
        keys_ascending(entries@),
    ensures
        exists|idx: Seq<usize>|
            #[trigger] is_top_k(entry_counts(entries@), k as int, idx) && r@.len() == idx.len()
                && forall|i: int| 0 <= i < idx.len() ==> #[trigger] r@[i]@ == entries@[idx[i] as int].0@,
        forall|i: int, j: int| 0 <= i < j < r@.len() ==> {
            ||| count_of(entries@, (#[trigger] r@[i])@) > count_of(entries@, (#[trigger] r@[j])@)
            ||| count_of(entries@, r@[i]@) == count_of(entries@, r@[j]@) && key_lt(r@[i]@, r@[j]@)
        },
{
    let mut counts: Vec<usize> = Vec::new();
    for i in 0..entries.len()
        invariant
            counts@ == entry_counts(entries@).take(i as int),
    {
        counts.push(entries[i].1);
        assert(counts@ =~= entry_counts(entries@).take(i + 1));
    }
    assert(counts@ =~= entry_counts(entries@));
    let idx = top_k_indices(&counts, k);
    assert(is_top_k(entry_counts(entries@), k as int, idx@));
    let mut r: Vec<String> = Vec::new();
    for i in 0..idx.len()
        invariant
            counts@.len() == entries@.len(),
            forall|q: int| 0 <= q < idx@.len() ==> #[trigger] idx@[q] < counts@.len(),
            r@.len() == i,
            forall|q: int| 0 <= q < i ==> #[trigger] r@[q]@ == entries@[idx@[q] as int].0@,
    {
        r.push(entries[idx[i]].0.as_str().to_owned());
    }
    proof {
        let es = entries@;
        assert forall|i: int, j: int| 0 <= i < j < r@.len() implies {
            ||| count_of(es, (#[trigger] r@[i])@) > count_of(es, (#[trigger] r@[j])@)
            ||| count_of(es, r@[i]@) == count_of(es, r@[j]@) && key_lt(r@[i]@, r@[j]@)
        } by {
            let a = idx@[i] as int;
            let b = idx@[j] as int;
            lemma_count_of_at(es, a);
            lemma_count_of_at(es, b);
            assert(ranks_before(counts@, a, b));
            if a < b {
                assert(key_lt(es[a].0@, es[b].0@));
            }
        }
    }
    r
}

/// With keys in strictly increasing order, the count stored under entry
/// `a`'s key is entry `a`'s count.
proof fn lemma_count_of_at(entries: Seq<(String, usize)>, a: int)
    requires
        keys_ascending(entries),
        0 <= a < entries.len(),
    ensures
        count_of(entries, entries[a].0@) == entries[a].1,
    decreases entries.len(),
{
    let n = entries.len() as int;
    if a < n - 1 {
        let key = entries[a].0@;
        assert(key_lt(entries[a].0@, entries[n - 1].0@));
        if entries.last().0@ == key {
            lemma_bytes_lt_irreflexive(encode_utf8(key), 0);
        }
        let d = entries.drop_last();
        assert forall|i: int, j: int| 0 <= i < j < d.len() implies key_lt((#[trigger] d[i]).0@, (#[trigger] d[j]).0@) by {
            assert(d[i] == entries[i] && d[j] == entries[j]);
        }
        assert(d[a] == entries[a]);
        lemma_count_of_at(d, a);
    }
}

proof fn lemma_bytes_lt_irreflexive(s: Seq<u8>, i: int)
    requires
        0 <= i,
    ensures
        !crate::overture::bytes_lt_from(s, s, i),
    decreases s.len() - i,
{
    if i < s.len() {
        lemma_bytes_lt_irreflexive(s, i + 1);
    }
}

} // verus!
