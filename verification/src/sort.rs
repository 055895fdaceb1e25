//! A stable sort by integer keys, the order in which every list of the
//! notebook (notes, reminders, search results, attachments) is shown.

use vstd::prelude::*;

verus! {

/// Lexicographic order on key pairs.
pub open spec fn key_lt(a: (i64, i64), b: (i64, i64)) -> bool {
    a.0 < b.0 || (a.0 == b.0 && a.1 < b.1)
}

/// Whether an item with key `a` must be shown before one with key `b`:
/// smaller keys first, or larger keys first when `desc` is set.
pub open spec fn goes_before(a: (i64, i64), b: (i64, i64), desc: bool) -> bool {
    if desc { key_lt(b, a) } else { key_lt(a, b) }
}

/// `perm` lists the positions of `keys` in the order of a stable sort: each
/// position once, keys in order, and equal keys in their original order.
pub open spec fn is_stable_order(keys: Seq<(i64, i64)>, perm: Seq<int>, desc: bool) -> bool {
    &&& perm.len() == keys.len()
    &&& forall|k: int| 0 <= k < perm.len() ==> 0 <= #[trigger] perm[k] < keys.len()
    &&& forall|a: int, b: int| 0 <= a < b < perm.len() ==> #[trigger] perm[a] != #[trigger] perm[b]
    &&& forall|a: int, b: int|
        0 <= a < b < perm.len() ==> !goes_before(keys[#[trigger] perm[b]], keys[#[trigger] perm[a]], desc)
    &&& forall|a: int, b: int|
        0 <= a < b < perm.len() && keys[#[trigger] perm[a]] == keys[#[trigger] perm[b]] ==> perm[a]
            < perm[b]
}

/// `out` is `input` stably sorted by `keys`.
pub open spec fn is_sorted_copy<T>(
    out: Seq<T>,
    input: Seq<T>,
    keys: Seq<(i64, i64)>,
    desc: bool,
) -> bool {
    &&& out.len() == input.len()
    &&& exists|perm: Seq<int>|
        #[trigger] is_stable_order(keys, perm, desc) && forall|k: int|
            0 <= k < out.len() ==> #[trigger] out[k] == input[perm[k]]
}

fn key_before(a: (i64, i64), b: (i64, i64), desc: bool) -> (r: bool)
    ensures
        r == goes_before(a, b, desc),
{
    if desc {
        b.0 < a.0 || (b.0 == a.0 && b.1 < a.1)
    } else {
        a.0 < b.0 || (a.0 == b.0 && a.1 < b.1)
    }
}

/// Sorts `items` stably by `keys` (ascending, or descending when `desc`),
/// as `sort_by_key` does; the ghost result tells where each item came from.
pub fn stable_sort_by_key<T>(items: Vec<T>, keys: Vec<(i64, i64)>, desc: bool) -> (r: (
    Vec<T>,
    Ghost<Seq<int>>,
))
    requires
        items@.len() == keys@.len(),
    ensures
        is_stable_order(keys@, r.1@, desc),
        r.0@.len() == items@.len(),
        forall|k: int| 0 <= k < r.0@.len() ==> #[trigger] r.0@[k] == items@[r.1@[k]],
        is_sorted_copy(r.0@, items@, keys@, desc),
{
    let ghost orig = items@;
    let ghost ks = keys@;
    let mut rest = items;
    let mut out: Vec<T> = Vec::new();
    let mut out_keys: Vec<(i64, i64)> = Vec::new();
    let ghost mut perm: Seq<int> = seq![];
    let n = keys.len();
    let mut i: usize = 0;
    while i < n
        invariant
            n == ks.len(),
            ks == keys@,
            orig.len() == ks.len(),
            i <= n,
            rest@ == orig.skip(i as int),
            out@.len() == i,
            out_keys@.len() == i,
            perm.len() == i,
            forall|k: int| 0 <= k < i ==> 0 <= #[trigger] perm[k] < i,
            forall|k: int| 0 <= k < i ==> #[trigger] out@[k] == orig[perm[k]],
            forall|k: int| 0 <= k < i ==> #[trigger] out_keys@[k] == ks[perm[k]],
            forall|a: int, b: int| 0 <= a < b < i ==> #[trigger] perm[a] != #[trigger] perm[b],
            forall|a: int, b: int|
                0 <= a < b < i ==> !goes_before(#[trigger] out_keys@[b], #[trigger] out_keys@[a], desc),
            forall|a: int, b: int|
                0 <= a < b < i && #[trigger] out_keys@[a] == #[trigger] out_keys@[b] ==> perm[a] < perm[b],
        decreases n - i,
    {
        let k = keys[i];
        let x = rest.remove(0);
        assert(orig.skip(i as int).drop_first() == orig.skip(i + 1));
        let mut j: usize = out_keys.len();
        while j > 0 && key_before(k, out_keys[j - 1], desc)
            invariant
                j <= out_keys@.len(),
                out_keys@.len() == i,
                forall|m: int| j <= m < i ==> goes_before(k, #[trigger] out_keys@[m], desc),
            decreases j,
        {
            j = j - 1;
        }
        let ghost old_keys = out_keys@;
        let ghost old_perm = perm;
        out.insert(j, x);
        out_keys.insert(j, k);
        proof {
            perm = perm.insert(j as int, i as int);
            assert forall|a: int, b: int|
                0 <= a < b < i + 1 implies !goes_before(
                #[trigger] out_keys@[b],
                #[trigger] out_keys@[a],
                desc,
            ) by {
                if a < j && b == j {
                    if j > 0 {
                        assert(!goes_before(k, old_keys[j - 1], desc));
                        assert(a == j - 1 || !goes_before(old_keys[j - 1], old_keys[a], desc));
                    }
                } else if a == j && b > j {
                    assert(goes_before(k, old_keys[b - 1], desc));
                }
            }
            assert forall|a: int, b: int|
                0 <= a < b < i + 1 && #[trigger] out_keys@[a] == #[trigger] out_keys@[b] implies perm[a]
                < perm[b] by {
                if a == j && b > j {
                    assert(goes_before(k, old_keys[b - 1], desc));
                } else if a < j && b == j {
                } else if a < j && b > j {
                    assert(old_perm[a] < old_perm[b - 1]);
                } else if a > j {
                    assert(old_perm[a - 1] < old_perm[b - 1]);
                } else {
                    assert(old_perm[a] < old_perm[b]);
                }
            }
            assert forall|a: int, b: int| 0 <= a < b < i + 1 implies #[trigger] perm[a]
                != #[trigger] perm[b] by {
                if a == j || b == j {
                } else if a < j && b > j {
                    assert(old_perm[a] != old_perm[b - 1]);
                } else if a > j {
                    assert(old_perm[a - 1] != old_perm[b - 1]);
                } else {
                    assert(old_perm[a] != old_perm[b]);
                }
            }
        }
        i = i + 1;
    }
    proof {
        assert forall|a: int, b: int| 0 <= a < b < perm.len() implies !goes_before(
            ks[#[trigger] perm[b]],
            ks[#[trigger] perm[a]],
            desc,
        ) by {
            assert(out_keys@[a] == ks[perm[a]]);
            assert(out_keys@[b] == ks[perm[b]]);
        }
        assert forall|a: int, b: int|
            0 <= a < b < perm.len() && ks[#[trigger] perm[a]] == ks[#[trigger] perm[b]] implies perm[a]
            < perm[b] by {
            assert(out_keys@[a] == ks[perm[a]]);
            assert(out_keys@[b] == ks[perm[b]]);
        }
    }
    (out, Ghost(perm))
}

} // verus!
