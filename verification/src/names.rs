//! The order of names: by their characters' code points, which is the
//! order of their UTF-8 bytes, as `str` and `OsStr` compare them.

use vstd::prelude::*;

use crate::sort::{is_sorted_copy, stable_sort_by_key};

verus! {

/// Whether `a` comes before `b` in the order of their UTF-8 bytes, which
/// is the order of their characters' code points.
pub open spec fn lex_lt(a: Seq<char>, b: Seq<char>) -> bool
    decreases a.len(),
{
    if a.len() == 0 {
        b.len() > 0
    } else if b.len() == 0 {
        false
    } else if a[0] != b[0] {
        (a[0] as u32) < (b[0] as u32)
    } else {
        lex_lt(a.drop_first(), b.drop_first())
    }
}

/// Whether `a` comes before `b` as strings.
pub fn str_lt(a: &[char], b: &[char]) -> (r: bool)
    ensures
        r == lex_lt(a@, b@),
{
    let mut i: usize = 0;
    assert(a@.skip(0) == a@ && b@.skip(0) == b@);
    while i < a.len() && i < b.len() && a[i] == b[i]
        invariant
            i <= a@.len(),
            i <= b@.len(),
            lex_lt(a@, b@) == lex_lt(a@.skip(i as int), b@.skip(i as int)),
        decreases a@.len() - i,
    {
        assert(a@.skip(i as int).drop_first() == a@.skip(i + 1));
        assert(b@.skip(i as int).drop_first() == b@.skip(i + 1));
        i = i + 1;
    }
    if i == a.len() {
        i < b.len()
    } else if i == b.len() {
        false
    } else {
        (a[i] as u32) < (b[i] as u32)
    }
}

/// How many of `names` come before `n` in name order.
pub open spec fn rank_in(names: Seq<String>, n: Seq<char>) -> nat {
    names.filter(|m: String| lex_lt(m@, n)).len()
}

/// The sort keys that put names in name order: their ranks. Equal names
/// share a rank, and a name before another has a smaller one, so a stable
/// sort by rank is a stable sort by name.
pub open spec fn rank_keys(names: Seq<String>) -> Seq<(i64, i64)> {
    names.map_values(|n: String| (rank_in(names, n@) as i64, 0i64))
}

/// `names` in name order; equal names keep their order.
pub fn sort_names(names: Vec<String>) -> (r: Vec<String>)
    requires
        names@.len() <= i64::MAX,
    ensures
        is_sorted_copy(r@, names@, rank_keys(names@), false),
{
    sort_names_by(names, false)
}

/// `names` in descending name order; equal names keep their order.
pub fn sort_names_desc(names: Vec<String>) -> (r: Vec<String>)
    requires
        names@.len() <= i64::MAX,
    ensures
        is_sorted_copy(r@, names@, rank_keys(names@), true),
{
    sort_names_by(names, true)
}

fn sort_names_by(names: Vec<String>, desc: bool) -> (r: Vec<String>)
    requires
        names@.len() <= i64::MAX,
    ensures
        is_sorted_copy(r@, names@, rank_keys(names@), desc),
{
    let mut keys: Vec<(i64, i64)> = Vec::new();
    let mut j: usize = 0;
    let ghost nv = names@;
    while j < names.len()
        invariant
            j <= names@.len(),
            nv == names@,
            nv.len() <= i64::MAX,
            keys@ == rank_keys(nv).take(j as int),
        decreases names@.len() - j,
    {
        let target: Vec<char> = crate::text::to_chars(names[j].as_str());
        let mut count: usize = 0;
        let mut k: usize = 0;
        while k < names.len()
            invariant
                k <= names@.len(),
                j < names@.len(),
                nv == names@,
                target@ == nv[j as int]@,
                count == nv.take(k as int).filter(|m: String| lex_lt(m@, nv[j as int]@)).len(),
                count <= k,
            decreases names@.len() - k,
        {
            proof {
                reveal_with_fuel(Seq::<_>::filter, 1);
                assert(nv.take(k + 1).drop_last() == nv.take(k as int));
            }
            let other: Vec<char> = crate::text::to_chars(names[k].as_str());
            if str_lt(other.as_slice(), target.as_slice()) {
                count = count + 1;
            }
            k = k + 1;
        }
        assert(nv.take(nv.len() as int) == nv);
        keys.push((count as i64, 0i64));
        j = j + 1;
        assert(keys@ =~= rank_keys(nv).take(j as int));
    }
    assert(rank_keys(nv).take(nv.len() as int) == rank_keys(nv));
    let (sorted, _perm) = stable_sort_by_key(names, keys, desc);
    sorted
}

/// No name comes before itself.
pub proof fn lemma_lex_lt_irreflexive(a: Seq<char>)
    ensures
        !lex_lt(a, a),
    decreases a.len(),
{
    if a.len() > 0 {
        lemma_lex_lt_irreflexive(a.drop_first());
    }
}

/// The order of names is transitive.
pub proof fn lemma_lex_lt_transitive(a: Seq<char>, b: Seq<char>, c: Seq<char>)
    requires
        lex_lt(a, b),
        lex_lt(b, c),
    ensures
        lex_lt(a, c),
    decreases a.len(),
{
    if a.len() > 0 && b.len() > 0 && c.len() > 0 && a[0] == b[0] && b[0] == c[0] {
        lemma_lex_lt_transitive(a.drop_first(), b.drop_first(), c.drop_first());
    }
}

/// Filtering by a weaker test keeps at least as many items, and more when
/// some item passes only the weaker one.
pub proof fn lemma_filter_len_mono<A>(s: Seq<A>, p: spec_fn(A) -> bool, q: spec_fn(A) -> bool)
    requires
        forall|x: A| #[trigger] p(x) ==> q(x),
    ensures
        s.filter(p).len() <= s.filter(q).len(),
        (exists|i: int| 0 <= i < s.len() && q(s[i]) && !p(s[i])) ==> s.filter(p).len() < s.filter(
            q,
        ).len(),
    decreases s.len(),
{
    reveal_with_fuel(Seq::<_>::filter, 1);
    if s.len() > 0 {
        lemma_filter_len_mono(s.drop_last(), p, q);
        if exists|i: int| 0 <= i < s.len() && q(s[i]) && !p(s[i]) {
            let i = choose|i: int| 0 <= i < s.len() && q(s[i]) && !p(s[i]);
            if i < s.len() - 1 {
                assert(s.drop_last()[i] == s[i]);
            }
        }
    }
}

/// Ranks follow the order of names: a listed name that comes before
/// another has a smaller rank. Equal names have equal ranks. So sorting
/// names stably by rank sorts them stably by name.
pub proof fn lemma_rank_follows_order(names: Seq<String>, a: Seq<char>, b: Seq<char>)
    requires
        exists|i: int| 0 <= i < names.len() && #[trigger] names[i]@ == a,
        lex_lt(a, b),
    ensures
        rank_in(names, a) < rank_in(names, b),
{
    let p = |m: String| lex_lt(m@, a);
    let q = |m: String| lex_lt(m@, b);
    assert forall|m: String| #[trigger] p(m) implies q(m) by {
        lemma_lex_lt_transitive(m@, a, b);
    }
    let i = choose|i: int| 0 <= i < names.len() && #[trigger] names[i]@ == a;
    lemma_lex_lt_irreflexive(a);
    assert(q(names[i]) && !p(names[i]));
    lemma_filter_len_mono(names, p, q);
}

} // verus!
