//! Search over the notes, with snippets cut on character boundaries.
//!
//! Offsets into a note's text are byte offsets into its UTF-8 encoding, as
//! the front end expects them; every offset handed out lies on a character
//! boundary.

use vstd::prelude::*;
use vstd::utf8::{char_is_scalar, encode_scalar, encode_utf8};

use crate::outside::{lowercase_of, to_lowercase};
use crate::text::{
    append_chars, append_str, chars_start_with, replace_char, replace_char_exec, slice_chars,
    starts_with, string_from_chars, string_of, to_chars, trim, trim_chars,
};
use crate::error::AppError;
use crate::notes::{Note, NoteStore};
use crate::paths::{join_path, path_join};
use crate::sort::{is_sorted_copy, stable_sort_by_key};

verus! {

/// The number of bytes of `c` in UTF-8, as `char::len_utf8` documents it.
pub open spec fn utf8_width(c: char) -> nat {
    let u = c as u32;
    if u < 0x80 {
        1
    } else if u < 0x800 {
        2
    } else if u < 0x10000 {
        3
    } else {
        4
    }
}

/// The number of bytes of `s` in UTF-8.
pub open spec fn byte_len(s: Seq<char>) -> nat
    decreases s.len(),
{
    if s.len() == 0 {
        0
    } else {
        utf8_width(s[0]) + byte_len(s.drop_first())
    }
}

/// The byte offset at which the character `k` of `s` begins.
pub open spec fn byte_offset(s: Seq<char>, k: int) -> nat {
    byte_len(s.take(k))
}

/// Whether `b` is a byte offset at which a character of `s` begins, or
/// the end of `s`.
pub open spec fn is_boundary(s: Seq<char>, b: int) -> bool {
    exists|k: int| 0 <= k <= s.len() && #[trigger] byte_offset(s, k) == b
}

/// The bytes of two texts add up.
pub proof fn lemma_byte_len_concat(a: Seq<char>, b: Seq<char>)
    ensures
        byte_len(a + b) == byte_len(a) + byte_len(b),
    decreases a.len(),
{
    if a.len() == 0 {
        assert(a + b == b);
    } else {
        assert((a + b).drop_first() == a.drop_first() + b);
        lemma_byte_len_concat(a.drop_first(), b);
    }
}

/// The byte offset of the next character adds the width of this one.
pub proof fn lemma_byte_offset_step(s: Seq<char>, k: int)
    requires
        0 <= k < s.len(),
    ensures
        byte_offset(s, k + 1) == byte_offset(s, k) + utf8_width(s[k]),
{
    assert(s.take(k + 1) == s.take(k) + seq![s[k]]);
    lemma_byte_len_concat(s.take(k), seq![s[k]]);
    assert(seq![s[k]].drop_first() == Seq::<char>::empty());
    assert(byte_len(seq![s[k]]) == utf8_width(s[k]) + byte_len(Seq::<char>::empty()));
}

/// Byte offsets grow strictly with the character index.
pub proof fn lemma_byte_offset_mono(s: Seq<char>, j: int, k: int)
    requires
        0 <= j < k <= s.len(),
    ensures
        byte_offset(s, j) < byte_offset(s, k),
    decreases k - j,
{
    lemma_byte_offset_step(s, k - 1);
    if j < k - 1 {
        lemma_byte_offset_mono(s, j, k - 1);
    }
}

/// The model of widths agrees with the UTF-8 encoding of `vstd`.
pub proof fn lemma_byte_len_is_utf8_len(s: Seq<char>)
    ensures
        byte_len(s) == encode_utf8(s).len(),
    decreases s.len(),
{
    if s.len() > 0 {
        char_is_scalar(s[0]);
        lemma_byte_len_is_utf8_len(s.drop_first());
        assert(encode_scalar(s[0] as u32).len() == utf8_width(s[0]));
    }
}

/// The number of bytes of `c` in UTF-8.
pub fn utf8_width_exec(c: char) -> (w: usize)
    ensures
        w == utf8_width(c),
{
    let u = c as u32;
    if u < 0x80 {
        1
    } else if u < 0x800 {
        2
    } else if u < 0x10000 {
        3
    } else {
        4
    }
}

/// The byte offsets at which the characters of `s` begin, followed by the
/// byte length of `s`.
pub fn byte_offsets(s: &str) -> (r: (Vec<char>, Vec<usize>))
    ensures
        r.0@ == s@,
        r.1@.len() == s@.len() + 1,
        forall|k: int| 0 <= k <= s@.len() ==> #[trigger] r.1@[k] == byte_offset(s@, k),
{
    let total = s.as_bytes().len();
    proof {
        lemma_byte_len_is_utf8_len(s@);
        assert(s@.take(s@.len() as int) == s@);
    }
    let v = crate::text::to_chars(s);
    let mut offs: Vec<usize> = Vec::new();
    offs.push(0);
    assert(s@.take(0) == Seq::<char>::empty());
    let mut acc: usize = 0;
    let mut k: usize = 0;
    while k < v.len()
        invariant
            k <= v@.len(),
            v@ == s@,
            total == byte_len(s@),
            acc == byte_offset(s@, k as int),
            offs@.len() == k + 1,
            forall|j: int| 0 <= j <= k ==> #[trigger] offs@[j] == byte_offset(s@, j),
        decreases v@.len() - k,
    {
        proof {
            lemma_byte_offset_step(s@, k as int);
            if k + 1 < s@.len() {
                lemma_byte_offset_mono(s@, k + 1, s@.len() as int);
            }
            assert(s@.take(s@.len() as int) == s@);
        }
        acc = acc + utf8_width_exec(v[k]);
        offs.push(acc);
        k = k + 1;
    }
    (v, offs)
}


/// The smaller of two integers.
pub open spec fn min_int(a: int, b: int) -> int {
    if a <= b { a } else { b }
}

/// `r` is the largest boundary of `s` at or below `index` (clamped to the
/// length): what `floor_char_boundary` computes.
pub open spec fn is_floor_boundary(s: Seq<char>, index: int, r: int) -> bool {
    let m = min_int(index, byte_len(s) as int);
    &&& is_boundary(s, r)
    &&& r <= m
    &&& forall|k: int| 0 <= k <= s.len() && #[trigger] byte_offset(s, k) <= m ==> byte_offset(s, k) <= r
}

/// `r` is the smallest boundary of `s` at or above `index` (clamped to the
/// length): what `ceil_char_boundary` computes.
pub open spec fn is_ceil_boundary(s: Seq<char>, index: int, r: int) -> bool {
    let m = min_int(index, byte_len(s) as int);
    &&& is_boundary(s, r)
    &&& r >= m
    &&& forall|k: int| 0 <= k <= s.len() && #[trigger] byte_offset(s, k) >= m ==> byte_offset(s, k) >= r
}

fn floor_index(s: Ghost<Seq<char>>, offs: &Vec<usize>, m: usize) -> (k: usize)
    requires
        offs@.len() == s@.len() + 1,
        forall|j: int| 0 <= j <= s@.len() ==> #[trigger] offs@[j] == byte_offset(s@, j),
    ensures
        k <= s@.len(),
        offs@[k as int] <= m,
        forall|j: int| 0 <= j <= s@.len() && #[trigger] byte_offset(s@, j) <= m ==> j <= k,
{
    let mut k: usize = offs.len() - 1;
    assert(offs@[0] == byte_offset(s@, 0));
    assert(s@.take(0) == Seq::<char>::empty());
    while k > 0 && offs[k] > m
        invariant
            k <= s@.len(),
            offs@.len() == s@.len() + 1,
            forall|j: int| 0 <= j <= s@.len() ==> #[trigger] offs@[j] == byte_offset(s@, j),
            forall|j: int| k < j <= s@.len() ==> #[trigger] byte_offset(s@, j) > m,
            byte_offset(s@, 0) == 0,
        decreases k,
    {
        k = k - 1;
    }
    k
}

fn ceil_index(s: Ghost<Seq<char>>, offs: &Vec<usize>, m: usize) -> (k: usize)
    requires
        offs@.len() == s@.len() + 1,
        forall|j: int| 0 <= j <= s@.len() ==> #[trigger] offs@[j] == byte_offset(s@, j),
        m <= byte_len(s@),
    ensures
        k <= s@.len(),
        offs@[k as int] >= m,
        forall|j: int| 0 <= j <= s@.len() && #[trigger] byte_offset(s@, j) >= m ==> j >= k,
{
    let n = offs.len() - 1;
    let ghost sv: Seq<char> = s@;
    assert(sv.take(sv.len() as int) =~= sv);
    let mut k: usize = 0;
    while k < n && offs[k] < m
        invariant
            k <= n,
            n == s@.len(),
            offs@.len() == s@.len() + 1,
            forall|j: int| 0 <= j <= s@.len() ==> #[trigger] offs@[j] == byte_offset(s@, j),
            forall|j: int| 0 <= j < k ==> #[trigger] byte_offset(s@, j) < m,
            byte_offset(s@, n as int) == byte_len(s@),
            m <= byte_len(s@),
        decreases n - k,
    {
        k = k + 1;
    }
    k
}

proof fn lemma_offsets_order(s: Seq<char>, j: int, k: int)
    requires
        0 <= j <= s.len(),
        0 <= k <= s.len(),
    ensures
        j <= k <==> byte_offset(s, j) <= byte_offset(s, k),
{
    if j < k {
        lemma_byte_offset_mono(s, j, k);
    } else if k < j {
        lemma_byte_offset_mono(s, k, j);
    }
}

/// The largest character boundary of `source` at or below `index`.
pub fn floor_char_boundary(source: &str, index: usize) -> (r: usize)
    ensures
        is_floor_boundary(source@, index as int, r as int),
{
    let (v, offs) = byte_offsets(source);
    let total = offs[offs.len() - 1];
    assert(source@.take(source@.len() as int) == source@);
    let m = if index < total { index } else { total };
    let k = floor_index(Ghost(source@), &offs, m);
    proof {
        assert forall|j: int|
            0 <= j <= source@.len() && #[trigger] byte_offset(source@, j) <= m implies byte_offset(
            source@,
            j,
        ) <= offs@[k as int] by {
            lemma_offsets_order(source@, j, k as int);
        }
        assert(byte_offset(source@, k as int) == offs@[k as int]);
    }
    offs[k]
}

/// The smallest character boundary of `source` at or above `index`.
pub fn ceil_char_boundary(source: &str, index: usize) -> (r: usize)
    ensures
        is_ceil_boundary(source@, index as int, r as int),
{
    let (v, offs) = byte_offsets(source);
    let total = offs[offs.len() - 1];
    assert(source@.take(source@.len() as int) == source@);
    let m = if index < total { index } else { total };
    let k = ceil_index(Ghost(source@), &offs, m);
    proof {
        assert forall|j: int|
            0 <= j <= source@.len() && #[trigger] byte_offset(source@, j) >= m implies byte_offset(
            source@,
            j,
        ) >= offs@[k as int] by {
            lemma_offsets_order(source@, k as int, j);
        }
        assert(byte_offset(source@, k as int) == offs@[k as int]);
    }
    offs[k]
}


/// The largest boundary at or below `index`.
pub open spec fn floor_b(s: Seq<char>, index: int) -> int {
    choose|r: int| is_floor_boundary(s, index, r)
}

/// The smallest boundary at or above `index`.
pub open spec fn ceil_b(s: Seq<char>, index: int) -> int {
    choose|r: int| is_ceil_boundary(s, index, r)
}

/// The index of the character that begins at byte offset `b`.
pub open spec fn index_at(s: Seq<char>, b: int) -> int {
    choose|k: int| 0 <= k <= s.len() && byte_offset(s, k) == b
}

proof fn lemma_floor_unique(s: Seq<char>, index: int, r: int)
    requires
        is_floor_boundary(s, index, r),
    ensures
        floor_b(s, index) == r,
{
    let q = floor_b(s, index);
    assert(is_floor_boundary(s, index, q));
    let kq = choose|k: int| 0 <= k <= s.len() && #[trigger] byte_offset(s, k) == q;
    let kr = choose|k: int| 0 <= k <= s.len() && #[trigger] byte_offset(s, k) == r;
    assert(byte_offset(s, kq) <= r);
    assert(byte_offset(s, kr) <= q);
}

proof fn lemma_ceil_unique(s: Seq<char>, index: int, r: int)
    requires
        is_ceil_boundary(s, index, r),
    ensures
        ceil_b(s, index) == r,
{
    let q = ceil_b(s, index);
    assert(is_ceil_boundary(s, index, q));
    let kq = choose|k: int| 0 <= k <= s.len() && #[trigger] byte_offset(s, k) == q;
    let kr = choose|k: int| 0 <= k <= s.len() && #[trigger] byte_offset(s, k) == r;
    assert(byte_offset(s, kq) >= r);
    assert(byte_offset(s, kr) >= q);
}

proof fn lemma_index_at(s: Seq<char>, k: int)
    requires
        0 <= k <= s.len(),
    ensures
        index_at(s, byte_offset(s, k) as int) == k,
{
    let j = index_at(s, byte_offset(s, k) as int);
    assert(0 <= j <= s.len() && byte_offset(s, j) == byte_offset(s, k));
    lemma_offsets_order(s, j, k);
    lemma_offsets_order(s, k, j);
}

/// Whether the lower-case form of `s` from character `k` on begins with `q`.
pub open spec fn ci_match_at(s: Seq<char>, q: Seq<char>, k: int) -> bool {
    starts_with(lowercase_of(s.skip(k)), q)
}

/// The first character index from `k` on where `q` matches without regard
/// to case.
pub open spec fn first_ci_match(s: Seq<char>, q: Seq<char>, k: int) -> Option<int>
    decreases s.len() - k,
{
    if k < 0 || k >= s.len() {
        None
    } else if ci_match_at(s, q, k) {
        Some(k)
    } else {
        first_ci_match(s, q, k + 1)
    }
}

/// The byte offset of the first place in `s` where the (already lower-case)
/// `q` matches the lower-case text from there on. Offsets are taken at the
/// characters of `s` itself, since lower-casing may change byte lengths.
pub open spec fn ci_find(s: Seq<char>, q: Seq<char>) -> Option<int> {
    if ci_match_at(s, q, 0) {
        Some(0)
    } else {
        match first_ci_match(s, q, 0) {
            Some(k) => Some(byte_offset(s, k) as int),
            None => None,
        }
    }
}

/// Finds `normalized_query` in `source` without regard to case (see
/// `ci_find`); the offset found lies on a character boundary of `source`.
pub fn case_insensitive_find(source: &str, normalized_query: &str) -> (r: Option<usize>)
    ensures
        match r {
            Some(b) => ci_find(source@, normalized_query@) == Some(b as int) && is_boundary(
                source@,
                b as int,
            ),
            None => ci_find(source@, normalized_query@) is None,
        },
{
    let q = to_chars(normalized_query);
    let whole = to_lowercase(source);
    assert(source@.skip(0) == source@);
    assert(source@.take(0) == Seq::<char>::empty());
    assert(byte_offset(source@, 0) == 0);
    if chars_start_with(to_chars(whole.as_str()).as_slice(), q.as_slice()) {
        return Some(0);
    }
    let (v, offs) = byte_offsets(source);
    let mut k: usize = 0;
    while k < v.len()
        invariant
            k <= v@.len(),
            v@ == source@,
            q@ == normalized_query@,
            offs@.len() == source@.len() + 1,
            forall|j: int| 0 <= j <= source@.len() ==> #[trigger] offs@[j] == byte_offset(source@, j),
            first_ci_match(source@, q@, 0) == first_ci_match(source@, q@, k as int),
        decreases v@.len() - k,
    {
        let sub = string_from_chars(slice_chars(v.as_slice(), k, v.len()).as_slice());
        assert(sub@ == source@.skip(k as int));
        let low = to_lowercase(sub.as_str());
        if chars_start_with(to_chars(low.as_str()).as_slice(), q.as_slice()) {
            return Some(offs[k]);
        }
        k = k + 1;
    }
    None
}


/// The snippet shown for a match at byte `ms` of `s` for the search text
/// `q`: from the boundary at or below 44 bytes before the match to the
/// boundary at or above 90 bytes after the matched characters (as many as
/// `q` has, at least one), newlines shown as spaces, with `…` where text
/// was cut off.
pub open spec fn snippet_of(s: Seq<char>, ms: int, q: Seq<char>) -> Seq<char> {
    let total = byte_len(s) as int;
    let start = floor_b(s, if ms >= 44 { ms - 44 } else { 0 });
    let km = index_at(s, ms);
    let matched = if q.len() == 0 { 1 } else { q.len() as int };
    let match_end = if km + matched < s.len() { byte_offset(s, km + matched) as int } else { total };
    let end = ceil_b(s, min_int(match_end + 90, total));
    (if start > 0 { "…"@ } else { seq![] }) + replace_char(
        s.subrange(index_at(s, start), index_at(s, end)),
        '\n',
        ' ',
    ) + (if end < total { "…"@ } else { seq![] })
}

/// The snippet around a match at byte `match_start` of `source` (see
/// `snippet_of`).
pub fn safe_snippet(source: &str, match_start: usize, query: &str) -> (r: String)
    requires
        is_boundary(source@, match_start as int),
    ensures
        r@ == snippet_of(source@, match_start as int, query@),
{
    let ghost s = source@;
    let (v, offs) = byte_offsets(source);
    let n = v.len();
    let total = offs[n];
    assert(s.take(s.len() as int) =~= s);
    assert(s.take(0) == Seq::<char>::empty());
    let lo = if match_start >= 44 { match_start - 44 } else { 0 };
    let m1 = if lo < total { lo } else { total };
    let ks = floor_index(Ghost(s), &offs, m1);
    let start = offs[ks];
    proof {
        assert forall|j: int| 0 <= j <= s.len() && #[trigger] byte_offset(s, j) <= m1 implies byte_offset(
            s,
            j,
        ) <= start by {
            lemma_offsets_order(s, j, ks as int);
        }
        assert(is_floor_boundary(s, lo as int, start as int));
        lemma_floor_unique(s, lo as int, start as int);
        lemma_index_at(s, ks as int);
    }
    let ghost kmg = choose|k: int| 0 <= k <= s.len() && #[trigger] byte_offset(s, k) == match_start;
    let mut km: usize = 0;
    while offs[km] != match_start
        invariant
            km <= kmg,
            0 <= kmg <= s.len(),
            n == s.len(),
            byte_offset(s, kmg) == match_start,
            offs@.len() == s.len() + 1,
            forall|j: int| 0 <= j <= s.len() ==> #[trigger] offs@[j] == byte_offset(s, j),
        decreases kmg - km,
    {
        assert(km != kmg);
        km = km + 1;
    }
    proof {
        lemma_index_at(s, km as int);
    }
    let qn = to_chars(query).len();
    let matched = if qn == 0 { 1 } else { qn };
    let match_end = if matched < n - km { offs[km + matched] } else { total };
    proof {
        if matched < n - km {
            lemma_offsets_order(s, km as int, (km + matched) as int);
            lemma_offsets_order(s, (km + matched) as int, n as int);
        } else {
            lemma_offsets_order(s, km as int, n as int);
        }
    }
    let m2 = if total - match_end >= 90 { match_end + 90 } else { total };
    let ke = ceil_index(Ghost(s), &offs, m2);
    let end = offs[ke];
    proof {
        assert forall|j: int| 0 <= j <= s.len() && #[trigger] byte_offset(s, j) >= m2 implies byte_offset(
            s,
            j,
        ) >= end by {
            lemma_offsets_order(s, ke as int, j);
        }
        assert(is_ceil_boundary(s, m2 as int, end as int));
        lemma_ceil_unique(s, min_int(match_end + 90, total as int), end as int);
        lemma_index_at(s, ke as int);
        lemma_offsets_order(s, ks as int, km as int);
        lemma_offsets_order(s, ks as int, ke as int);
    }
    let mut out: Vec<char> = Vec::new();
    if start > 0 {
        append_str(&mut out, "…");
    }
    let mid = replace_char_exec(slice_chars(v.as_slice(), ks, ke).as_slice(), '\n', ' ');
    append_chars(&mut out, mid.as_slice());
    if end < total {
        append_str(&mut out, "…");
    }
    string_from_chars(out.as_slice())
}


/// One note found by a search: where the first match is, the snippet
/// around it, and a score (content matches 10, title matches 18, both 18).
#[derive(Debug)]
pub struct SearchResult {
    pub note_id: String,
    pub title: String,
    pub category: String,
    pub snippet: String,
    pub match_start: usize,
    pub score: u32,
}

/// A search result as plain values.
pub struct SearchResultView {
    pub note_id: Seq<char>,
    pub title: Seq<char>,
    pub category: Seq<char>,
    pub snippet: Seq<char>,
    pub match_start: int,
    pub score: int,
}

impl View for SearchResult {
    type V = SearchResultView;

    open spec fn view(&self) -> SearchResultView {
        SearchResultView {
            note_id: self.note_id@,
            title: self.title@,
            category: self.category@,
            snippet: self.snippet@,
            match_start: self.match_start as int,
            score: self.score as int,
        }
    }
}

/// The compatibility search index, `search-index.json` in the data
/// directory; fallback search no longer trusts it.
pub fn index_path(data_dir: &str) -> (r: String)
    ensures
        r@ == path_join(data_dir@, "search-index.json"@),
{
    join_path(data_dir, "search-index.json")
}

/// The title shown for a note: `无标题笔记` when it is blank.
pub open spec fn display_title(t: Seq<char>) -> Seq<char> {
    if trim(t).len() == 0 { "无标题笔记"@ } else { t }
}

/// What a search for `q` (lower-cased and trimmed: `norm`) finds in one
/// note: a match in the content wins (score 10, or 18 when the title
/// matches too), else a match in the title (score 18), else nothing.
pub open spec fn hit_of(n: Note, norm: Seq<char>, q: Seq<char>) -> Option<SearchResultView> {
    let tp = ci_find(n.title@, norm);
    match ci_find(n.content@, norm) {
        Some(p) => Some(
            SearchResultView {
                note_id: n.id@,
                title: display_title(n.title@),
                category: n.category@,
                snippet: snippet_of(n.content@, p, q),
                match_start: p,
                score: if tp is Some { 18 } else { 10 },
            },
        ),
        None => match tp {
            Some(p) => Some(
                SearchResultView {
                    note_id: n.id@,
                    title: display_title(n.title@),
                    category: n.category@,
                    snippet: snippet_of(n.title@, p, q),
                    match_start: p,
                    score: 18,
                },
            ),
            None => None,
        },
    }
}

/// What the notes yield for a search, in note order.
pub open spec fn hits(notes: Seq<Note>, norm: Seq<char>, q: Seq<char>) -> Seq<SearchResultView>
    decreases notes.len(),
{
    if notes.len() == 0 {
        seq![]
    } else {
        match hit_of(notes.last(), norm, q) {
            Some(h) => hits(notes.drop_last(), norm, q).push(h),
            None => hits(notes.drop_last(), norm, q),
        }
    }
}

/// A match at character `k` is found by the scan that starts at or before
/// it.
proof fn lemma_first_ci_match_found(s: Seq<char>, q: Seq<char>, from: int, k: int)
    requires
        0 <= from <= k < s.len(),
        ci_match_at(s, q, k),
    ensures
        first_ci_match(s, q, from) is Some,
    decreases k - from,
{
    if !ci_match_at(s, q, from) {
        lemma_first_ci_match_found(s, q, from + 1, k);
    }
}

/// Every note that yields a hit has it among the hits, in note order.
proof fn lemma_hit_is_among_hits(notes: Seq<Note>, norm: Seq<char>, q: Seq<char>, i: int)
    requires
        0 <= i < notes.len(),
        hit_of(notes[i], norm, q) is Some,
    ensures
        exists|j: int|
            0 <= j < hits(notes, norm, q).len() && #[trigger] hits(notes, norm, q)[j] == hit_of(
                notes[i],
                norm,
                q,
            )->0,
    decreases notes.len(),
{
    let h = hit_of(notes[i], norm, q)->0;
    if i == notes.len() - 1 {
        let before = hits(notes.drop_last(), norm, q);
        assert(hits(notes, norm, q) == before.push(h));
        assert(hits(notes, norm, q)[before.len() as int] == h);
    } else {
        let front = notes.drop_last();
        assert(front[i] == notes[i]);
        lemma_hit_is_among_hits(front, norm, q, i);
        let j = choose|j: int|
            0 <= j < hits(front, norm, q).len() && #[trigger] hits(front, norm, q)[j] == h;
        match hit_of(notes.last(), norm, q) {
            Some(x) => {
                assert(hits(notes, norm, q) == hits(front, norm, q).push(x));
                assert(hits(notes, norm, q)[j] == h);
            },
            None => {
                assert(hits(notes, norm, q) == hits(front, norm, q));
            },
        }
    }
}

/// A search finds every note whose title contains the query without
/// regard to case, a match in the title alone too: when the lower-case
/// title (as `str::to_lowercase` folds it) holds the trimmed, lower-case
/// query somewhere, the hits that `search` ranks hold an entry for that
/// note, scored 18, the best score.
pub proof fn lemma_title_match_is_found(notes: Seq<Note>, query: Seq<char>, i: int, k: int)
    requires
        0 <= i < notes.len(),
        0 <= k < notes[i].title@.len(),
        starts_with(lowercase_of(notes[i].title@.skip(k)), lowercase_of(trim(query))),
    ensures
        exists|j: int|
            0 <= j < hits(notes, lowercase_of(trim(query)), query).len() && (#[trigger] hits(
                notes,
                lowercase_of(trim(query)),
                query,
            )[j]).note_id == notes[i].id@ && hits(notes, lowercase_of(trim(query)), query)[j].score == 18,
{
    let norm = lowercase_of(trim(query));
    let n = notes[i];
    lemma_first_ci_match_found(n.title@, norm, 0, k);
    assert(ci_find(n.title@, norm) is Some);
    assert(hit_of(n, norm, query) is Some);
    lemma_hit_is_among_hits(notes, norm, query, i);
}

/// The sort keys of search results: their scores.
pub open spec fn score_keys(v: Seq<SearchResult>) -> Seq<(i64, i64)> {
    v.map_values(|r: SearchResult| (r.score as i64, 0i64))
}

/// The views of a list of search results.
pub open spec fn results_view(v: Seq<SearchResult>) -> Seq<SearchResultView> {
    v.map_values(|r: SearchResult| r@)
}

fn hit_exec(n: &Note, norm: &str, query: &str) -> (r: Option<SearchResult>)
    ensures
        match r {
            Some(h) => hit_of(*n, norm@, query@) == Some(h@),
            None => hit_of(*n, norm@, query@) is None,
        },
{
    let tp = case_insensitive_find(n.title.as_str(), norm);
    let cp = case_insensitive_find(n.content.as_str(), norm);
    let title = if trim_chars(to_chars(n.title.as_str()).as_slice()).len() == 0 {
        string_of("无标题笔记")
    } else {
        n.title.clone()
    };
    match cp {
        Some(p) => {
            let score: u32 = if tp.is_some() { 18 } else { 10 };
            Some(
                SearchResult {
                    note_id: n.id.clone(),
                    title,
                    category: n.category.clone(),
                    snippet: safe_snippet(n.content.as_str(), p, query),
                    match_start: p,
                    score,
                },
            )
        },
        None => match tp {
            Some(p) => Some(
                SearchResult {
                    note_id: n.id.clone(),
                    title,
                    category: n.category.clone(),
                    snippet: safe_snippet(n.title.as_str(), p, query),
                    match_start: p,
                    score: 18,
                },
            ),
            None => None,
        },
    }
}

/// What a search for `query` over `notes` gives: nothing for a blank
/// query; otherwise the hits (see `hits`), best score first, hits of equal
/// score in note order, at most 80.
pub open spec fn is_search_outcome(query: Seq<char>, notes: Seq<Note>, v: Seq<SearchResult>) -> bool {
    let norm = lowercase_of(trim(query));
    if norm.len() == 0 {
        v.len() == 0
    } else {
        exists|found: Seq<SearchResult>, sorted: Seq<SearchResult>|
            #[trigger] is_sorted_copy(sorted, found, score_keys(found), true) && results_view(found)
                == hits(notes, norm, query) && v == (if sorted.len() <= 80 {
                sorted
            } else {
                sorted.take(80)
            })
    }
}

/// Searches the authoritative notes for `query` without regard to case. An
/// empty (or blank) query finds nothing. The results come best score
/// first, notes of equal score in note order, at most 80 of them. The data
/// directory is not read: the notes passed in are the authority.
pub fn search(_data_dir: &str, query: &str, fallback: &Vec<Note>) -> (r: Result<
    Vec<SearchResult>,
    AppError,
>)
    ensures
        r matches Ok(v) && is_search_outcome(query@, fallback@, v@),
{
    let t = string_from_chars(trim_chars(to_chars(query).as_slice()).as_slice());
    let normalized = to_lowercase(t.as_str());
    if normalized.as_str().is_empty() {
        return Ok(Vec::new());
    }
    let ghost norm = normalized@;
    let mut found: Vec<SearchResult> = Vec::new();
    let mut keys: Vec<(i64, i64)> = Vec::new();
    let mut i: usize = 0;
    while i < fallback.len()
        invariant
            i <= fallback@.len(),
            norm == normalized@,
            results_view(found@) == hits(fallback@.take(i as int), norm, query@),
            keys@ == score_keys(found@),
        decreases fallback@.len() - i,
    {
        assert(fallback@.take(i + 1).drop_last() == fallback@.take(i as int));
        let h = hit_exec(&fallback[i], normalized.as_str(), query);
        match h {
            Some(x) => {
                keys.push((x.score as i64, 0i64));
                found.push(x);
                assert(results_view(found@) == results_view(found@.drop_last()).push(found@.last()@));
                assert(score_keys(found@) == score_keys(found@.drop_last()).push(
                    (found@.last().score as i64, 0i64),
                ));
            },
            None => {},
        }
        i = i + 1;
    }
    assert(fallback@.take(fallback@.len() as int) == fallback@);
    let ghost fv = found@;
    let (mut sorted, _perm) = stable_sort_by_key(found, keys, true);
    let ghost sv = sorted@;
    sorted.truncate(80);
    assert(is_sorted_copy(sv, fv, score_keys(fv), true));
    assert(results_view(fv) == hits(fallback@, norm, query@));
    assert(norm == lowercase_of(trim(query@)));
    assert(sorted@ == (if sv.len() <= 80 {
        sv
    } else {
        sv.take(80)
    }));
    assert(is_search_outcome(query@, fallback@, sorted@));
    Ok(sorted)
}

/// What the full-text index's match of note `n` for `query` (lower-cased
/// and trimmed: `norm`) shows: like a fallback hit, except that a note the
/// index found but whose text holds no exact match is shown from the
/// start of its content with score 5.
pub open spec fn fts_hit_of(n: Note, norm: Seq<char>, q: Seq<char>) -> SearchResultView {
    match hit_of(n, norm, q) {
        Some(h) => h,
        None => SearchResultView {
            note_id: n.id@,
            title: display_title(n.title@),
            category: n.category@,
            snippet: snippet_of(n.content@, 0, q),
            match_start: 0,
            score: 5,
        },
    }
}

/// The sort keys of full-text results, in index order.
pub open spec fn fts_hits(notes: Seq<Note>, norm: Seq<char>, q: Seq<char>) -> Seq<SearchResultView> {
    notes.map_values(|n: Note| fts_hit_of(n, norm, q))
}

impl NoteStore {
    /// The results of a full-text search: `found` are the notes that the
    /// index returned, in its rank order (those that could be read). Best
    /// score first, equal scores in index order, at most 80.
    pub fn search_fts(&self, query: &str, found: &Vec<Note>) -> (r: Vec<SearchResult>)
        ensures
            exists|all: Seq<SearchResult>, sorted: Seq<SearchResult>|
                #[trigger] is_sorted_copy(sorted, all, score_keys(all), true) && results_view(all)
                    == fts_hits(found@, lowercase_of(trim(query@)), query@) && r@ == (if sorted.len()
                    <= 80 {
                    sorted
                } else {
                    sorted.take(80)
                }),
    {
        let t = string_from_chars(trim_chars(to_chars(query).as_slice()).as_slice());
        let normalized = to_lowercase(t.as_str());
        let ghost norm = normalized@;
        let mut all: Vec<SearchResult> = Vec::new();
        let mut keys: Vec<(i64, i64)> = Vec::new();
        let mut i: usize = 0;
        while i < found.len()
            invariant
                i <= found@.len(),
                norm == normalized@,
                norm == lowercase_of(trim(query@)),
                results_view(all@) == fts_hits(found@.take(i as int), norm, query@),
                keys@ == score_keys(all@),
            decreases found@.len() - i,
        {
            let n = &found[i];
            let x = match hit_exec(n, normalized.as_str(), query) {
                Some(h) => h,
                None => {
                    let title = if trim_chars(to_chars(n.title.as_str()).as_slice()).len() == 0 {
                        string_of("无标题笔记")
                    } else {
                        n.title.clone()
                    };
                    proof {
                        assert(byte_offset(n.content@, 0) == 0);
                    }
                    SearchResult {
                        note_id: n.id.clone(),
                        title,
                        category: n.category.clone(),
                        snippet: safe_snippet(n.content.as_str(), 0, query),
                        match_start: 0,
                        score: 5,
                    }
                },
            };
            assert(x@ == fts_hit_of(found@[i as int], norm, query@));
            keys.push((x.score as i64, 0i64));
            all.push(x);
            assert(results_view(all@) =~= results_view(all@.drop_last()).push(all@.last()@));
            assert(score_keys(all@) =~= score_keys(all@.drop_last()).push(
                (all@.last().score as i64, 0i64),
            ));
            assert(fts_hits(found@.take(i + 1), norm, query@) =~= fts_hits(
                found@.take(i as int),
                norm,
                query@,
            ).push(fts_hit_of(found@[i as int], norm, query@)));
            i = i + 1;
        }
        assert(found@.take(found@.len() as int) == found@);
        let ghost av = all@;
        let (mut sorted, _perm) = stable_sort_by_key(all, keys, true);
        let ghost sv = sorted@;
        sorted.truncate(80);
        assert(is_sorted_copy(sv, av, score_keys(av), true));
        sorted
    }

    /// Searches the notes: the full-text index's results when it found
    /// anything (`fts`, when the index could be used), else the fallback
    /// search over the authoritative notes (see `search`).
    pub fn search_content(&self, query: &str, fts: Option<Vec<SearchResult>>, notes: &Vec<Note>) -> (r:
        Result<Vec<SearchResult>, AppError>)
        ensures
            (fts matches Some(v) && v@.len() > 0) ==> r == Ok::<Vec<SearchResult>, AppError>(
                fts->0,
            ),
            !(fts matches Some(v) && v@.len() > 0) ==> (r matches Ok(v) && is_search_outcome(
                query@,
                notes@,
                v@,
            )),
    {
        match fts {
            Some(v) => {
                if v.len() > 0 {
                    return Ok(v);
                }
            },
            None => {},
        }
        search(self.data_dir.as_str(), query, notes)
    }
}

} // verus!
