//! The fingerprint of the authoritative notes, stored with the full-text
//! index: when it differs from the current one, the index is rebuilt.
//!
//! It covers, note by note in id order, the metadata the index depends on
//! and the BLAKE3 hash of the Markdown file's bytes (a file edited outside
//! the notebook changes it), each piece followed by a NUL byte.

use vstd::prelude::*;
use vstd::utf8::encode_utf8;

use crate::error::{err, AppError};
use crate::names::rank_keys;
use crate::notes::{category_ok, MetadataFile, NoteMetadata, NoteStore};
use crate::outside::{blake3_hex, hash_hex, is_utc_instant, rfc3339_of, utc_instant_ok, utc_rfc3339};
use crate::paths::is_note_file_name;
use crate::sort::{is_sorted_copy, stable_sort_by_key};

verus! {

/// The bytes of one note in the fingerprint: id, title, file name,
/// category and update time (RFC 3339), then the hash of the file's bytes
/// (`<missing>` when there is no file), each followed by a NUL byte.
pub open spec fn note_part(m: NoteMetadata, content: Option<Vec<u8>>) -> Seq<u8> {
    encode_utf8(m.id@) + seq![0u8] + encode_utf8(m.title@) + seq![0u8] + encode_utf8(m.file_name@)
        + seq![0u8] + encode_utf8(m.category@) + seq![0u8] + encode_utf8(
        utc_rfc3339(m.updated_at.secs, m.updated_at.nanos),
    ) + seq![0u8] + (match content {
        Some(b) => encode_utf8(blake3_hex(b@)),
        None => encode_utf8("<missing>"@),
    }) + seq![0u8]
}

/// The bytes of the notes at the positions `order`, one after another.
pub open spec fn parts_in(order: Seq<usize>, notes: Seq<NoteMetadata>, contents: Seq<Option<Vec<u8>>>) -> Seq<
    u8,
>
    decreases order.len(),
{
    if order.len() == 0 {
        seq![]
    } else {
        parts_in(order.drop_last(), notes, contents) + note_part(
            notes[order.last() as int],
            contents[order.last() as int],
        )
    }
}

/// The ids of the notes.
pub open spec fn ids_of(notes: Seq<NoteMetadata>) -> Seq<String> {
    notes.map_values(|n: NoteMetadata| n.id)
}

/// The positions `0..n`.
pub open spec fn positions(n: nat) -> Seq<usize> {
    Seq::new(n, |i: int| i as usize)
}

/// Whether every note's update time is an instant chrono can write.
pub open spec fn times_valid(notes: Seq<NoteMetadata>) -> bool {
    forall|i: int| 0 <= i < notes.len() ==> is_utc_instant(
        #[trigger] notes[i].updated_at.secs,
        notes[i].updated_at.nanos,
    )
}

/// Whether every note's stored path can name a note file.
pub open spec fn paths_valid(notes: Seq<NoteMetadata>) -> bool {
    forall|i: int|
        0 <= i < notes.len() ==> is_note_file_name(#[trigger] notes[i].file_name@) && category_ok(
            notes[i].category@,
        )
}

fn push_bytes(out: &mut Vec<u8>, s: &str)
    ensures
        final(out)@ == old(out)@ + encode_utf8(s@),
{
    let b = s.as_bytes();
    let mut i: usize = 0;
    while i < b.len()
        invariant
            i <= b@.len(),
            b@ == encode_utf8(s@),
            out@ == old(out)@ + b@.take(i as int),
        decreases b@.len() - i,
    {
        out.push(b[i]);
        i = i + 1;
        assert(out@ =~= old(out)@ + b@.take(i as int));
    }
    assert(b@.take(b@.len() as int) == b@);
}

impl NoteStore {
    /// The fingerprint of the notes of `metadata`, given for each note (in
    /// metadata order) the bytes of its Markdown file, or `None` when the
    /// file is missing. Fails when a note's stored path cannot name a note
    /// file, or its update time cannot be written (`invalidTimestamp`).
    #[verifier::rlimit(40)]
    pub fn fts_fingerprint(&self, metadata: &MetadataFile, contents: &Vec<Option<Vec<u8>>>) -> (r: Result<
        String,
        AppError,
    >)
        requires
            contents@.len() == metadata.notes@.len(),
            metadata.notes@.len() <= i64::MAX,
        ensures
            r is Ok <==> paths_valid(metadata.notes@) && times_valid(metadata.notes@),
            !paths_valid(metadata.notes@) ==> (r matches Err(e) && (e.code@ == "unsafePath"@
                || e.code@ == "categoryNameInvalidChars"@)),
            paths_valid(metadata.notes@) && !times_valid(metadata.notes@) ==> (r matches Err(e)
                && e.code@ == "invalidTimestamp"@),
            r matches Ok(f) ==> exists|order: Seq<usize>|
                #[trigger] is_sorted_copy(
                    order,
                    positions(metadata.notes@.len()),
                    rank_keys(ids_of(metadata.notes@)),
                    false,
                ) && f@ == blake3_hex(parts_in(order, metadata.notes@, contents@)),
    {
        let notes = &metadata.notes;
        let n = notes.len();
        let mut i: usize = 0;
        while i < n
            invariant
                i <= n,
                n == notes@.len(),
                notes@ == metadata.notes@,
                forall|k: int|
                    0 <= k < i ==> is_note_file_name(#[trigger] notes@[k].file_name@) && category_ok(
                        notes@[k].category@,
                    ),
            decreases n - i,
        {
            match self.note_path_in_category(notes[i].file_name.as_str(), notes[i].category.as_str()) {
                Err(e) => {
                    return Err(e);
                },
                Ok(_) => {},
            }
            i = i + 1;
        }
        assert(paths_valid(notes@));
        let mut i: usize = 0;
        while i < n
            invariant
                i <= n,
                n == notes@.len(),
                notes@ == metadata.notes@,
                paths_valid(notes@),
                forall|k: int|
                    0 <= k < i ==> is_utc_instant(
                        #[trigger] notes@[k].updated_at.secs,
                        notes@[k].updated_at.nanos,
                    ),
            decreases n - i,
        {
            if !utc_instant_ok(notes[i].updated_at) {
                return Err(err("invalidTimestamp", "笔记时间无效"));
            }
            i = i + 1;
        }
        assert(times_valid(notes@));
        let ghost ids = ids_of(notes@);
        let mut keys: Vec<(i64, i64)> = Vec::new();
        let mut idx: Vec<usize> = Vec::new();
        let mut j: usize = 0;
        while j < n
            invariant
                j <= n,
                n == notes@.len(),
                n <= i64::MAX,
                ids == ids_of(notes@),
                keys@ == rank_keys(ids).take(j as int),
                idx@ == positions(n as nat).take(j as int),
            decreases n - j,
        {
            let mut count: usize = 0;
            let mut k: usize = 0;
            while k < n
                invariant
                    k <= n,
                    j < n,
                    n == notes@.len(),
                    ids == ids_of(notes@),
                    count == ids.take(k as int).filter(|m: String| crate::names::lex_lt(m@, ids[j as int]@)).len(),
                    count <= k,
                decreases n - k,
            {
                proof {
                    reveal_with_fuel(Seq::<_>::filter, 1);
                    assert(ids.take(k + 1).drop_last() == ids.take(k as int));
                }
                let a = crate::text::to_chars(notes[k].id.as_str());
                let b = crate::text::to_chars(notes[j].id.as_str());
                if crate::names::str_lt(a.as_slice(), b.as_slice()) {
                    count = count + 1;
                }
                k = k + 1;
            }
            assert(ids.take(n as int) == ids);
            keys.push((count as i64, 0i64));
            idx.push(j);
            j = j + 1;
            assert(keys@ =~= rank_keys(ids).take(j as int));
            assert(idx@ =~= positions(n as nat).take(j as int));
        }
        assert(rank_keys(ids).take(n as int) == rank_keys(ids));
        assert(positions(n as nat).take(n as int) == positions(n as nat));
        let (order, _perm) = stable_sort_by_key(idx, keys, false);
        let ghost ov = order@;
        assert forall|k: int| 0 <= k < ov.len() implies #[trigger] ov[k] < n by {
            let p = choose|perm: Seq<int>|
                #[trigger] crate::sort::is_stable_order(rank_keys(ids), perm, false) && forall|q: int|
                    0 <= q < ov.len() ==> #[trigger] ov[q] == positions(n as nat)[perm[q]];
            assert(ov[k] == positions(n as nat)[p[k]]);
        }
        let mut bytes: Vec<u8> = Vec::new();
        let mut t: usize = 0;
        while t < order.len()
            invariant
                t <= order@.len(),
                order@ == ov,
                n == notes@.len(),
                contents@.len() == n,
                forall|k: int| 0 <= k < ov.len() ==> #[trigger] ov[k] < n,
                times_valid(notes@),
                bytes@ == parts_in(ov.take(t as int), notes@, contents@),
            decreases order@.len() - t,
        {
            let p = order[t];
            assert(ov.take(t + 1).drop_last() == ov.take(t as int));
            let m = &notes[p];
            let ghost before = bytes@;
            push_bytes(&mut bytes, m.id.as_str());
            bytes.push(0u8);
            push_bytes(&mut bytes, m.title.as_str());
            bytes.push(0u8);
            push_bytes(&mut bytes, m.file_name.as_str());
            bytes.push(0u8);
            push_bytes(&mut bytes, m.category.as_str());
            bytes.push(0u8);
            assert(is_utc_instant(notes@[p as int].updated_at.secs, notes@[p as int].updated_at.nanos));
            let stamp = rfc3339_of(m.updated_at);
            push_bytes(&mut bytes, stamp.as_str());
            bytes.push(0u8);
            match &contents[p] {
                Some(b) => {
                    let h = hash_hex(b.as_slice());
                    push_bytes(&mut bytes, h.as_str());
                },
                None => {
                    push_bytes(&mut bytes, "<missing>");
                },
            }
            bytes.push(0u8);
            assert(bytes@ =~= before + note_part(notes@[p as int], contents@[p as int]));
            t = t + 1;
        }
        assert(ov.take(ov.len() as int) == ov);
        Ok(hash_hex(bytes.as_slice()))
    }
}

} // verus!
