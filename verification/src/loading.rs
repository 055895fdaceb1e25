//! Loading `metadata.json`: which stored metadata may be trusted, which
//! notes it yields, and the copies kept of metadata that could not be.

use vstd::prelude::*;

use crate::names::rank_keys;
use crate::notes::{note_of, validate_metadata, MetadataFile, Note, NoteMetadata, NoteStore, NoteView};
use crate::outside::{format_utc, is_hyphenated_uuid, is_utc_instant, new_uuid_v4, utc_format, utc_now};
use crate::sort::is_sorted_copy;
use crate::text::{append_str, chars_start_with, starts_with, string_from_chars, to_chars};

verus! {

/// The notes of the metadata whose files could be read: `contents[i]` is
/// the content of entry `i`'s file, or `None` when its path is not usable
/// or there is no such file. In metadata order.
pub open spec fn notes_with_content(metas: Seq<NoteMetadata>, contents: Seq<Option<String>>, n: nat) -> Seq<
    NoteView,
>
    decreases n,
{
    if n == 0 {
        seq![]
    } else {
        let prev = notes_with_content(metas, contents, (n - 1) as nat);
        match contents[n - 1] {
            Some(c) => prev.push(note_of(metas[n - 1]@, c@)),
            None => prev,
        }
    }
}

/// The notes of a list of views.
pub open spec fn notes_view(v: Seq<Note>) -> Seq<NoteView> {
    v.map_values(|n: Note| n@)
}

impl NoteStore {
    /// The notes that the metadata lists and whose files could be read (see
    /// `notes_with_content`), for indexing and search.
    pub fn notes_for_metadata(&self, metadata: &MetadataFile, contents: &Vec<Option<String>>) -> (r: Vec<
        Note,
    >)
        requires
            contents@.len() == metadata.notes@.len(),
        ensures
            notes_view(r@) == notes_with_content(metadata.notes@, contents@, metadata.notes@.len()),
    {
        let mut r: Vec<Note> = Vec::new();
        let mut i: usize = 0;
        while i < metadata.notes.len()
            invariant
                i <= metadata.notes@.len(),
                contents@.len() == metadata.notes@.len(),
                notes_view(r@) == notes_with_content(metadata.notes@, contents@, i as nat),
            decreases metadata.notes@.len() - i,
        {
            match &contents[i] {
                Some(c) => {
                    let n = Note::from_metadata(metadata.notes[i].copied(), c.clone());
                    assert(n@ == note_of(metadata.notes@[i as int]@, c@));
                    r.push(n);
                    assert(notes_view(r@) =~= notes_view(r@.drop_last()).push(r@.last()@));
                },
                None => {},
            }
            i = i + 1;
        }
        r
    }
}

/// What to do with `metadata.json`.
#[derive(Debug)]
pub enum MetadataChoice {
    /// Use the stored metadata.
    Trusted(MetadataFile),
    /// Rebuild it from the Markdown files; keep a copy of the stored file
    /// first when there was one (it was unreadable or unsafe).
    Rebuild { keep_corrupt_copy: bool },
}

impl NoteStore {
    /// Decides how `metadata.json` is loaded, given what was found: no
    /// file (`None`), a file that did not parse (`Some(None)`), or the
    /// parsed metadata. Parsed metadata is used only when every entry is
    /// safe (see `validate_metadata`); otherwise, and when it did not
    /// parse, a copy is kept and the metadata rebuilt; with no file it is
    /// simply rebuilt.
    pub fn fallback_load_from_json_or_rebuild(&self, stored: Option<Option<MetadataFile>>) -> (r:
        MetadataChoice)
        ensures
            match stored {
                None => r matches MetadataChoice::Rebuild { keep_corrupt_copy } && !keep_corrupt_copy,
                Some(None) => r matches MetadataChoice::Rebuild { keep_corrupt_copy } && keep_corrupt_copy,
                Some(Some(m)) => if forall|i: int|
                    0 <= i < m.notes@.len() ==> (#[trigger] m.notes@[i]).is_safe() {
                    r matches MetadataChoice::Trusted(t) && t == m
                } else {
                    r matches MetadataChoice::Rebuild { keep_corrupt_copy } && keep_corrupt_copy
                },
            },
    {
        match stored {
            None => MetadataChoice::Rebuild { keep_corrupt_copy: false },
            Some(None) => MetadataChoice::Rebuild { keep_corrupt_copy: true },
            Some(Some(m)) => match validate_metadata(&m) {
                Ok(()) => MetadataChoice::Trusted(m),
                Err(_) => MetadataChoice::Rebuild { keep_corrupt_copy: true },
            },
        }
    }
}

/// The name of the copy of a corrupt `metadata.json` made at the instant
/// `t` with the random id `u`.
pub open spec fn corrupt_copy_name(t: crate::time::Timestamp, u: Seq<char>) -> Seq<char> {
    "metadata.corrupt-"@ + utc_format(t.secs, t.nanos, "%Y%m%d%H%M%S"@) + "-"@ + u.take(8) + ".json"@
}

/// The name for a copy of a corrupt `metadata.json`: the current UTC time
/// to the second and eight random hexadecimal digits, so that two copies
/// in one second do not collide.
pub fn corrupt_metadata_name() -> (r: String)
    ensures
        exists|t: crate::time::Timestamp, u: Seq<char>|
            is_utc_instant(t.secs, t.nanos) && is_hyphenated_uuid(u) && r@ == #[trigger] corrupt_copy_name(
                t,
                u,
            ),
{
    let now = utc_now();
    let stamp = format_utc(now, "%Y%m%d%H%M%S");
    let id = new_uuid_v4();
    let idv = to_chars(id.as_str());
    let mut m: Vec<char> = Vec::new();
    append_str(&mut m, "metadata.corrupt-");
    append_str(&mut m, stamp.as_str());
    append_str(&mut m, "-");
    let mut k: usize = 0;
    while k < 8
        invariant
            k <= 8,
            idv@ == id@,
            idv@.len() == 36,
            m@ == "metadata.corrupt-"@ + stamp@ + "-"@ + idv@.take(k as int),
        decreases 8 - k,
    {
        m.push(idv[k]);
        k = k + 1;
        assert(idv@.take(k as int) == idv@.take(k - 1).push(idv@[k - 1]));
    }
    append_str(&mut m, ".json");
    assert(m@ == corrupt_copy_name(now, id@));
    string_from_chars(m.as_slice())
}

/// The copies of corrupt metadata among the names of the data directory.
pub open spec fn corrupt_copies(names: Seq<String>) -> Seq<String> {
    names.filter(|n: String| starts_with(n@, "metadata.corrupt-"@))
}

/// The copies of corrupt metadata to delete so that the newest five
/// remain: the copies in descending name order (names start with their
/// time), after the first five.
pub fn corrupt_copies_to_prune(names: &Vec<String>) -> (r: Vec<String>)
    requires
        names@.len() <= i64::MAX,
    ensures
        exists|sorted: Seq<String>|
            #[trigger] is_sorted_copy(sorted, corrupt_copies(names@), rank_keys(corrupt_copies(names@)), true)
                && r@ == (if sorted.len() > 5 {
                sorted.skip(5)
            } else {
                Seq::<String>::empty()
            }),
{
    let ghost all = names@;
    let prefix = to_chars("metadata.corrupt-");
    let mut copies: Vec<String> = Vec::new();
    let mut i: usize = 0;
    while i < names.len()
        invariant
            i <= names@.len(),
            all == names@,
            prefix@ == "metadata.corrupt-"@,
            copies@ == corrupt_copies(all.take(i as int)),
        decreases names@.len() - i,
    {
        proof {
            reveal_with_fuel(Seq::<_>::filter, 1);
            assert(all.take(i + 1).drop_last() == all.take(i as int));
        }
        let v = to_chars(names[i].as_str());
        if chars_start_with(v.as_slice(), prefix.as_slice()) {
            copies.push(names[i].clone());
        }
        i = i + 1;
    }
    assert(all.take(all.len() as int) == all);
    assert(copies@.len() <= all.len()) by {
        all.lemma_filter_len(|n: String| starts_with(n@, "metadata.corrupt-"@));
    }
    let ghost cv = copies@;
    let sorted = crate::names::sort_names_desc(copies);
    let ghost sv = sorted@;
    let mut r: Vec<String> = Vec::new();
    if sorted.len() <= 5 {
        return r;
    }
    let mut k: usize = 5;
    while k < sorted.len()
        invariant
            5 <= k <= sorted@.len(),
            sorted@ == sv,
            r@ == sv.subrange(5, k as int),
        decreases sorted@.len() - k,
    {
        r.push(sorted[k].clone());
        k = k + 1;
        assert(r@ =~= sv.subrange(5, k as int));
    }
    assert(sv.subrange(5, sv.len() as int) == sv.skip(5));
    r
}

} // verus!
