//! Rebuilding and repairing `metadata.json` from the Markdown files.
//!
//! The Markdown files are the last authority on which notes exist. A scan
//! of the notes directory yields an entry for every Markdown file that
//! names a note id; reconciling merges the scan into the metadata without
//! losing what only the metadata knows (tags, pinning, creation time), and
//! drops entries whose file is gone.

use vstd::prelude::*;

use crate::error::AppError;
use crate::notes::{
    category_ok, count_non_ws, count_words, first_index_of, find_char, id_from_file_name,
    id_from_name, infer_title, inferred_title, metas_view, note_path, preview, preview_of,
    strings_view, take_chars, MetaView, MetadataFile, NoteMetadata, NoteStore,
};
use crate::paths::{extension_of, file_extension, is_note_file_name};
use crate::text::{chars_eq, str_eq, string_from_chars, to_chars};
use crate::time::Timestamp;

verus! {

/// The entry that a scanned Markdown file yields: its id, the title found
/// in it, its file name and category, its modification time as creation
/// and update time, its word count and preview; no tags, not pinned.
pub open spec fn scanned_meta(
    category: Seq<char>,
    name: Seq<char>,
    content: Seq<char>,
    modified: Timestamp,
    id: Seq<char>,
) -> MetaView {
    MetaView {
        id,
        title: inferred_title(name, content),
        file_name: name,
        category,
        created_at: modified,
        updated_at: modified,
        word_count: count_non_ws(content) as usize,
        preview: preview_of(content),
        tags: seq![],
        pinned: false,
    }
}

/// Whether an entry of `v` has the id `id`.
pub open spec fn has_id(v: Seq<MetaView>, id: Seq<char>) -> bool {
    exists|i: int| 0 <= i < v.len() && #[trigger] v[i].id == id
}

/// A file found in the notes directory: its category (the first-level
/// directory it lies under, empty at the top), name, content (empty when
/// unreadable) and modification time.
pub type ScannedFile = (String, String, String, Timestamp);

/// The entries that scanned files yield, in scan order: a Markdown file
/// whose name gives a note id yields one, unless an earlier file gave the
/// same id (so that two files never claim one note).
pub open spec fn scan_of(files: Seq<ScannedFile>) -> Seq<MetaView>
    decreases files.len(),
{
    if files.len() == 0 {
        seq![]
    } else {
        let prev = scan_of(files.drop_last());
        let f = files.last();
        if extension_of(f.1@) == Some("md"@) {
            match id_from_name(f.1@) {
                Some(id) => if has_id(prev, id) {
                    prev
                } else {
                    prev.push(scanned_meta(f.0@, f.1@, f.2@, f.3, id))
                },
                None => prev,
            }
        } else {
            prev
        }
    }
}

/// The entries that scanned files yield (see `scan_of`).
pub fn scan_notes(files: &Vec<ScannedFile>) -> (r: Vec<NoteMetadata>)
    ensures
        metas_view(r@) == scan_of(files@),
{
    let md = to_chars("md");
    let mut r: Vec<NoteMetadata> = Vec::new();
    let mut i: usize = 0;
    while i < files.len()
        invariant
            i <= files@.len(),
            md@ == "md"@,
            metas_view(r@) == scan_of(files@.take(i as int)),
        decreases files@.len() - i,
    {
        assert(files@.take(i + 1).drop_last() == files@.take(i as int));
        let ghost prev = metas_view(r@);
        let name = to_chars(files[i].1.as_str());
        let is_md = match file_extension(name.as_slice()) {
            Some(e) => chars_eq(e.as_slice(), md.as_slice()),
            None => false,
        };
        if is_md {
            match id_from_file_name(files[i].1.as_str()) {
                Some(id) => {
                    let mut seen = false;
                    let mut k: usize = 0;
                    while k < r.len()
                        invariant
                            k <= r@.len(),
                            prev == metas_view(r@),
                            seen == exists|j: int| 0 <= j < k && #[trigger] prev[j].id == id@,
                        decreases r@.len() - k,
                    {
                        assert(prev[k as int].id == r@[k as int].id@);
                        if str_eq(r[k].id.as_str(), id.as_str()) {
                            seen = true;
                        }
                        k = k + 1;
                    }
                    assert(seen == has_id(prev, id@));
                    if !seen {
                        let content = files[i].2.as_str();
                        let m = NoteMetadata {
                            id,
                            title: infer_title(files[i].1.as_str(), content),
                            file_name: files[i].1.clone(),
                            category: files[i].0.clone(),
                            created_at: files[i].3,
                            updated_at: files[i].3,
                            word_count: count_words(content),
                            preview: preview(content),
                            tags: Vec::new(),
                            pinned: false,
                        };
                        let ghost f = files@[i as int];
                        assert(strings_view(m.tags@) =~= Seq::<Seq<char>>::empty());
                        assert(m@ == scanned_meta(f.0@, f.1@, f.2@, f.3, m.id@));
                        r.push(m);
                        assert(metas_view(r@) =~= prev.push(r@.last()@));
                    }
                },
                None => {},
            }
        }
        i = i + 1;
    }
    assert(files@.take(files@.len() as int) == files@);
    r
}

/// The id that an older version gave a note whose file is `file_name`:
/// the part before the first `_`.
pub open spec fn legacy_prefix(file_name: Seq<char>) -> Option<Seq<char>> {
    match first_index_of(file_name, '_') {
        Some(k) => Some(file_name.take(k)),
        None => None,
    }
}

/// Whether the entry `m` is the one a scanned entry `s` stands for: the
/// same id, or the older id with the same file name.
pub open spec fn matches_scanned(m: MetaView, s: MetaView) -> bool {
    m.id == s.id || (legacy_prefix(s.file_name) matches Some(p) && m.id == p && m.file_name
        == s.file_name)
}

/// The first entry of `metas` that `s` stands for.
pub open spec fn first_match(metas: Seq<MetaView>, s: MetaView) -> Option<int> {
    if exists|i: int| 0 <= i < metas.len() && #[trigger] matches_scanned(metas[i], s) {
        Some(
            choose|i: int|
                0 <= i < metas.len() && #[trigger] matches_scanned(metas[i], s) && forall|j: int|
                    0 <= j < i ==> !matches_scanned(#[trigger] metas[j], s),
        )
    } else {
        None
    }
}

/// Whether the file of entry `m` is among the existing `files` (a stored
/// path that cannot name a note file is not).
pub open spec fn file_present(data_dir: Seq<char>, m: MetaView, files: Seq<Seq<char>>) -> bool {
    is_note_file_name(m.file_name) && category_ok(m.category) && files.contains(
        note_path(data_dir, m.file_name, m.category),
    )
}

/// The scanned entry `s` with what only the metadata knew of `e`: its
/// tags, pinning and creation time.
pub open spec fn rescanned(e: MetaView, s: MetaView) -> MetaView {
    MetaView { tags: e.tags, pinned: e.pinned, created_at: e.created_at, ..s }
}

/// One scanned entry merged into the metadata: an entry it stands for
/// whose file still exists stays; one whose file is gone is replaced by
/// the scan (see `rescanned`); with no such entry the scan is added.
/// `None` when the entry's stored path cannot name a note file.
pub open spec fn reconcile_one(
    data_dir: Seq<char>,
    metas: Seq<MetaView>,
    s: MetaView,
    files: Seq<Seq<char>>,
) -> Option<(Seq<MetaView>, bool)> {
    match first_match(metas, s) {
        Some(i) => {
            let e = metas[i];
            if !(is_note_file_name(e.file_name) && category_ok(e.category)) {
                None
            } else if files.contains(note_path(data_dir, e.file_name, e.category)) {
                Some((metas, false))
            } else {
                Some((metas.update(i, rescanned(e, s)), true))
            }
        },
        None => Some((metas.push(s), true)),
    }
}

/// All scanned entries merged into the metadata, in scan order, and
/// whether anything changed.
pub open spec fn reconcile_all(
    data_dir: Seq<char>,
    metas: Seq<MetaView>,
    scanned: Seq<MetaView>,
    files: Seq<Seq<char>>,
) -> Option<(Seq<MetaView>, bool)>
    decreases scanned.len(),
{
    if scanned.len() == 0 {
        Some((metas, false))
    } else {
        match reconcile_all(data_dir, metas, scanned.drop_last(), files) {
            None => None,
            Some((m, c)) => match reconcile_one(data_dir, m, scanned.last(), files) {
                None => None,
                Some((m2, c2)) => Some((m2, c || c2)),
            },
        }
    }
}

/// The test for an entry to stay: its file exists.
pub open spec fn present_in(data_dir: Seq<char>, files: Seq<Seq<char>>) -> spec_fn(MetaView) -> bool {
    |m: MetaView| file_present(data_dir, m, files)
}

/// The reconciled metadata, and whether it changed: the merge of the scan,
/// then only the entries whose file exists.
pub open spec fn reconciled(
    data_dir: Seq<char>,
    metas: Seq<MetaView>,
    scanned: Seq<MetaView>,
    files: Seq<Seq<char>>,
) -> Option<(Seq<MetaView>, bool)> {
    match reconcile_all(data_dir, metas, scanned, files) {
        None => None,
        Some((m, c)) => {
            let kept = m.filter(present_in(data_dir, files));
            Some((kept, c || kept.len() != m.len()))
        },
    }
}

proof fn lemma_first_match(metas: Seq<MetaView>, s: MetaView, i: int)
    requires
        0 <= i < metas.len(),
        matches_scanned(metas[i], s),
        forall|j: int| 0 <= j < i ==> !matches_scanned(#[trigger] metas[j], s),
    ensures
        first_match(metas, s) == Some(i),
{
    let c = choose|c: int|
        0 <= c < metas.len() && #[trigger] matches_scanned(metas[c], s) && forall|j: int|
            0 <= j < c ==> !matches_scanned(#[trigger] metas[j], s);
    assert(0 <= c < metas.len() && matches_scanned(metas[c], s) && forall|j: int|
        0 <= j < c ==> !matches_scanned(#[trigger] metas[j], s));
    if c < i {
        assert(!matches_scanned(metas[c], s));
    } else if c > i {
        assert(!matches_scanned(metas[i], s));
    }
}

fn legacy_id(file_name: &str) -> (r: Option<String>)
    ensures
        match r {
            Some(p) => legacy_prefix(file_name@) == Some(p@),
            None => legacy_prefix(file_name@) is None,
        },
{
    let v = to_chars(file_name);
    match find_char(v.as_slice(), '_') {
        Some(k) => Some(string_from_chars(take_chars(v.as_slice(), k).as_slice())),
        None => None,
    }
}

fn contains_path(files: &Vec<String>, p: &str) -> (r: bool)
    ensures
        r == strings_view(files@).contains(p@),
{
    let mut i: usize = 0;
    while i < files.len()
        invariant
            i <= files@.len(),
            forall|k: int| 0 <= k < i ==> #[trigger] files@[k]@ != p@,
        decreases files@.len() - i,
    {
        if str_eq(files[i].as_str(), p) {
            assert(strings_view(files@)[i as int] == p@);
            return true;
        }
        i = i + 1;
    }
    assert(!strings_view(files@).contains(p@)) by {
        if strings_view(files@).contains(p@) {
            let k = choose|k: int| 0 <= k < strings_view(files@).len() && strings_view(files@)[k] == p@;
            assert(files@[k]@ == p@);
        }
    }
    false
}

fn rescanned_exec(e: &NoteMetadata, s: &NoteMetadata) -> (r: NoteMetadata)
    ensures
        r@ == rescanned(e@, s@),
{
    NoteMetadata {
        id: s.id.clone(),
        title: s.title.clone(),
        file_name: s.file_name.clone(),
        category: s.category.clone(),
        created_at: e.created_at,
        updated_at: s.updated_at,
        word_count: s.word_count,
        preview: s.preview.clone(),
        tags: crate::notes::copy_strings(&e.tags),
        pinned: e.pinned,
    }
}

fn copy_metas(v: &Vec<NoteMetadata>) -> (r: Vec<NoteMetadata>)
    ensures
        metas_view(r@) == metas_view(v@),
{
    let mut r: Vec<NoteMetadata> = Vec::new();
    let mut i: usize = 0;
    while i < v.len()
        invariant
            i <= v@.len(),
            metas_view(r@) == metas_view(v@.take(i as int)),
        decreases v@.len() - i,
    {
        let ghost prev = metas_view(r@);
        r.push(v[i].copied());
        assert(metas_view(r@) =~= prev.push(v@[i as int]@));
        assert(v@.take(i + 1) == v@.take(i as int).push(v@[i as int]));
        assert(metas_view(v@.take(i + 1)) =~= metas_view(v@.take(i as int)).push(v@[i as int]@));
        i = i + 1;
    }
    assert(v@.take(v@.len() as int) == v@);
    r
}

impl MetadataFile {
    /// Merges a scan of the notes directory (`scanned`, as `scan_notes`
    /// gives it) into the metadata, given the paths of the files that
    /// exist under the notes directory, and says whether anything changed
    /// (see `reconciled`). Fails, leaving the metadata as it was, when an
    /// entry that a scanned file stands for has a stored path that cannot
    /// name a note file.
    #[verifier::rlimit(40)]
    pub fn reconcile_with_files(
        &mut self,
        store: &NoteStore,
        scanned: &Vec<NoteMetadata>,
        files: &Vec<String>,
    ) -> (r: Result<bool, AppError>)
        ensures
            match reconciled(
                store.data_dir@,
                metas_view(old(self).notes@),
                metas_view(scanned@),
                strings_view(files@),
            ) {
                None => r is Err && final(self).notes@ == old(self).notes@,
                Some((m, c)) => r == Ok::<bool, AppError>(c) && metas_view(final(self).notes@) == m,
            },
            r matches Err(e) ==> e.code@ == "unsafePath"@ || e.code@ == "categoryNameInvalidChars"@,
    {
        let ghost dd = store.data_dir@;
        let ghost fv = strings_view(files@);
        let ghost sv = metas_view(scanned@);
        let ghost start = metas_view(self.notes@);
        let mut metas = copy_metas(&self.notes);
        let mut changed = false;
        let mut k: usize = 0;
        assert(sv.take(0) == Seq::<MetaView>::empty());
        while k < scanned.len()
            invariant
                k <= scanned@.len(),
                dd == store.data_dir@,
                fv == strings_view(files@),
                sv == metas_view(scanned@),
                start == metas_view(self.notes@),
                reconcile_all(dd, start, sv.take(k as int), fv) == Some((metas_view(metas@), changed)),
            decreases scanned@.len() - k,
        {
            assert(sv.take(k + 1).drop_last() == sv.take(k as int));
            let ghost before = metas_view(metas@);
            let s = &scanned[k];
            let ghost s_v = sv[k as int];
            assert(s@ == s_v);
            let legacy = legacy_id(s.file_name.as_str());
            let mut found: Option<usize> = None;
            let mut i: usize = 0;
            while i < metas.len()
                invariant
                    i <= metas@.len(),
                    before == metas_view(metas@),
                    s@ == s_v,
                    match legacy {
                        Some(p) => legacy_prefix(s_v.file_name) == Some(p@),
                        None => legacy_prefix(s_v.file_name) is None,
                    },
                    match found {
                        Some(f) => f < metas@.len() && matches_scanned(before[f as int], s_v)
                            && forall|j: int| 0 <= j < f ==> !matches_scanned(#[trigger] before[j], s_v),
                        None => forall|j: int| 0 <= j < i ==> !matches_scanned(#[trigger] before[j], s_v),
                    },
                decreases metas@.len() - i,
            {
                if found.is_none() {
                    let m = &metas[i];
                    let same_id = str_eq(m.id.as_str(), s.id.as_str());
                    let legacy_hit = match &legacy {
                        Some(p) => str_eq(m.id.as_str(), p.as_str()) && str_eq(
                            m.file_name.as_str(),
                            s.file_name.as_str(),
                        ),
                        None => false,
                    };
                    assert(before[i as int] == metas@[i as int]@);
                    if same_id || legacy_hit {
                        found = Some(i);
                    }
                }
                i = i + 1;
            }
            match found {
                Some(f) => {
                    proof {
                        lemma_first_match(before, s_v, f as int);
                    }
                    let path = match store.note_path_in_category(
                        metas[f].file_name.as_str(),
                        metas[f].category.as_str(),
                    ) {
                        Err(e) => {
                            assert(reconcile_one(dd, before, s_v, fv) is None);
                            assert(reconcile_all(dd, start, sv.take(k + 1), fv) is None);
                            proof {
                                lemma_reconcile_all_none(dd, start, sv, fv, k + 1);
                            }
                            return Err(e);
                        },
                        Ok(p) => p,
                    };
                    if !contains_path(files, path.as_str()) {
                        let replaced = rescanned_exec(&metas[f], s);
                        metas.set(f, replaced);
                        changed = true;
                        assert(metas_view(metas@) =~= before.update(
                            f as int,
                            rescanned(before[f as int], s_v),
                        ));
                    }
                },
                None => {
                    metas.push(s.copied());
                    changed = true;
                    assert(metas_view(metas@) =~= before.push(s_v));
                },
            }
            k = k + 1;
        }
        assert(sv.take(sv.len() as int) == sv);
        let ghost merged = metas_view(metas@);
        let mut kept: Vec<NoteMetadata> = Vec::new();
        let mut j: usize = 0;
        while j < metas.len()
            invariant
                j <= metas@.len(),
                dd == store.data_dir@,
                fv == strings_view(files@),
                merged == metas_view(metas@),
                metas_view(kept@) == merged.take(j as int).filter(present_in(dd, fv)),
                kept@.len() <= j,
            decreases metas@.len() - j,
        {
            proof {
                reveal_with_fuel(Seq::<_>::filter, 1);
                assert(merged.take(j + 1).drop_last() == merged.take(j as int));
            }
            assert(merged[j as int] == metas@[j as int]@);
            let keep = match store.note_path_in_category(
                metas[j].file_name.as_str(),
                metas[j].category.as_str(),
            ) {
                Ok(p) => contains_path(files, p.as_str()),
                Err(_) => false,
            };
            if keep {
                kept.push(metas[j].copied());
                assert(metas_view(kept@) =~= metas_view(kept@.drop_last()).push(
                    kept@.last()@,
                ));
            }
            j = j + 1;
        }
        assert(merged.take(merged.len() as int) == merged);
        if kept.len() != metas.len() {
            changed = true;
        }
        self.notes = kept;
        Ok(changed)
    }
}

/// Once the merge fails, merging more scanned entries fails too.
proof fn lemma_reconcile_all_none(
    data_dir: Seq<char>,
    metas: Seq<MetaView>,
    scanned: Seq<MetaView>,
    files: Seq<Seq<char>>,
    k: int,
)
    requires
        0 <= k <= scanned.len(),
        reconcile_all(data_dir, metas, scanned.take(k), files) is None,
    ensures
        reconcile_all(data_dir, metas, scanned, files) is None,
    decreases scanned.len() - k,
{
    if k < scanned.len() {
        assert(scanned.take(k + 1).drop_last() == scanned.take(k));
        lemma_reconcile_all_none(data_dir, metas, scanned, files, k + 1);
    } else {
        assert(scanned.take(k) == scanned);
    }
}

} // verus!
