//! Earlier contents of notes, kept under `history/<note id>/` as Markdown
//! files named by the time they were saved. A new version is stored only
//! when no kept version has the same content, and the 20 newest remain.

use vstd::prelude::*;
use vstd::utf8::encode_utf8;

use crate::error::{err, AppError};
use crate::notes::{preview, preview_of, NoteStore, NoteVersion};
use crate::names::{lex_lt, rank_keys, str_lt};
use crate::sort::is_sorted_copy;
use crate::outside::{blake3_hex, hash_hex, format_utc, is_hyphenated_uuid, is_utc_instant, new_uuid_v4, utc_format, utc_now};
use crate::paths::{extension_of, file_extension, join_path, path_join, stem_of};
use crate::text::{append_str, chars_eq, str_eq, string_from_chars, to_chars};
use crate::time::Timestamp;

verus! {

/// The instant that `NaiveDateTime::parse_from_str(s, "%Y%m%dT%H%M%S%.fZ")`
/// reads from `s`, taken as UTC, as seconds and nanoseconds; `None` when
/// chrono does not accept `s`.
pub uninterp spec fn version_time_of(s: Seq<char>) -> Option<(i64, u32)>;

/// `chrono::NaiveDateTime::parse_from_str(s, "%Y%m%dT%H%M%S%.fZ")`, then
/// `and_utc()`: the instant a version's name starts with.
#[verifier::external_body]
fn parse_version_time(s: &str) -> (r: Option<(i64, u32)>)
    ensures
        r == version_time_of(s@),
{
    match chrono::NaiveDateTime::parse_from_str(s, "%Y%m%dT%H%M%S%.fZ") {
        Ok(t) => {
            let u = t.and_utc();
            Some((u.timestamp(), u.timestamp_subsec_nanos()))
        },
        Err(_) => None,
    }
}

/// The BLAKE3 hash of a text's UTF-8 bytes, in hexadecimal.
pub open spec fn text_hash(s: Seq<char>) -> Seq<char> {
    blake3_hex(encode_utf8(s))
}

fn content_hash(s: &str) -> (r: String)
    ensures
        r@ == text_hash(s@),
{
    hash_hex(s.as_bytes())
}

/// The part of a version id before its first `-`.
pub open spec fn version_base(id: Seq<char>) -> Seq<char> {
    if id.contains('-') {
        id.take(first_dash(id))
    } else {
        id
    }
}

/// The position of the first `-` of `id`.
pub open spec fn first_dash(id: Seq<char>) -> int {
    choose|k: int| 0 <= k < id.len() && id[k] == '-' && !id.take(k).contains('-')
}

/// Whether `c` is an ASCII hexadecimal digit.
pub open spec fn is_hex_digit(c: char) -> bool {
    ('0' <= c && c <= '9') || ('a' <= c && c <= 'f') || ('A' <= c && c <= 'F')
}

/// Whether the part of a version id after its first `-`, if any, is eight
/// hexadecimal digits with no further `-`.
pub open spec fn version_suffix_ok(id: Seq<char>) -> bool {
    !id.contains('-') || {
        let rest = id.skip(first_dash(id) + 1);
        &&& rest.len() == 8
        &&& forall|i: int| 0 <= i < 8 ==> is_hex_digit(#[trigger] rest[i])
    }
}

/// Whether a version id names a version: a time, optionally followed by
/// `-` and eight hexadecimal digits. Nothing else (no separator, no `..`)
/// can pass.
pub open spec fn is_version_id(id: Seq<char>) -> bool {
    version_time_of(version_base(id)) is Some && version_suffix_ok(id)
}

fn find_dash(v: &[char]) -> (r: Option<usize>)
    ensures
        match r {
            Some(k) => k < v@.len() && v@[k as int] == '-' && !v@.take(k as int).contains('-'),
            None => !v@.contains('-'),
        },
{
    let mut k: usize = 0;
    while k < v.len()
        invariant
            k <= v@.len(),
            forall|j: int| 0 <= j < k ==> v@[j] != '-',
        decreases v@.len() - k,
    {
        if v[k] == '-' {
            assert(!v@.take(k as int).contains('-')) by {
                if v@.take(k as int).contains('-') {
                    let j = choose|j: int| 0 <= j < k && v@.take(k as int)[j] == '-';
                    assert(v@[j] == '-');
                }
            }
            return Some(k);
        }
        k = k + 1;
    }
    assert(!v@.contains('-')) by {
        if v@.contains('-') {
            let j = choose|j: int| 0 <= j < v@.len() && v@[j] == '-';
            assert(v@[j] == '-');
        }
    }
    None
}

proof fn lemma_first_dash(v: Seq<char>, k: int)
    requires
        0 <= k < v.len(),
        v[k] == '-',
        !v.take(k).contains('-'),
    ensures
        first_dash(v) == k,
{
    let c = first_dash(v);
    assert(0 <= c < v.len() && v[c] == '-' && !v.take(c).contains('-'));
    if c < k {
        assert(v.take(k)[c] == '-');
    } else if c > k {
        assert(v.take(c)[k] == '-');
    }
}

fn eight_hex_digits(rest: &[char]) -> (r: bool)
    ensures
        r == (rest@.len() == 8 && forall|i: int| 0 <= i < 8 ==> is_hex_digit(#[trigger] rest@[i])),
{
    if rest.len() != 8 {
        return false;
    }
    let mut i: usize = 0;
    while i < 8
        invariant
            i <= 8,
            rest@.len() == 8,
            forall|j: int| 0 <= j < i ==> is_hex_digit(#[trigger] rest@[j]),
        decreases 8 - i,
    {
        let c = rest[i];
        if !(('0' <= c && c <= '9') || ('a' <= c && c <= 'f') || ('A' <= c && c <= 'F')) {
            assert(!is_hex_digit(rest@[i as int]));
            return false;
        }
        i = i + 1;
    }
    true
}

/// Whether `id` names a version.
pub fn version_id_ok(id: &str) -> (r: bool)
    ensures
        r == is_version_id(id@),
{
    let v = to_chars(id);
    match find_dash(v.as_slice()) {
        None => {
            let t = parse_version_time(id);
            t.is_some()
        },
        Some(k) => {
            proof {
                lemma_first_dash(v@, k as int);
            }
            let base = string_from_chars(crate::text::slice_chars(v.as_slice(), 0, k).as_slice());
            assert(base@ == v@.take(k as int));
            let t = parse_version_time(base.as_str());
            if t.is_none() {
                return false;
            }
            assert(k < v.len());
            let rest = crate::text::slice_chars(v.as_slice(), k + 1, v.len());
            assert(rest@ == v@.skip(k + 1));
            eight_hex_digits(rest.as_slice())
        },
    }
}

impl NoteStore {
    /// The file of version `version_id` of note `note_id`:
    /// `history/<note id>/<version id>.md`. A version id that is not a
    /// time, optionally with `-` and eight hexadecimal digits, is refused
    /// with `noteVersionNotFound`; an unusable note id after that.
    pub fn note_version_path(&self, note_id: &str, version_id: &str) -> (r: Result<String, AppError>)
        ensures
            !is_version_id(version_id@) ==> (r matches Err(e) && e.wf() && e.code@
                == "noteVersionNotFound"@ && e.message@ == "找不到该历史版本"@),
            is_version_id(version_id@) ==> (r is Ok <==> crate::paths::is_safe_component(note_id@)),
            r matches Ok(p) ==> p@ == path_join(
                path_join(path_join(self.data_dir@, "history"@), note_id@),
                version_id@ + ".md"@,
            ),
            is_version_id(version_id@) ==> (r matches Err(e) ==> e.code@ == "invalidNoteId"@),
    {
        if !version_id_ok(version_id) {
            return Err(err("noteVersionNotFound", "找不到该历史版本"));
        }
        let dir = match self.note_history_dir(note_id) {
            Err(e) => {
                return Err(e);
            },
            Ok(d) => d,
        };
        let mut f: Vec<char> = Vec::new();
        append_str(&mut f, version_id);
        append_str(&mut f, ".md");
        let name = string_from_chars(f.as_slice());
        Ok(join_path(dir.as_str(), name.as_str()))
    }
}

/// The version that a history file yields, if any: a Markdown file whose
/// stem starts with a time (up to its first `-`) and whose content could
/// be read; its id is the stem.
pub open spec fn version_of_file(name: Seq<char>, content: Option<String>) -> Option<
    (Seq<char>, Timestamp, Seq<char>),
> {
    if extension_of(name) == Some("md"@) {
        let stem = stem_of(name);
        match (version_time_of(version_base(stem)), content) {
            (Some((s, n)), Some(c)) => Some((stem, Timestamp { secs: s, nanos: n }, preview_of(c@))),
            _ => None,
        }
    } else {
        None
    }
}

/// The versions that history files yield, in file order.
pub open spec fn versions_of_files(files: Seq<(String, Option<String>)>) -> Seq<
    (Seq<char>, Timestamp, Seq<char>),
>
    decreases files.len(),
{
    if files.len() == 0 {
        seq![]
    } else {
        let prev = versions_of_files(files.drop_last());
        match version_of_file(files.last().0@, files.last().1) {
            Some(v) => prev.push(v),
            None => prev,
        }
    }
}

/// A version as plain values.
pub open spec fn version_view(v: NoteVersion) -> (Seq<char>, Timestamp, Seq<char>) {
    (v.id@, v.created_at, v.preview@)
}

/// The versions as plain values.
pub open spec fn versions_view(v: Seq<NoteVersion>) -> Seq<(Seq<char>, Timestamp, Seq<char>)> {
    v.map_values(|x: NoteVersion| version_view(x))
}

/// The sort keys of versions: their times.
pub open spec fn version_keys(v: Seq<(Seq<char>, Timestamp, Seq<char>)>) -> Seq<(i64, i64)> {
    v.map_values(|x: (Seq<char>, Timestamp, Seq<char>)| x.1.key())
}

fn version_stem(name: &[char]) -> (r: Vec<char>)
    requires
        extension_of(name@) is Some,
    ensures
        r@ == stem_of(name@),
{
    match crate::paths::find_last_dot(name) {
        None => {
            let mut r: Vec<char> = Vec::new();
            crate::text::append_chars(&mut r, name);
            r
        },
        Some(i) => {
            if i == 0 {
                let mut r: Vec<char> = Vec::new();
                crate::text::append_chars(&mut r, name);
                r
            } else {
                crate::text::slice_chars(name, 0, i)
            }
        },
    }
}

impl NoteStore {
    /// The versions of a note from the files of its history directory
    /// (name, and content when it could be read): those that
    /// `version_of_file` accepts, newest first, versions of the same
    /// instant in file order. The caller has found the note first.
    pub fn list_note_versions(&self, files: &Vec<(String, Option<String>)>) -> (r: Vec<NoteVersion>)
        ensures
            exists|found: Seq<NoteVersion>|
                #[trigger] crate::sort::is_sorted_copy(
                    r@,
                    found,
                    version_keys(versions_view(found)),
                    true,
                ) && versions_view(found) == versions_of_files(files@),
    {
        let mut found: Vec<NoteVersion> = Vec::new();
        let mut keys: Vec<(i64, i64)> = Vec::new();
        let md = to_chars("md");
        let mut i: usize = 0;
        while i < files.len()
            invariant
                i <= files@.len(),
                md@ == "md"@,
                versions_view(found@) == versions_of_files(
                    files@.take(i as int),
                ),
                keys@ == version_keys(versions_view(found@)),
            decreases files@.len() - i,
        {
            assert(files@.take(i + 1).drop_last() == files@.take(i as int));
            let name = to_chars(files[i].0.as_str());
            let is_md = match file_extension(name.as_slice()) {
                Some(e) => chars_eq(e.as_slice(), md.as_slice()),
                None => false,
            };
            if is_md {
                let stem = version_stem(name.as_slice());
                let sv = to_chars(string_from_chars(stem.as_slice()).as_str());
                let base = match find_dash(sv.as_slice()) {
                    None => string_from_chars(sv.as_slice()),
                    Some(k) => {
                        proof {
                            lemma_first_dash(sv@, k as int);
                        }
                        string_from_chars(crate::text::slice_chars(sv.as_slice(), 0, k).as_slice())
                    },
                };
                assert(base@ == version_base(stem@));
                match (parse_version_time(base.as_str()), &files[i].1) {
                    (Some((s, n)), Some(c)) => {
                        let created_at = Timestamp { secs: s, nanos: n };
                        let v = NoteVersion {
                            id: string_from_chars(stem.as_slice()),
                            created_at,
                            preview: preview(c.as_str()),
                        };
                        keys.push(created_at.sort_key());
                        found.push(v);
                        assert(versions_view(found@) =~= versions_view(found@.drop_last()).push(
                            version_view(found@.last()),
                        ));
                    },
                    _ => {},
                }
            }
            i = i + 1;
        }
        assert(files@.take(files@.len() as int) == files@);
        let ghost fv = found@;
        let (sorted, _perm) = crate::sort::stable_sort_by_key(found, keys, true);
        assert(crate::sort::is_sorted_copy(
            sorted@,
            fv,
            version_keys(versions_view(fv)),
            true,
        ));
        sorted
    }
}

/// The number of versions kept for a note.
pub open spec fn history_limit() -> nat {
    20
}

/// The Markdown files among history file names.
pub open spec fn md_files(names: Seq<String>) -> Seq<String> {
    names.filter(|n: String| extension_of(n@) == Some("md"@))
}

/// How many versions are over the limit.
pub open spec fn excess_versions(names: Seq<String>) -> int {
    if md_files(names).len() > history_limit() {
        md_files(names).len() - history_limit()
    } else {
        0
    }
}

/// The version files to delete after a save so that the 20 newest
/// remain: the Markdown files in name order (names start with their
/// time), the first of them, as many as are over 20.
pub fn versions_to_prune(names: &Vec<String>) -> (r: Vec<String>)
    requires
        names@.len() <= i64::MAX,
    ensures
        r@.len() == excess_versions(names@),
        md_files(names@).len() - r@.len() <= history_limit(),
        exists|sorted: Seq<String>|
            #[trigger] is_sorted_copy(sorted, md_files(names@), rank_keys(md_files(names@)), false)
                && r@ == sorted.take(excess_versions(names@)),
{
    let ghost all = names@;
    let md = to_chars("md");
    let mut mds: Vec<String> = Vec::new();
    let mut i: usize = 0;
    while i < names.len()
        invariant
            i <= names@.len(),
            all == names@,
            md@ == "md"@,
            mds@ == md_files(all.take(i as int)),
        decreases names@.len() - i,
    {
        proof {
            reveal_with_fuel(Seq::<_>::filter, 1);
            assert(all.take(i + 1).drop_last() == all.take(i as int));
        }
        let name = to_chars(names[i].as_str());
        let is_md = match file_extension(name.as_slice()) {
            Some(e) => chars_eq(e.as_slice(), md.as_slice()),
            None => false,
        };
        if is_md {
            mds.push(names[i].clone());
        }
        i = i + 1;
    }
    assert(all.take(all.len() as int) == all);
    let ghost mv = md_files(all);
    assert(mv.len() <= all.len()) by {
        all.lemma_filter_len(|n: String| extension_of(n@) == Some("md"@));
    }
    let mut keys: Vec<(i64, i64)> = Vec::new();
    let mut j: usize = 0;
    while j < mds.len()
        invariant
            j <= mds@.len(),
            mv == mds@,
            mv.len() <= i64::MAX,
            keys@ == rank_keys(mv).take(j as int),
        decreases mds@.len() - j,
    {
        let mut count: usize = 0;
        let mut k: usize = 0;
        let target = to_chars(mds[j].as_str());
        while k < mds.len()
            invariant
                k <= mds@.len(),
                j < mds@.len(),
                mv == mds@,
                target@ == mv[j as int]@,
                count == mv.take(k as int).filter(|m: String| lex_lt(m@, mv[j as int]@)).len(),
                count <= k,
            decreases mds@.len() - k,
        {
            proof {
                reveal_with_fuel(Seq::<_>::filter, 1);
                assert(mv.take(k + 1).drop_last() == mv.take(k as int));
            }
            let other = to_chars(mds[k].as_str());
            if str_lt(other.as_slice(), target.as_slice()) {
                count = count + 1;
            }
            k = k + 1;
        }
        assert(mv.take(mv.len() as int) == mv);
        keys.push((count as i64, 0i64));
        j = j + 1;
        assert(keys@ =~= rank_keys(mv).take(j as int));
    }
    assert(rank_keys(mv).take(mv.len() as int) == rank_keys(mv));
    let excess: usize = if mds.len() > 20 {
        mds.len() - 20
    } else {
        0
    };
    let (sorted, _perm) = crate::sort::stable_sort_by_key(mds, keys, false);
    let ghost sv = sorted@;
    let mut r: Vec<String> = Vec::new();
    let mut k: usize = 0;
    while k < excess
        invariant
            k <= excess <= sorted@.len(),
            sorted@ == sv,
            r@ == sv.take(k as int),
        decreases excess - k,
    {
        r.push(sorted[k].clone());
        k = k + 1;
        assert(r@ =~= sv.take(k as int));
    }
    r
}

/// Whether `content` differs, by its BLAKE3 hash, from every kept version.
pub open spec fn is_new_content(content: Seq<char>, kept: Seq<String>) -> bool {
    forall|i: int| 0 <= i < kept.len() ==> text_hash(#[trigger] kept[i]@) != text_hash(content)
}

/// Whether a save stores a new version: only when no kept version (the
/// readable contents of the history files) has the same BLAKE3 hash, so
/// that A, B, A does not keep A twice.
pub fn is_new_version(content: &str, kept: &Vec<String>) -> (r: bool)
    ensures
        r == is_new_content(content@, kept@),
{
    let h = content_hash(content);
    let mut i: usize = 0;
    while i < kept.len()
        invariant
            i <= kept@.len(),
            h@ == text_hash(content@),
            forall|k: int| 0 <= k < i ==> text_hash(#[trigger] kept@[k]@) != text_hash(content@),
        decreases kept@.len() - i,
    {
        let other = content_hash(kept[i].as_str());
        if str_eq(other.as_str(), h.as_str()) {
            return false;
        }
        i = i + 1;
    }
    true
}

/// The id of a version saved at the instant `t` with the random id `u`.
pub open spec fn version_id_at(t: Timestamp, u: Seq<char>) -> Seq<char> {
    utc_format(t.secs, t.nanos, "%Y%m%dT%H%M%S%.6fZ"@) + "-"@ + u.take(8)
}

/// The id of a new version: the current UTC time to the microsecond and
/// eight random hexadecimal digits, so that two saves in the same
/// microsecond do not collide.
pub fn new_version_id() -> (r: String)
    ensures
        exists|t: Timestamp, u: Seq<char>|
            is_utc_instant(t.secs, t.nanos) && is_hyphenated_uuid(u) && r@ == #[trigger] version_id_at(
                t,
                u,
            ),
{
    let now = utc_now();
    let stamp = format_utc(now, "%Y%m%dT%H%M%S%.6fZ");
    let id = new_uuid_v4();
    let idv = to_chars(id.as_str());
    let mut m: Vec<char> = Vec::new();
    append_str(&mut m, stamp.as_str());
    append_str(&mut m, "-");
    let mut k: usize = 0;
    while k < 8
        invariant
            k <= 8,
            idv@ == id@,
            idv@.len() == 36,
            m@ == stamp@ + "-"@ + idv@.take(k as int),
        decreases 8 - k,
    {
        m.push(idv[k]);
        k = k + 1;
        assert(idv@.take(k as int) == idv@.take(k - 1).push(idv@[k - 1]));
    }
    assert(m@ == version_id_at(now, id@));
    string_from_chars(m.as_slice())
}

/// The readable contents of the Markdown files of a history directory,
/// given as each file's name and, when it could be read, its content.
pub open spec fn kept_contents(files: Seq<(String, Option<String>)>) -> Seq<String>
    decreases files.len(),
{
    if files.len() == 0 {
        Seq::<String>::empty()
    } else {
        let prev = kept_contents(files.drop_last());
        let f = files.last();
        if extension_of(f.0@) == Some("md"@) && f.1 is Some {
            prev.push(f.1->0)
        } else {
            prev
        }
    }
}

/// The names of the files of a history directory.
pub open spec fn history_names(files: Seq<(String, Option<String>)>) -> Seq<String> {
    files.map_values(|f: (String, Option<String>)| f.0)
}

/// What saving a version does to a note's history directory: the file to
/// write the content to (none when the content is kept already), then the
/// version files to delete.
#[derive(Debug)]
pub struct VersionSave {
    pub file_name: Option<String>,
    pub pruned: Vec<String>,
}

/// Plans saving `content` as a version of a note, given the files of its
/// history directory (each name, with the content of a readable Markdown
/// file). When a kept version has the same content nothing changes. Else
/// the content goes to a new file named by the current time and a random
/// id, and the oldest versions are deleted so that 20 remain: so a save
/// never stores a version twice and never leaves more than 20.
pub fn plan_version_save(content: &str, files: &Vec<(String, Option<String>)>) -> (r: VersionSave)
    requires
        files@.len() < i64::MAX,
    ensures
        !is_new_content(content@, kept_contents(files@)) ==> r.file_name is None && r.pruned@.len() == 0,
        is_new_content(content@, kept_contents(files@)) ==> (r.file_name matches Some(n) && {
            let after = history_names(files@).push(n);
            &&& exists|t: Timestamp, u: Seq<char>|
                is_utc_instant(t.secs, t.nanos) && is_hyphenated_uuid(u) && n@ == #[trigger] version_id_at(t, u)
                    + ".md"@
            &&& r.pruned@.len() == excess_versions(after)
            &&& md_files(after).len() - r.pruned@.len() <= history_limit()
            &&& exists|sorted: Seq<String>|
                #[trigger] is_sorted_copy(sorted, md_files(after), rank_keys(md_files(after)), false)
                    && r.pruned@ == sorted.take(excess_versions(after))
        }),
{
    let ghost fv = files@;
    let md = to_chars("md");
    let mut kept: Vec<String> = Vec::new();
    let mut names: Vec<String> = Vec::new();
    let mut i: usize = 0;
    while i < files.len()
        invariant
            i <= fv.len(),
            fv == files@,
            md@ == "md"@,
            kept@ == kept_contents(fv.take(i as int)),
            names@ == history_names(fv.take(i as int)),
        decreases fv.len() - i,
    {
        assert(fv.take(i + 1).drop_last() == fv.take(i as int));
        assert(fv.take(i + 1).last() == fv[i as int]);
        let name = to_chars(files[i].0.as_str());
        let is_md = match file_extension(name.as_slice()) {
            Some(e) => chars_eq(e.as_slice(), md.as_slice()),
            None => false,
        };
        match &files[i].1 {
            Some(c) => {
                if is_md {
                    kept.push(c.clone());
                }
            },
            None => {},
        }
        names.push(files[i].0.clone());
        assert(names@ =~= history_names(fv.take(i + 1)));
        i = i + 1;
    }
    assert(fv.take(fv.len() as int) == fv);
    if !is_new_version(content, &kept) {
        return VersionSave { file_name: None, pruned: Vec::new() };
    }
    let id = new_version_id();
    let mut m: Vec<char> = Vec::new();
    append_str(&mut m, id.as_str());
    append_str(&mut m, ".md");
    let file_name = string_from_chars(m.as_slice());
    names.push(file_name.clone());
    let ghost n = file_name;
    assert(names@ =~= history_names(fv).push(n));
    let pruned = versions_to_prune(&names);
    VersionSave { file_name: Some(file_name), pruned }
}

} // verus!
