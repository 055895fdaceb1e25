//! Files attached to notes, as `attachments.json` lists them.
//!
//! Each attachment is copied under `attachments/<note id>/` with a file
//! name made of a fresh id and a sanitized form of its original name. The
//! functions here keep the list; copying and trashing the files is the
//! caller's part.

use vstd::prelude::*;

use crate::error::{err, AppError};
use crate::notes::NoteStore;
use crate::outside::{is_hyphenated_uuid, new_uuid_v4, utc_now};
use crate::paths::{is_safe_component, join_path, path_join, validate_note_id, validate_relative_file_name};
use crate::sort::{is_sorted_copy, stable_sort_by_key};
use crate::text::{append_str, is_control, spec_is_control, str_eq, string_from_chars, string_of, to_chars};
use crate::time::Timestamp;

verus! {

/// An attached file.
#[derive(Debug)]
pub struct Attachment {
    pub id: String,
    pub note_id: String,
    /// The original file name.
    pub name: String,
    /// The name of the stored copy: the id, `_`, and the sanitized name.
    pub file_name: String,
    pub size: u64,
    pub created_at: Timestamp,
}

impl Attachment {
    /// A copy of this attachment, field for field.
    pub fn copied(&self) -> (r: Attachment)
        ensures
            r == *self,
    {
        Attachment {
            id: self.id.clone(),
            note_id: self.note_id.clone(),
            name: self.name.clone(),
            file_name: self.file_name.clone(),
            size: self.size,
            created_at: self.created_at,
        }
    }
}

/// Whether a character may not stand in a stored file name.
pub open spec fn is_forbidden_in_file_name(c: char) -> bool {
    c == '<' || c == '>' || c == ':' || c == '"' || c == '/' || c == '\\' || c == '|' || c == '?'
        || c == '*' || spec_is_control(c)
}

/// `s` with every forbidden character replaced by `_`.
pub open spec fn replace_forbidden(s: Seq<char>) -> Seq<char> {
    s.map_values(|c: char| if is_forbidden_in_file_name(c) { '_' } else { c })
}

/// Whether `c` is trimmed from the ends of a stored file name.
pub open spec fn is_dot_or_space(c: char) -> bool {
    c == '.' || c == ' '
}

/// `s` without leading dots and spaces.
pub open spec fn trim_dots_start(s: Seq<char>) -> Seq<char>
    decreases s.len(),
{
    if s.len() > 0 && is_dot_or_space(s[0]) { trim_dots_start(s.drop_first()) } else { s }
}

/// `s` without trailing dots and spaces.
pub open spec fn trim_dots_end(s: Seq<char>) -> Seq<char>
    decreases s.len(),
{
    if s.len() > 0 && is_dot_or_space(s.last()) { trim_dots_end(s.drop_last()) } else { s }
}

/// The stored form of an attachment's name: forbidden characters become
/// `_`, dots and spaces at either end go, an empty result becomes
/// `attachment`, and at most 120 characters are kept.
pub open spec fn safe_attachment_name(value: Seq<char>) -> Seq<char> {
    let t = trim_dots_end(trim_dots_start(replace_forbidden(value)));
    if t.len() == 0 {
        "attachment"@
    } else if t.len() <= 120 {
        t
    } else {
        t.take(120)
    }
}

/// The stored form of an attachment's name.
pub fn safe_file_name(value: &str) -> (r: String)
    ensures
        r@ == safe_attachment_name(value@),
{
    let v = to_chars(value);
    let mut m: Vec<char> = Vec::new();
    let mut i: usize = 0;
    while i < v.len()
        invariant
            i <= v@.len(),
            m@ == replace_forbidden(v@.take(i as int)),
        decreases v@.len() - i,
    {
        let c = v[i];
        let bad = c == '<' || c == '>' || c == ':' || c == '"' || c == '/' || c == '\\' || c == '|'
            || c == '?' || c == '*' || is_control(c);
        m.push(if bad { '_' } else { c });
        i = i + 1;
        assert(m@ =~= replace_forbidden(v@.take(i as int)));
    }
    assert(v@.take(v@.len() as int) == v@);
    let mut lo: usize = 0;
    assert(m@.skip(0) == m@);
    while lo < m.len() && (m[lo] == '.' || m[lo] == ' ')
        invariant
            lo <= m@.len(),
            trim_dots_start(m@.skip(lo as int)) == trim_dots_start(m@),
        decreases m@.len() - lo,
    {
        assert(m@.skip(lo + 1) == m@.skip(lo as int).drop_first());
        lo = lo + 1;
    }
    let ghost s = trim_dots_start(m@);
    assert(s == m@.skip(lo as int));
    let mut hi: usize = m.len();
    assert(s.take(s.len() as int) == s);
    while hi > lo && (m[hi - 1] == '.' || m[hi - 1] == ' ')
        invariant
            lo <= hi <= m@.len(),
            s == m@.skip(lo as int),
            trim_dots_end(s.take(hi - lo)) == trim_dots_end(s),
        decreases hi,
    {
        assert(s.take(hi - lo - 1) == s.take(hi - lo).drop_last());
        hi = hi - 1;
    }
    let ghost t = trim_dots_end(s);
    assert(t == m@.subrange(lo as int, hi as int));
    if hi == lo {
        return string_of("attachment");
    }
    let end = if hi - lo <= 120 {
        hi
    } else {
        lo + 120
    };
    let mut out: Vec<char> = Vec::new();
    let mut k: usize = lo;
    while k < end
        invariant
            lo <= k <= end <= hi <= m@.len(),
            out@ == m@.subrange(lo as int, k as int),
        decreases end - k,
    {
        out.push(m[k]);
        k = k + 1;
    }
    assert(out@ == (if t.len() <= 120 {
        t
    } else {
        t.take(120)
    }));
    string_from_chars(out.as_slice())
}

/// `attachments.json` in the data directory.
pub fn attachments_path(data_dir: &str) -> (r: String)
    ensures
        r@ == path_join(data_dir@, "attachments.json"@),
{
    join_path(data_dir, "attachments.json")
}

/// The directory of a note's attachments, `attachments/<note id>`; fails
/// for an unusable note id.
pub fn attachments_dir(data_dir: &str, note_id: &str) -> (r: Result<String, AppError>)
    ensures
        r is Ok <==> is_safe_component(note_id@),
        r matches Ok(p) ==> p@ == path_join(path_join(data_dir@, "attachments"@), note_id@),
        r matches Err(e) ==> is_note_id_error(e, note_id@),
{
    match validate_note_id(note_id) {
        Err(e) => Err(e),
        Ok(()) => {
            let d = join_path(data_dir, "attachments");
            Ok(join_path(d.as_str(), note_id))
        },
    }
}

/// Whether an entry of `attachments.json` may be used: its note id and its
/// stored file name are safe path components.
pub open spec fn is_usable(a: Attachment) -> bool {
    is_safe_component(a.note_id@) && is_safe_component(a.file_name@)
}

/// The message that refuses an unusable entry of `attachments.json`.
pub open spec fn unusable_message(a: Attachment) -> Seq<char> {
    if !is_safe_component(a.note_id@) {
        "note_id 格式无效"@
    } else {
        "附件文件名"@ + " 包含不安全路径"@
    }
}

/// Checks the entries of `attachments.json` before they are used: each
/// note id must be usable and each stored file name a single safe
/// component. Reports the first bad entry.
pub fn validate_attachments(attachments: &Vec<Attachment>) -> (r: Result<(), AppError>)
    ensures
        r is Ok <==> forall|i: int| 0 <= i < attachments@.len() ==> #[trigger] is_usable(attachments@[i]),
        r matches Err(e) ==> e.code@ == "invalidNoteId"@ || (e.code@ == "unsafePath"@ && e.message@
            == "附件文件名"@ + " 包含不安全路径"@),
        r matches Err(e) ==> e.wf() && exists|i: int|
            0 <= i < attachments@.len() && !is_usable(#[trigger] attachments@[i]) && (forall|j: int|
                0 <= j < i ==> is_usable(#[trigger] attachments@[j])) && e.message@ == unusable_message(
                attachments@[i],
            ),
{
    let mut i: usize = 0;
    while i < attachments.len()
        invariant
            i <= attachments@.len(),
            forall|k: int| 0 <= k < i ==> #[trigger] is_usable(attachments@[k]),
        decreases attachments@.len() - i,
    {
        match validate_note_id(attachments[i].note_id.as_str()) {
            Err(e) => {
                assert(!is_usable(attachments@[i as int]));
                return Err(e);
            },
            Ok(()) => {},
        }
        match validate_relative_file_name(attachments[i].file_name.as_str(), "附件文件名") {
            Err(e) => {
                assert(!is_usable(attachments@[i as int]));
                return Err(e);
            },
            Ok(()) => {},
        }
        assert(is_usable(attachments@[i as int]));
        i = i + 1;
    }
    Ok(())
}

/// Whether `e` is the error for an unusable note id.
pub open spec fn is_note_id_error(e: AppError, note_id: Seq<char>) -> bool {
    e.wf() && e.code@ == "invalidNoteId"@ && e.message@ == "note_id 格式无效"@ && e.detail(
        "noteId"@,
    ) == Some(note_id)
}

/// The largest file that may be attached: 100 MiB.
pub open spec fn max_attachment_size() -> int {
    104857600int
}

/// Records a new attachment of `note_id`. The caller has looked at the
/// source file: whether it is a file, its name (`None` when it has no
/// UTF-8 name, which is then `attachment`) and its size. Refused, in this
/// order, when the source is not a file (`attachmentSource`), is larger
/// than 100 MiB (`attachmentTooLarge`), or the note id is unusable;
/// otherwise the attachment gets a fresh id and the current time, is
/// appended to the list and returned, and the caller copies the file to
/// its `file_name`.
pub fn add_attachment(
    attachments: &mut Vec<Attachment>,
    note_id: &str,
    source_is_file: bool,
    source_name: Option<String>,
    size: u64,
) -> (r: Result<Attachment, AppError>)
    ensures
        !source_is_file ==> (r matches Err(e) && e.wf() && e.code@ == "attachmentSource"@
            && e.message@ == "附件源文件不存在"@),
        source_is_file && size > max_attachment_size() ==> (r matches Err(e) && e.wf() && e.code@
            == "attachmentTooLarge"@ && e.message@ == "单个附件不能超过 100 MB"@),
        source_is_file && size <= max_attachment_size() && !is_safe_component(note_id@) ==> (r matches Err(
            e,
        ) && is_note_id_error(e, note_id@)),
        r is Err ==> final(attachments)@ == old(attachments)@,
        source_is_file && size <= max_attachment_size() && is_safe_component(note_id@) ==> (r matches Ok(
            a,
        ) && is_hyphenated_uuid(a.id@) && a.note_id@ == note_id@ && a.name@ == (match source_name {
            Some(n) => n@,
            None => "attachment"@,
        }) && a.file_name@ == a.id@ + "_"@ + safe_attachment_name(a.name@) && a.size == size
            && final(attachments)@ == old(attachments)@.push(a)),
{
    if !source_is_file {
        return Err(err("attachmentSource", "附件源文件不存在"));
    }
    if size > 100 * 1024 * 1024 {
        return Err(err("attachmentTooLarge", "单个附件不能超过 100 MB"));
    }
    let name = match source_name {
        Some(n) => n,
        None => string_of("attachment"),
    };
    let id = new_uuid_v4();
    match validate_note_id(note_id) {
        Err(e) => {
            return Err(e);
        },
        Ok(()) => {},
    }
    let mut f: Vec<char> = Vec::new();
    append_str(&mut f, id.as_str());
    append_str(&mut f, "_");
    let safe = safe_file_name(name.as_str());
    append_str(&mut f, safe.as_str());
    let attachment = Attachment {
        id,
        note_id: string_of(note_id),
        name,
        file_name: string_from_chars(f.as_slice()),
        size,
        created_at: utc_now(),
    };
    attachments.push(attachment.copied());
    Ok(attachment)
}

/// The attachments of `note`, in list order, whose files are present.
pub open spec fn present_of(all: Seq<Attachment>, present: Seq<bool>, note: Seq<char>, n: nat) -> Seq<
    Attachment,
>
    decreases n,
{
    if n == 0 {
        seq![]
    } else {
        let k = n - 1;
        let prev = present_of(all, present, note, k as nat);
        if all[k].note_id@ == note && present[k] {
            prev.push(all[k])
        } else {
            prev
        }
    }
}

/// The sort keys of attachments: their creation times.
pub open spec fn attachment_keys(v: Seq<Attachment>) -> Seq<(i64, i64)> {
    v.map_values(|a: Attachment| a.created_at.key())
}

/// The attachments of `note_id` whose stored files are present
/// (`present[i]` for `all[i]`), newest first, attachments of the same
/// instant in list order. Fails when the note id is unusable.
pub fn list_attachments(all: &Vec<Attachment>, present: &Vec<bool>, note_id: &str) -> (r: Result<
    Vec<Attachment>,
    AppError,
>)
    requires
        all@.len() == present@.len(),
    ensures
        !is_safe_component(note_id@) ==> (r matches Err(e) && is_note_id_error(e, note_id@)),
        is_safe_component(note_id@) ==> (r matches Ok(v) && {
            let found = present_of(all@, present@, note_id@, all@.len());
            is_sorted_copy(v@, found, attachment_keys(found), true)
        }),
{
    match validate_note_id(note_id) {
        Err(e) => {
            return Err(e);
        },
        Ok(()) => {},
    }
    let mut found: Vec<Attachment> = Vec::new();
    let mut keys: Vec<(i64, i64)> = Vec::new();
    let mut i: usize = 0;
    while i < all.len()
        invariant
            i <= all@.len(),
            all@.len() == present@.len(),
            found@ == present_of(all@, present@, note_id@, i as nat),
            keys@ == attachment_keys(found@),
        decreases all@.len() - i,
    {
        if present[i] && str_eq(all[i].note_id.as_str(), note_id) {
            keys.push(all[i].created_at.sort_key());
            found.push(all[i].copied());
            assert(attachment_keys(found@) =~= attachment_keys(found@.drop_last()).push(
                found@.last().created_at.key(),
            ));
        }
        i = i + 1;
    }
    let (sorted, _perm) = stable_sort_by_key(found, keys, true);
    Ok(sorted)
}

/// Whether `a` is the attachment `id` of note `note`.
pub open spec fn is_attachment_of(a: Attachment, note: Seq<char>, id: Seq<char>) -> bool {
    a.id@ == id && a.note_id@ == note
}

/// Removes the attachment `attachment_id` of `note_id` (its first entry)
/// from the list and returns it, so that the caller can trash its file.
/// Fails with `attachmentNotFound` when the list has no such attachment,
/// and for an unusable note id; the list is then unchanged.
pub fn delete_attachment(attachments: &mut Vec<Attachment>, note_id: &str, attachment_id: &str) -> (r:
    Result<Attachment, AppError>)
    ensures
        (forall|i: int|
            0 <= i < old(attachments)@.len() ==> !is_attachment_of(
                #[trigger] old(attachments)@[i],
                note_id@,
                attachment_id@,
            )) ==> (r matches Err(e) && e.wf() && e.code@ == "attachmentNotFound"@ && e.message@
            == "找不到附件"@),
        r is Err ==> final(attachments)@ == old(attachments)@,
        r matches Ok(a) ==> exists|i: int|
            0 <= i < old(attachments)@.len() && #[trigger] is_attachment_of(
                old(attachments)@[i],
                note_id@,
                attachment_id@,
            ) && (forall|j: int|
                0 <= j < i ==> !is_attachment_of(
                    #[trigger] old(attachments)@[j],
                    note_id@,
                    attachment_id@,
                )) && a == old(attachments)@[i] && final(attachments)@ == old(
                attachments,
            )@.remove(i),
        (exists|i: int|
            0 <= i < old(attachments)@.len() && #[trigger] is_attachment_of(
                old(attachments)@[i],
                note_id@,
                attachment_id@,
            )) ==> (is_safe_component(note_id@) <==> r is Ok),
        (exists|i: int|
            0 <= i < old(attachments)@.len() && #[trigger] is_attachment_of(
                old(attachments)@[i],
                note_id@,
                attachment_id@,
            )) && !is_safe_component(note_id@) ==> (r matches Err(e) && is_note_id_error(
            e,
            note_id@,
        )),
{
    let mut i: usize = 0;
    while i < attachments.len()
        invariant
            i <= attachments@.len(),
            attachments@ == old(attachments)@,
            forall|j: int|
                0 <= j < i ==> !is_attachment_of(#[trigger] attachments@[j], note_id@, attachment_id@),
        decreases attachments@.len() - i,
    {
        if str_eq(attachments[i].id.as_str(), attachment_id) && str_eq(
            attachments[i].note_id.as_str(),
            note_id,
        ) {
            assert(is_attachment_of(attachments@[i as int], note_id@, attachment_id@));
            match validate_note_id(note_id) {
                Err(e) => {
                    return Err(e);
                },
                Ok(()) => {},
            }
            let a = attachments.remove(i);
            return Ok(a);
        }
        i = i + 1;
    }
    Err(err("attachmentNotFound", "找不到附件"))
}

/// Deleting an attachment just added undoes the addition: when no earlier
/// entry is that attachment (ids are fresh UUIDs), the entry that
/// `delete_attachment` finds is the new one, and removing it gives back
/// the list as it was.
pub proof fn lemma_add_then_delete_restores(before: Seq<Attachment>, a: Attachment)
    requires
        forall|i: int| 0 <= i < before.len() ==> !is_attachment_of(#[trigger] before[i], a.note_id@, a.id@),
    ensures
        is_attachment_of(before.push(a)[before.len() as int], a.note_id@, a.id@),
        forall|j: int|
            0 <= j < before.len() ==> !is_attachment_of(#[trigger] before.push(a)[j], a.note_id@, a.id@),
        before.push(a).remove(before.len() as int) == before,
{
    assert forall|j: int| 0 <= j < before.len() implies !is_attachment_of(
        #[trigger] before.push(a)[j],
        a.note_id@,
        a.id@,
    ) by {
        assert(before.push(a)[j] == before[j]);
    }
    assert(before.push(a).remove(before.len() as int) =~= before);
}

/// Whether an attachment belongs to another note than `note`.
pub open spec fn of_other_note(note: Seq<char>) -> spec_fn(Attachment) -> bool {
    |a: Attachment| a.note_id@ != note
}

/// Drops every attachment of `note_id` from the list (the caller trashes
/// their directory). The list is filtered even when the note id turns out
/// unusable, which is then reported.
pub fn delete_note_attachments(attachments: &mut Vec<Attachment>, note_id: &str) -> (r: Result<
    (),
    AppError,
>)
    ensures
        final(attachments)@ == old(attachments)@.filter(of_other_note(note_id@)),
        r is Ok <==> is_safe_component(note_id@),
        r matches Err(e) ==> is_note_id_error(e, note_id@),
{
    let ghost before = attachments@;
    let mut kept: Vec<Attachment> = Vec::new();
    let mut i: usize = 0;
    while i < attachments.len()
        invariant
            i <= attachments@.len(),
            attachments@ == before,
            kept@ == before.take(i as int).filter(of_other_note(note_id@)),
        decreases attachments@.len() - i,
    {
        proof {
            reveal_with_fuel(Seq::<_>::filter, 1);
            assert(before.take(i + 1).drop_last() == before.take(i as int));
        }
        if !str_eq(attachments[i].note_id.as_str(), note_id) {
            kept.push(attachments[i].copied());
        }
        i = i + 1;
    }
    assert(before.take(before.len() as int) == before);
    *attachments = kept;
    validate_note_id(note_id)
}

/// `a` with its note changed from `source` to `target`, if it was of
/// `source`.
pub open spec fn retargeted(a: Attachment, source: Seq<char>, target: String) -> Attachment {
    if a.note_id@ == source {
        Attachment { note_id: target, ..a }
    } else {
        a
    }
}

/// Moves the attachments of note `source_id` to note `target_id` in the
/// list, after checking both ids (the caller moves the files). Every other
/// attachment stays as it was.
pub fn move_note_attachments(attachments: &mut Vec<Attachment>, source_id: &str, target_id: &str) -> (r:
    Result<(), AppError>)
    ensures
        !is_safe_component(source_id@) ==> (r matches Err(e) && is_note_id_error(e, source_id@)),
        is_safe_component(source_id@) && !is_safe_component(target_id@) ==> (r matches Err(e)
            && is_note_id_error(e, target_id@)),
        r is Err ==> final(attachments)@ == old(attachments)@,
        r is Ok ==> is_safe_component(source_id@) && is_safe_component(target_id@),
        r is Ok ==> final(attachments)@.len() == old(attachments)@.len() && forall|i: int|
            0 <= i < old(attachments)@.len() ==> {
                let a = #[trigger] old(attachments)@[i];
                let b = final(attachments)@[i];
                &&& b.id == a.id
                &&& b.name == a.name
                &&& b.file_name == a.file_name
                &&& b.size == a.size
                &&& b.created_at == a.created_at
                &&& b.note_id@ == (if a.note_id@ == source_id@ {
                    target_id@
                } else {
                    a.note_id@
                })
            },
{
    match validate_note_id(source_id) {
        Err(e) => {
            return Err(e);
        },
        Ok(()) => {},
    }
    match validate_note_id(target_id) {
        Err(e) => {
            return Err(e);
        },
        Ok(()) => {},
    }
    let ghost before = attachments@;
    let mut out: Vec<Attachment> = Vec::new();
    let mut i: usize = 0;
    while i < attachments.len()
        invariant
            i <= attachments@.len(),
            attachments@ == before,
            out@.len() == i,
            forall|k: int|
                0 <= k < i ==> {
                    let a = #[trigger] before[k];
                    let b = out@[k];
                    &&& b.id == a.id
                    &&& b.name == a.name
                    &&& b.file_name == a.file_name
                    &&& b.size == a.size
                    &&& b.created_at == a.created_at
                    &&& b.note_id@ == (if a.note_id@ == source_id@ {
                        target_id@
                    } else {
                        a.note_id@
                    })
                },
        decreases attachments@.len() - i,
    {
        let mut a = attachments[i].copied();
        if str_eq(a.note_id.as_str(), source_id) {
            a.note_id = string_of(target_id);
        }
        out.push(a);
        i = i + 1;
    }
    *attachments = out;
    Ok(())
}

/// The stored file of the attachment `id` among `listed`, under
/// `attachments/<note_id>/` of `data_dir`.
pub open spec fn attachment_file(data_dir: Seq<char>, note_id: Seq<char>, file_name: Seq<char>) -> Seq<
    char,
> {
    path_join(path_join(path_join(data_dir, "attachments"@), note_id), file_name)
}

impl NoteStore {
    /// Records a new attachment of `note_id`, exactly as `add_attachment`
    /// does. The caller has found the note first.
    pub fn add_attachment(
        &self,
        attachments: &mut Vec<Attachment>,
        note_id: &str,
        source_is_file: bool,
        source_name: Option<String>,
        size: u64,
    ) -> (r: Result<Attachment, AppError>)
        ensures
            !source_is_file ==> (r matches Err(e) && e.code@ == "attachmentSource"@),
            source_is_file && size > max_attachment_size() ==> (r matches Err(e) && e.code@
                == "attachmentTooLarge"@),
            source_is_file && size <= max_attachment_size() && !is_safe_component(note_id@) ==> (r matches Err(
                e,
            ) && is_note_id_error(e, note_id@)),
            r is Err ==> final(attachments)@ == old(attachments)@,
            source_is_file && size <= max_attachment_size() && is_safe_component(note_id@) ==> (r matches Ok(
                a,
            ) && is_hyphenated_uuid(a.id@) && a.note_id@ == note_id@ && a.name@ == (match source_name {
                Some(n) => n@,
                None => "attachment"@,
            }) && a.file_name@ == a.id@ + "_"@ + safe_attachment_name(a.name@) && a.size == size
                && final(attachments)@ == old(attachments)@.push(a)),
    {
        add_attachment(attachments, note_id, source_is_file, source_name, size)
    }

    /// The attachments of `note_id` with a present file, newest first, as
    /// `list_attachments` gives them. The caller has found the note first.
    pub fn list_attachments(&self, all: &Vec<Attachment>, present: &Vec<bool>, note_id: &str) -> (r:
        Result<Vec<Attachment>, AppError>)
        requires
            all@.len() == present@.len(),
        ensures
            !is_safe_component(note_id@) ==> (r matches Err(e) && is_note_id_error(e, note_id@)),
            is_safe_component(note_id@) ==> (r matches Ok(v) && {
                let found = present_of(all@, present@, note_id@, all@.len());
                is_sorted_copy(v@, found, attachment_keys(found), true)
            }),
    {
        list_attachments(all, present, note_id)
    }

    /// Removes the attachment `attachment_id` of `note_id` from the list,
    /// as `delete_attachment` does.
    pub fn delete_attachment(
        &self,
        attachments: &mut Vec<Attachment>,
        note_id: &str,
        attachment_id: &str,
    ) -> (r: Result<Attachment, AppError>)
        ensures
            (forall|i: int|
                0 <= i < old(attachments)@.len() ==> !is_attachment_of(
                    #[trigger] old(attachments)@[i],
                    note_id@,
                    attachment_id@,
                )) ==> (r matches Err(e) && e.code@ == "attachmentNotFound"@),
            r is Err ==> final(attachments)@ == old(attachments)@,
            r matches Ok(a) ==> exists|i: int|
                0 <= i < old(attachments)@.len() && #[trigger] is_attachment_of(
                    old(attachments)@[i],
                    note_id@,
                    attachment_id@,
                ) && (forall|j: int|
                    0 <= j < i ==> !is_attachment_of(
                        #[trigger] old(attachments)@[j],
                        note_id@,
                        attachment_id@,
                    )) && a == old(attachments)@[i] && final(attachments)@ == old(
                    attachments,
                )@.remove(i),
            (exists|i: int|
                0 <= i < old(attachments)@.len() && #[trigger] is_attachment_of(
                    old(attachments)@[i],
                    note_id@,
                    attachment_id@,
                )) ==> (is_safe_component(note_id@) <==> r is Ok),
    {
        delete_attachment(attachments, note_id, attachment_id)
    }

    /// The stored file of the attachment `attachment_id` of `note_id`: the
    /// first with that id among the listed attachments of the note (see
    /// `list_attachments`), under `attachments/<note_id>/`. Fails for an
    /// unusable note id and with `attachmentNotFound` when no listed
    /// attachment has the id.
    pub fn attachment_path(
        &self,
        all: &Vec<Attachment>,
        present: &Vec<bool>,
        note_id: &str,
        attachment_id: &str,
    ) -> (r: Result<String, AppError>)
        requires
            all@.len() == present@.len(),
        ensures
            !is_safe_component(note_id@) ==> (r matches Err(e) && is_note_id_error(e, note_id@)),
            is_safe_component(note_id@) ==> exists|listed: Seq<Attachment>|
                {
                    &&& #[trigger] is_sorted_copy(
                        listed,
                        present_of(all@, present@, note_id@, all@.len()),
                        attachment_keys(present_of(all@, present@, note_id@, all@.len())),
                        true,
                    )
                    &&& (forall|i: int| 0 <= i < listed.len() ==> #[trigger] listed[i].id@ != attachment_id@)
                        ==> (r matches Err(e) && e.wf() && e.code@ == "attachmentNotFound"@
                        && e.message@ == "找不到附件"@)
                    &&& r matches Ok(p) ==> exists|i: int|
                        0 <= i < listed.len() && #[trigger] listed[i].id@ == attachment_id@ && (forall|
                            j: int,
                        | 0 <= j < i ==> #[trigger] listed[j].id@ != attachment_id@) && p@
                            == attachment_file(self.data_dir@, note_id@, listed[i].file_name@)
                },
    {
        let listed = match self.list_attachments(all, present, note_id) {
            Err(e) => {
                return Err(e);
            },
            Ok(v) => v,
        };
        let mut i: usize = 0;
        while i < listed.len()
            invariant
                i <= listed@.len(),
                is_safe_component(note_id@),
                is_sorted_copy(
                    listed@,
                    present_of(all@, present@, note_id@, all@.len()),
                    attachment_keys(present_of(all@, present@, note_id@, all@.len())),
                    true,
                ),
                forall|j: int| 0 <= j < i ==> #[trigger] listed@[j].id@ != attachment_id@,
            decreases listed@.len() - i,
        {
            if str_eq(listed[i].id.as_str(), attachment_id) {
                let a = join_path(self.data_dir.as_str(), "attachments");
                let b = join_path(a.as_str(), note_id);
                let p = join_path(b.as_str(), listed[i].file_name.as_str());
                return Ok(p);
            }
            i = i + 1;
        }
        Err(err("attachmentNotFound", "找不到附件"))
    }
}

} // verus!
