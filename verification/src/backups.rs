//! Backups of the notebook: zip archives of the data directory's items,
//! made by hand or once a day, of which the newest 30 are kept, and
//! restored only after every entry has been checked.

use vstd::prelude::*;

use crate::error::{err, AppError};
use crate::attachments::{is_usable, unusable_message, validate_attachments, Attachment};
use crate::notes::{strings_view, validate_metadata, MetadataFile, NoteMetadata, NoteStore};
use crate::outside::{
    format_utc, is_hyphenated_uuid, is_utc_instant, list_zip, new_uuid_v4, read_zip_entry, utc_format, utc_now,
    first_bytes, is_file_entry_name, write_zip, written_listing, zip_archive_of, zip_entry_bytes_of, zip_files_view,
    zip_listing_of, zip_listing_view,
};
use crate::paths::{extension_of, file_extension, join_path, path_join, path_segments, segments, starts_with_cur_dir};
use crate::storage::{components, has_root, lemma_join_segments, path_starts_with};
use crate::sort::{is_sorted_copy, stable_sort_by_key};
use crate::text::{
    append_str, chars_eq, replace_char, replace_char_exec, chars_start_with, starts_with, str_eq, string_from_chars, string_of,
    to_chars,
};
use crate::time::Timestamp;

verus! {

/// A backup archive as the backup list shows it.
#[derive(Debug)]
pub struct BackupInfo {
    pub file_name: String,
    pub created_at: Timestamp,
    pub size: u64,
    /// Whether it was made by the daily backup.
    pub automatic: bool,
}

impl BackupInfo {
    /// A copy of this entry, field for field.
    pub fn copied(&self) -> (r: BackupInfo)
        ensures
            r == *self,
    {
        BackupInfo {
            file_name: self.file_name.clone(),
            created_at: self.created_at,
            size: self.size,
            automatic: self.automatic,
        }
    }
}

/// The items of the data directory that a backup holds, in order.
pub open spec fn backup_item_names() -> Seq<Seq<char>> {
    seq![
        "metadata.json"@,
        "notes"@,
        "images"@,
        "attachments"@,
        "attachments.json"@,
        "history"@,
        "reminders.json"@,
    ]
}

/// The items of the data directory that a backup holds.
pub fn backup_items() -> (r: Vec<String>)
    ensures
        strings_view(r@) == backup_item_names(),
{
    let mut r: Vec<String> = Vec::new();
    r.push(string_of("metadata.json"));
    r.push(string_of("notes"));
    r.push(string_of("images"));
    r.push(string_of("attachments"));
    r.push(string_of("attachments.json"));
    r.push(string_of("history"));
    r.push(string_of("reminders.json"));
    assert(strings_view(r@) =~= backup_item_names());
    r
}

/// The directory of automatic backups, `backups` in the data directory.
pub fn backup_dir(data_dir: &str) -> (r: String)
    ensures
        r@ == path_join(data_dir@, "backups"@),
{
    join_path(data_dir, "backups")
}

/// The name of an archive entry for a file at `relative` (to the data
/// directory): with `/` between components, also where the system wrote
/// `\`.
pub fn archive_entry_name(relative: &str) -> (r: String)
    ensures
        r@ == replace_char(relative@, '\\', '/'),
{
    let v = to_chars(relative);
    string_from_chars(replace_char_exec(v.as_slice(), '\\', '/').as_slice())
}

/// The name of a backup made with `prefix` at the instant `t`, with the
/// random id `u`: `<prefix>-<%Y%m%d-%H%M%S>-<first 8 of u>.zip`.
pub open spec fn backup_file_name(prefix: Seq<char>, t: Timestamp, u: Seq<char>) -> Seq<char> {
    prefix + "-"@ + utc_format(t.secs, t.nanos, "%Y%m%d-%H%M%S"@) + "-"@ + u.take(8) + ".zip"@
}

/// The name of a new backup: the prefix, the current UTC time to the
/// second, and eight random hexadecimal digits, so that two backups made
/// in the same second do not overwrite each other.
pub fn backup_name(prefix: &str) -> (r: String)
    ensures
        exists|t: Timestamp, u: Seq<char>|
            is_utc_instant(t.secs, t.nanos) && is_hyphenated_uuid(u) && r@ == #[trigger] backup_file_name(
                prefix@,
                t,
                u,
            ),
{
    let now = utc_now();
    backup_name_at(prefix, now)
}

/// The name of a backup made with `prefix` at the instant `now`, with a
/// fresh random id.
fn backup_name_at(prefix: &str, now: Timestamp) -> (r: String)
    requires
        is_utc_instant(now.secs, now.nanos),
    ensures
        exists|u: Seq<char>| is_hyphenated_uuid(u) && r@ == #[trigger] backup_file_name(prefix@, now, u),
{
    let stamp = format_utc(now, "%Y%m%d-%H%M%S");
    let id = new_uuid_v4();
    let idv = to_chars(id.as_str());
    let mut m: Vec<char> = Vec::new();
    append_str(&mut m, prefix);
    append_str(&mut m, "-");
    append_str(&mut m, stamp.as_str());
    append_str(&mut m, "-");
    let mut k: usize = 0;
    while k < 8
        invariant
            k <= 8,
            idv@ == id@,
            idv@.len() == 36,
            m@ == prefix@ + "-"@ + stamp@ + "-"@ + idv@.take(k as int),
        decreases 8 - k,
    {
        m.push(idv[k]);
        k = k + 1;
        assert(idv@.take(k as int) == idv@.take(k - 1).push(idv@[k - 1]));
    }
    append_str(&mut m, ".zip");
    assert(m@ == backup_file_name(prefix@, now, id@));
    string_from_chars(m.as_slice())
}

/// The backup entry of the archive `file_name` (empty when it has no
/// UTF-8 name), last modified at `modified` (the current time when that is
/// unknown), of `size` bytes; it is automatic when its name starts with
/// `auto-`.
pub fn backup_info(file_name: Option<String>, modified: Option<Timestamp>, size: u64) -> (r: BackupInfo)
    ensures
        r.file_name@ == (match file_name {
            Some(n) => n@,
            None => Seq::<char>::empty(),
        }),
        modified matches Some(t) ==> r.created_at == t,
        r.size == size,
        r.automatic == starts_with(r.file_name@, "auto-"@),
{
    let name = match file_name {
        Some(n) => n,
        None => String::new(),
    };
    let created_at = match modified {
        Some(t) => t,
        None => utc_now(),
    };
    let v = to_chars(name.as_str());
    let p = to_chars("auto-");
    let automatic = chars_start_with(v.as_slice(), p.as_slice());
    BackupInfo { file_name: name, created_at, size, automatic }
}

/// The sort keys of backup entries: their times.
pub open spec fn backup_keys(v: Seq<BackupInfo>) -> Seq<(i64, i64)> {
    v.map_values(|b: BackupInfo| b.created_at.key())
}

/// The backups, newest first; backups of the same instant keep their order.
pub fn list_backups(items: Vec<BackupInfo>) -> (r: Vec<BackupInfo>)
    ensures
        is_sorted_copy(r@, items@, backup_keys(items@), true),
{
    let mut keys: Vec<(i64, i64)> = Vec::new();
    let mut i: usize = 0;
    while i < items.len()
        invariant
            i <= items@.len(),
            keys@ == backup_keys(items@.take(i as int)),
        decreases items@.len() - i,
    {
        keys.push(items[i].created_at.sort_key());
        i = i + 1;
        assert(backup_keys(items@.take(i as int)) =~= backup_keys(items@.take(i - 1)).push(
            items@[i - 1].created_at.key(),
        ));
    }
    assert(items@.take(items@.len() as int) == items@);
    let (sorted, _perm) = stable_sort_by_key(items, keys, true);
    sorted
}

/// Whether a file in the backup directory shows that today's automatic
/// backup (`today` as `%Y%m%d`) was made.
pub open spec fn has_daily_backup(names: Seq<String>, today: Seq<char>) -> bool {
    exists|i: int| 0 <= i < names.len() && starts_with(#[trigger] names[i]@, "auto-"@ + today)
}

/// Whether the backup directory, with files `names`, already holds the
/// automatic backup of `today`.
pub fn daily_backup_exists(names: &Vec<String>, today: &str) -> (r: bool)
    ensures
        r == has_daily_backup(names@, today@),
{
    let mut p: Vec<char> = Vec::new();
    append_str(&mut p, "auto-");
    append_str(&mut p, today);
    let mut i: usize = 0;
    while i < names.len()
        invariant
            i <= names@.len(),
            p@ == "auto-"@ + today@,
            forall|k: int| 0 <= k < i ==> !starts_with(#[trigger] names@[k]@, "auto-"@ + today@),
        decreases names@.len() - i,
    {
        let v = to_chars(names[i].as_str());
        if chars_start_with(v.as_slice(), p.as_slice()) {
            return true;
        }
        i = i + 1;
    }
    false
}

/// Whether a file name ends in `.zip`.
pub open spec fn is_zip_name(name: Seq<char>) -> bool {
    extension_of(name) == Some("zip"@)
}

/// The sort key of a modification time; an unknown time sorts before all
/// others.
pub open spec fn modified_key(m: Option<Timestamp>) -> (i64, i64) {
    match m {
        Some(t) => t.key(),
        None => (i64::MIN, -1i64),
    }
}

/// The archives among backup directory entries (name and modification
/// time).
pub open spec fn zip_entries(v: Seq<(String, Option<Timestamp>)>) -> Seq<(String, Option<Timestamp>)> {
    v.filter(|e: (String, Option<Timestamp>)| is_zip_name(e.0@))
}

/// The sort keys of backup directory entries.
pub open spec fn entry_keys(v: Seq<(String, Option<Timestamp>)>) -> Seq<(i64, i64)> {
    v.map_values(|e: (String, Option<Timestamp>)| modified_key(e.1))
}

/// The names of backup directory entries.
pub open spec fn entry_names(v: Seq<(String, Option<Timestamp>)>) -> Seq<Seq<char>> {
    v.map_values(|e: (String, Option<Timestamp>)| e.0@)
}

/// The number of backups kept.
pub open spec fn backup_keep() -> nat {
    30
}

/// The archives to delete so that the newest 30 remain: the `.zip`
/// entries, newest first (unknown times last, equal times in order),
/// after the first 30.
pub fn backups_to_prune(entries: &Vec<(String, Option<Timestamp>)>) -> (r: Vec<String>)
    ensures
        r@.len() == (if zip_entries(entries@).len() > backup_keep() {
            zip_entries(entries@).len() - backup_keep()
        } else {
            0
        }),
        exists|sorted: Seq<(String, Option<Timestamp>)>|
            #[trigger] is_sorted_copy(
                sorted,
                zip_entries(entries@),
                entry_keys(zip_entries(entries@)),
                true,
            ) && strings_view(r@) == entry_names(
                if sorted.len() > backup_keep() {
                    sorted.skip(backup_keep() as int)
                } else {
                    Seq::<(String, Option<Timestamp>)>::empty()
                },
            ),
{
    let ghost all = entries@;
    let mut zips: Vec<(String, Option<Timestamp>)> = Vec::new();
    let mut keys: Vec<(i64, i64)> = Vec::new();
    let zip = to_chars("zip");
    let mut i: usize = 0;
    while i < entries.len()
        invariant
            i <= entries@.len(),
            all == entries@,
            zip@ == "zip"@,
            zips@ == zip_entries(all.take(i as int)),
            keys@ == entry_keys(zips@),
        decreases entries@.len() - i,
    {
        proof {
            reveal_with_fuel(Seq::<_>::filter, 1);
            assert(all.take(i + 1).drop_last() == all.take(i as int));
        }
        let name = to_chars(entries[i].0.as_str());
        let is_zip = match file_extension(name.as_slice()) {
            Some(e) => chars_eq(e.as_slice(), zip.as_slice()),
            None => false,
        };
        if is_zip {
            let key = match entries[i].1 {
                Some(t) => t.sort_key(),
                None => (i64::MIN, -1i64),
            };
            keys.push(key);
            zips.push((entries[i].0.clone(), entries[i].1));
            assert(entry_keys(zips@) =~= entry_keys(zips@.drop_last()).push(
                modified_key(zips@.last().1),
            ));
        }
        i = i + 1;
    }
    assert(all.take(all.len() as int) == all);
    let ghost zv = zips@;
    let (sorted, _perm) = stable_sort_by_key(zips, keys, true);
    let mut r: Vec<String> = Vec::new();
    let mut k: usize = 30;
    if sorted.len() <= 30 {
        assert(strings_view(r@) =~= entry_names(Seq::<(String, Option<Timestamp>)>::empty()));
        return r;
    }
    while k < sorted.len()
        invariant
            30 <= k <= sorted@.len(),
            strings_view(r@) == entry_names(sorted@.subrange(30, k as int)),
            r@.len() == k - 30,
        decreases sorted@.len() - k,
    {
        r.push(sorted[k].0.clone());
        k = k + 1;
        assert(entry_names(sorted@.subrange(30, k as int)) =~= entry_names(
            sorted@.subrange(30, k - 1),
        ).push(sorted@[k - 1].0@));
        assert(strings_view(r@) =~= strings_view(r@.drop_last()).push(r@.last()@));
    }
    assert(sorted@.subrange(30, sorted@.len() as int) == sorted@.skip(30));
    r
}

/// Whether `c` is an ASCII digit.
pub open spec fn is_digit(c: char) -> bool {
    '0' <= c && c <= '9'
}

/// The number that a string of ASCII digits writes.
pub open spec fn decimal_value(d: Seq<char>) -> nat
    decreases d.len(),
{
    if d.len() == 0 {
        0
    } else {
        decimal_value(d.drop_last()) * 10 + ((d.last() as nat) - ('0' as nat)) as nat
    }
}

/// Whether `str::parse::<u8>` accepts `s`: an optional `+`, then at least
/// one ASCII digit, writing a number of at most 255.
pub open spec fn parses_as_u8(s: Seq<char>) -> bool {
    let d = unsigned_digits(s);
    &&& d.len() > 0
    &&& all_digits(d)
    &&& decimal_value(d) <= 255
}

/// `s` without a leading `+`.
pub open spec fn unsigned_digits(s: Seq<char>) -> Seq<char> {
    if s.len() > 0 && s[0] == '+' {
        s.drop_first()
    } else {
        s
    }
}

/// Whether every character of `d` is an ASCII digit.
pub open spec fn all_digits(d: Seq<char>) -> bool {
    forall|i: int| 0 <= i < d.len() ==> is_digit(#[trigger] d[i])
}

/// Whether `s` is accepted as a `u8`.
pub fn parse_u8_ok(s: &[char]) -> (r: bool)
    ensures
        r == parses_as_u8(s@),
{
    let start: usize = if s.len() > 0 && s[0] == '+' {
        1
    } else {
        0
    };
    let ghost d = if s@.len() > 0 && s@[0] == '+' {
        s@.drop_first()
    } else {
        s@
    };
    assert(d == s@.skip(start as int));
    if start == s.len() {
        return false;
    }
    let mut value: u32 = 0;
    let mut i: usize = start;
    assert(d.take(0) == Seq::<char>::empty());
    while i < s.len()
        invariant
            start <= i <= s@.len(),
            d == s@.skip(start as int),
            d == unsigned_digits(s@),
            value <= 255,
            value == decimal_value(d.take(i - start)),
            forall|k: int| 0 <= k < i - start ==> is_digit(#[trigger] d[k]),
        decreases s@.len() - i,
    {
        let c = s[i];
        assert(d[i - start] == c);
        if !('0' <= c && c <= '9') {
            proof {
                let j = i - start;
                assert(0 <= j < d.len());
                assert(!is_digit(d[j]));
                assert(!(forall|k: int| 0 <= k < d.len() ==> is_digit(#[trigger] d[k])));
            }
            assert(!parses_as_u8(s@));
            return false;
        }
        assert(d.take(i - start + 1).drop_last() == d.take(i - start));
        let next: u32 = value * 10 + ((c as u32) - ('0' as u32));
        i = i + 1;
        assert(decimal_value(d.take(i - start)) == next);
        if next > 255 {
            proof {
                if all_digits(d) {
                    lemma_decimal_prefix_bound(d, i - start);
                }
            }
            return false;
        }
        value = next;
    }
    assert(d.take(d.len() as int) == d);
    true
}

/// A number written by digits is at least the number its first digits
/// write.
pub proof fn lemma_decimal_prefix_bound(d: Seq<char>, n: int)
    requires
        0 <= n <= d.len(),
        forall|k: int| 0 <= k < d.len() ==> is_digit(#[trigger] d[k]),
    ensures
        decimal_value(d) >= decimal_value(d.take(n)),
    decreases d.len(),
{
    if n == d.len() {
        assert(d.take(n) == d);
    } else {
        assert(d.drop_last().take(n) == d.take(n));
        assert forall|k: int| 0 <= k < d.drop_last().len() implies is_digit(
            #[trigger] d.drop_last()[k],
        ) by {
            assert(d.drop_last()[k] == d[k]);
        }
        lemma_decimal_prefix_bound(d.drop_last(), n);
    }
}

/// The ASCII upper-case form of `c`.
pub open spec fn ascii_upper(c: char) -> char {
    if 'a' <= c && c <= 'z' {
        ((c as u8) - 32) as char
    } else {
        c
    }
}

/// The part of `s` before its first `.`, in ASCII upper case.
pub open spec fn upper_base(s: Seq<char>) -> Seq<char> {
    let n = if s.contains('.') {
        choose|i: int| 0 <= i < s.len() && s[i] == '.' && forall|j: int| 0 <= j < i ==> s[j] != '.'
    } else {
        s.len() as int
    };
    s.take(n).map_values(|c: char| ascii_upper(c))
}

/// Whether an upper-cased base name is a Windows device name: `CON`,
/// `PRN`, `AUX`, `NUL`, or `COM`/`LPT` followed by a number that parses
/// as a byte.
pub open spec fn is_reserved_base(b: Seq<char>) -> bool {
    ||| b == "CON"@
    ||| b == "PRN"@
    ||| b == "AUX"@
    ||| b == "NUL"@
    ||| (starts_with(b, "COM"@) && b.len() > 3 && parses_as_u8(b.skip(3)))
    ||| (starts_with(b, "LPT"@) && b.len() > 3 && parses_as_u8(b.skip(3)))
}

/// Whether an archive entry name may be extracted inside the staging
/// directory: it is relative and has no `..` component.
pub open spec fn is_contained_entry(name: Seq<char>) -> bool {
    !(name.len() > 0 && name[0] == '/') && !segments(name).contains(".."@)
}

/// Checks the name of a backup entry before it is extracted: it must stay
/// inside the target directory, and its base name (up to the first `.`)
/// must not be a Windows device name, which would make the restore fail.
/// Returns the relative path; fails with `backupUnsafe` otherwise.
pub fn safe_archive_path(name: &str) -> (r: Result<String, AppError>)
    ensures
        !is_contained_entry(name@) ==> (r matches Err(e) && e.wf() && e.code@ == "backupUnsafe"@
            && e.message@ == "备份文件包含不安全路径"@),
        is_contained_entry(name@) && is_reserved_base(upper_base(name@)) ==> (r matches Err(e)
            && e.wf() && e.code@ == "backupUnsafe"@ && e.message@ == "备份文件包含 Windows 保留名称"@),
        is_contained_entry(name@) && !is_reserved_base(upper_base(name@)) ==> (r matches Ok(p)
            && p@ == name@),
{
    let v = to_chars(name);
    let segs = path_segments(v.as_slice());
    let dotdot = to_chars("..");
    let mut bad = v.len() > 0 && v[0] == '/';
    let mut i: usize = 0;
    while i < segs.len()
        invariant
            i <= segs@.len(),
            dotdot@ == ".."@,
            segs@.len() == segments(name@).len(),
            forall|k: int| 0 <= k < segs@.len() ==> #[trigger] segs@[k]@ == segments(name@)[k],
            bad == ((name@.len() > 0 && name@[0] == '/') || exists|k: int|
                0 <= k < i && #[trigger] segments(name@)[k] == ".."@),
        decreases segs@.len() - i,
    {
        if chars_eq(segs[i].as_slice(), dotdot.as_slice()) {
            bad = true;
        }
        i = i + 1;
    }
    assert(bad == !is_contained_entry(name@)) by {
        if segments(name@).contains(".."@) {
            let k = choose|k: int| 0 <= k < segments(name@).len() && segments(name@)[k] == ".."@;
            assert(segments(name@)[k] == ".."@);
        }
    }
    if bad {
        return Err(err("backupUnsafe", "备份文件包含不安全路径"));
    }
    let mut n: usize = 0;
    while n < v.len() && v[n] != '.'
        invariant
            n <= v@.len(),
            v@ == name@,
            forall|j: int| 0 <= j < n ==> v@[j] != '.',
        decreases v@.len() - n,
    {
        n = n + 1;
    }
    let mut b: Vec<char> = Vec::new();
    let mut k: usize = 0;
    while k < n
        invariant
            k <= n <= v@.len(),
            b@ == v@.take(k as int).map_values(|c: char| ascii_upper(c)),
        decreases n - k,
    {
        let c = v[k];
        let u = if 'a' <= c && c <= 'z' {
            ((c as u8) - 32) as char
        } else {
            c
        };
        b.push(u);
        k = k + 1;
        assert(b@ =~= v@.take(k as int).map_values(|c: char| ascii_upper(c)));
    }
    assert(b@ == upper_base(name@)) by {
        if name@.contains('.') {
            let m = choose|i: int|
                0 <= i < name@.len() && name@[i] == '.' && forall|j: int| 0 <= j < i ==> name@[j] != '.';
            assert(m == n as int) by {
                if (m as int) < n as int {
                    assert(v@[m] != '.');
                } else if (m as int) > n as int {
                    assert(name@[n as int] != '.');
                }
            }
        } else {
            if n < v.len() {
                assert(name@.contains(name@[n as int]));
            }
        }
    }
    let com = to_chars("COM");
    let lpt = to_chars("LPT");
    let reserved = str_eq(string_from_chars(b.as_slice()).as_str(), "CON") || str_eq(
        string_from_chars(b.as_slice()).as_str(),
        "PRN",
    ) || str_eq(string_from_chars(b.as_slice()).as_str(), "AUX") || str_eq(
        string_from_chars(b.as_slice()).as_str(),
        "NUL",
    ) || (chars_start_with(b.as_slice(), com.as_slice()) && b.len() > 3 && parse_u8_ok(
        crate::text::slice_chars(b.as_slice(), 3, b.len()).as_slice(),
    )) || (chars_start_with(b.as_slice(), lpt.as_slice()) && b.len() > 3 && parse_u8_ok(
        crate::text::slice_chars(b.as_slice(), 3, b.len()).as_slice(),
    ));
    assert(b@.subrange(3, b@.len() as int) == b@.skip(3));
    if reserved {
        return Err(err("backupUnsafe", "备份文件包含 Windows 保留名称"));
    }
    Ok(string_of(name))
}

/// An entry that passed the check, extracted into a directory, lands
/// inside it: the directory's components come first, and none of the
/// entry's own components is `..`. So a backup cannot write outside the
/// staging directory it is restored into.
pub proof fn lemma_contained_entry_stays_inside(dir: Seq<char>, name: Seq<char>)
    requires
        dir.len() > 0,
        is_contained_entry(name),
    ensures
        components(path_join(dir, name)) == components(dir) + segments(name),
        path_starts_with(path_join(dir, name), dir),
        !segments(name).contains(".."@),
{
    let j = path_join(dir, name);
    lemma_join_segments(dir, name);
    assert(j[0] == dir[0]);
    if dir.len() >= 2 {
        assert(j[1] == dir[1]);
    } else if dir.last() != '/' {
        assert(j[1] == '/');
    }
    assert(has_root(j) == has_root(dir));
    assert(starts_with_cur_dir(j) == starts_with_cur_dir(dir));
    assert(components(j) =~= components(dir) + segments(name));
    assert(components(j).take(components(dir).len() as int) =~= components(dir));
}

/// Whether an archive entry may be extracted: it stays inside the target
/// directory and its base name is no Windows device name.
pub open spec fn is_safe_entry(name: Seq<char>) -> bool {
    is_contained_entry(name) && !is_reserved_base(upper_base(name))
}

/// The message that refuses an unsafe entry name.
pub open spec fn unsafe_entry_message(name: Seq<char>) -> Seq<char> {
    if !is_contained_entry(name) {
        "备份文件包含不安全路径"@
    } else {
        "备份文件包含 Windows 保留名称"@
    }
}

/// Checks every entry name of a backup archive, in order, and reports the
/// first unsafe one as `safe_archive_path` refuses it.
pub fn check_backup_entries(names: &Vec<String>) -> (r: Result<(), AppError>)
    ensures
        r is Ok <==> forall|i: int| 0 <= i < names@.len() ==> is_safe_entry(#[trigger] names@[i]@),
        r matches Err(e) ==> e.wf() && e.code@ == "backupUnsafe"@ && exists|i: int|
            0 <= i < names@.len() && !is_safe_entry(#[trigger] names@[i]@) && (forall|j: int|
                0 <= j < i ==> is_safe_entry(#[trigger] names@[j]@)) && e.message@
                == unsafe_entry_message(names@[i]@),
{
    let mut i: usize = 0;
    while i < names.len()
        invariant
            i <= names@.len(),
            forall|k: int| 0 <= k < i ==> is_safe_entry(#[trigger] names@[k]@),
        decreases names@.len() - i,
    {
        match safe_archive_path(names[i].as_str()) {
            Err(e) => {
                assert(!is_safe_entry(names@[i as int]@));
                return Err(e);
            },
            Ok(_) => {},
        }
        i = i + 1;
    }
    Ok(())
}

/// Whether every entry of an archive may be extracted.
pub open spec fn all_safe_entries(es: Seq<(Seq<char>, bool, u64)>) -> bool {
    forall|i: int| 0 <= i < es.len() ==> is_safe_entry(#[trigger] es[i].0)
}

/// Whether `message` refuses the first entry that may not be extracted.
pub open spec fn refuses_first_unsafe(es: Seq<(Seq<char>, bool, u64)>, message: Seq<char>) -> bool {
    exists|i: int|
        0 <= i < es.len() && !is_safe_entry(#[trigger] es[i].0) && (forall|j: int|
            0 <= j < i ==> is_safe_entry(#[trigger] es[j].0)) && message == unsafe_entry_message(es[i].0)
}

/// The largest entry a backup may expand to: 256 MiB, above every file
/// the notebook writes (attachments are at most 100 MiB).
pub open spec fn max_backup_entry_size() -> int {
    268435456int
}

/// The most that a whole backup may expand to: 16 GiB.
pub open spec fn max_backup_size() -> int {
    17179869184int
}

/// The sum of sizes.
pub open spec fn total_size(sizes: Seq<int>) -> int
    decreases sizes.len(),
{
    if sizes.len() == 0 {
        0
    } else {
        total_size(sizes.drop_last()) + sizes.last()
    }
}

/// The declared sizes of listed entries.
pub open spec fn listed_sizes(es: Seq<(Seq<char>, bool, u64)>) -> Seq<int> {
    es.map_values(|e: (Seq<char>, bool, u64)| e.2 as int)
}

/// Whether the listed entries of an archive stay within the limits: each
/// at most 256 MiB, all together at most 16 GiB.
pub open spec fn sizes_within_limits(es: Seq<(Seq<char>, bool, u64)>) -> bool {
    &&& forall|i: int| 0 <= i < es.len() ==> #[trigger] es[i].2 <= max_backup_entry_size()
    &&& total_size(listed_sizes(es)) <= max_backup_size()
}

/// Lists the entries of a backup archive from its bytes and checks them
/// before anything is extracted: fails with `backupInvalid` when the
/// archive cannot be read, with `backupUnsafe` when an entry name is unsafe
/// (the first such, see `check_backup_entries`), with `backupTooLarge`
/// when an entry would expand past 256 MiB or all of them past 16 GiB;
/// otherwise gives the entries (name, directory or not, declared size), in
/// the archive's order. The bytes of each are then read with
/// `backup_entry_bytes`, which holds the entry to its declared size.
pub fn backup_entries(archive: &[u8]) -> (r: Result<Vec<(String, bool, u64)>, AppError>)
    ensures
        zip_listing_of(archive@) is None <==> (r matches Err(e) && e.code@ == "backupInvalid"@),
        zip_listing_of(archive@) is None ==> (r matches Err(e) && e.wf() && e.message@
            == "备份文件无法读取"@),
        zip_listing_of(archive@) matches Some(es) ==> (!all_safe_entries(es) ==> (r matches Err(e)
            && e.wf() && e.code@ == "backupUnsafe"@ && refuses_first_unsafe(es, e.message@))),
        zip_listing_of(archive@) matches Some(es) ==> (all_safe_entries(es) && !sizes_within_limits(es) ==> (
        r matches Err(e) && e.wf() && e.code@ == "backupTooLarge"@ && e.message@ == "备份文件过大"@)),
        zip_listing_of(archive@) matches Some(es) ==> (all_safe_entries(es) && sizes_within_limits(es) ==> (
        r matches Ok(v) && zip_listing_view(v@) == es)),
{
    let entries = match list_zip(archive) {
        None => {
            return Err(err("backupInvalid", "备份文件无法读取"));
        },
        Some(v) => v,
    };
    let ghost es = zip_listing_view(entries@);
    assert(zip_listing_of(archive@) == Some(es));
    proof {
        reveal_strlit("backupUnsafe");
        reveal_strlit("backupInvalid");
        reveal_strlit("backupTooLarge");
        assert("backupUnsafe"@[6] != "backupInvalid"@[6]);
        assert("backupTooLarge"@[6] != "backupInvalid"@[6]);
    }
    let mut names: Vec<String> = Vec::new();
    let mut i: usize = 0;
    while i < entries.len()
        invariant
            i <= entries@.len(),
            es == zip_listing_view(entries@),
            names@.len() == i,
            forall|k: int| 0 <= k < i ==> #[trigger] names@[k]@ == es[k].0,
        decreases entries@.len() - i,
    {
        names.push(string_of(entries[i].0.as_str()));
        i = i + 1;
    }
    match check_backup_entries(&names) {
        Err(e) => {
            proof {
                let k = choose|k: int|
                    0 <= k < names@.len() && !is_safe_entry(#[trigger] names@[k]@) && (forall|j: int|
                        0 <= j < k ==> is_safe_entry(#[trigger] names@[j]@)) && e.message@
                        == unsafe_entry_message(names@[k]@);
                assert(names@[k]@ == es[k].0);
                assert forall|j: int| 0 <= j < k implies is_safe_entry(#[trigger] es[j].0) by {
                    assert(names@[j]@ == es[j].0);
                    assert(is_safe_entry(names@[j]@));
                }
                assert(!is_safe_entry(es[k].0));
                assert(refuses_first_unsafe(es, e.message@));
                assert(!all_safe_entries(es));
            }
            return Err(e);
        },
        Ok(()) => {},
    }
    assert forall|i: int| 0 <= i < es.len() implies is_safe_entry(#[trigger] es[i].0) by {
        assert(names@[i]@ == es[i].0);
        assert(is_safe_entry(names@[i]@));
    }
    assert(all_safe_entries(es));
    let mut total: u64 = 0;
    let mut j: usize = 0;
    while j < entries.len()
        invariant
            j <= entries@.len(),
            es == zip_listing_view(entries@),
            zip_listing_of(archive@) == Some(es),
            "backupTooLarge"@ != "backupInvalid"@,
            all_safe_entries(es),
            total == total_size(listed_sizes(es.take(j as int))),
            total <= max_backup_size(),
            forall|k: int| 0 <= k < j ==> #[trigger] es[k].2 <= max_backup_entry_size(),
        decreases entries@.len() - j,
    {
        let size = entries[j].2;
        assert(es[j as int].2 == size);
        assert(listed_sizes(es.take(j + 1)).drop_last() =~= listed_sizes(es.take(j as int)));
        assert(listed_sizes(es.take(j + 1)).last() == size as int);
        if size > 268435456 {
            assert(!sizes_within_limits(es));
            return Err(err("backupTooLarge", "备份文件过大"));
        }
        if total + size > 17179869184 {
            proof {
                lemma_total_size_prefix(listed_sizes(es), j + 1);
                assert(listed_sizes(es).take(j + 1) =~= listed_sizes(es.take(j + 1)));
            }
            assert(!sizes_within_limits(es));
            return Err(err("backupTooLarge", "备份文件过大"));
        }
        total = total + size;
        j = j + 1;
    }
    assert(es.take(es.len() as int) =~= es);
    Ok(entries)
}

/// A prefix of nonnegative sizes sums to no more than all of them.
proof fn lemma_total_size_prefix(sizes: Seq<int>, n: int)
    requires
        0 <= n <= sizes.len(),
        forall|i: int| 0 <= i < sizes.len() ==> #[trigger] sizes[i] >= 0,
    ensures
        total_size(sizes.take(n)) <= total_size(sizes),
    decreases sizes.len() - n,
{
    if n < sizes.len() {
        lemma_total_size_prefix(sizes, n + 1);
        assert(sizes.take(n + 1).drop_last() =~= sizes.take(n));
    } else {
        assert(sizes.take(n) =~= sizes);
    }
}

/// Reads the bytes of the entry `index` of a backup archive, whose listing
/// declared `size` bytes: fails with `backupTooLarge` when that is over
/// 256 MiB or the entry expands past it, and with `backupInvalid` when it
/// cannot be read. At most one byte past the declared size is ever
/// decompressed, so an entry that lies about its size cannot flood the
/// disk or memory.
pub fn backup_entry_bytes(archive: &[u8], index: usize, size: u64) -> (r: Result<Vec<u8>, AppError>)
    ensures
        size > max_backup_entry_size() ==> (r matches Err(e) && e.wf() && e.code@ == "backupTooLarge"@
            && e.message@ == "备份文件过大"@),
        size <= max_backup_entry_size() ==> match zip_entry_bytes_of(archive@, index, (size + 1) as u64) {
            None => r matches Err(e) && e.wf() && e.code@ == "backupInvalid"@ && e.message@
                == "备份文件无法读取"@,
            Some(b) => if b.len() > size {
                r matches Err(e) && e.wf() && e.code@ == "backupTooLarge"@ && e.message@ == "备份文件过大"@
            } else {
                r matches Ok(v) && v@ == b
            },
        },
        r matches Ok(v) ==> v@.len() <= size,
{
    if size > 268435456 {
        return Err(err("backupTooLarge", "备份文件过大"));
    }
    match read_zip_entry(archive, index, size + 1) {
        None => Err(err("backupInvalid", "备份文件无法读取")),
        Some(b) => {
            if b.len() as u64 > size {
                Err(err("backupTooLarge", "备份文件过大"))
            } else {
                Ok(b)
            }
        },
    }
}

/// A backup is read back as it was written: when its archive names are
/// safe file names within the size limits, the archive that the zip writer
/// made of them lists as exactly those files (so `backup_entries` accepts
/// it and gives them back) and each entry reads back as its bytes, within
/// its declared size (so `backup_entry_bytes` gives them back).
pub proof fn lemma_backup_reads_back(written: Seq<(Seq<char>, Seq<u8>)>, b: Seq<u8>)
    requires
        zip_listing_of(b) == Some(written_listing(written)),
        forall|i: usize, max: u64|
            i < written.len() ==> #[trigger] zip_entry_bytes_of(b, i, max) == Some(
                first_bytes(written[i as int].1, max),
            ),
        forall|i: int| 0 <= i < written.len() ==> is_safe_entry(#[trigger] written[i].0),
        forall|i: int| 0 <= i < written.len() ==> (#[trigger] written[i]).1.len() <= max_backup_entry_size(),
        total_size(listed_sizes(written_listing(written))) <= max_backup_size(),
    ensures
        all_safe_entries(written_listing(written)),
        sizes_within_limits(written_listing(written)),
        forall|i: usize|
            i < written.len() ==> #[trigger] zip_entry_bytes_of(b, i, (written[i as int].1.len() + 1) as u64)
                == Some(written[i as int].1),
{
    let l = written_listing(written);
    assert forall|i: int| 0 <= i < l.len() implies is_safe_entry(#[trigger] l[i].0) by {
        assert(l[i].0 == written[i].0);
    }
    assert forall|i: int| 0 <= i < l.len() implies #[trigger] l[i].2 <= max_backup_entry_size() by {
        assert(written[i].1.len() <= max_backup_entry_size());
        assert(l[i].2 == written[i].1.len() as u64);
    }
    assert forall|i: usize| i < written.len() implies #[trigger] zip_entry_bytes_of(
        b,
        i,
        (written[i as int].1.len() + 1) as u64,
    ) == Some(written[i as int].1) by {
        assert(written[i as int].1.len() <= max_backup_entry_size());
        let m = (written[i as int].1.len() + 1) as u64;
        assert(zip_entry_bytes_of(b, i, m) == Some(first_bytes(written[i as int].1, m)));
    }
}

/// What a restore can write: entries within the limits, each read back
/// at most its declared size, come to at most 16 GiB in all.
pub proof fn lemma_restore_is_bounded(es: Seq<(Seq<char>, bool, u64)>, read: Seq<int>)
    requires
        sizes_within_limits(es),
        read.len() == es.len(),
        forall|i: int| 0 <= i < es.len() ==> 0 <= #[trigger] read[i] <= es[i].2,
    ensures
        total_size(read) <= max_backup_size(),
{
    lemma_total_size_le(read, listed_sizes(es));
}

/// Sums grow with their terms.
proof fn lemma_total_size_le(a: Seq<int>, b: Seq<int>)
    requires
        a.len() == b.len(),
        forall|i: int| 0 <= i < a.len() ==> #[trigger] a[i] <= b[i],
    ensures
        total_size(a) <= total_size(b),
    decreases a.len(),
{
    if a.len() > 0 {
        lemma_total_size_le(a.drop_last(), b.drop_last());
    }
}

/// The files of a backup as entries of its archive: each path relative
/// to the data directory under its archive name (see
/// `archive_entry_name`), with its bytes, in the same order.
pub open spec fn archive_files(files: Seq<(Seq<char>, Seq<u8>)>) -> Seq<(Seq<char>, Seq<u8>)> {
    files.map_values(|f: (Seq<char>, Seq<u8>)| (replace_char(f.0, '\\', '/'), f.1))
}

/// The bytes of a backup archive of `files`, each a path relative to the
/// data directory with its bytes, in the order the caller lists them (the
/// items of `backup_items`, in that order, with the files of a directory
/// under it): the archive that the zip writer makes of the files under
/// their archive names; fails with `backup` when the writer refuses them.
pub fn backup_archive(files: Vec<(String, Vec<u8>)>) -> (r: Result<Vec<u8>, AppError>)
    ensures
        match zip_archive_of(archive_files(zip_files_view(files@))) {
            Some(b) => r matches Ok(v) && v@ == b,
            None => r matches Err(e) && e.wf() && e.code@ == "backup"@ && e.message@ == "备份写入失败"@,
        },
        r matches Ok(b) ==> ({
            let written = archive_files(zip_files_view(files@));
            (forall|i: int| 0 <= i < written.len() ==> is_file_entry_name(#[trigger] written[i].0)) ==> {
                &&& zip_listing_of(b@) == Some(written_listing(written))
                &&& forall|i: usize, max: u64|
                    i < written.len() ==> #[trigger] zip_entry_bytes_of(b@, i, max) == Some(
                        first_bytes(written[i as int].1, max),
                    )
            }
        }),
{
    let ghost want = archive_files(zip_files_view(files@));
    let ghost orig = files@;
    let n = files.len();
    let mut rest = files;
    let mut named: Vec<(String, Vec<u8>)> = Vec::new();
    let mut i: usize = 0;
    while i < n
        invariant
            n == orig.len(),
            i <= n,
            rest@ == orig.skip(i as int),
            want == archive_files(zip_files_view(orig)),
            zip_files_view(named@) == want.take(i as int),
        decreases n - i,
    {
        let (path, bytes) = rest.remove(0);
        assert(orig.skip(i as int)[0] == orig[i as int]);
        assert(orig.skip(i as int).drop_first() =~= orig.skip(i + 1));
        let name = archive_entry_name(path.as_str());
        let ghost before = zip_files_view(named@);
        named.push((name, bytes));
        assert(zip_files_view(named@) =~= before.push(want[i as int]));
        assert(want.take(i + 1) =~= want.take(i as int).push(want[i as int]));
        i = i + 1;
    }
    assert(want.take(n as int) =~= want);
    assert(zip_files_view(named@) == want);
    assert forall|i: int| 0 <= i < named@.len() implies #[trigger] named@[i].0@ == want[i].0 by {
        assert(zip_files_view(named@)[i] == want[i]);
    }
    assert forall|i: int| 0 <= i < named@.len() implies #[trigger] named@[i].1@ == want[i].1 by {
        assert(zip_files_view(named@)[i] == want[i]);
    }
    match write_zip(&named) {
        Some(b) => Ok(b),
        None => Err(err("backup", "备份写入失败")),
    }
}

/// Whether every entry of a backup's metadata may be used.
pub open spec fn all_notes_safe(notes: Seq<NoteMetadata>) -> bool {
    forall|i: int| 0 <= i < notes.len() ==> (#[trigger] notes[i]).is_safe()
}

/// Whether `m` is the message that refuses the first unsafe entry of a
/// backup's metadata.
pub open spec fn refuses_first_unsafe_note(notes: Seq<NoteMetadata>, m: Seq<char>) -> bool {
    exists|i: int|
        0 <= i < notes.len() && !(#[trigger] notes[i]).is_safe() && (forall|j: int|
            0 <= j < i ==> notes[j].is_safe()) && m == notes[i].error_message()
}

/// Whether `m` is the message that refuses the first unusable entry of a
/// backup's attachment list.
pub open spec fn refuses_first_unusable(atts: Seq<Attachment>, m: Seq<char>) -> bool {
    exists|i: int|
        0 <= i < atts.len() && !is_usable(#[trigger] atts[i]) && (forall|j: int|
            0 <= j < i ==> is_usable(#[trigger] atts[j])) && m == unusable_message(atts[i])
}

fn prefixed(prefix: &str, rest: &str) -> (r: String)
    ensures
        r@ == prefix@ + rest@,
{
    let mut m: Vec<char> = Vec::new();
    append_str(&mut m, prefix);
    append_str(&mut m, rest);
    string_from_chars(m.as_slice())
}

/// Checks the notebook data of an extracted backup before it replaces the
/// current data, given `metadata.json` as read (`None` when it is not
/// valid JSON of metadata) and `attachments.json` when the backup has one
/// (the error when it is not valid JSON of attachments). The metadata must
/// pass `validate_metadata` and the attachments `validate_attachments`;
/// every refusal is `backupInvalid`, with the reason.
pub fn check_restored_data(metadata: Option<MetadataFile>, attachments: Option<Result<Vec<Attachment>, AppError>>) -> (r:
    Result<(), AppError>)
    ensures
        metadata is None ==> (r matches Err(e) && e.wf() && e.code@ == "backupInvalid"@ && e.message@
            == "备份中的 metadata.json 格式无效"@),
        metadata matches Some(m) ==> (!all_notes_safe(m.notes@) ==> (r matches Err(e) && e.wf()
            && e.code@ == "backupInvalid"@ && exists|t: Seq<char>|
            refuses_first_unsafe_note(m.notes@, t) && e.message@ == "备份元数据无效: "@ + t)),
        metadata matches Some(m) ==> (all_notes_safe(m.notes@) ==> match attachments {
            None => r is Ok,
            Some(Err(p)) => r matches Err(e) && e.wf() && e.code@ == "backupInvalid"@ && e.message@
                == "备份附件元数据无效: "@ + p.message@,
            Some(Ok(v)) => if forall|i: int| 0 <= i < v@.len() ==> #[trigger] is_usable(v@[i]) {
                r is Ok
            } else {
                r matches Err(e) && e.wf() && e.code@ == "backupInvalid"@ && exists|t: Seq<char>|
                    refuses_first_unusable(v@, t) && e.message@ == "备份附件元数据无效: "@ + t
            },
        }),
{
    let m = match metadata {
        None => {
            return Err(err("backupInvalid", "备份中的 metadata.json 格式无效"));
        },
        Some(m) => m,
    };
    if let Err(e) = validate_metadata(&m) {
        assert(refuses_first_unsafe_note(m.notes@, e.message@));
        return Err(AppError::new(string_of("backupInvalid"), prefixed("备份元数据无效: ", e.message.as_str())));
    }
    match attachments {
        None => Ok(()),
        Some(Err(p)) => Err(AppError::new(string_of("backupInvalid"), prefixed("备份附件元数据无效: ", p.message.as_str()))),
        Some(Ok(v)) => {
            if let Err(e) = validate_attachments(&v) {
                assert(refuses_first_unusable(v@, e.message@));
                return Err(AppError::new(string_of("backupInvalid"), prefixed("备份附件元数据无效: ", e.message.as_str())));
            }
            Ok(())
        },
    }
}

/// Checks that an extracted backup holds notes: `metadata.json` as a file
/// and `notes` as a directory; fails with `backupInvalid` otherwise.
pub fn check_restored_layout(has_metadata_file: bool, has_notes_dir: bool) -> (r: Result<(), AppError>)
    ensures
        r is Ok <==> has_metadata_file && has_notes_dir,
        r matches Err(e) ==> e.wf() && e.code@ == "backupInvalid"@ && e.message@ == "备份缺少笔记数据"@,
{
    if !has_metadata_file || !has_notes_dir {
        return Err(err("backupInvalid", "备份缺少笔记数据"));
    }
    Ok(())
}

impl NoteStore {
    /// The backups, newest first, as `list_backups` orders them.
    pub fn list_backups(&self, items: Vec<BackupInfo>) -> (r: Vec<BackupInfo>)
        ensures
            is_sorted_copy(r@, items@, backup_keys(items@), true),
    {
        list_backups(items)
    }

    /// Decides the daily backup, given the names of the files in the
    /// backup directory: none is due when today's automatic backup (by the
    /// UTC date) is there; otherwise the name of the new automatic backup,
    /// stamped with the same instant that decided the day.
    pub fn ensure_daily_backup(&self, names: &Vec<String>) -> (r: Option<String>)
        ensures
            exists|t: Timestamp|
                #![trigger is_utc_instant(t.secs, t.nanos)]
                is_utc_instant(t.secs, t.nanos) && (r is None <==> has_daily_backup(
                    names@,
                    utc_format(t.secs, t.nanos, "%Y%m%d"@),
                )) && (r matches Some(n) ==> exists|u: Seq<char>|
                    is_hyphenated_uuid(u) && n@ == #[trigger] backup_file_name("auto"@, t, u)),
    {
        let now = utc_now();
        let today = format_utc(now, "%Y%m%d");
        if daily_backup_exists(names, today.as_str()) {
            None
        } else {
            Some(backup_name_at("auto", now))
        }
    }
}

} // verus!
