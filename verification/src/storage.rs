//! Where the notebook keeps its data, and which directories may hold it.
//!
//! Paths are compared by their components, as `Path` compares them: a
//! root, a leading `.`, then the named components.

use vstd::prelude::*;

use crate::error::AppError;
use crate::notes::{strings_view, MetadataFile, NoteMetadata, NoteStore};
use crate::outside::{lowercase_of, to_lowercase};
use crate::paths::{
    file_name_chars, file_name_of, is_safe_component, join_path, kept_piece, path_join, path_segments,
    segments, split_path, starts_with_cur_dir,
};
use crate::text::{
    append_chars, append_str, chars_eq, chars_start_with, join, starts_with, str_eq, string_from_chars, string_of,
    to_chars, trim, trim_chars,
};

verus! {

/// The characters of an optional string.
pub open spec fn opt_view(o: Option<String>) -> Option<Seq<char>> {
    match o {
        Some(s) => Some(s@),
        None => None,
    }
}

/// The directories where earlier versions kept the notebook, for the given
/// home directory and Windows user profile: `Documents/花笺` and
/// `Library/Application Support/花笺` under the home, `Documents/花笺`
/// under the profile.
pub open spec fn migration_candidates(home: Option<Seq<char>>, profile: Option<Seq<char>>) -> Seq<
    Seq<char>,
> {
    (match home {
        Some(h) => seq![
            path_join(path_join(h, "Documents"@), "花笺"@),
            path_join(path_join(path_join(h, "Library"@), "Application Support"@), "花笺"@),
        ],
        None => seq![],
    }) + (match profile {
        Some(p) => seq![path_join(path_join(p, "Documents"@), "花笺"@)],
        None => seq![],
    })
}

/// The directories to look in for the data of earlier versions.
pub fn known_data_migration_candidates_for(home: Option<String>, userprofile: Option<String>) -> (r:
    Vec<String>)
    ensures
        strings_view(r@) == migration_candidates(opt_view(home), opt_view(userprofile)),
{
    let mut r: Vec<String> = Vec::new();
    let ghost h = opt_view(home);
    let ghost p = opt_view(userprofile);
    if let Some(home) = home {
        let docs = join_path(home.as_str(), "Documents");
        r.push(join_path(docs.as_str(), "花笺"));
        let lib = join_path(home.as_str(), "Library");
        let support = join_path(lib.as_str(), "Application Support");
        r.push(join_path(support.as_str(), "花笺"));
    }
    if let Some(profile) = userprofile {
        let docs = join_path(profile.as_str(), "Documents");
        r.push(join_path(docs.as_str(), "花笺"));
    }
    assert(strings_view(r@) == migration_candidates(h, p));
    r
}

/// The directory an environment variable names: its value without
/// surrounding whitespace; nothing when it is unset or blank.
pub open spec fn env_dir_of(value: Option<Seq<char>>) -> Option<Seq<char>> {
    match value {
        Some(v) => if trim(v).len() > 0 {
            Some(trim(v))
        } else {
            None
        },
        None => None,
    }
}

/// The directory named by the value of an environment variable.
pub fn dir_from_env(value: Option<String>) -> (r: Option<String>)
    ensures
        opt_view(r) == env_dir_of(opt_view(value)),
{
    match value {
        Some(v) => {
            let c = to_chars(v.as_str());
            let t = trim_chars(c.as_slice());
            if t.len() > 0 {
                Some(string_from_chars(t.as_slice()))
            } else {
                None
            }
        },
        None => None,
    }
}

/// The data directory a configuration file names: its `dataDir`, or else
/// the one that its older `notesDir` implies.
pub open spec fn configured_data_dir(data_dir: Option<Seq<char>>, notes_dir: Option<Seq<char>>) -> Option<
    Seq<char>,
> {
    match data_dir {
        Some(d) => Some(d),
        None => match notes_dir {
            Some(n) => Some(data_dir_of_notes_dir(n)),
            None => None,
        },
    }
}

/// The data directory named by the `dataDir` and `notesDir` settings of a
/// configuration file.
pub fn data_dir_from_config(data_dir: Option<String>, notes_dir: Option<String>) -> (r: Option<String>)
    ensures
        opt_view(r) == configured_data_dir(opt_view(data_dir), opt_view(notes_dir)),
{
    match data_dir {
        Some(d) => Some(d),
        None => match notes_dir {
            Some(n) => Some(data_dir_from_notes_dir(n.as_str())),
            None => None,
        },
    }
}

/// What was found in a directory of an older installation: the directory,
/// and, when it holds a `config.json`, the data directory that file names
/// (nothing when it names none or cannot be read).
pub open spec fn candidate_view(c: (String, Option<Option<String>>)) -> (Seq<char>, Option<Option<Seq<char>>>) {
    (c.0@, match c.1 {
        Some(named) => Some(opt_view(named)),
        None => None,
    })
}

pub open spec fn candidate_views(v: Seq<(String, Option<Option<String>>)>) -> Seq<
    (Seq<char>, Option<Option<Seq<char>>>),
> {
    v.map_values(|c: (String, Option<Option<String>>)| candidate_view(c))
}

/// The data directory of the first older installation that has a
/// configuration file: the directory that file names, or else the
/// installation's own directory.
pub open spec fn candidate_data_dir(cands: Seq<(Seq<char>, Option<Option<Seq<char>>>)>) -> Option<Seq<char>>
    decreases cands.len(),
{
    if cands.len() == 0 {
        None
    } else {
        match cands[0].1 {
            None => candidate_data_dir(cands.drop_first()),
            Some(named) => match named {
                Some(d) => Some(d),
                None => Some(cands[0].0),
            },
        }
    }
}

/// Where the notebook's data is, in order: the directory the environment
/// names, the one the current configuration names, the one an older
/// installation gives; nothing when none of them decides, and the
/// platform's default then applies.
pub open spec fn resolved_data_dir(
    env_value: Option<Seq<char>>,
    configured: Option<Seq<char>>,
    cands: Seq<(Seq<char>, Option<Option<Seq<char>>>)>,
) -> Option<Seq<char>> {
    match env_dir_of(env_value) {
        Some(d) => Some(d),
        None => match configured {
            Some(d) => Some(d),
            None => candidate_data_dir(cands),
        },
    }
}

/// Chooses the data directory from the value of the data-directory
/// environment variable, the directory the current configuration names
/// (nothing when it has none or names none), and the older installations.
pub fn resolve_data_dir_from(
    env_value: Option<String>,
    configured: Option<String>,
    candidates: &Vec<(String, Option<Option<String>>)>,
) -> (r: Option<String>)
    ensures
        opt_view(r) == resolved_data_dir(opt_view(env_value), opt_view(configured), candidate_views(candidates@)),
{
    if let Some(d) = dir_from_env(env_value) {
        return Some(d);
    }
    if let Some(d) = configured {
        return Some(d);
    }
    let ghost all = candidate_views(candidates@);
    assert(all.skip(0) =~= all);
    let mut i: usize = 0;
    while i < candidates.len()
        invariant
            i <= candidates@.len(),
            all == candidate_views(candidates@),
            candidate_data_dir(all) == candidate_data_dir(all.skip(i as int)),
            env_dir_of(opt_view(env_value)) is None,
            configured is None,
        decreases candidates@.len() - i,
    {
        let ghost rest = all.skip(i as int);
        assert(rest[0] == candidate_view(candidates@[i as int]));
        match &candidates[i].1 {
            Some(named) => {
                assert(rest.len() > 0);
                assert(rest[0].1 == Some(opt_view(*named)));
                assert(rest[0].0 == candidates@[i as int].0@);
                let r = match named {
                    Some(d) => Some(string_of(d.as_str())),
                    None => Some(string_of(candidates[i].0.as_str())),
                };
                assert(opt_view(r) == candidate_data_dir(rest));
                return r;
            },
            None => {},
        }
        assert(rest.drop_first() =~= all.skip(i + 1));
        i = i + 1;
    }
    assert(all.skip(i as int) =~= Seq::<(Seq<char>, Option<Option<Seq<char>>>)>::empty());
    None
}

/// The platform's default data directory: the environment's choice, else
/// `花笺` in the application-data directory on macOS, else `花笺` in the
/// documents directory, else `data` in the working directory; nothing only
/// when the working directory is needed and unknown.
pub open spec fn default_data_dir_of(
    env_value: Option<Seq<char>>,
    macos: bool,
    app_data: Option<Seq<char>>,
    documents: Option<Seq<char>>,
    cwd: Option<Seq<char>>,
) -> Option<Seq<char>> {
    match env_dir_of(env_value) {
        Some(d) => Some(d),
        None => if macos && app_data is Some {
            Some(path_join(app_data->0, "花笺"@))
        } else {
            match documents {
                Some(d) => Some(path_join(d, "花笺"@)),
                None => match cwd {
                    Some(c) => Some(path_join(c, "data"@)),
                    None => None,
                },
            }
        },
    }
}

/// Chooses the default data directory from the environment variable, the
/// platform, and the system's directories.
pub fn default_data_dir_from(
    env_value: Option<String>,
    macos: bool,
    app_data: Option<String>,
    documents: Option<String>,
    cwd: Option<String>,
) -> (r: Option<String>)
    ensures
        opt_view(r) == default_data_dir_of(opt_view(env_value), macos, opt_view(app_data), opt_view(documents), opt_view(cwd)),
{
    if let Some(d) = dir_from_env(env_value) {
        return Some(d);
    }
    if macos {
        if let Some(a) = app_data {
            return Some(join_path(a.as_str(), "花笺"));
        }
    }
    match documents {
        Some(d) => Some(join_path(d.as_str(), "花笺")),
        None => match cwd {
            Some(c) => Some(join_path(c.as_str(), "data")),
            None => None,
        },
    }
}

/// The configuration directory: the environment's choice, else
/// `floral-notepaper` in the system's configuration directory, else in the
/// working directory; nothing only when the working directory is needed
/// and unknown.
pub open spec fn default_config_dir_of(
    env_value: Option<Seq<char>>,
    config_home: Option<Seq<char>>,
    cwd: Option<Seq<char>>,
) -> Option<Seq<char>> {
    match env_dir_of(env_value) {
        Some(d) => Some(d),
        None => match config_home {
            Some(h) => Some(path_join(h, "floral-notepaper"@)),
            None => match cwd {
                Some(c) => Some(path_join(c, "floral-notepaper"@)),
                None => None,
            },
        },
    }
}

/// Chooses the configuration directory from the environment variable and
/// the system's directories.
pub fn default_config_dir_from(env_value: Option<String>, config_home: Option<String>, cwd: Option<String>) -> (r:
    Option<String>)
    ensures
        opt_view(r) == default_config_dir_of(opt_view(env_value), opt_view(config_home), opt_view(cwd)),
{
    if let Some(d) = dir_from_env(env_value) {
        return Some(d);
    }
    match config_home {
        Some(h) => Some(join_path(h.as_str(), "floral-notepaper")),
        None => match cwd {
            Some(c) => Some(join_path(c.as_str(), "floral-notepaper")),
            None => None,
        },
    }
}

/// `s` without trailing `/` and `\`.
pub open spec fn trim_end_seps(s: Seq<char>) -> Seq<char>
    decreases s.len(),
{
    if s.len() > 0 && (s.last() == '/' || s.last() == '\\') {
        trim_end_seps(s.drop_last())
    } else {
        s
    }
}

/// Whether `c` is an ASCII letter.
pub open spec fn is_ascii_alpha(c: char) -> bool {
    ('a' <= c && c <= 'z') || ('A' <= c && c <= 'Z')
}

/// Whether a path names the root of a file system: nothing but separators,
/// or a drive such as `C:` followed by separators.
pub open spec fn is_root_path(p: Seq<char>) -> bool {
    let t = trim_end_seps(p);
    t.len() == 0 || (t.len() == 2 && is_ascii_alpha(t[0]) && t[1] == ':')
}

/// Whether a path names the root of a file system.
pub fn is_filesystem_root(path: &str) -> (r: bool)
    ensures
        r == is_root_path(path@),
{
    let v = to_chars(path);
    let mut n: usize = v.len();
    assert(v@.take(v@.len() as int) == v@);
    while n > 0 && (v[n - 1] == '/' || v[n - 1] == '\\')
        invariant
            n <= v@.len(),
            trim_end_seps(v@.take(n as int)) == trim_end_seps(v@),
        decreases n,
    {
        assert(v@.take(n - 1) == v@.take(n as int).drop_last());
        n = n - 1;
    }
    assert(v@.take(v@.len() as int) == v@);
    assert(trim_end_seps(v@.take(n as int)) == v@.take(n as int));
    if n == 0 {
        return true;
    }
    n == 2 && (('a' <= v[0] && v[0] <= 'z') || ('A' <= v[0] && v[0] <= 'Z')) && v[1] == ':'
}

/// Whether `s` ends with `x`.
pub open spec fn ends_with(s: Seq<char>, x: Seq<char>) -> bool {
    x.len() <= s.len() && s.skip(s.len() - x.len()) == x
}

/// Whether a lower-cased path ends in one of the Windows system
/// directories, which must never hold notes.
pub open spec fn is_blocked_system_dir(lowered: Seq<char>) -> bool {
    ||| ends_with(lowered, "\\windows"@)
    ||| ends_with(lowered, "\\program files"@)
    ||| ends_with(lowered, "\\program files (x86)"@)
    ||| ends_with(lowered, "\\system32"@)
    ||| ends_with(lowered, "\\syswow64"@)
}

fn chars_end_with(v: &[char], x: &str) -> (r: bool)
    ensures
        r == ends_with(v@, x@),
{
    let w = to_chars(x);
    if w.len() > v.len() {
        return false;
    }
    let start = v.len() - w.len();
    let mut i: usize = 0;
    while i < w.len()
        invariant
            i <= w@.len(),
            w@ == x@,
            start + w@.len() == v@.len(),
            v@.len() == v.len(),
            forall|k: int| 0 <= k < i ==> v@[start + k] == w@[k],
        decreases w@.len() - i,
    {
        if v[start + i] != w[i] {
            assert(v@.skip(start as int)[i as int] != w@[i as int]);
            return false;
        }
        i = i + 1;
    }
    assert(v@.skip(start as int) == w@);
    true
}

/// Whether a lower-cased path names a Windows system directory.
pub fn blocked_system_dir(lowered: &str) -> (r: bool)
    ensures
        r == is_blocked_system_dir(lowered@),
{
    let v = to_chars(lowered);
    chars_end_with(v.as_slice(), "\\windows") || chars_end_with(v.as_slice(), "\\program files")
        || chars_end_with(v.as_slice(), "\\program files (x86)") || chars_end_with(
        v.as_slice(),
        "\\system32",
    ) || chars_end_with(v.as_slice(), "\\syswow64")
}

/// Whether a path has an ordinary named component (one other than `..`).
pub open spec fn has_normal_component(p: Seq<char>) -> bool {
    exists|i: int| 0 <= i < segments(p).len() && #[trigger] segments(p)[i] != ".."@
}

/// Why a directory may not hold the notebook's data, if it may not: it is
/// a file-system root, a Windows system directory, or has no named
/// component at all.
pub open spec fn data_dir_problem(p: Seq<char>) -> Option<Seq<char>> {
    if is_root_path(p) {
        Some("不能将磁盘根目录设为数据目录，请选择一个子文件夹"@)
    } else if is_blocked_system_dir(lowercase_of(p)) {
        Some("不能将系统目录「"@ + p + "」设为数据目录"@)
    } else if !has_normal_component(p) {
        Some("数据目录路径不合法，请选择一个具体的文件夹"@)
    } else {
        None
    }
}

fn unsafe_path(message: Vec<char>) -> (e: AppError)
    ensures
        e.wf(),
        e.code@ == "unsafePath"@,
        e.message@ == message@,
        e.details@.len() == 0,
{
    AppError::new(string_of("unsafePath"), string_from_chars(message.as_slice()))
}

/// Checks that a directory may hold the notebook's data; fails with
/// `unsafePath` and the reason otherwise.
pub fn is_safe_data_dir(path: &str) -> (r: Result<(), AppError>)
    ensures
        r is Ok <==> data_dir_problem(path@) is None,
        r matches Err(e) ==> e.wf() && e.code@ == "unsafePath"@ && data_dir_problem(path@) == Some(
            e.message@,
        ) && e.details@.len() == 0,
{
    if is_filesystem_root(path) {
        let mut m: Vec<char> = Vec::new();
        append_str(&mut m, "不能将磁盘根目录设为数据目录，请选择一个子文件夹");
        return Err(unsafe_path(m));
    }
    let lowered = to_lowercase(path);
    if blocked_system_dir(lowered.as_str()) {
        let mut m: Vec<char> = Vec::new();
        append_str(&mut m, "不能将系统目录「");
        append_str(&mut m, path);
        append_str(&mut m, "」设为数据目录");
        return Err(unsafe_path(m));
    }
    let v = to_chars(path);
    let segs = path_segments(v.as_slice());
    let dotdot = to_chars("..");
    let mut i: usize = 0;
    while i < segs.len()
        invariant
            i <= segs@.len(),
            segs@.len() == segments(path@).len(),
            forall|k: int| 0 <= k < segs@.len() ==> #[trigger] segs@[k]@ == segments(path@)[k],
            dotdot@ == ".."@,
            !is_root_path(path@),
            !is_blocked_system_dir(lowercase_of(path@)),
            forall|k: int| 0 <= k < i ==> #[trigger] segments(path@)[k] == ".."@,
        decreases segs@.len() - i,
    {
        if !chars_eq(segs[i].as_slice(), dotdot.as_slice()) {
            assert(segs@[i as int]@ == segments(path@)[i as int]);
            return Ok(());
        }
        i = i + 1;
    }
    let mut m: Vec<char> = Vec::new();
    append_str(&mut m, "数据目录路径不合法，请选择一个具体的文件夹");
    Err(unsafe_path(m))
}

/// Whether a path begins at the root.
pub open spec fn has_root(p: Seq<char>) -> bool {
    p.len() > 0 && p[0] == '/'
}

/// The components of a path as `Path::components` yields them: `/` for
/// the root, `.` for a leading current directory, then the named ones.
pub open spec fn components(p: Seq<char>) -> Seq<Seq<char>> {
    (if has_root(p) {
        seq![seq!['/']]
    } else {
        Seq::<Seq<char>>::empty()
    }) + (if starts_with_cur_dir(p) {
        seq![seq!['.']]
    } else {
        Seq::<Seq<char>>::empty()
    }) + segments(p)
}

/// Whether two paths are equal as `Path`s: component by component.
pub open spec fn same_path(a: Seq<char>, b: Seq<char>) -> bool {
    components(a) == components(b)
}

/// Whether `p` lies at or under `base`, as `Path::starts_with` decides:
/// the components of `base` begin those of `p`.
pub open spec fn path_starts_with(p: Seq<char>, base: Seq<char>) -> bool {
    let b = components(base);
    let c = components(p);
    b.len() <= c.len() && c.take(b.len() as int) == b
}

/// The components of a path.
pub fn path_components(s: &str) -> (r: Vec<Vec<char>>)
    ensures
        r@.len() == components(s@).len(),
        forall|i: int| 0 <= i < r@.len() ==> #[trigger] r@[i]@ == components(s@)[i],
{
    let v = to_chars(s);
    let segs = path_segments(v.as_slice());
    let mut r: Vec<Vec<char>> = Vec::new();
    let ghost mut head: Seq<Seq<char>> = seq![];
    if v.len() > 0 && v[0] == '/' {
        r.push(vec!['/']);
        proof {
            head = head.push(seq!['/']);
        }
    }
    if v.len() > 0 && v[0] == '.' && (v.len() == 1 || v[1] == '/') {
        r.push(vec!['.']);
        proof {
            head = head.push(seq!['.']);
        }
    }
    assert(head == (if has_root(s@) {
        seq![seq!['/']]
    } else {
        Seq::<Seq<char>>::empty()
    }) + (if starts_with_cur_dir(s@) {
        seq![seq!['.']]
    } else {
        Seq::<Seq<char>>::empty()
    }));
    let n = r.len();
    let mut i: usize = 0;
    while i < segs.len()
        invariant
            i <= segs@.len(),
            n == head.len(),
            segs@.len() == segments(s@).len(),
            forall|k: int| 0 <= k < segs@.len() ==> #[trigger] segs@[k]@ == segments(s@)[k],
            r@.len() == n + i,
            forall|k: int| 0 <= k < n ==> #[trigger] r@[k]@ == head[k],
            forall|k: int| n <= k < n + i ==> #[trigger] r@[k]@ == segments(s@)[k - n],
        decreases segs@.len() - i,
    {
        let mut c: Vec<char> = Vec::new();
        crate::text::append_chars(&mut c, segs[i].as_slice());
        r.push(c);
        i = i + 1;
    }
    assert forall|i: int| 0 <= i < r@.len() implies #[trigger] r@[i]@ == components(s@)[i] by {
        if i < n {
        } else {
        }
    }
    r
}

fn components_prefix(b: &Vec<Vec<char>>, c: &Vec<Vec<char>>) -> (r: bool)
    ensures
        r == (b@.len() <= c@.len() && forall|k: int| 0 <= k < b@.len() ==> #[trigger] b@[k]@ == c@[k]@),
{
    if b.len() > c.len() {
        return false;
    }
    let mut i: usize = 0;
    while i < b.len()
        invariant
            i <= b@.len(),
            b@.len() <= c@.len(),
            forall|k: int| 0 <= k < i ==> #[trigger] b@[k]@ == c@[k]@,
        decreases b@.len() - i,
    {
        if !chars_eq(b[i].as_slice(), c[i].as_slice()) {
            return false;
        }
        i = i + 1;
    }
    true
}

/// Whether two paths are equal as `Path`s.
pub fn paths_equal(a: &str, b: &str) -> (r: bool)
    ensures
        r == same_path(a@, b@),
{
    let x = path_components(a);
    let y = path_components(b);
    let r = x.len() == y.len() && components_prefix(&x, &y);
    if r {
        assert forall|k: int| 0 <= k < components(a@).len() implies components(a@)[k]
            == components(b@)[k] by {
            assert(x@[k]@ == y@[k]@);
        }
        assert(components(a@) =~= components(b@));
    } else if x.len() == y.len() {
        assert(components(a@) != components(b@)) by {
            let k = choose|k: int| 0 <= k < x@.len() && !(#[trigger] x@[k]@ == y@[k]@);
            assert(components(a@)[k] != components(b@)[k]);
        }
    }
    r
}

/// Whether `p` lies at or under `base`.
pub fn path_has_prefix(p: &str, base: &str) -> (r: bool)
    ensures
        r == path_starts_with(p@, base@),
{
    let x = path_components(base);
    let y = path_components(p);
    let r = components_prefix(&x, &y);
    if r {
        assert forall|k: int| 0 <= k < components(base@).len() implies components(p@).take(
            x@.len() as int,
        )[k] == components(base@)[k] by {
            assert(x@[k]@ == y@[k]@);
        }
        assert(components(p@).take(x@.len() as int) =~= components(base@));
    } else if x.len() <= y.len() {
        assert(components(p@).take(x@.len() as int) != components(base@)) by {
            let k = choose|k: int| 0 <= k < x@.len() && !(#[trigger] x@[k]@ == y@[k]@);
            assert(components(p@).take(x@.len() as int)[k] != components(base@)[k]);
        }
    }
    r
}

/// The name of the marker that records a handled shortcut migration.
pub open spec fn shortcut_marker() -> Seq<char> {
    ".macos-shortcut-default-v3"@
}

/// Whether a directory listing (names; `None` for a name that is not
/// UTF-8) shows user data: any entry but `config.json` and the shortcut
/// marker, which belong to the configuration.
pub open spec fn shows_user_data(names: Seq<Option<String>>) -> bool {
    exists|i: int|
        0 <= i < names.len() && match #[trigger] names[i] {
            None => true,
            Some(n) => n@ != "config.json"@ && n@ != shortcut_marker(),
        }
}

/// Whether a data directory with these entries already holds user data.
pub fn has_user_data(names: &Vec<Option<String>>) -> (r: bool)
    ensures
        r == shows_user_data(names@),
{
    let mut i: usize = 0;
    while i < names.len()
        invariant
            i <= names@.len(),
            forall|k: int|
                0 <= k < i ==> match #[trigger] names@[k] {
                    None => false,
                    Some(n) => n@ == "config.json"@ || n@ == shortcut_marker(),
                },
        decreases names@.len() - i,
    {
        match &names[i] {
            None => {
                return true;
            },
            Some(n) => {
                if !str_eq(n.as_str(), "config.json") && !str_eq(
                    n.as_str(),
                    ".macos-shortcut-default-v3",
                ) {
                    return true;
                }
            },
        }
        i = i + 1;
    }
    false
}

impl NoteStore {
    /// Decides a move of the notebook's data to `new_data_dir`, given both
    /// directories in canonical form. The target must be a safe data
    /// directory (else `unsafePath` with the reason); the same directory
    /// needs no move (`None`); a target inside the current data directory
    /// is refused with `unsafePath`; otherwise the store for the new place
    /// is returned, with the same configuration directory.
    pub fn migrate_data_to(&self, new_data_dir: &str, canonical_new: &str, canonical_current: &str) -> (r:
        Result<Option<NoteStore>, AppError>)
        ensures
            data_dir_problem(new_data_dir@) matches Some(m) ==> (r matches Err(e) && e.wf()
                && e.code@ == "unsafePath"@ && e.message@ == m),
            data_dir_problem(new_data_dir@) is None && same_path(canonical_new@, canonical_current@)
                ==> r matches Ok(None),
            data_dir_problem(new_data_dir@) is None && !same_path(canonical_new@, canonical_current@)
                && path_starts_with(canonical_new@, canonical_current@) ==> (r matches Err(e)
                && e.wf() && e.code@ == "unsafePath"@ && e.message@
                == "新数据目录不能位于当前数据目录内部，请选择其他位置"@),
            data_dir_problem(new_data_dir@) is None && !same_path(canonical_new@, canonical_current@)
                && !path_starts_with(canonical_new@, canonical_current@) ==> (r matches Ok(Some(s))
                && s.config_dir@ == self.config_dir@ && s.data_dir@ == new_data_dir@),
    {
        match is_safe_data_dir(new_data_dir) {
            Err(e) => {
                return Err(e);
            },
            Ok(()) => {},
        }
        if paths_equal(canonical_new, canonical_current) {
            return Ok(None);
        }
        if path_has_prefix(canonical_new, canonical_current) {
            let mut m: Vec<char> = Vec::new();
            append_str(&mut m, "新数据目录不能位于当前数据目录内部，请选择其他位置");
            return Err(unsafe_path(m));
        }
        Ok(Some(NoteStore::new(self.config_dir.clone(), string_of(new_data_dir))))
    }
}

/// The items of a data directory that hold user data, in the order they
/// are copied when the data moves. The SQLite index is not among them: it
/// is rebuilt from these.
pub open spec fn data_dir_item_names() -> Seq<Seq<char>> {
    seq![
        "metadata.json"@,
        "notes"@,
        "images"@,
        "attachments"@,
        "attachments.json"@,
        "backgrounds"@,
        "history"@,
        "reminders.json"@,
        "search-index.json"@,
    ]
}

/// The items of a data directory that hold user data.
pub fn data_dir_items() -> (r: Vec<String>)
    ensures
        strings_view(r@) == data_dir_item_names(),
{
    let mut r: Vec<String> = Vec::new();
    r.push(string_of("metadata.json"));
    r.push(string_of("notes"));
    r.push(string_of("images"));
    r.push(string_of("attachments"));
    r.push(string_of("attachments.json"));
    r.push(string_of("backgrounds"));
    r.push(string_of("history"));
    r.push(string_of("reminders.json"));
    r.push(string_of("search-index.json"));
    assert(strings_view(r@) =~= data_dir_item_names());
    r
}

/// The files of the derived SQLite index, removed once data has moved.
pub fn derived_db_items() -> (r: Vec<String>)
    ensures
        strings_view(r@) == seq!["floral.db"@, "floral.db-wal"@, "floral.db-shm"@],
{
    let mut r: Vec<String> = Vec::new();
    r.push(string_of("floral.db"));
    r.push(string_of("floral.db-wal"));
    r.push(string_of("floral.db-shm"));
    assert(strings_view(r@) =~= seq!["floral.db"@, "floral.db-wal"@, "floral.db-shm"@]);
    r
}

/// The items that earlier versions kept in their base directory whatever
/// the notes directory was; they move along with the data.
pub fn legacy_aux_items() -> (r: Vec<String>)
    ensures
        strings_view(r@) == seq!["metadata.json"@, "images"@, "backgrounds"@],
{
    let mut r: Vec<String> = Vec::new();
    r.push(string_of("metadata.json"));
    r.push(string_of("images"));
    r.push(string_of("backgrounds"));
    assert(strings_view(r@) =~= seq!["metadata.json"@, "images"@, "backgrounds"@]);
    r
}

/// Where a note that an earlier version kept loose in `data_dir` (at the
/// top for no category, else in the category's directory) lies, and
/// where it belongs under `notes/`.
pub open spec fn loose_move(data_dir: Seq<char>, m: NoteMetadata) -> (Seq<char>, Seq<char>) {
    let notes = path_join(data_dir, "notes"@);
    if m.category@.len() == 0 {
        (path_join(data_dir, m.file_name@), path_join(notes, m.file_name@))
    } else {
        (
            path_join(path_join(data_dir, m.category@), m.file_name@),
            path_join(path_join(notes, m.category@), m.file_name@),
        )
    }
}

/// The moves that put the loose notes of an earlier version, as its
/// metadata lists them, under `notes/`, in metadata order. Each is done
/// only when its source is a file and its target is free.
pub fn loose_note_moves(data_dir: &str, metadata: &MetadataFile) -> (r: Vec<(String, String)>)
    ensures
        r@.len() == metadata.notes@.len(),
        forall|i: int|
            0 <= i < r@.len() ==> (#[trigger] r@[i]).0@ == loose_move(data_dir@, metadata.notes@[i]).0
                && r@[i].1@ == loose_move(data_dir@, metadata.notes@[i]).1,
{
    let notes = join_path(data_dir, "notes");
    let mut r: Vec<(String, String)> = Vec::new();
    let mut i: usize = 0;
    while i < metadata.notes.len()
        invariant
            i <= metadata.notes@.len(),
            notes@ == path_join(data_dir@, "notes"@),
            r@.len() == i,
            forall|k: int|
                0 <= k < i ==> (#[trigger] r@[k]).0@ == loose_move(data_dir@, metadata.notes@[k]).0
                    && r@[k].1@ == loose_move(data_dir@, metadata.notes@[k]).1,
        decreases metadata.notes@.len() - i,
    {
        let m = &metadata.notes[i];
        if m.category.as_str().is_empty() {
            r.push((join_path(data_dir, m.file_name.as_str()), join_path(notes.as_str(), m.file_name.as_str())));
        } else {
            let a = join_path(data_dir, m.category.as_str());
            let b = join_path(notes.as_str(), m.category.as_str());
            r.push((join_path(a.as_str(), m.file_name.as_str()), join_path(b.as_str(), m.file_name.as_str())));
        }
        i = i + 1;
    }
    r
}

/// Whether a directory of an earlier version's base directory holds a
/// category whose loose notes are rescued: not a hidden directory (such as
/// `.git`), and not one of the notebook's own directories.
pub open spec fn is_legacy_category_dir(name: Seq<char>) -> bool {
    !starts_with(name, "."@) && name != "notes"@ && name != "images"@ && name != "backgrounds"@
        && name != "updates"@
}

/// Whether loose notes are rescued from the directory `name`.
pub fn legacy_category_dir(name: &str) -> (r: bool)
    ensures
        r == is_legacy_category_dir(name@),
{
    let v = to_chars(name);
    let dot = to_chars(".");
    !chars_start_with(v.as_slice(), dot.as_slice()) && !str_eq(name, "notes") && !str_eq(name, "images")
        && !str_eq(name, "backgrounds") && !str_eq(name, "updates")
}

/// Checks a recursive copy before it starts: the target must not lie
/// strictly inside the source (compared in canonical form), or the copy
/// would copy itself; fails with `unsafePath`.
pub fn check_copy_target(canonical_from: &str, canonical_to: &str) -> (r: Result<(), AppError>)
    ensures
        r is Ok <==> !(path_starts_with(canonical_to@, canonical_from@) && !same_path(
            canonical_to@,
            canonical_from@,
        )),
        r matches Err(e) ==> e.wf() && e.code@ == "unsafePath"@ && e.message@
            == "目标目录不能位于源目录内部"@,
{
    if path_has_prefix(canonical_to, canonical_from) && !paths_equal(canonical_to, canonical_from) {
        let mut m: Vec<char> = Vec::new();
        append_str(&mut m, "目标目录不能位于源目录内部");
        return Err(unsafe_path(m));
    }
    Ok(())
}

/// A Windows path without its verbatim prefix: `\\?\UNC\server\share`
/// becomes `\\server\share`, `\\?\C:\x` becomes `C:\x`; any other
/// path stays. Canonical paths then compare in one form.
pub open spec fn without_verbatim(p: Seq<char>) -> Seq<char> {
    if starts_with(p, "\\\\?\\"@) {
        let rest = p.skip(4);
        if starts_with(rest, "UNC\\"@) {
            "\\\\"@ + rest.skip(4)
        } else {
            rest
        }
    } else {
        p
    }
}

/// A path without its Windows verbatim prefix (see `without_verbatim`).
pub fn strip_verbatim(path: &str) -> (r: String)
    ensures
        r@ == without_verbatim(path@),
{
    let v = to_chars(path);
    let pre = to_chars("\\\\?\\");
    if !chars_start_with(v.as_slice(), pre.as_slice()) {
        return string_of(path);
    }
    proof {
        reveal_strlit("\\\\?\\");
        reveal_strlit("UNC\\");
        reveal_strlit("\\\\");
    }
    let rest = crate::text::slice_chars(v.as_slice(), 4, v.len());
    assert(rest@ == path@.skip(4));
    let unc = to_chars("UNC\\");
    if chars_start_with(rest.as_slice(), unc.as_slice()) {
        let mut r: Vec<char> = Vec::new();
        append_str(&mut r, "\\\\");
        let tail = crate::text::slice_chars(rest.as_slice(), 4, rest.len());
        append_chars(&mut r, tail.as_slice());
        assert(tail@ == rest@.skip(4));
        return string_from_chars(r.as_slice());
    }
    string_from_chars(rest.as_slice())
}

/// A path written out from its components: the root as a leading `/`,
/// the other components with `/` between them.
pub open spec fn path_text(cs: Seq<Seq<char>>) -> Seq<char> {
    if cs.len() > 0 && cs[0] == seq!['/'] {
        seq!['/'] + join(cs.skip(1), seq!['/'])
    } else {
        join(cs, seq!['/'])
    }
}

/// The character sequences held by a vector of character vectors.
pub open spec fn char_seqs(v: Seq<Vec<char>>) -> Seq<Seq<char>> {
    v.map_values(|x: Vec<char>| x@)
}

/// The components `cs[lo..hi]` written out as a path.
fn components_text(cs: &Vec<Vec<char>>, lo: usize, hi: usize) -> (r: Vec<char>)
    requires
        lo <= hi <= cs@.len(),
    ensures
        r@ == path_text(char_seqs(cs@).subrange(lo as int, hi as int)),
{
    let ghost parts = char_seqs(cs@).subrange(lo as int, hi as int);
    let mut out: Vec<char> = Vec::new();
    let mut start = lo;
    if lo < hi && cs[lo].len() == 1 && cs[lo][0] == '/' {
        assert(parts[0] =~= seq!['/']);
        out.push('/');
        start = lo + 1;
    }
    let ghost head = out@;
    let mut k = start;
    while k < hi
        invariant
            lo <= start <= k <= hi <= cs@.len(),
            parts == char_seqs(cs@).subrange(lo as int, hi as int),
            out@ == head + join(char_seqs(cs@).subrange(start as int, k as int), seq!['/']),
        decreases hi - k,
    {
        let ghost before = char_seqs(cs@).subrange(start as int, k as int);
        if k > start {
            out.push('/');
        }
        append_chars(&mut out, cs[k].as_slice());
        k = k + 1;
        proof {
            let now = char_seqs(cs@).subrange(start as int, k as int);
            assert(now.drop_last() =~= before);
            assert(now.last() == cs@[k - 1]@);
            if before.len() == 0 {
                assert(now.len() == 1);
            }
        }
    }
    proof {
        if start == lo + 1 {
            assert(parts.len() > 0 && parts[0] == seq!['/']);
            assert(parts.skip(1) =~= char_seqs(cs@).subrange(start as int, hi as int));
        } else {
            assert(head == Seq::<char>::empty());
            assert(parts =~= char_seqs(cs@).subrange(start as int, hi as int));
            if parts.len() > 0 {
                assert(parts[0] == cs@[lo as int]@);
                assert(!(cs@[lo as int]@ =~= seq!['/']));
            }
        }
    }
    out
}

/// The data directory of a configuration that named the notes directory:
/// the directory above it when it is called `notes`, the named directory
/// itself otherwise.
pub open spec fn data_dir_of_notes_dir(p: Seq<char>) -> Seq<char> {
    if file_name_of(p) == Some("notes"@) {
        path_text(components(p).drop_last())
    } else {
        p
    }
}

/// The data directory that an older configuration's notes directory
/// implies; the directory above is written out from its components.
pub fn data_dir_from_notes_dir(notes_dir: &str) -> (r: String)
    ensures
        r@ == data_dir_of_notes_dir(notes_dir@),
{
    let v = to_chars(notes_dir);
    let notes = to_chars("notes");
    let is_notes = match file_name_chars(v.as_slice()) {
        Some(name) => chars_eq(name.as_slice(), notes.as_slice()),
        None => false,
    };
    if !is_notes {
        proof {
            if file_name_of(notes_dir@) == Some("notes"@) {
                assert(false);
            }
        }
        return string_of(notes_dir);
    }
    let cs = path_components(notes_dir);
    assert(char_seqs(cs@) =~= components(notes_dir@));
    assert(cs@.len() > 0);
    let t = components_text(&cs, 0, cs.len() - 1);
    assert(char_seqs(cs@).subrange(0, cs@.len() - 1) =~= components(notes_dir@).drop_last());
    string_from_chars(t.as_slice())
}

/// A path under `old_base` moved to `new_base`: the part below `old_base`,
/// written out from its components, joined to `new_base`. An empty path
/// stays empty, and a path outside `old_base` is kept.
pub open spec fn remapped(p: Seq<char>, old_base: Seq<char>, new_base: Seq<char>) -> Seq<char> {
    if p.len() == 0 {
        seq![]
    } else if path_starts_with(p, old_base) {
        path_join(new_base, path_text(components(p).skip(components(old_base).len() as int)))
    } else {
        p
    }
}

/// Moves a stored path (such as the background image) along with the data
/// directory, from `old_base` to `new_base`.
pub fn remap_path_prefix(path: &str, old_base: &str, new_base: &str) -> (r: String)
    ensures
        r@ == remapped(path@, old_base@, new_base@),
{
    let v = to_chars(path);
    if v.len() == 0 {
        return String::new();
    }
    if !path_has_prefix(path, old_base) {
        return string_of(path);
    }
    let cs = path_components(path);
    let b = path_components(old_base);
    assert(char_seqs(cs@) =~= components(path@));
    let rel = components_text(&cs, b.len(), cs.len());
    assert(char_seqs(cs@).subrange(b@.len() as int, cs@.len() as int) =~= components(path@).skip(
        components(old_base@).len() as int,
    ));
    let rel_text = string_from_chars(rel.as_slice());
    join_path(new_base, rel_text.as_str())
}

/// Splitting at a `/` splits the components: the pieces of `x`, `/`, `y`
/// are those of `x` followed by those of `y`.
pub proof fn lemma_split_path_at_slash(x: Seq<char>, y: Seq<char>, cur: Seq<char>)
    ensures
        split_path(x + seq!['/'] + y, cur) == split_path(x, cur) + split_path(y, seq![]),
    decreases x.len(),
{
    if x.len() == 0 {
        assert(x + seq!['/'] + y == seq!['/'] + y);
        assert((seq!['/'] + y).drop_first() == y);
    } else {
        assert((x + seq!['/'] + y)[0] == x[0]);
        assert((x + seq!['/'] + y).drop_first() == x.drop_first() + seq!['/'] + y);
        if x[0] == '/' {
            lemma_split_path_at_slash(x.drop_first(), y, seq![]);
            assert(kept_piece(cur) + (split_path(x.drop_first(), seq![]) + split_path(y, seq![]))
                == (kept_piece(cur) + split_path(x.drop_first(), seq![])) + split_path(y, seq![]));
        } else {
            lemma_split_path_at_slash(x.drop_first(), y, cur.push(x[0]));
        }
    }
}

/// The components of a joined path: those of the directory, then those of
/// the relative part.
pub proof fn lemma_join_segments(base: Seq<char>, c: Seq<char>)
    requires
        !(c.len() > 0 && c[0] == '/'),
    ensures
        segments(path_join(base, c)) == segments(base) + segments(c),
{
    if base.len() == 0 {
        assert(base + c == c);
    } else if base.last() == '/' {
        let b = base.drop_last();
        assert(base == b + seq!['/'] + Seq::<char>::empty());
        lemma_split_path_at_slash(b, Seq::<char>::empty(), seq![]);
        assert(b + seq!['/'] + c == base + c);
        lemma_split_path_at_slash(b, c, seq![]);
        assert(split_path(Seq::<char>::empty(), seq![]) == Seq::<Seq<char>>::empty());
        assert(segments(base) == segments(b));
    } else {
        lemma_split_path_at_slash(base, c, seq![]);
    }
}

/// A name that passed the path-component check, joined to a directory,
/// names an entry directly inside that directory: its components are the
/// directory's followed by one named component other than `..`. So no
/// note id, category, file name or attachment name that the notebook
/// accepts can lead out of the directory it is joined to.
pub proof fn lemma_safe_join_stays_inside(base: Seq<char>, c: Seq<char>)
    requires
        is_safe_component(c),
    ensures
        components(path_join(base, c)) == components(base).push(segments(c)[0]),
        segments(c)[0] != ".."@,
        path_starts_with(path_join(base, c), base),
        !same_path(path_join(base, c), base),
{
    let j = path_join(base, c);
    lemma_join_segments(base, c);
    assert(segments(c) =~= seq![segments(c)[0]]);
    if base.len() == 0 {
        assert(j == c);
    } else {
        assert(j[0] == base[0]);
        if base.len() >= 2 {
            assert(j[1] == base[1]);
        } else if base.last() != '/' {
            assert(j[1] == '/');
        }
    }
    assert(has_root(j) == has_root(base));
    assert(starts_with_cur_dir(j) == starts_with_cur_dir(base));
    assert(components(j) =~= components(base).push(segments(c)[0]));
    assert(components(j).take(components(base).len() as int) =~= components(base));
}

/// What taking over the configuration of an older installation in
/// `old_dir` decides: the data directory (the one its `notesDir` implies,
/// else `old_dir`), whether notes lie loose in it (its `notesDir` was the
/// data directory itself), and whether the auxiliary data of `old_dir`
/// has to move to a different data directory.
pub struct LegacyConfigPlan {
    pub data_dir: String,
    pub rescue_loose_notes: bool,
    pub move_aux_data: bool,
}

/// Decides how the configuration of an older installation in `old_dir`
/// with the `notesDir` setting `notes_dir` is taken over.
pub fn plan_legacy_config(old_dir: &str, notes_dir: Option<String>) -> (r: LegacyConfigPlan)
    ensures
        r.data_dir@ == (match notes_dir {
            Some(n) => data_dir_of_notes_dir(n@),
            None => old_dir@,
        }),
        r.rescue_loose_notes == (notes_dir matches Some(n) && same_path(n@, r.data_dir@)),
        r.move_aux_data == !same_path(r.data_dir@, old_dir@),
{
    let (data_dir, rescue_loose_notes) = match notes_dir {
        Some(n) => {
            let d = data_dir_from_notes_dir(n.as_str());
            let loose = paths_equal(n.as_str(), d.as_str());
            (d, loose)
        },
        None => (string_of(old_dir), false),
    };
    let move_aux_data = !paths_equal(data_dir.as_str(), old_dir);
    LegacyConfigPlan { data_dir, rescue_loose_notes, move_aux_data }
}

/// Whether the data of an earlier data directory is moved to the current
/// one when the configuration names another: only when the two differ (as
/// canonical paths), the earlier one still exists, and the current one
/// holds no notebook yet, so that nothing is ever merged into existing
/// data.
pub fn relocation_due(canonical_old: &str, canonical_current: &str, old_exists: bool, current_has_user_data: bool)
    -> (r: bool)
    ensures
        r == (!same_path(canonical_old@, canonical_current@) && old_exists && !current_has_user_data),
{
    !paths_equal(canonical_old, canonical_current) && old_exists && !current_has_user_data
}

/// A named component: not empty, without `/`, and not `.`.
pub open spec fn is_named(c: Seq<char>) -> bool {
    c.len() > 0 && !c.contains('/') && c != seq!['.']
}

/// The pieces that `split_path` keeps are named components.
pub proof fn lemma_split_path_named(s: Seq<char>, cur: Seq<char>)
    requires
        !cur.contains('/'),
    ensures
        forall|i: int| 0 <= i < split_path(s, cur).len() ==> is_named(#[trigger] split_path(s, cur)[i]),
    decreases s.len(),
{
    if s.len() == 0 {
        assert(split_path(s, cur) == kept_piece(cur));
        if cur.len() > 0 && cur != seq!['.'] {
            assert(kept_piece(cur) =~= seq![cur]);
        }
    } else if s[0] == '/' {
        lemma_split_path_named(s.drop_first(), seq![]);
        let k = kept_piece(cur);
        let rest = split_path(s.drop_first(), seq![]);
        assert(split_path(s, cur) == k + rest);
        if cur.len() > 0 && cur != seq!['.'] {
            assert(k =~= seq![cur]);
        }
        assert forall|i: int| 0 <= i < (k + rest).len() implies is_named(#[trigger] (k + rest)[i]) by {
            if i >= k.len() {
                assert((k + rest)[i] == rest[i - k.len()]);
            }
        }
    } else {
        assert(!cur.push(s[0]).contains('/')) by {
            if cur.push(s[0]).contains('/') {
                let j = choose|j: int| 0 <= j < cur.push(s[0]).len() && cur.push(s[0])[j] == '/';
                if j < cur.len() {
                    assert(cur.contains(cur[j]));
                }
            }
        }
        lemma_split_path_named(s.drop_first(), cur.push(s[0]));
        assert(split_path(s, cur) == split_path(s.drop_first(), cur.push(s[0])));
    }
}

/// Named components joined with `/` split back into the same components.
pub proof fn lemma_join_named_segments(ns: Seq<Seq<char>>)
    requires
        forall|i: int| 0 <= i < ns.len() ==> is_named(#[trigger] ns[i]),
    ensures
        segments(join(ns, seq!['/'])) == ns,
    decreases ns.len(),
{
    if ns.len() == 0 {
    } else if ns.len() == 1 {
        crate::paths::lemma_split_path_no_slash(ns[0], seq![]);
        assert(Seq::<char>::empty() + ns[0] == ns[0]);
        assert(ns =~= seq![ns[0]]);
    } else {
        let front = ns.drop_last();
        assert forall|i: int| 0 <= i < front.len() implies is_named(#[trigger] front[i]) by {
            assert(front[i] == ns[i]);
        }
        lemma_join_named_segments(front);
        lemma_split_path_at_slash(join(front, seq!['/']), ns.last(), seq![]);
        crate::paths::lemma_split_path_no_slash(ns.last(), seq![]);
        assert(is_named(ns[ns.len() - 1]));
        assert(Seq::<char>::empty() + ns.last() == ns.last());
        assert(ns =~= front + seq![ns.last()]);
    }
}

/// Joining after a first part puts that part first.
pub proof fn lemma_join_prepend(x: Seq<char>, rest: Seq<Seq<char>>, sep: Seq<char>)
    requires
        rest.len() > 0,
    ensures
        join(seq![x] + rest, sep) == x + sep + join(rest, sep),
    decreases rest.len(),
{
    let all = seq![x] + rest;
    assert(all.drop_last() =~= seq![x] + rest.drop_last());
    assert(all.last() == rest.last());
    assert(join(all, sep) == join(all.drop_last(), sep) + sep + rest.last());
    if rest.len() == 1 {
        assert(seq![x] + rest.drop_last() =~= seq![x]);
        assert(join(seq![x], sep) == x);
        assert(join(rest, sep) == rest[0]);
        assert(join(all, sep) =~= x + sep + join(rest, sep));
    } else {
        lemma_join_prepend(x, rest.drop_last(), sep);
        assert(join(rest, sep) == join(rest.drop_last(), sep) + sep + rest.last());
        assert(join(all, sep) =~= x + sep + join(rest, sep));
    }
}

/// A joined list of named components has neither a root nor a leading `.`.
proof fn lemma_join_named_plain(ns: Seq<Seq<char>>)
    requires
        ns.len() > 0,
        forall|i: int| 0 <= i < ns.len() ==> is_named(#[trigger] ns[i]),
    ensures
        join(ns, seq!['/']).len() >= ns[0].len(),
        join(ns, seq!['/']).take(ns[0].len() as int) == ns[0],
        !has_root(join(ns, seq!['/'])),
        !starts_with_cur_dir(join(ns, seq!['/'])),
{
    let j = join(ns, seq!['/']);
    let f = ns[0];
    assert(is_named(f));
    if ns.len() == 1 {
        assert(j == f);
        assert(j.take(f.len() as int) =~= f);
    } else {
        lemma_join_prepend(f, ns.skip(1), seq!['/']);
        assert(seq![f] + ns.skip(1) =~= ns);
        assert(j == f + seq!['/'] + join(ns.skip(1), seq!['/']));
        assert(j.take(f.len() as int) =~= f);
    }
    assert(j[0] == f[0]);
    assert(f[0] != '/') by {
        assert(f.contains(f[0]));
    }
    if f.len() >= 2 {
        assert(j[1] == f[1]);
        assert(f[1] != '/') by {
            assert(f.contains(f[1]));
        }
    } else {
        assert(f =~= seq![f[0]]);
        if ns.len() > 1 {
            assert(j[1] == '/');
        }
    }
}

/// Components read back from their written form are the same components.
proof fn lemma_path_text_components(head: Seq<Seq<char>>, ns: Seq<Seq<char>>)
    requires
        head == Seq::<Seq<char>>::empty() || head == seq![seq!['/']] || head == seq![seq!['.']],
        forall|i: int| 0 <= i < ns.len() ==> is_named(#[trigger] ns[i]),
    ensures
        components(path_text(head + ns)) == head + ns,
{
    let cs = head + ns;
    let j = join(ns, seq!['/']);
    lemma_join_named_segments(ns);
    if ns.len() > 0 {
        lemma_join_named_plain(ns);
        assert(ns[0] != seq!['/']) by {
            assert(ns[0].contains('/') || ns[0] != seq!['/']) by {
                if ns[0] == seq!['/'] {
                    assert(ns[0][0] == '/');
                    assert(ns[0].contains(ns[0][0]));
                }
            }
        }
    }
    if head == seq![seq!['/']] {
        assert(cs[0] == seq!['/']);
        assert(cs.skip(1) =~= ns);
        let t = seq!['/'] + j;
        assert(path_text(cs) == t);
        assert(t.drop_first() =~= j);
        assert(split_path(t, seq![]) == kept_piece(seq![]) + split_path(j, seq![]));
        assert(kept_piece(Seq::<char>::empty()) =~= Seq::<Seq<char>>::empty());
        assert(!starts_with_cur_dir(t));
        assert(components(t) =~= cs);
    } else if head == seq![seq!['.']] {
        assert(cs[0] == seq!['.']);
        assert(cs[0] != seq!['/']) by {
            assert(cs[0][0] == '.');
        }
        if ns.len() == 0 {
            assert(cs =~= seq![seq!['.']]);
            assert(path_text(cs) == seq!['.']);
            assert(split_path(seq!['.'], seq![]) == split_path(Seq::<char>::empty(), seq!['.'])) by {
                assert(seq!['.'].drop_first() =~= Seq::<char>::empty());
                assert(Seq::<char>::empty().push('.') =~= seq!['.']);
            }
            assert(components(seq!['.']) =~= cs);
        } else {
            lemma_join_prepend(seq!['.'], ns, seq!['/']);
            assert(seq![seq!['.']] + ns =~= cs);
            let t = seq!['.'] + seq!['/'] + j;
            assert(path_text(cs) == t);
            lemma_split_path_at_slash(seq!['.'], j, seq![]);
            assert(split_path(seq!['.'], seq![]) == split_path(Seq::<char>::empty(), seq!['.'])) by {
                assert(seq!['.'].drop_first() =~= Seq::<char>::empty());
                assert(Seq::<char>::empty().push('.') =~= seq!['.']);
            }
            assert(t[0] == '.' && t[1] == '/');
            assert(components(t) =~= cs);
        }
    } else {
        assert(head =~= Seq::<Seq<char>>::empty());
        assert(cs =~= ns);
        if ns.len() == 0 {
            assert(path_text(cs) == Seq::<char>::empty());
            assert(components(Seq::<char>::empty()) =~= cs);
        } else {
            assert(path_text(cs) == j);
            assert(components(j) =~= cs);
        }
    }
}

/// The components of a path: a root or a leading `.` at most, then named
/// components.
proof fn lemma_components_shape(p: Seq<char>)
    ensures
        ({
            let h = components(p).len() - segments(p).len();
            &&& 0 <= h <= 1
            &&& components(p) == components(p).take(h) + segments(p)
            &&& (h == 0 || components(p).take(h) == seq![seq!['/']] || components(p).take(h) == seq![seq!['.']])
        }),
        forall|i: int| 0 <= i < segments(p).len() ==> is_named(#[trigger] segments(p)[i]),
{
    lemma_split_path_named(p, seq![]);
    let c = components(p);
    let s = segments(p);
    if has_root(p) {
        assert(!starts_with_cur_dir(p));
        assert(c.take(1) =~= seq![seq!['/']]);
        assert(c =~= c.take(1) + s);
    } else if starts_with_cur_dir(p) {
        assert(c.take(1) =~= seq![seq!['.']]);
        assert(c =~= c.take(1) + s);
    } else {
        assert(c =~= s);
        assert(c.take(0) =~= Seq::<Seq<char>>::empty());
        assert(c =~= c.take(0) + s);
    }
}

/// A notes directory called `notes` implies the directory above it as the
/// data directory: as a path, the notes directory without its last
/// component.
pub proof fn lemma_notes_dir_parent(p: Seq<char>)
    requires
        file_name_of(p) == Some("notes"@),
    ensures
        components(data_dir_of_notes_dir(p)) == components(p).drop_last(),
{
    lemma_components_shape(p);
    let c = components(p);
    let s = segments(p);
    let h = c.len() - s.len();
    let head = c.take(h);
    let ns = s.drop_last();
    assert(s.len() > 0);
    assert(c.drop_last() =~= head + ns);
    assert forall|i: int| 0 <= i < ns.len() implies is_named(#[trigger] ns[i]) by {
        assert(ns[i] == s[i]);
    }
    if h == 0 {
        assert(head =~= Seq::<Seq<char>>::empty());
    }
    lemma_path_text_components(head, ns);
}

/// A stored path under the old data directory lands under the new one at
/// the same place: its components are those of the new directory followed
/// by those it had below the old one.
pub proof fn lemma_remap_keeps_relative_place(p: Seq<char>, old_base: Seq<char>, new_base: Seq<char>)
    requires
        p.len() > 0,
        path_starts_with(p, old_base),
        components(old_base).len() > 0,
    ensures
        components(remapped(p, old_base, new_base)) == components(new_base) + components(p).skip(
            components(old_base).len() as int,
        ),
        path_starts_with(remapped(p, old_base, new_base), new_base),
{
    lemma_components_shape(p);
    let c = components(p);
    let s = segments(p);
    let h = c.len() - s.len();
    let k = components(old_base).len() as int;
    let rel = c.skip(k);
    assert forall|i: int| 0 <= i < rel.len() implies is_named(#[trigger] rel[i]) by {
        assert(rel[i] == c[i + k]);
        assert(c[i + k] == (c.take(h) + s)[i + k]);
        assert(s[i + k - h] == c[i + k]);
    }
    lemma_path_text_components(Seq::<Seq<char>>::empty(), rel);
    assert(Seq::<Seq<char>>::empty() + rel =~= rel);
    let t = path_text(rel);
    let r = path_join(new_base, t);
    lemma_join_named_segments(rel);
    if rel.len() > 0 {
        lemma_join_named_plain(rel);
        assert(rel[0] != seq!['/']) by {
            if rel[0] == seq!['/'] {
                assert(rel[0].contains(rel[0][0]));
            }
        }
        assert(t == join(rel, seq!['/']));
        assert(t[0] != '/');
    } else {
        assert(t == join(rel, seq!['/']));
    }
    lemma_join_segments(new_base, t);
    assert(segments(t) == rel);
    if new_base.len() == 0 {
        assert(r == t) by {
            assert(Seq::<char>::empty() + t =~= t);
        }
        assert(components(new_base) =~= Seq::<Seq<char>>::empty()) by {
            assert(segments(new_base) =~= Seq::<Seq<char>>::empty());
        }
        assert(components(r) =~= components(new_base) + rel);
    } else {
        assert(r[0] == new_base[0]);
        if new_base.len() >= 2 {
            assert(r[1] == new_base[1]);
        } else if new_base.last() != '/' {
            assert(r[1] == '/');
        }
        assert(has_root(r) == has_root(new_base));
        assert(starts_with_cur_dir(r) == starts_with_cur_dir(new_base));
        assert(components(r) =~= components(new_base) + rel);
    }
    assert(components(r).take(components(new_base).len() as int) =~= components(new_base));
}

} // verus!
