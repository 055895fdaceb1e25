//! Paths as the notebook stores and checks them.
//!
//! A path is a string with `/` between its components, as on the Unix
//! systems this library is built for. The checks here decide whether a
//! name taken from user input, metadata or an archive may be joined to a
//! directory of the notebook without leaving it.

use vstd::prelude::*;

use crate::error::AppError;
use crate::text::{append_chars, append_str, chars_eq, contains_char, string_from_chars, string_of, to_chars};

verus! {

/// `cur` as a path component, unless it is empty or `.`, which
/// `Path::components` drops (a `.` is kept only at the very start).
pub open spec fn kept_piece(cur: Seq<char>) -> Seq<Seq<char>> {
    if cur.len() == 0 || cur == seq!['.'] { seq![] } else { seq![cur] }
}

/// The pieces of `s` between `/` separators, without empty pieces and `.`;
/// `cur` is the piece being read.
pub open spec fn split_path(s: Seq<char>, cur: Seq<char>) -> Seq<Seq<char>>
    decreases s.len(),
{
    if s.len() == 0 {
        kept_piece(cur)
    } else if s[0] == '/' {
        kept_piece(cur) + split_path(s.drop_first(), seq![])
    } else {
        split_path(s.drop_first(), cur.push(s[0]))
    }
}

/// The named components of `s` (with `..` among them), in order.
pub open spec fn segments(s: Seq<char>) -> Seq<Seq<char>> {
    split_path(s, seq![])
}

/// Whether `s` begins with the current-directory component `.`.
pub open spec fn starts_with_cur_dir(s: Seq<char>) -> bool {
    s.len() >= 1 && s[0] == '.' && (s.len() == 1 || s[1] == '/')
}

/// Whether the components of `s` are exactly one ordinary name: no root, no
/// leading `.`, no `..`, and nothing else.
pub open spec fn is_single_normal_component(s: Seq<char>) -> bool {
    &&& s.len() > 0
    &&& s[0] != '/'
    &&& !starts_with_cur_dir(s)
    &&& segments(s).len() == 1
    &&& segments(s)[0] != ".."@
}

/// Whether `value` may name one entry directly inside a directory: it is a
/// single ordinary component and holds neither NUL nor `:`.
pub open spec fn is_safe_component(value: Seq<char>) -> bool {
    &&& value.len() > 0
    &&& !value.contains('\0')
    &&& !value.contains(':')
    &&& is_single_normal_component(value)
}

/// The named components of `s`, as `Path::components` yields them after any
/// root or leading `.`.
pub fn path_segments(s: &[char]) -> (r: Vec<Vec<char>>)
    ensures
        r@.len() == segments(s@).len(),
        forall|i: int| 0 <= i < r@.len() ==> #[trigger] r@[i]@ == segments(s@)[i],
{
    let mut done: Vec<Vec<char>> = Vec::new();
    let mut cur: Vec<char> = Vec::new();
    let ghost dv: Seq<Seq<char>> = seq![];
    let mut i: usize = 0;
    assert(s@.skip(0) == s@);
    assert(dv + split_path(s@, cur@) == split_path(s@, seq![]));
    while i < s.len()
        invariant
            i <= s@.len(),
            dv.len() == done@.len(),
            forall|k: int| 0 <= k < done@.len() ==> #[trigger] done@[k]@ == dv[k],
            segments(s@) == dv + split_path(s@.skip(i as int), cur@),
        decreases s@.len() - i,
    {
        let c = s[i];
        assert(s@.skip(i as int).drop_first() == s@.skip(i + 1));
        if c == '/' {
            let keep = cur.len() > 0 && !(cur.len() == 1 && cur[0] == '.');
            if keep {
                assert(cur@ != seq!['.']);
                proof {
                    dv = dv.push(cur@);
                }
                done.push(cur);
                assert(dv + split_path(s@.skip(i + 1), seq![]) == (dv.drop_last() + seq![
                    dv.last(),
                ]) + split_path(s@.skip(i + 1), seq![]));
            } else {
                assert(kept_piece(cur@) == Seq::<Seq<char>>::empty()) by {
                    if cur@.len() == 1 {
                        assert(cur@ == seq!['.']);
                    }
                }
                assert(dv + split_path(s@.skip(i as int), cur@) == dv + split_path(
                    s@.skip(i + 1),
                    seq![],
                ));
            }
            cur = Vec::new();
        } else {
            cur.push(c);
        }
        i = i + 1;
    }
    if cur.len() > 0 && !(cur.len() == 1 && cur[0] == '.') {
        assert(cur@ != seq!['.']);
        proof {
            dv = dv.push(cur@);
        }
        done.push(cur);
    } else {
        assert(kept_piece(cur@) == Seq::<Seq<char>>::empty()) by {
            if cur@.len() == 1 {
                assert(cur@ == seq!['.']);
            }
        }
    }
    assert(segments(s@) == dv);
    done
}

/// Whether the components of `s` are a single ordinary name.
pub fn single_normal_component(s: &[char]) -> (r: bool)
    ensures
        r == is_single_normal_component(s@),
{
    if s.len() == 0 || s[0] == '/' {
        return false;
    }
    if s[0] == '.' && (s.len() == 1 || s[1] == '/') {
        return false;
    }
    let segs = path_segments(s);
    if segs.len() != 1 {
        return false;
    }
    let dotdot = to_chars("..");
    !chars_eq(segs[0].as_slice(), dotdot.as_slice())
}

/// The error for a path value that could leave its directory.
pub fn unsafe_path_error(field: &str) -> (e: AppError)
    ensures
        e.wf(),
        e.code@ == "unsafePath"@,
        e.message@ == field@ + " 包含不安全路径"@,
        e.details@.len() == 0,
{
    let mut m: Vec<char> = Vec::new();
    append_str(&mut m, field);
    append_str(&mut m, " 包含不安全路径");
    AppError::new(string_of("unsafePath"), string_from_chars(m.as_slice()))
}

/// Checks that `value` names one entry directly inside a directory. Fails
/// with `unsafePath` for the empty string, a NUL or `:`, a root, `.`, `..`,
/// or more than one component.
pub fn validate_single_path_component(value: &str, field: &str) -> (r: Result<(), AppError>)
    ensures
        r is Ok <==> is_safe_component(value@),
        r matches Err(e) ==> e.wf() && e.code@ == "unsafePath"@ && e.message@ == field@
            + " 包含不安全路径"@ && e.details@.len() == 0,
{
    let v = to_chars(value);
    if v.len() == 0 || contains_char(v.as_slice(), '\0') || contains_char(v.as_slice(), ':') {
        return Err(unsafe_path_error(field));
    }
    if single_normal_component(v.as_slice()) {
        Ok(())
    } else {
        Err(unsafe_path_error(field))
    }
}

/// Checks a note id, which names the note's image, history and attachment
/// directories. Fails with `invalidNoteId` unless it is a safe component.
pub fn validate_note_id(note_id: &str) -> (r: Result<(), AppError>)
    ensures
        r is Ok <==> is_safe_component(note_id@),
        r matches Err(e) ==> e.wf() && e.code@ == "invalidNoteId"@ && e.message@
            == "note_id 格式无效"@ && e.detail("noteId"@) == Some(note_id@),
{
    match validate_single_path_component(note_id, "note_id") {
        Ok(()) => Ok(()),
        Err(_) => Err(
            AppError::new(string_of("invalidNoteId"), string_of("note_id 格式无效")).with_detail(
                string_of("noteId"),
                string_of(note_id),
            ),
        ),
    }
}

/// Checks a category name: the empty name (no category) is accepted, any
/// other must be a safe component, else `categoryNameInvalidChars`.
pub fn validate_category_name(category: &str) -> (r: Result<(), AppError>)
    ensures
        r is Ok <==> (category@.len() == 0 || is_safe_component(category@)),
        r matches Err(e) ==> e.wf() && e.code@ == "categoryNameInvalidChars"@ && e.message@
            == "分类名不能包含特殊字符"@,
{
    if category.is_empty() {
        return Ok(());
    }
    match validate_single_path_component(category, "分类名") {
        Ok(()) => Ok(()),
        Err(_) => Err(AppError::category_name_invalid_chars()),
    }
}

/// Checks a file name taken from metadata: a safe component, else
/// `unsafePath` for `field`.
pub fn validate_relative_file_name(file_name: &str, field: &str) -> (r: Result<(), AppError>)
    ensures
        r is Ok <==> is_safe_component(file_name@),
        r matches Err(e) ==> e.wf() && e.code@ == "unsafePath"@ && e.message@ == field@
            + " 包含不安全路径"@,
{
    validate_single_path_component(file_name, field)
}

/// The extension of a file name as `Path::extension` gives it: what follows
/// the last `.`, unless there is no `.` or the only text before it is empty,
/// and never for `..`.
pub open spec fn extension_of(name: Seq<char>) -> Option<Seq<char>> {
    if name == ".."@ {
        None
    } else {
        match last_dot(name) {
            None => None,
            Some(i) => if i == 0 { None } else { Some(name.skip(i + 1)) },
        }
    }
}

/// The index of the last `.` in `s`.
pub open spec fn last_dot(s: Seq<char>) -> Option<int>
    decreases s.len(),
{
    if s.len() == 0 {
        None
    } else if s.last() == '.' {
        Some(s.len() - 1)
    } else {
        last_dot(s.drop_last())
    }
}

/// ASCII lower case of one character.
pub open spec fn ascii_lower(c: char) -> char {
    if 'A' <= c && c <= 'Z' { ((c as u32) + 32) as char } else { c }
}

/// Whether `a` and `b` are equal when ASCII letters are compared without
/// regard to case.
pub open spec fn eq_ignore_ascii_case(a: Seq<char>, b: Seq<char>) -> bool {
    a.len() == b.len() && forall|i: int| 0 <= i < a.len() ==> ascii_lower(a[i]) == ascii_lower(b[i])
}

/// Whether `name` is a safe component whose extension is `md` in any ASCII
/// case: the form of every note file name.
pub open spec fn is_note_file_name(name: Seq<char>) -> bool {
    &&& is_safe_component(name)
    &&& extension_of(segments(name)[0]) matches Some(ext)
    &&& eq_ignore_ascii_case(ext, "md"@)
}

/// ASCII lower case of one character.
pub fn to_ascii_lower(c: char) -> (r: char)
    ensures
        r == ascii_lower(c),
{
    if 'A' <= c && c <= 'Z' {
        ((c as u8) + 32) as char
    } else {
        c
    }
}

/// Whether `a` and `b` are equal up to ASCII case.
pub fn chars_eq_ignore_ascii_case(a: &[char], b: &[char]) -> (r: bool)
    ensures
        r == eq_ignore_ascii_case(a@, b@),
{
    if a.len() != b.len() {
        return false;
    }
    let mut i: usize = 0;
    while i < a.len()
        invariant
            i <= a@.len(),
            a@.len() == b@.len(),
            forall|j: int| 0 <= j < i ==> ascii_lower(a@[j]) == ascii_lower(b@[j]),
        decreases a@.len() - i,
    {
        if to_ascii_lower(a[i]) != to_ascii_lower(b[i]) {
            return false;
        }
        i = i + 1;
    }
    true
}

/// The index of the last `.` in `s`.
pub fn find_last_dot(s: &[char]) -> (r: Option<usize>)
    ensures
        match r {
            Some(i) => last_dot(s@) == Some(i as int) && i < s@.len() && s@[i as int] == '.',
            None => last_dot(s@) is None,
        },
{
    let mut i: usize = s.len();
    assert(s@.take(s@.len() as int) == s@);
    while i > 0
        invariant
            i <= s@.len(),
            last_dot(s@) == last_dot(s@.take(i as int)),
        decreases i,
    {
        assert(s@.take(i as int).drop_last() == s@.take(i - 1));
        if s[i - 1] == '.' {
            return Some(i - 1);
        }
        i = i - 1;
    }
    None
}

/// The extension of a file name, as `Path::extension` gives it.
pub fn file_extension(name: &[char]) -> (r: Option<Vec<char>>)
    ensures
        match r {
            Some(e) => extension_of(name@) == Some(e@),
            None => extension_of(name@) is None,
        },
{
    let dotdot = to_chars("..");
    if chars_eq(name, dotdot.as_slice()) {
        return None;
    }
    match find_last_dot(name) {
        None => None,
        Some(i) => {
            if i == 0 {
                None
            } else {
                let mut e: Vec<char> = Vec::new();
                let n = name.len();
                assert(i < n);
                let mut k: usize = i + 1;
                while k < name.len()
                    invariant
                        i + 1 <= k <= name@.len(),
                        e@ == name@.subrange(i + 1, k as int),
                    decreases name@.len() - k,
                {
                    e.push(name[k]);
                    k = k + 1;
                }
                assert(e@ == name@.skip(i + 1));
                Some(e)
            }
        },
    }
}

/// Checks a note's file name: a safe component with the extension `md`
/// (in any ASCII case), else `unsafePath` for the note file name.
pub fn validate_note_file_name(file_name: &str) -> (r: Result<(), AppError>)
    ensures
        r is Ok <==> is_note_file_name(file_name@),
        r matches Err(e) ==> e.wf() && e.code@ == "unsafePath"@ && e.message@
            == "笔记文件名"@ + " 包含不安全路径"@,
{
    if let Err(e) = validate_relative_file_name(file_name, "笔记文件名") {
        return Err(e);
    }
    let v = to_chars(file_name);
    let segs = path_segments(v.as_slice());
    let md = to_chars("md");
    match file_extension(segs[0].as_slice()) {
        Some(ext) => {
            if chars_eq_ignore_ascii_case(ext.as_slice(), md.as_slice()) {
                Ok(())
            } else {
                Err(unsafe_path_error("笔记文件名"))
            }
        },
        None => Err(unsafe_path_error("笔记文件名")),
    }
}


/// `base` joined with `p` the way `Path::join` does on Unix: an absolute `p`
/// replaces `base`; otherwise a `/` is put between them unless `base` is
/// empty or already ends with one.
pub open spec fn path_join(base: Seq<char>, p: Seq<char>) -> Seq<char> {
    if p.len() > 0 && p[0] == '/' {
        p
    } else if base.len() == 0 || base.last() == '/' {
        base + p
    } else {
        base + seq!['/'] + p
    }
}

/// `base` joined with `p`, as `Path::join` does on Unix.
pub fn join_path(base: &str, p: &str) -> (r: String)
    ensures
        r@ == path_join(base@, p@),
{
    let b = to_chars(base);
    let q = to_chars(p);
    if q.len() > 0 && q[0] == '/' {
        return string_from_chars(q.as_slice());
    }
    let mut r = b;
    if r.len() > 0 && r[r.len() - 1] != '/' {
        r.push('/');
    }
    append_chars(&mut r, q.as_slice());
    string_from_chars(r.as_slice())
}

/// A string with no `/` is a single piece: `split_path` keeps it whole.
pub proof fn lemma_split_path_no_slash(s: Seq<char>, cur: Seq<char>)
    requires
        !s.contains('/'),
    ensures
        split_path(s, cur) == kept_piece(cur + s),
    decreases s.len(),
{
    if s.len() == 0 {
        assert(cur + s == cur);
    } else {
        assert(s[0] != '/') by {
            assert(s.contains(s[0]));
        }
        assert(!s.drop_first().contains('/')) by {
            if s.drop_first().contains('/') {
                let j = choose|j: int| 0 <= j < s.drop_first().len() && s.drop_first()[j] == '/';
                assert(s[j + 1] == '/');
            }
        }
        lemma_split_path_no_slash(s.drop_first(), cur.push(s[0]));
        assert(cur.push(s[0]) + s.drop_first() == cur + s);
    }
}


/// The last component of a path, as `Path::file_name` gives it: nothing for
/// a path that ends in `..` or has no named component.
pub open spec fn file_name_of(path: Seq<char>) -> Option<Seq<char>> {
    let segs = segments(path);
    if segs.len() == 0 || segs.last() == ".."@ {
        None
    } else {
        Some(segs.last())
    }
}

/// The stem of a file name, as `Path::file_stem` gives it: the name up to
/// its last `.`, or the whole name when there is none or it leads.
pub open spec fn stem_of(name: Seq<char>) -> Seq<char> {
    match last_dot(name) {
        None => name,
        Some(i) => if i == 0 { name } else { name.take(i) },
    }
}

/// The last component of a path.
pub fn file_name_chars(path: &[char]) -> (r: Option<Vec<char>>)
    ensures
        match r {
            Some(n) => file_name_of(path@) == Some(n@),
            None => file_name_of(path@) is None,
        },
{
    let segs = path_segments(path);
    if segs.len() == 0 {
        return None;
    }
    let last = &segs[segs.len() - 1];
    let dotdot = to_chars("..");
    if chars_eq(last.as_slice(), dotdot.as_slice()) {
        return None;
    }
    let mut r: Vec<char> = Vec::new();
    append_chars(&mut r, last.as_slice());
    Some(r)
}

/// Whether a path names a Markdown file: its extension is `md` in any
/// ASCII case.
pub open spec fn is_markdown(path: Seq<char>) -> bool {
    &&& file_name_of(path) matches Some(name)
    &&& extension_of(name) matches Some(ext)
    &&& eq_ignore_ascii_case(ext, "md"@)
}

/// Whether a path names a Markdown file, the only kind that can be imported.
pub fn is_markdown_path(path: &str) -> (r: bool)
    ensures
        r == is_markdown(path@),
{
    let v = to_chars(path);
    match file_name_chars(v.as_slice()) {
        None => false,
        Some(name) => match file_extension(name.as_slice()) {
            None => false,
            Some(ext) => {
                let md = to_chars("md");
                chars_eq_ignore_ascii_case(ext.as_slice(), md.as_slice())
            },
        },
    }
}

/// The stem of the file a path names.
pub fn file_stem(path: &str) -> (r: Option<Vec<char>>)
    ensures
        match r {
            Some(s) => file_name_of(path@) matches Some(n) && s@ == stem_of(n),
            None => file_name_of(path@) is None,
        },
{
    let v = to_chars(path);
    match file_name_chars(v.as_slice()) {
        None => None,
        Some(name) => match find_last_dot(name.as_slice()) {
            None => Some(name),
            Some(i) => {
                if i == 0 {
                    Some(name)
                } else {
                    let mut r: Vec<char> = Vec::new();
                    let mut k: usize = 0;
                    while k < i
                        invariant
                            k <= i,
                            i < name@.len(),
                            r@ == name@.take(k as int),
                        decreases i - k,
                    {
                        r.push(name[k]);
                        k = k + 1;
                    }
                    Some(r)
                }
            },
        },
    }
}

} // verus!
