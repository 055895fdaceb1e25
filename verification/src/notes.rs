//! Notes, their metadata, and the rules for naming and describing them.
//!
//! `metadata.json` and the Markdown files are the authority for notes. This
//! module decides how a note's file is named and where it lies, what its
//! preview and word count are, how metadata is kept consistent when notes
//! are created, edited, merged, moved or deleted, and which metadata may be
//! trusted at all.

use vstd::prelude::*;

use crate::error::AppError;
use crate::outside::{is_hyphenated_uuid, new_uuid_v4};
use crate::paths::{
    is_note_file_name, is_safe_component, join_path, lemma_split_path_no_slash, path_join,
    segments, validate_category_name, validate_note_file_name, validate_note_id,
    extension_of, file_name_of, file_stem, is_markdown, is_markdown_path, last_dot, stem_of,
    starts_with_cur_dir,
};
use crate::text::{
    append_chars, append_str, chars_start_with, is_control, is_whitespace, join, lines_of,
    replace_char, replace_char_exec, slice_chars, spec_is_control, spec_is_whitespace,
    replace_all, replace_all_exec, split_lines, split_whitespace, starts_with, starts_with_at,
    str_eq, string_from_chars, string_of, to_chars, trim,
    trim_chars, trim_start, words,
};
use crate::sort::{is_sorted_copy, stable_sort_by_key};
use crate::time::Timestamp;

verus! {

/// A reusable starting text for new notes.
#[derive(Debug)]
pub struct NoteTemplate {
    pub id: String,
    pub name: String,
    pub content: String,
}

/// What the editor sends to create or save a note.
#[derive(Debug)]
pub struct SaveNoteRequest {
    pub title: String,
    pub content: String,
    pub category: String,
    pub tags: Vec<String>,
    pub pinned: bool,
}

/// A request to merge the source note into the target note.
#[derive(Debug)]
pub struct MergeNotesRequest {
    pub target_id: String,
    pub source_id: String,
}

/// What `metadata.json` records of a note.
#[derive(Debug)]
pub struct NoteMetadata {
    pub id: String,
    pub title: String,
    pub file_name: String,
    pub category: String,
    pub created_at: Timestamp,
    pub updated_at: Timestamp,
    pub word_count: usize,
    pub preview: String,
    pub tags: Vec<String>,
    pub pinned: bool,
}

/// A saved earlier content of a note.
#[derive(Debug)]
pub struct NoteVersion {
    pub id: String,
    pub created_at: Timestamp,
    pub preview: String,
}

/// A note with its content.
#[derive(Debug)]
pub struct Note {
    pub id: String,
    pub title: String,
    pub file_name: String,
    pub category: String,
    pub created_at: Timestamp,
    pub updated_at: Timestamp,
    pub word_count: usize,
    pub content: String,
    pub tags: Vec<String>,
    pub pinned: bool,
}

/// The contents of `metadata.json`.
#[derive(Debug)]
pub struct MetadataFile {
    pub notes: Vec<NoteMetadata>,
}

/// The characters of each string in `v`.
pub open spec fn strings_view(v: Seq<String>) -> Seq<Seq<char>> {
    v.map_values(|s: String| s@)
}

/// What a note's metadata says, as plain values.
pub struct MetaView {
    pub id: Seq<char>,
    pub title: Seq<char>,
    pub file_name: Seq<char>,
    pub category: Seq<char>,
    pub created_at: Timestamp,
    pub updated_at: Timestamp,
    pub word_count: usize,
    pub preview: Seq<char>,
    pub tags: Seq<Seq<char>>,
    pub pinned: bool,
}

/// A note, as plain values.
pub struct NoteView {
    pub id: Seq<char>,
    pub title: Seq<char>,
    pub file_name: Seq<char>,
    pub category: Seq<char>,
    pub created_at: Timestamp,
    pub updated_at: Timestamp,
    pub word_count: usize,
    pub content: Seq<char>,
    pub tags: Seq<Seq<char>>,
    pub pinned: bool,
}

impl View for NoteMetadata {
    type V = MetaView;

    open spec fn view(&self) -> MetaView {
        MetaView {
            id: self.id@,
            title: self.title@,
            file_name: self.file_name@,
            category: self.category@,
            created_at: self.created_at,
            updated_at: self.updated_at,
            word_count: self.word_count,
            preview: self.preview@,
            tags: strings_view(self.tags@),
            pinned: self.pinned,
        }
    }
}

impl View for Note {
    type V = NoteView;

    open spec fn view(&self) -> NoteView {
        NoteView {
            id: self.id@,
            title: self.title@,
            file_name: self.file_name@,
            category: self.category@,
            created_at: self.created_at,
            updated_at: self.updated_at,
            word_count: self.word_count,
            content: self.content@,
            tags: strings_view(self.tags@),
            pinned: self.pinned,
        }
    }
}

/// The metadata entries as plain values.
pub open spec fn metas_view(v: Seq<NoteMetadata>) -> Seq<MetaView> {
    v.map_values(|m: NoteMetadata| m@)
}

/// The number of non-whitespace characters of `s`.
pub open spec fn count_non_ws(s: Seq<char>) -> nat
    decreases s.len(),
{
    if s.len() == 0 {
        0
    } else {
        count_non_ws(s.drop_last()) + if spec_is_whitespace(s.last()) { 0nat } else { 1nat }
    }
}

/// The word count of a note: its non-whitespace characters (so that texts
/// without spaces between words, such as Chinese, are counted usefully).
pub fn count_words(content: &str) -> (n: usize)
    ensures
        n == count_non_ws(content@),
{
    let v = to_chars(content);
    let mut n: usize = 0;
    let mut i: usize = 0;
    while i < v.len()
        invariant
            i <= v@.len(),
            n == count_non_ws(v@.take(i as int)),
            n <= i,
        decreases v@.len() - i,
    {
        assert(v@.take(i + 1).drop_last() == v@.take(i as int));
        if !is_whitespace(v[i]) {
            n = n + 1;
        }
        i = i + 1;
    }
    assert(v@.take(v@.len() as int) == v@);
    n
}

/// The preview of a text: its words joined by single spaces, cut after 80
/// characters.
pub open spec fn preview_of(content: Seq<char>) -> Seq<char> {
    let j = join(words(content), seq![' ']);
    if j.len() <= 80 { j } else { j.take(80) }
}

/// The whitespace-separated words of `content`, joined by single
/// spaces, cut after `limit` characters.
pub open spec fn joined_prefix(content: Seq<char>, limit: nat) -> Seq<char> {
    let j = join(words(content), seq![' ']);
    if j.len() <= limit { j } else { j.take(limit as int) }
}

/// The words of `content` joined by single spaces, at most `limit`
/// characters of them.
pub fn joined_words_prefix(content: &str, limit: usize) -> (p: String)
    ensures
        p@ == joined_prefix(content@, limit as nat),
{
    let v = to_chars(content);
    let ws = split_whitespace(v.as_slice());
    let ghost ww = words(content@);
    let mut j: Vec<char> = Vec::new();
    let mut i: usize = 0;
    while i < ws.len()
        invariant
            i <= ws@.len(),
            ws@.len() == ww.len(),
            ww == words(content@),
            forall|k: int| 0 <= k < ws@.len() ==> #[trigger] ws@[k]@ == ww[k],
            j@ == join(ww.take(i as int), seq![' ']),
        decreases ws@.len() - i,
    {
        if i > 0 {
            j.push(' ');
        }
        append_chars(&mut j, ws[i].as_slice());
        proof {
            let t = ww.take(i + 1);
            assert(t.drop_last() == ww.take(i as int));
            if i == 0 {
                assert(t.len() == 1);
            }
        }
        i = i + 1;
    }
    assert(ww.take(ww.len() as int) == ww);
    if j.len() <= limit {
        string_from_chars(j.as_slice())
    } else {
        let mut t: Vec<char> = Vec::new();
        let mut k: usize = 0;
        while k < limit
            invariant
                k <= limit,
                j@.len() > limit,
                t@ == j@.take(k as int),
            decreases limit - k,
        {
            t.push(j[k]);
            k = k + 1;
        }
        string_from_chars(t.as_slice())
    }
}

/// The preview shown in note lists.
pub fn preview(content: &str) -> (p: String)
    ensures
        p@ == preview_of(content@),
        p@.len() <= 80,
{
    joined_words_prefix(content, 80)
}

/// Whether `c` separates the words of a file-name stem: whitespace, a
/// character that file systems refuse, or a control character.
pub open spec fn is_stem_separator(c: char) -> bool {
    spec_is_whitespace(c) || c == '<' || c == '>' || c == ':' || c == '"' || c == '/' || c == '\\'
        || c == '|' || c == '?' || c == '*' || spec_is_control(c)
}

/// Builds a file-name stem from `s`: runs of separators become one `_`
/// (never at the start), and reading stops once 48 characters are taken.
pub open spec fn stem_scan(s: Seq<char>, stem: Seq<char>, last_sep: bool) -> Seq<char>
    decreases s.len(),
{
    if s.len() == 0 {
        stem
    } else if is_stem_separator(s[0]) {
        if stem.len() > 0 && !last_sep {
            stem_scan(s.drop_first(), stem.push('_'), true)
        } else {
            stem_scan(s.drop_first(), stem, last_sep)
        }
    } else if stem.len() + 1 >= 48 {
        stem.push(s[0])
    } else {
        stem_scan(s.drop_first(), stem.push(s[0]), false)
    }
}

/// `s` without `_` at either end.
pub open spec fn trim_underscores(s: Seq<char>) -> Seq<char>
    decreases s.len(),
{
    if s.len() > 0 && s[0] == '_' {
        trim_underscores(s.drop_first())
    } else if s.len() > 0 && s.last() == '_' {
        trim_underscores(s.drop_last())
    } else {
        s
    }
}

/// The stem of a note's file name derived from its title.
pub open spec fn safe_stem(title: Seq<char>) -> Seq<char> {
    trim_underscores(stem_scan(trim(title), seq![], false))
}

proof fn lemma_stem_scan_props(s: Seq<char>, stem: Seq<char>, last_sep: bool)
    requires
        stem.len() <= 48,
        stem.len() == 48 ==> last_sep,
        forall|k: int| 0 <= k < stem.len() ==> #[trigger] stem[k] == '_' || !is_stem_separator(stem[k]),
    ensures
        stem_scan(s, stem, last_sep).len() <= 49,
        forall|k: int|
            0 <= k < stem_scan(s, stem, last_sep).len() ==> #[trigger] stem_scan(s, stem, last_sep)[k]
                == '_' || !is_stem_separator(stem_scan(s, stem, last_sep)[k]),
    decreases s.len(),
{
    if s.len() == 0 {
    } else if is_stem_separator(s[0]) {
        if stem.len() > 0 && !last_sep {
            lemma_stem_scan_props(s.drop_first(), stem.push('_'), true);
        } else {
            lemma_stem_scan_props(s.drop_first(), stem, last_sep);
        }
    } else if stem.len() + 1 >= 48 {
    } else {
        lemma_stem_scan_props(s.drop_first(), stem.push(s[0]), false);
    }
}


fn stem_scan_exec(t: &[char]) -> (r: Vec<char>)
    ensures
        r@ == stem_scan(t@, seq![], false),
{
    let mut stem: Vec<char> = Vec::new();
    let mut last_sep = false;
    let mut i: usize = 0;
    assert(t@.skip(0) == t@);
    while i < t.len()
        invariant
            i <= t@.len(),
            stem@.len() <= 48,
            stem@.len() == 48 ==> last_sep,
            stem_scan(t@, seq![], false) == stem_scan(t@.skip(i as int), stem@, last_sep),
        decreases t@.len() - i,
    {
        let ch = t[i];
        assert(t@.skip(i as int).drop_first() == t@.skip(i + 1));
        assert(t@.skip(i as int)[0] == ch);
        if is_stem_separator_exec(ch) {
            if stem.len() > 0 && !last_sep {
                stem.push('_');
                last_sep = true;
            }
        } else {
            stem.push(ch);
            last_sep = false;
            if stem.len() >= 48 {
                return stem;
            }
        }
        i = i + 1;
    }
    stem
}

/// Whether `c` separates the words of a file-name stem.
pub fn is_stem_separator_exec(c: char) -> (r: bool)
    ensures
        r == is_stem_separator(c),
{
    is_whitespace(c) || c == '<' || c == '>' || c == ':' || c == '"' || c == '/' || c == '\\'
        || c == '|' || c == '?' || c == '*' || is_control(c)
}

proof fn lemma_trim_underscores(s: Seq<char>)
    ensures
        exists|a: int, b: int|
            0 <= a <= b <= s.len() && #[trigger] trim_underscores(s) == s.subrange(a, b),
        trim_underscores(s).len() > 0 ==> trim_underscores(s)[0] != '_' && trim_underscores(
            s,
        ).last() != '_',
    decreases s.len(),
{
    if s.len() > 0 && s[0] == '_' {
        lemma_trim_underscores(s.drop_first());
        let (a, b) = choose|a: int, b: int|
            0 <= a <= b <= s.drop_first().len() && trim_underscores(s.drop_first())
                == s.drop_first().subrange(a, b);
        assert(s.drop_first().subrange(a, b) == s.subrange(a + 1, b + 1));
    } else if s.len() > 0 && s.last() == '_' {
        lemma_trim_underscores(s.drop_last());
        let (a, b) = choose|a: int, b: int|
            0 <= a <= b <= s.drop_last().len() && trim_underscores(s.drop_last())
                == s.drop_last().subrange(a, b);
        assert(s.drop_last().subrange(a, b) == s.subrange(a, b));
    } else {
        assert(s.subrange(0, s.len() as int) == s);
    }
}

/// The stem of a note's file name for the title `title`: the trimmed title
/// with runs of whitespace, reserved and control characters turned into one
/// `_`, at most about 48 characters, without `_` at either end.
pub fn safe_file_stem(title: &str) -> (r: String)
    ensures
        r@ == safe_stem(title@),
        r@.len() <= 49,
        forall|k: int| 0 <= k < r@.len() ==> !is_stem_separator(#[trigger] r@[k]),
        r@.len() > 0 ==> r@[0] != '_' && r@.last() != '_',
{
    let t = trim_chars(to_chars(title).as_slice());
    let s = stem_scan_exec(t.as_slice());
    proof {
        lemma_stem_scan_props(t@, seq![], false);
        lemma_trim_underscores(s@);
        let (a, b) = choose|a: int, b: int|
            0 <= a <= b <= s@.len() && trim_underscores(s@) == s@.subrange(a, b);
        assert forall|k: int| 0 <= k < trim_underscores(s@).len() implies !is_stem_separator(
            #[trigger] trim_underscores(s@)[k],
        ) by {
            assert(trim_underscores(s@)[k] == s@[a + k]);
        }
    }
    let mut lo: usize = 0;
    assert(s@.skip(0) == s@);
    while lo < s.len() && s[lo] == '_'
        invariant
            lo <= s@.len(),
            trim_underscores(s@) == trim_underscores(s@.skip(lo as int)),
        decreases s@.len() - lo,
    {
        assert(s@.skip(lo as int).drop_first() == s@.skip(lo + 1));
        lo = lo + 1;
    }
    let mut hi: usize = s.len();
    assert(s@.skip(lo as int) == s@.subrange(lo as int, hi as int));
    while hi > lo && s[hi - 1] == '_'
        invariant
            lo <= hi <= s@.len(),
            lo < hi ==> s@[lo as int] != '_',
            trim_underscores(s@) == trim_underscores(s@.subrange(lo as int, hi as int)),
        decreases hi,
    {
        assert(s@.subrange(lo as int, hi as int).drop_last() == s@.subrange(lo as int, hi - 1));
        hi = hi - 1;
    }
    let mut r: Vec<char> = Vec::new();
    let mut k: usize = lo;
    while k < hi
        invariant
            lo <= k <= hi,
            hi <= s@.len(),
            r@ == s@.subrange(lo as int, k as int),
        decreases hi - k,
    {
        r.push(s[k]);
        k = k + 1;
    }
    string_from_chars(r.as_slice())
}

/// Whether `c` is an ASCII hexadecimal digit, in either case.
pub open spec fn is_ascii_hexdigit(c: char) -> bool {
    ('0' <= c && c <= '9') || ('a' <= c && c <= 'f') || ('A' <= c && c <= 'F')
}

/// Whether `s` has the shape of a UUID: five groups of 8, 4, 4, 4 and 12
/// hexadecimal digits separated by `-`.
pub open spec fn is_uuid_text(s: Seq<char>) -> bool {
    &&& s.len() == 36
    &&& forall|i: int|
        0 <= i < 36 ==> if i == 8 || i == 13 || i == 18 || i == 23 {
            s[i] == '-'
        } else {
            is_ascii_hexdigit(#[trigger] s[i])
        }
}

/// Whether `id` has the shape of a UUID (the ids this notebook creates).
pub fn is_uuid_like(id: &str) -> (r: bool)
    ensures
        r == is_uuid_text(id@),
{
    let v = to_chars(id);
    if v.len() != 36 {
        return false;
    }
    let mut i: usize = 0;
    while i < 36
        invariant
            i <= 36,
            v@.len() == 36,
            v@ == id@,
            forall|j: int|
                0 <= j < i ==> if j == 8 || j == 13 || j == 18 || j == 23 {
                    v@[j] == '-'
                } else {
                    is_ascii_hexdigit(#[trigger] v@[j])
                },
        decreases 36 - i,
    {
        let c = v[i];
        if i == 8 || i == 13 || i == 18 || i == 23 {
            if c != '-' {
                assert(!is_uuid_text(id@)) by {
                    if is_uuid_text(v@) {
                        assert(v@[i as int] == '-');
                    }
                }
                return false;
            }
        } else if !(('0' <= c && c <= '9') || ('a' <= c && c <= 'f') || ('A' <= c && c <= 'F')) {
            assert(!is_uuid_text(id@)) by {
                if is_uuid_text(v@) {
                    assert(is_ascii_hexdigit(v@[i as int]));
                }
            }
            return false;
        }
        i = i + 1;
    }
    true
}

/// Every UUID this notebook generates has the shape `is_uuid_like` accepts.
pub proof fn lemma_generated_uuid_is_uuid_like(s: Seq<char>)
    requires
        is_hyphenated_uuid(s),
    ensures
        is_uuid_text(s),
{
    assert forall|i: int| 0 <= i < 36 implies if i == 8 || i == 13 || i == 18 || i == 23 {
        s[i] == '-'
    } else {
        is_ascii_hexdigit(#[trigger] s[i])
    } by {}
}

/// The index of the first `c` in `s`.
pub open spec fn first_index_of(s: Seq<char>, c: char) -> Option<int>
    decreases s.len(),
{
    if s.len() == 0 {
        None
    } else if s[0] == c {
        Some(0)
    } else {
        match first_index_of(s.drop_first(), c) {
            Some(i) => Some(i + 1),
            None => None,
        }
    }
}

/// The note id recorded in a Markdown file name: for `{uuid}_{title}.md`
/// the UUID, for any other `{stem}.md` the whole stem; nothing for a file
/// that does not end in `.md`.
pub open spec fn id_from_name(file_name: Seq<char>) -> Option<Seq<char>> {
    let n = file_name.len();
    if n >= 3 && file_name.skip(n - 3) == ".md"@ {
        let stem = file_name.take(n - 3);
        match first_index_of(stem, '_') {
            Some(i) => if is_uuid_text(stem.take(i)) { Some(stem.take(i)) } else { Some(stem) },
            None => Some(stem),
        }
    } else {
        None
    }
}

/// The index of the first `c` in `v`.
pub fn find_char(v: &[char], c: char) -> (r: Option<usize>)
    ensures
        match r {
            Some(i) => first_index_of(v@, c) == Some(i as int) && i < v@.len() && v@[i as int] == c,
            None => first_index_of(v@, c) is None,
        },
{
    let mut i: usize = 0;
    assert(v@.skip(0) == v@);
    while i < v.len()
        invariant
            i <= v@.len(),
            forall|j: int| 0 <= j < i ==> v@[j] != c,
            first_index_of(v@, c) == match first_index_of(v@.skip(i as int), c) {
                Some(k) => Some(k + i),
                None => None,
            },
        decreases v@.len() - i,
    {
        assert(v@.skip(i as int).drop_first() == v@.skip(i + 1));
        if v[i] == c {
            return Some(i);
        }
        i = i + 1;
    }
    None
}

/// The first `n` characters of `v`.
pub fn take_chars(v: &[char], n: usize) -> (r: Vec<char>)
    requires
        n <= v@.len(),
    ensures
        r@ == v@.take(n as int),
{
    let mut r: Vec<char> = Vec::new();
    let mut i: usize = 0;
    while i < n
        invariant
            i <= n,
            n <= v@.len(),
            r@ == v@.take(i as int),
        decreases n - i,
    {
        r.push(v[i]);
        i = i + 1;
    }
    r
}

/// The note id recorded in a Markdown file name (see `id_from_name`).
pub fn id_from_file_name(file_name: &str) -> (r: Option<String>)
    ensures
        match r {
            Some(id) => id_from_name(file_name@) == Some(id@),
            None => id_from_name(file_name@) is None,
        },
{
    let v = to_chars(file_name);
    let n = v.len();
    if n < 3 || v[n - 3] != '.' || v[n - 2] != 'm' || v[n - 1] != 'd' {
        proof {
            if n >= 3 && v@.skip(n - 3) == ".md"@ {
                reveal_strlit(".md");
                assert(v@.skip(n - 3)[0] == '.');
                assert(v@.skip(n - 3)[1] == 'm');
                assert(v@.skip(n - 3)[2] == 'd');
            }
        }
        return None;
    }
    proof {
        reveal_strlit(".md");
        assert(v@.skip(n - 3) == ".md"@);
    }
    let stem = take_chars(v.as_slice(), n - 3);
    match find_char(stem.as_slice(), '_') {
        Some(i) => {
            let head = take_chars(stem.as_slice(), i);
            let head_s = string_from_chars(head.as_slice());
            if is_uuid_like(head_s.as_str()) {
                Some(head_s)
            } else {
                Some(string_from_chars(stem.as_slice()))
            }
        },
        None => Some(string_from_chars(stem.as_slice())),
    }
}


/// The file name of a note with id `id` and title `title`:
/// `{id}_{stem}.md`, or `{id}.md` when the title yields no stem.
pub open spec fn note_file_name(id: Seq<char>, title: Seq<char>) -> Seq<char> {
    let stem = safe_stem(title);
    if stem.len() == 0 {
        id + ".md"@
    } else {
        id + "_"@ + stem + ".md"@
    }
}

/// Where the notebook keeps its configuration and its data.
#[derive(Debug)]
pub struct NoteStore {
    pub config_dir: String,
    pub data_dir: String,
}

impl NoteStore {
    /// A store with the given configuration and data directories.
    pub fn new(config_dir: String, data_dir: String) -> (s: NoteStore)
        ensures
            s.config_dir@ == config_dir@,
            s.data_dir@ == data_dir@,
    {
        NoteStore { config_dir, data_dir }
    }

    /// The data directory.
    pub fn data_dir(&self) -> (r: &str)
        ensures
            r@ == self.data_dir@,
    {
        self.data_dir.as_str()
    }

    /// The configuration directory.
    pub fn config_dir(&self) -> (r: &str)
        ensures
            r@ == self.config_dir@,
    {
        self.config_dir.as_str()
    }

    /// `metadata.json` in the data directory.
    pub fn metadata_path(&self) -> (r: String)
        ensures
            r@ == path_join(self.data_dir@, "metadata.json"@),
    {
        join_path(self.data_dir.as_str(), "metadata.json")
    }

    /// `config.json` in the configuration directory.
    pub fn config_path(&self) -> (r: String)
        ensures
            r@ == path_join(self.config_dir@, "config.json"@),
    {
        join_path(self.config_dir.as_str(), "config.json")
    }

    /// The marker that records that the old macOS shortcut default was handled.
    pub fn macos_shortcut_migration_path(&self) -> (r: String)
        ensures
            r@ == path_join(self.config_dir@, ".macos-shortcut-default-v3"@),
    {
        join_path(self.config_dir.as_str(), ".macos-shortcut-default-v3")
    }

    /// The directory of the Markdown files.
    pub fn notes_dir(&self) -> (r: String)
        ensures
            r@ == path_join(self.data_dir@, "notes"@),
    {
        join_path(self.data_dir.as_str(), "notes")
    }

    /// The directory of a note's images; fails with `invalidNoteId` unless
    /// the id is a safe path component.
    pub fn images_dir(&self, note_id: &str) -> (r: Result<String, AppError>)
        ensures
            r is Ok <==> is_safe_component(note_id@),
            r matches Ok(p) ==> p@ == path_join(path_join(self.data_dir@, "images"@), note_id@),
            r matches Err(e) ==> e.wf() && e.code@ == "invalidNoteId"@ && e.message@ == "note_id 格式无效"@
                && e.detail("noteId"@) == Some(note_id@),
    {
        match validate_note_id(note_id) {
            Err(e) => Err(e),
            Ok(()) => {
                let d = join_path(self.data_dir.as_str(), "images");
                Ok(join_path(d.as_str(), note_id))
            },
        }
    }

    /// The directory of a note's earlier versions; fails with
    /// `invalidNoteId` unless the id is a safe path component.
    pub fn note_history_dir(&self, note_id: &str) -> (r: Result<String, AppError>)
        ensures
            r is Ok <==> is_safe_component(note_id@),
            r matches Ok(p) ==> p@ == path_join(path_join(self.data_dir@, "history"@), note_id@),
            r matches Err(e) ==> e.wf() && e.code@ == "invalidNoteId"@ && e.message@ == "note_id 格式无效"@
                && e.detail("noteId"@) == Some(note_id@),
    {
        match validate_note_id(note_id) {
            Err(e) => Err(e),
            Ok(()) => {
                let d = join_path(self.data_dir.as_str(), "history");
                Ok(join_path(d.as_str(), note_id))
            },
        }
    }

    /// Where the Markdown file of a note lies: directly in the notes
    /// directory when it has no category, else in the category's
    /// directory. Fails unless the file name is a note file name and the
    /// category a safe component (or empty).
    pub fn note_path_in_category(&self, file_name: &str, category: &str) -> (r: Result<
        String,
        AppError,
    >)
        ensures
            r is Ok <==> is_note_file_name(file_name@) && (category@.len() == 0
                || is_safe_component(category@)),
            r matches Ok(p) ==> p@ == if category@.len() == 0 {
                path_join(path_join(self.data_dir@, "notes"@), file_name@)
            } else {
                path_join(path_join(path_join(self.data_dir@, "notes"@), category@), file_name@)
            },
            r matches Err(e) ==> (!is_note_file_name(file_name@) && e.code@ == "unsafePath"@) || (
            is_note_file_name(file_name@) && e.code@ == "categoryNameInvalidChars"@),
    {
        if let Err(e) = validate_note_file_name(file_name) {
            return Err(e);
        }
        if let Err(e) = validate_category_name(category) {
            return Err(e);
        }
        let notes_dir = self.notes_dir();
        if category.is_empty() {
            Ok(join_path(notes_dir.as_str(), file_name))
        } else {
            let d = join_path(notes_dir.as_str(), category);
            Ok(join_path(d.as_str(), file_name))
        }
    }

    /// The file name of a note with id `id` and title `title`.
    pub fn file_name_for(&self, id: &str, title: &str) -> (r: String)
        ensures
            r@ == note_file_name(id@, title@),
    {
        let stem = safe_file_stem(title);
        let mut v = to_chars(id);
        if stem.as_str().is_empty() {
            append_str(&mut v, ".md");
        } else {
            append_str(&mut v, "_");
            append_str(&mut v, stem.as_str());
            append_str(&mut v, ".md");
        }
        string_from_chars(v.as_slice())
    }
}

/// Properties of every stem: no separator, so in particular no `/`, `:`,
/// NUL, and no `_` at either end.
pub proof fn lemma_safe_stem_chars(title: Seq<char>)
    ensures
        forall|k: int|
            0 <= k < safe_stem(title).len() ==> !is_stem_separator(#[trigger] safe_stem(title)[k]),
{
    let s = stem_scan(trim(title), seq![], false);
    lemma_stem_scan_props(trim(title), seq![], false);
    lemma_trim_underscores(s);
    let (a, b) = choose|a: int, b: int|
        0 <= a <= b <= s.len() && trim_underscores(s) == s.subrange(a, b);
    assert forall|k: int| 0 <= k < safe_stem(title).len() implies !is_stem_separator(
        #[trigger] safe_stem(title)[k],
    ) by {
        assert(safe_stem(title)[k] == s[a + k]);
    }
}

/// The id of a note can be read back from the name of its file.
pub proof fn lemma_note_file_name_round_trip(id: Seq<char>, title: Seq<char>)
    requires
        is_uuid_text(id),
    ensures
        id_from_name(note_file_name(id, title)) == Some(id),
{
    reveal_strlit(".md");
    reveal_strlit("_");
    let stem = safe_stem(title);
    let f = note_file_name(id, title);
    let n = f.len();
    assert(f.skip(n - 3) == ".md"@);
    let body = f.take(n - 3);
    lemma_no_underscore_in_uuid(id);
    assert(n >= 3);
    if stem.len() == 0 {
        assert(body == id);
        lemma_first_index_none(id, '_');
        assert(id_from_name(f) == Some(body));
    } else {
        assert(body == id + ("_"@ + stem));
        lemma_first_index_after(id, "_"@ + stem, '_');
        assert(body.take(36) == id);
        assert(first_index_of(body, '_') == Some(36int));
        assert(id_from_name(f) == Some(body.take(36)));
    }
}

proof fn lemma_no_underscore_in_uuid(id: Seq<char>)
    requires
        is_uuid_text(id),
    ensures
        !id.contains('_'),
        !id.contains('/'),
        !id.contains(':'),
        !id.contains('\0'),
        id[0] != '.' && id[0] != '/',
{
    assert forall|j: int| 0 <= j < id.len() implies id[j] != '_' && id[j] != '/' && id[j] != ':'
        && id[j] != '\0' by {
        assert(id[j] == '-' || is_ascii_hexdigit(id[j]));
    }
    assert(is_ascii_hexdigit(id[0]));
}

proof fn lemma_first_index_none(s: Seq<char>, c: char)
    requires
        !s.contains(c),
    ensures
        first_index_of(s, c) is None,
    decreases s.len(),
{
    if s.len() > 0 {
        assert(s.contains(s[0]));
        assert(!s.drop_first().contains(c)) by {
            if s.drop_first().contains(c) {
                let j = choose|j: int| 0 <= j < s.drop_first().len() && s.drop_first()[j] == c;
                assert(s[j + 1] == c);
            }
        }
        lemma_first_index_none(s.drop_first(), c);
    }
}

proof fn lemma_first_index_after(a: Seq<char>, b: Seq<char>, c: char)
    requires
        !a.contains(c),
        b.len() > 0,
        b[0] == c,
    ensures
        first_index_of(a + b, c) == Some(a.len() as int),
    decreases a.len(),
{
    if a.len() == 0 {
        assert(a + b == b);
    } else {
        assert(a.contains(a[0]));
        assert((a + b).drop_first() == a.drop_first() + b);
        assert(!a.drop_first().contains(c)) by {
            if a.drop_first().contains(c) {
                let j = choose|j: int| 0 <= j < a.drop_first().len() && a.drop_first()[j] == c;
                assert(a[j + 1] == c);
            }
        }
        lemma_first_index_after(a.drop_first(), b, c);
    }
}

/// Every file name the store gives a note passes the store's own check
/// of note file names, so a note it creates can always be opened again.
pub proof fn lemma_note_file_name_is_valid(id: Seq<char>, title: Seq<char>)
    requires
        is_uuid_text(id),
    ensures
        is_note_file_name(note_file_name(id, title)),
{
    reveal_strlit(".md");
    reveal_strlit("_");
    reveal_strlit("md");
    reveal_strlit("..");
    lemma_no_underscore_in_uuid(id);
    lemma_safe_stem_chars(title);
    let stem = safe_stem(title);
    let f = note_file_name(id, title);
    let n = f.len();
    assert(f.len() >= 39);
    assert forall|j: int| 0 <= j < f.len() implies f[j] != '/' && f[j] != ':' && f[j] != '\0' by {
        if j < 36 {
            assert(f[j] == id[j]);
            assert(id.contains(id[j]));
        } else if stem.len() > 0 && 37 <= j < 37 + stem.len() {
            assert(f[j] == stem[j - 37]);
        }
    }
    assert(!f.contains('/'));
    assert(!f.contains(':'));
    assert(!f.contains('\0'));
    assert(f[0] == id[0]);
    lemma_split_path_no_slash(f, seq![]);
    assert(seq![] + f == f);
    assert(f != seq!['.']);
    assert(segments(f) == seq![f]);
    assert(!starts_with_cur_dir(f));
    assert(f != ".."@);
    assert(f[n - 3] == '.' && f[n - 2] == 'm' && f[n - 1] == 'd');
    assert(f.drop_last() == f.take(n - 1));
    assert(f.take(n - 1).drop_last() == f.take(n - 2));
    assert(last_dot(f.take(n - 2)) == Some(n - 3));
    assert(last_dot(f.take(n - 1)) == Some(n - 3));
    assert(last_dot(f) == Some(n - 3));
    assert(extension_of(f) == Some(f.skip(n - 2)));
    assert(f.skip(n - 2) == "md"@);
}


/// The first line whose trimmed text starts with `# `, as the trimmed text
/// after that mark.
pub open spec fn first_heading(lines: Seq<Seq<char>>) -> Option<Seq<char>>
    decreases lines.len(),
{
    if lines.len() == 0 {
        None
    } else if starts_with(trim(lines[0]), "# "@) {
        Some(trim(trim(lines[0]).skip(2)))
    } else {
        first_heading(lines.drop_first())
    }
}

/// The title of a note found on disk without metadata: its first level-one
/// heading if that is not empty, else the file name's text after the id
/// with `_` read as spaces.
pub open spec fn inferred_title(file_name: Seq<char>, content: Seq<char>) -> Seq<char> {
    match first_heading(split_lines(content)) {
        Some(t) if t.len() > 0 => t,
        _ => {
            let n = file_name.len();
            let stem = if n >= 3 && file_name.skip(n - 3) == ".md"@ {
                file_name.take(n - 3)
            } else {
                file_name
            };
            match first_index_of(stem, '_') {
                Some(i) => replace_char(stem.skip(i + 1), '_', ' '),
                None => seq![],
            }
        },
    }
}

/// The first heading line decides, wherever it stands: when `lines[j]`,
/// trimmed, starts with `# ` and no earlier line does, the heading is the
/// trimmed text after the mark on that line.
pub proof fn lemma_first_heading_at(lines: Seq<Seq<char>>, j: int)
    requires
        0 <= j < lines.len(),
        starts_with(trim(lines[j]), "# "@),
        forall|i: int| 0 <= i < j ==> !starts_with(trim(#[trigger] lines[i]), "# "@),
    ensures
        first_heading(lines) == Some(trim(trim(lines[j]).skip(2))),
    decreases j,
{
    if j > 0 {
        let rest = lines.drop_first();
        assert forall|i: int| 0 <= i < j - 1 implies !starts_with(trim(#[trigger] rest[i]), "# "@) by {
            assert(rest[i] == lines[i + 1]);
        }
        assert(rest[j - 1] == lines[j]);
        lemma_first_heading_at(rest, j - 1);
        assert(!starts_with(trim(lines[0]), "# "@));
    }
}

/// A note found on disk takes its title from its first `# ` heading line,
/// wherever in the content that line is: when line `j` of the content,
/// trimmed, starts with `# ` followed by non-blank text and no earlier line
/// starts with `# `, the inferred title is that text, whatever the file
/// is called.
pub proof fn lemma_title_from_first_heading_line(file_name: Seq<char>, content: Seq<char>, j: int)
    requires
        0 <= j < split_lines(content).len(),
        starts_with(trim(split_lines(content)[j]), "# "@),
        trim(trim(split_lines(content)[j]).skip(2)).len() > 0,
        forall|i: int| 0 <= i < j ==> !starts_with(trim(#[trigger] split_lines(content)[i]), "# "@),
    ensures
        inferred_title(file_name, content) == trim(trim(split_lines(content)[j]).skip(2)),
{
    lemma_first_heading_at(split_lines(content), j);
}

/// The first heading among `lines`, as `first_heading` gives it.
fn find_first_heading(lines: &Vec<Vec<char>>) -> (r: Option<Vec<char>>)
    ensures
        match r {
            Some(t) => first_heading(lines@.map_values(|l: Vec<char>| l@)) == Some(t@),
            None => first_heading(lines@.map_values(|l: Vec<char>| l@)) is None,
        },
{
    let ghost ls = lines@.map_values(|l: Vec<char>| l@);
    let hash = to_chars("# ");
    let mut i: usize = 0;
    assert(ls.skip(0) == ls);
    while i < lines.len()
        invariant
            i <= lines@.len(),
            ls == lines@.map_values(|l: Vec<char>| l@),
            hash@ == "# "@,
            first_heading(ls) == first_heading(ls.skip(i as int)),
        decreases lines@.len() - i,
    {
        assert(ls.skip(i as int).drop_first() == ls.skip(i + 1));
        assert(ls.skip(i as int)[0] == lines@[i as int]@);
        let t = trim_chars(lines[i].as_slice());
        proof {
            reveal_strlit("# ");
        }
        if chars_start_with(t.as_slice(), hash.as_slice()) {
            let rest = slice_chars(t.as_slice(), 2, t.len());
            assert(rest@ == t@.skip(2));
            return Some(trim_chars(rest.as_slice()));
        }
        i = i + 1;
    }
    None
}

/// The title of a note found on disk without metadata (see
/// `inferred_title`).
pub fn infer_title(file_name: &str, content: &str) -> (r: String)
    ensures
        r@ == inferred_title(file_name@, content@),
{
    let c = to_chars(content);
    let lines = lines_of(c.as_slice());
    assert(lines@.map_values(|l: Vec<char>| l@) == split_lines(content@));
    if let Some(t) = find_first_heading(&lines) {
        if t.len() > 0 {
            return string_from_chars(t.as_slice());
        }
    }
    let f = to_chars(file_name);
    let n = f.len();
    let stem = if n >= 3 && f[n - 3] == '.' && f[n - 2] == 'm' && f[n - 1] == 'd' {
        proof {
            reveal_strlit(".md");
            assert(f@.skip(n - 3) == ".md"@);
        }
        take_chars(f.as_slice(), n - 3)
    } else {
        proof {
            reveal_strlit(".md");
            if n >= 3 && f@.skip(n - 3) == ".md"@ {
                assert(f@.skip(n - 3)[0] == '.');
                assert(f@.skip(n - 3)[1] == 'm');
                assert(f@.skip(n - 3)[2] == 'd');
            }
        }
        take_chars(f.as_slice(), n)
    };
    assert(f@.take(n as int) == f@);
    match find_char(stem.as_slice(), '_') {
        Some(i) => {
            let rest = slice_chars(stem.as_slice(), i + 1, stem.len());
            assert(rest@ == stem@.skip(i + 1));
            string_from_chars(replace_char_exec(rest.as_slice(), '_', ' ').as_slice())
        },
        None => string_from_chars(Vec::<char>::new().as_slice()),
    }
}

/// The title of an imported Markdown file: the text of a level-one
/// heading on its first line (after a byte-order mark and leading
/// whitespace) if that is not empty, else the trimmed file stem if that is
/// not empty, else `导入笔记`.
pub open spec fn imported_title(path: Seq<char>, content: Seq<char>) -> Seq<char> {
    let first = trim_start(trim_start_bom(split_lines(content)[0]));
    if starts_with(first, "# "@) && trim(first.skip(2)).len() > 0 {
        trim(first.skip(2))
    } else {
        match file_name_of(path) {
            Some(n) if trim(stem_of(n)).len() > 0 => trim(stem_of(n)),
            _ => "导入笔记"@,
        }
    }
}

/// `s` without leading byte-order marks.
pub open spec fn trim_start_bom(s: Seq<char>) -> Seq<char>
    decreases s.len(),
{
    if s.len() > 0 && s[0] == '\u{feff}' { trim_start_bom(s.drop_first()) } else { s }
}

/// The largest Markdown file that may be imported: 25 MiB.
pub open spec fn max_import_size() -> int {
    26214400int
}

/// Checks a file before it is imported: only a Markdown file may be
/// (`unsupportedFile`), and, once its size is known, one of at most 25 MiB
/// (`importTooLarge`).
pub fn check_import_file(path: &str, size: Option<u64>) -> (r: Result<(), AppError>)
    ensures
        !is_markdown(path@) ==> (r matches Err(e) && e.wf() && e.code@ == "unsupportedFile"@
            && e.message@ == "只支持导入 .md 文件"@),
        is_markdown(path@) && (size matches Some(s) && s > max_import_size()) ==> (r matches Err(e)
            && e.wf() && e.code@ == "importTooLarge"@ && e.message@ == "导入的 Markdown 文件不能超过 25 MB"@),
        is_markdown(path@) && !(size matches Some(s) && s > max_import_size()) ==> r is Ok,
{
    if !is_markdown_path(path) {
        return Err(AppError::unsupported_file());
    }
    match size {
        Some(s) => {
            if s > 26214400 {
                return Err(crate::error::err("importTooLarge", "导入的 Markdown 文件不能超过 25 MB"));
            }
        },
        None => {},
    }
    Ok(())
}

/// The title for a Markdown file being imported (see `imported_title`).
pub fn imported_markdown_title(path: &str, content: &str) -> (r: String)
    ensures
        r@ == imported_title(path@, content@),
{
    let c = to_chars(content);
    let lines = lines_of(c.as_slice());
    let line0 = &lines[0];
    let mut lo: usize = 0;
    assert(line0@.skip(0) == line0@);
    while lo < line0.len() && line0[lo] == '\u{feff}'
        invariant
            lo <= line0@.len(),
            trim_start_bom(line0@) == trim_start_bom(line0@.skip(lo as int)),
        decreases line0@.len() - lo,
    {
        assert(line0@.skip(lo as int).drop_first() == line0@.skip(lo + 1));
        lo = lo + 1;
    }
    let nb = slice_chars(line0.as_slice(), lo, line0.len());
    assert(nb@ == line0@.skip(lo as int));
    let mut k: usize = 0;
    assert(nb@.skip(0) == nb@);
    while k < nb.len() && is_whitespace(nb[k])
        invariant
            k <= nb@.len(),
            trim_start(nb@) == trim_start(nb@.skip(k as int)),
        decreases nb@.len() - k,
    {
        assert(nb@.skip(k as int).drop_first() == nb@.skip(k + 1));
        k = k + 1;
    }
    let first = slice_chars(nb.as_slice(), k, nb.len());
    assert(first@ == nb@.skip(k as int));
    assert(trim_start_bom(line0@.skip(lo as int)) == line0@.skip(lo as int));
    assert(trim_start(nb@.skip(k as int)) == nb@.skip(k as int));
    assert(first@ == trim_start(trim_start_bom(split_lines(content@)[0])));
    let hash = to_chars("# ");
    proof {
        reveal_strlit("# ");
    }
    if chars_start_with(first.as_slice(), hash.as_slice()) {
        let rest = slice_chars(first.as_slice(), 2, first.len());
        assert(rest@ == first@.skip(2));
        let t = trim_chars(rest.as_slice());
        if t.len() > 0 {
            return string_from_chars(t.as_slice());
        }
    }
    match file_stem(path) {
        Some(st) => {
            let t = trim_chars(st.as_slice());
            if t.len() > 0 {
                string_from_chars(t.as_slice())
            } else {
                string_of("导入笔记")
            }
        },
        None => string_of("导入笔记"),
    }
}


/// A copy of a list of strings.
pub fn copy_strings(v: &Vec<String>) -> (r: Vec<String>)
    ensures
        r@ == v@,
{
    let mut r: Vec<String> = Vec::new();
    let mut i: usize = 0;
    while i < v.len()
        invariant
            i <= v@.len(),
            r@ == v@.take(i as int),
        decreases v@.len() - i,
    {
        r.push(v[i].clone());
        i = i + 1;
    }
    assert(v@.take(v@.len() as int) == v@);
    r
}

impl NoteMetadata {
    /// A copy of this metadata, field for field.
    pub fn copied(&self) -> (r: NoteMetadata)
        ensures
            r@ == self@,
    {
        NoteMetadata {
            id: self.id.clone(),
            title: self.title.clone(),
            file_name: self.file_name.clone(),
            category: self.category.clone(),
            created_at: self.created_at,
            updated_at: self.updated_at,
            word_count: self.word_count,
            preview: self.preview.clone(),
            tags: copy_strings(&self.tags),
            pinned: self.pinned,
        }
    }

    /// Whether the entry may be trusted: its id and category are safe path
    /// components (the category may be empty) and its file name is a note
    /// file name.
    pub open spec fn is_safe(&self) -> bool {
        &&& is_safe_component(self.id@)
        &&& (self.category@.len() == 0 || is_safe_component(self.category@))
        &&& is_note_file_name(self.file_name@)
    }

    /// The code of the error that checking this entry reports.
    pub open spec fn error_code(&self) -> Seq<char> {
        if !is_safe_component(self.id@) {
            "invalidNoteId"@
        } else if !(self.category@.len() == 0 || is_safe_component(self.category@)) {
            "categoryNameInvalidChars"@
        } else {
            "unsafePath"@
        }
    }

    /// The message of the error that checking this entry reports.
    pub open spec fn error_message(&self) -> Seq<char> {
        if !is_safe_component(self.id@) {
            "note_id 格式无效"@
        } else if !(self.category@.len() == 0 || is_safe_component(self.category@)) {
            "分类名不能包含特殊字符"@
        } else {
            "笔记文件名"@ + " 包含不安全路径"@
        }
    }
}

impl Note {
    /// A copy of this note, field for field.
    pub fn copied(&self) -> (r: Note)
        ensures
            r@ == self@,
    {
        Note {
            id: self.id.clone(),
            title: self.title.clone(),
            file_name: self.file_name.clone(),
            category: self.category.clone(),
            created_at: self.created_at,
            updated_at: self.updated_at,
            word_count: self.word_count,
            content: self.content.clone(),
            tags: copy_strings(&self.tags),
            pinned: self.pinned,
        }
    }

    /// The note recorded by `metadata` with the content read from its file.
    pub fn from_metadata(metadata: NoteMetadata, content: String) -> (n: Note)
        ensures
            n.id == metadata.id,
            n.title == metadata.title,
            n.file_name == metadata.file_name,
            n.category == metadata.category,
            n.created_at == metadata.created_at,
            n.updated_at == metadata.updated_at,
            n.word_count == metadata.word_count,
            n.content == content,
            n.tags == metadata.tags,
            n.pinned == metadata.pinned,
            n@ == note_of(metadata@, content@),
    {
        Note {
            id: metadata.id,
            title: metadata.title,
            file_name: metadata.file_name,
            category: metadata.category,
            created_at: metadata.created_at,
            updated_at: metadata.updated_at,
            word_count: metadata.word_count,
            content,
            tags: metadata.tags,
            pinned: metadata.pinned,
        }
    }
}

/// Checks every entry of `metadata.json` before any of it is used: ids and
/// categories must be safe path components and file names note file
/// names. Reports the first unsafe entry.
pub fn validate_metadata(metadata: &MetadataFile) -> (r: Result<(), AppError>)
    ensures
        r is Ok <==> forall|i: int| 0 <= i < metadata.notes@.len() ==> (#[trigger] metadata.notes@[i]).is_safe(),
        r matches Err(e) ==> exists|i: int|
            0 <= i < metadata.notes@.len() && !(#[trigger] metadata.notes@[i]).is_safe() && e.code@
                == metadata.notes@[i].error_code() && e.message@ == metadata.notes@[i].error_message()
                && forall|j: int|
                0 <= j < i ==> metadata.notes@[j].is_safe(),
{
    let mut i: usize = 0;
    while i < metadata.notes.len()
        invariant
            i <= metadata.notes@.len(),
            forall|j: int| 0 <= j < i ==> (#[trigger] metadata.notes@[j]).is_safe(),
        decreases metadata.notes@.len() - i,
    {
        let n = &metadata.notes[i];
        if let Err(e) = validate_note_id(n.id.as_str()) {
            return Err(e);
        }
        if let Err(e) = validate_category_name(n.category.as_str()) {
            return Err(e);
        }
        if let Err(e) = validate_note_file_name(n.file_name.as_str()) {
            return Err(e);
        }
        i = i + 1;
    }
    Ok(())
}

/// The position of the first note with id `id`.
pub open spec fn index_of_id(notes: Seq<NoteMetadata>, id: Seq<char>) -> Option<int>
    decreases notes.len(),
{
    if notes.len() == 0 {
        None
    } else if notes[0].id@ == id {
        Some(0)
    } else {
        match index_of_id(notes.drop_first(), id) {
            Some(i) => Some(i + 1),
            None => None,
        }
    }
}

proof fn lemma_index_of_id(notes: Seq<NoteMetadata>, id: Seq<char>)
    ensures
        match index_of_id(notes, id) {
            Some(i) => 0 <= i < notes.len() && notes[i].id@ == id && forall|j: int|
                0 <= j < i ==> (#[trigger] notes[j]).id@ != id,
            None => forall|j: int| 0 <= j < notes.len() ==> (#[trigger] notes[j]).id@ != id,
        },
    decreases notes.len(),
{
    if notes.len() > 0 {
        lemma_index_of_id(notes.drop_first(), id);
        if notes[0].id@ != id {
            match index_of_id(notes.drop_first(), id) {
                Some(i) => {
                    assert forall|j: int| 0 <= j < i + 1 implies (#[trigger] notes[j]).id@ != id by {
                        if j > 0 {
                            assert(notes[j] == notes.drop_first()[j - 1]);
                        }
                    }
                },
                None => {
                    assert forall|j: int| 0 <= j < notes.len() implies (#[trigger] notes[j]).id@
                        != id by {
                        if j > 0 {
                            assert(notes[j] == notes.drop_first()[j - 1]);
                        }
                    }
                },
            }
        }
    }
}

/// No two entries of the metadata share an id.
pub open spec fn ids_unique(notes: Seq<NoteMetadata>) -> bool {
    forall|i: int, j: int| 0 <= i < j < notes.len() ==> notes[i].id@ != notes[j].id@
}

/// What a read gives back of a write: a note added (`add_note`) under an
/// id that the metadata did not hold is found (`find_metadata`) as the
/// entry that was added.
pub proof fn lemma_added_note_is_found(notes: Seq<NoteMetadata>, m: NoteMetadata)
    requires
        index_of_id(notes, m.id@) is None,
    ensures
        index_of_id(notes.push(m), m.id@) == Some(notes.len() as int),
        notes.push(m)[notes.len() as int] == m,
{
    lemma_index_of_id(notes, m.id@);
    lemma_index_of_id(notes.push(m), m.id@);
    let n = notes.len() as int;
    match index_of_id(notes.push(m), m.id@) {
        Some(i) => {
            if i < n {
                assert(notes.push(m)[i] == notes[i]);
            }
        },
        None => {
            assert(notes.push(m)[n] == m);
        },
    }
}

/// What a read gives back of a save: when a save (`apply_update`) puts an
/// entry with the same id in place of the note's and leaves the others,
/// the note is found at the same place, as the saved entry.
pub proof fn lemma_saved_note_is_found(before: Seq<NoteMetadata>, after: Seq<NoteMetadata>, i: int, id: Seq<char>)
    requires
        index_of_id(before, id) == Some(i),
        after.len() == before.len(),
        after[i].id@ == id,
        forall|k: int| 0 <= k < before.len() && k != i ==> #[trigger] after[k] == before[k],
    ensures
        index_of_id(after, id) == Some(i),
{
    lemma_index_of_id(before, id);
    lemma_index_of_id(after, id);
    match index_of_id(after, id) {
        Some(j) => {
            if j < i {
                assert(after[j] == before[j]);
            } else if j > i {
                assert(after[i].id@ == id);
            }
        },
        None => {
            assert(after[i].id@ == id);
        },
    }
}

/// Reading a note back after creating it gives the note that creation
/// returned: once the entry of a new note (`plan_new_note`, whose note is
/// `note_of` its entry and content) is added under its fresh id,
/// `find_metadata` finds that entry, and the note that `from_metadata`
/// makes of it and the written content is the created note.
pub proof fn lemma_created_note_reads_back(notes: Seq<NoteMetadata>, m: NoteMetadata, content: Seq<char>)
    requires
        index_of_id(notes, m.id@) is None,
    ensures
        ({
            let after = notes.push(m);
            &&& index_of_id(after, m.id@) == Some(notes.len() as int)
            &&& note_of(after[notes.len() as int]@, content) == note_of(m@, content)
        }),
{
    lemma_added_note_is_found(notes, m);
}

/// A deleted note is not found again (`remove_note`, then
/// `find_metadata`), as long as ids were unique.
pub proof fn lemma_removed_note_is_gone(notes: Seq<NoteMetadata>, i: int, id: Seq<char>)
    requires
        ids_unique(notes),
        index_of_id(notes, id) == Some(i),
    ensures
        index_of_id(notes.remove(i), id) is None,
{
    lemma_index_of_id(notes, id);
    let rest = notes.remove(i);
    lemma_index_of_id(rest, id);
    match index_of_id(rest, id) {
        Some(j) => {
            if j < i {
                assert(rest[j] == notes[j]);
                assert(notes[j].id@ != notes[i].id@);
            } else {
                assert(rest[j] == notes[j + 1]);
                assert(notes[i].id@ != notes[j + 1].id@);
            }
        },
        None => {},
    }
}

impl MetadataFile {
    /// The position of the first note with id `id`.
    pub fn position(&self, id: &str) -> (r: Option<usize>)
        ensures
            match r {
                Some(i) => index_of_id(self.notes@, id@) == Some(i as int) && i < self.notes@.len()
                    && self.notes@[i as int].id@ == id@,
                None => index_of_id(self.notes@, id@) is None,
            },
    {
        proof {
            lemma_index_of_id(self.notes@, id@);
        }
        let mut i: usize = 0;
        while i < self.notes.len()
            invariant
                i <= self.notes@.len(),
                forall|j: int| 0 <= j < i ==> (#[trigger] self.notes@[j]).id@ != id@,
                match index_of_id(self.notes@, id@) {
                    Some(k) => 0 <= k < self.notes@.len() && self.notes@[k].id@ == id@ && forall|j: int|
                        0 <= j < k ==> (#[trigger] self.notes@[j]).id@ != id@,
                    None => forall|j: int| 0 <= j < self.notes@.len() ==> (#[trigger] self.notes@[j]).id@ != id@,
                },
            decreases self.notes@.len() - i,
        {
            if str_eq(self.notes[i].id.as_str(), id) {
                return Some(i);
            }
            i = i + 1;
        }
        None
    }

    /// The metadata of the note `id`: `invalidNoteId` unless the id is a
    /// safe component, `noteNotFound` if no note has it.
    pub fn find_metadata(&self, id: &str) -> (r: Result<NoteMetadata, AppError>)
        ensures
            !is_safe_component(id@) ==> (r matches Err(e) && e.code@ == "invalidNoteId"@),
            is_safe_component(id@) ==> match index_of_id(self.notes@, id@) {
                Some(i) => 0 <= i < self.notes@.len() && (r matches Ok(m) && m@ == self.notes@[i]@),
                None => r matches Err(e) && e.code@ == "noteNotFound"@,
            },
    {
        if let Err(e) = validate_note_id(id) {
            return Err(e);
        }
        match self.position(id) {
            Some(i) => Ok(self.notes[i].copied()),
            None => Err(AppError::note_not_found(id)),
        }
    }

    /// Takes the note `id` out of the list and says where it stood, so that
    /// it can be put back if moving its file to the trash fails.
    pub fn remove_note(&mut self, id: &str) -> (r: Result<(usize, NoteMetadata), AppError>)
        ensures
            !is_safe_component(id@) ==> (r matches Err(e) && e.code@ == "invalidNoteId"@ && final(self).notes@ == old(self).notes@),
            is_safe_component(id@) ==> match index_of_id(old(self).notes@, id@) {
                Some(i) => 0 <= i < old(self).notes@.len() && (r matches Ok(p) && p.0 == i && p.1 == old(self).notes@[i] && final(self).notes@ == old(self).notes@.remove(i)),
                None => r matches Err(e) && e.code@ == "noteNotFound"@ && final(self).notes@ == old(self).notes@,
            },
    {
        if let Err(e) = validate_note_id(id) {
            return Err(e);
        }
        match self.position(id) {
            Some(i) => {
                let m = self.notes.remove(i);
                Ok((i, m))
            },
            None => Err(AppError::note_not_found(id)),
        }
    }

    /// Puts a removed note back where it stood.
    pub fn restore_note(&mut self, index: usize, metadata: NoteMetadata)
        requires
            index <= old(self).notes@.len(),
        ensures
            final(self).notes@ == old(self).notes@.insert(index as int, metadata),
    {
        self.notes.insert(index, metadata);
    }

    /// Adds a note at the end of the list.
    pub fn add_note(&mut self, metadata: NoteMetadata)
        ensures
            final(self).notes@ == old(self).notes@.push(metadata),
    {
        self.notes.push(metadata);
    }

    /// Moves every note of category `old_name` into `new_name`, after the
    /// category's directory was renamed.
    pub fn rename_category(&mut self, old_name: &str, new_name: &str)
        ensures
            final(self).notes@.len() == old(self).notes@.len(),
            forall|i: int|
                0 <= i < old(self).notes@.len() ==> (#[trigger] final(self).notes@[i])@ == if old(self).notes@[i].category@ == old_name@ {
                    MetaView { category: new_name@, ..old(self).notes@[i]@ }
                } else {
                    old(self).notes@[i]@
                },
            forall|i: int|
                0 <= i < old(self).notes@.len() && old(self).notes@[i].category@ == old_name@
                    ==> (#[trigger] final(self).notes@[i]).category@ == new_name@,
    {
        let ghost orig = self.notes@;
        let mut i: usize = 0;
        while i < self.notes.len()
            invariant
                self.notes@.len() == orig.len(),
                i <= orig.len(),
                forall|k: int| i <= k < orig.len() ==> #[trigger] self.notes@[k] == orig[k],
                forall|k: int|
                    0 <= k < i ==> (#[trigger] self.notes@[k])@ == if orig[k].category@ == old_name@ {
                        MetaView { category: new_name@, ..orig[k]@ }
                    } else {
                        orig[k]@
                    },
                forall|k: int|
                    0 <= k < i && orig[k].category@ == old_name@ ==> (#[trigger] self.notes@[k]).category@
                        == new_name@,
            decreases orig.len() - i,
        {
            if str_eq(self.notes[i].category.as_str(), old_name) {
                let mut m = self.notes[i].copied();
                m.category = string_of(new_name);
                self.notes.set(i, m);
            }
            i = i + 1;
        }
    }

    /// The file names of the notes of category `name`, in order: the files
    /// to move out of the category's directory before it is deleted.
    pub fn file_names_in_category(&self, name: &str) -> (r: Vec<String>)
        ensures
            r@ == self.notes@.filter(|n: NoteMetadata| n.category@ == name@).map_values(
                |n: NoteMetadata| n.file_name,
            ),
    {
        let ghost pred = |n: NoteMetadata| n.category@ == name@;
        let ghost f = |n: NoteMetadata| n.file_name;
        let mut r: Vec<String> = Vec::new();
        let mut i: usize = 0;
        while i < self.notes.len()
            invariant
                i <= self.notes@.len(),
                pred == (|n: NoteMetadata| n.category@ == name@),
                f == (|n: NoteMetadata| n.file_name),
                r@ == self.notes@.take(i as int).filter(pred).map_values(f),
            decreases self.notes@.len() - i,
        {
            assert(self.notes@.take(i + 1).drop_last() == self.notes@.take(i as int));
            reveal_with_fuel(Seq::<_>::filter, 1);
            if str_eq(self.notes[i].category.as_str(), name) {
                r.push(self.notes[i].file_name.clone());
                assert(self.notes@.take(i + 1).filter(pred) == self.notes@.take(i as int).filter(
                    pred,
                ).push(self.notes@[i as int]));
            }
            i = i + 1;
        }
        assert(self.notes@.take(self.notes@.len() as int) == self.notes@);
        r
    }

    /// Makes every note of category `name` uncategorized (after its files
    /// were moved, or when the directory is already gone). Returns whether
    /// any note changed.
    pub fn uncategorize(&mut self, name: &str) -> (changed: bool)
        ensures
            final(self).notes@.len() == old(self).notes@.len(),
            forall|i: int|
                0 <= i < old(self).notes@.len() ==> (#[trigger] final(self).notes@[i])@ == if old(self).notes@[i].category@ == name@ {
                    MetaView { category: seq![], ..old(self).notes@[i]@ }
                } else {
                    old(self).notes@[i]@
                },
            forall|i: int|
                0 <= i < old(self).notes@.len() && old(self).notes@[i].category@ == name@
                    ==> (#[trigger] final(self).notes@[i]).category@.len() == 0,
            changed == exists|i: int|
                0 <= i < old(self).notes@.len() && (#[trigger] old(self).notes@[i]).category@ == name@,
    {
        let ghost orig = self.notes@;
        let mut changed = false;
        let mut i: usize = 0;
        while i < self.notes.len()
            invariant
                self.notes@.len() == orig.len(),
                i <= orig.len(),
                forall|k: int| i <= k < orig.len() ==> #[trigger] self.notes@[k] == orig[k],
                forall|k: int|
                    0 <= k < i ==> (#[trigger] self.notes@[k])@ == if orig[k].category@ == name@ {
                        MetaView { category: seq![], ..orig[k]@ }
                    } else {
                        orig[k]@
                    },
                forall|k: int|
                    0 <= k < i && orig[k].category@ == name@ ==> (#[trigger] self.notes@[k]).category@.len()
                        == 0,
                changed == exists|k: int| 0 <= k < i && (#[trigger] orig[k]).category@ == name@,
            decreases orig.len() - i,
        {
            if str_eq(self.notes[i].category.as_str(), name) {
                let mut m = self.notes[i].copied();
                m.category = String::new();
                self.notes.set(i, m);
                changed = true;
            }
            i = i + 1;
        }
        changed
    }
}


/// The path of a note's file with `file_name` in `category` under `data_dir`.
pub open spec fn note_path(data_dir: Seq<char>, file_name: Seq<char>, category: Seq<char>) -> Seq<
    char,
> {
    if category.len() == 0 {
        path_join(path_join(data_dir, "notes"@), file_name)
    } else {
        path_join(path_join(path_join(data_dir, "notes"@), category), file_name)
    }
}

/// Whether a category name may be used: empty, or a safe component.
pub open spec fn category_ok(category: Seq<char>) -> bool {
    category.len() == 0 || is_safe_component(category)
}

/// What creating a note writes: its content into the file at `path`, and
/// `metadata` at the end of `metadata.json`; `note` is what is returned.
#[derive(Debug)]
pub struct NewNote {
    pub path: String,
    pub metadata: NoteMetadata,
    pub note: Note,
}

/// What saving a note changes: the entry at `index` now describes the
/// note; its content goes to `new_path`, and a file left at `old_path`
/// (when the two differ) goes to the trash once the metadata is saved.
#[derive(Debug)]
pub struct NoteUpdate {
    pub index: usize,
    pub old_path: String,
    pub new_path: String,
    pub note: Note,
}

/// The metadata a save with `request` at `now` gives the note `old`.
pub open spec fn updated_meta(old: MetaView, request: SaveNoteRequest, now: Timestamp) -> MetaView {
    MetaView {
        id: old.id,
        title: request.title@,
        file_name: note_file_name(old.id, request.title@),
        category: request.category@,
        created_at: old.created_at,
        updated_at: now,
        word_count: count_non_ws(request.content@) as usize,
        preview: preview_of(request.content@),
        tags: strings_view(request.tags@),
        pinned: request.pinned,
    }
}

/// The non-whitespace characters of a text.
pub open spec fn non_ws_chars(s: Seq<char>) -> Seq<char> {
    s.filter(|c: char| !spec_is_whitespace(c))
}

/// The word count is the number of non-whitespace characters.
pub proof fn lemma_count_non_ws_is_non_ws_chars(s: Seq<char>)
    ensures
        count_non_ws(s) == non_ws_chars(s).len(),
    decreases s.len(),
{
    reveal_with_fuel(Seq::<_>::filter, 1);
    if s.len() > 0 {
        lemma_count_non_ws_is_non_ws_chars(s.drop_last());
    }
}

/// A save (`apply_update`) describes the saved content, whatever the entry
/// held before: the word count is the number of non-whitespace characters
/// of the saved content, the preview is its words joined by single spaces
/// and cut after 80 characters, so two entries saved with the same request
/// get the same count and preview, and these are what a new note with that
/// content gets (`plan_new_note`).
pub proof fn lemma_saved_entry_describes_saved_content(
    old1: MetaView,
    old2: MetaView,
    request: SaveNoteRequest,
    now: Timestamp,
)
    ensures
        updated_meta(old1, request, now).word_count == non_ws_chars(request.content@).len() as usize,
        updated_meta(old1, request, now).preview == ({
            let j = join(words(request.content@), seq![' ']);
            if j.len() <= 80 {
                j
            } else {
                j.take(80)
            }
        }),
        updated_meta(old1, request, now).word_count == updated_meta(old2, request, now).word_count,
        updated_meta(old1, request, now).preview == updated_meta(old2, request, now).preview,
{
    lemma_count_non_ws_is_non_ws_chars(request.content@);
}

/// The note described by `m` with content `content`.
pub open spec fn note_of(m: MetaView, content: Seq<char>) -> NoteView {
    NoteView {
        id: m.id,
        title: m.title,
        file_name: m.file_name,
        category: m.category,
        created_at: m.created_at,
        updated_at: m.updated_at,
        word_count: m.word_count,
        content,
        tags: m.tags,
        pinned: m.pinned,
    }
}

impl NoteStore {
    /// Prepares a new note from `request` at `now`: a fresh random id, the
    /// file name derived from the id and the title, and metadata whose
    /// word count and preview come from the content. Fails only for a
    /// category that is not a safe component.
    pub fn plan_new_note(&self, request: SaveNoteRequest, now: Timestamp) -> (r: Result<
        NewNote,
        AppError,
    >)
        ensures
            r is Ok <==> category_ok(request.category@),
            r matches Err(e) ==> e.code@ == "categoryNameInvalidChars"@,
            r matches Ok(p) ==> {
                &&& is_hyphenated_uuid(p.metadata.id@)
                &&& p.metadata@ == MetaView {
                    id: p.metadata.id@,
                    title: request.title@,
                    file_name: note_file_name(p.metadata.id@, request.title@),
                    category: request.category@,
                    created_at: now,
                    updated_at: now,
                    word_count: count_non_ws(request.content@) as usize,
                    preview: preview_of(request.content@),
                    tags: strings_view(request.tags@),
                    pinned: request.pinned,
                }
                &&& p.note@ == note_of(p.metadata@, request.content@)
                &&& p.path@ == note_path(self.data_dir@, p.metadata.file_name@, request.category@)
                &&& p.metadata.is_safe()
            },
    {
        let id = new_uuid_v4();
        proof {
            lemma_generated_uuid_is_uuid_like(id@);
            lemma_note_file_name_is_valid(id@, request.title@);
        }
        let file_name = self.file_name_for(id.as_str(), request.title.as_str());
        let path = match self.note_path_in_category(file_name.as_str(), request.category.as_str()) {
            Ok(p) => p,
            Err(e) => return Err(e),
        };
        let word_count = count_words(request.content.as_str());
        let pv = preview(request.content.as_str());
        let metadata = NoteMetadata {
            id: id.clone(),
            title: request.title.clone(),
            file_name: file_name.clone(),
            category: request.category.clone(),
            created_at: now,
            updated_at: now,
            word_count,
            preview: pv,
            tags: copy_strings(&request.tags),
            pinned: request.pinned,
        };
        let note = Note {
            id,
            title: request.title,
            file_name,
            category: request.category,
            created_at: now,
            updated_at: now,
            word_count,
            content: request.content,
            tags: request.tags,
            pinned: request.pinned,
        };
        proof {
            assert(is_safe_component(metadata.id@)) by {
                lemma_uuid_is_safe_component(metadata.id@);
            }
        }
        Ok(NewNote { path, metadata, note })
    }
}

proof fn lemma_uuid_is_safe_component(id: Seq<char>)
    requires
        is_hyphenated_uuid(id),
    ensures
        is_safe_component(id),
{
    lemma_generated_uuid_is_uuid_like(id);
    lemma_no_underscore_in_uuid(id);
    lemma_split_path_no_slash(id, seq![]);
    assert(seq![] + id == id);
    reveal_strlit("..");
    assert(id != seq!['.']);
    assert(id != ".."@);
}

impl MetadataFile {
    /// Saves `request` into the note `id` at `now`: the entry gets the new
    /// title, file name, category, content statistics, tags and pin, and
    /// keeps its id and creation time. Fails with `invalidNoteId`,
    /// `noteNotFound`, or the path error of an unsafe category or file
    /// name; on failure nothing changes.
    pub fn apply_update(
        &mut self,
        store: &NoteStore,
        id: &str,
        request: SaveNoteRequest,
        now: Timestamp,
    ) -> (r: Result<NoteUpdate, AppError>)
        ensures
            r is Err ==> final(self).notes@ == old(self).notes@,
            !is_safe_component(id@) ==> (r matches Err(e) && e.code@ == "invalidNoteId"@),
            is_safe_component(id@) ==> match index_of_id(old(self).notes@, id@) {
                None => r matches Err(e) && e.code@ == "noteNotFound"@,
                Some(i) => {
                    let old_m = old(self).notes@[i];
                    let new_m = updated_meta(old_m@, request, now);
                    let ok = is_note_file_name(new_m.file_name) && category_ok(request.category@)
                        && is_note_file_name(old_m.file_name@) && category_ok(old_m.category@);
                    &&& r is Ok <==> ok
                    &&& (r matches Ok(u) ==> {
                        &&& u.index == i
                        &&& final(self).notes@.len() == old(self).notes@.len()
                        &&& final(self).notes@[i]@ == new_m
                        &&& forall|k: int|
                            0 <= k < old(self).notes@.len() && k != i ==> #[trigger] final(self).notes@[k]
                                == old(self).notes@[k]
                        &&& u.note@ == note_of(new_m, request.content@)
                        &&& u.new_path@ == note_path(store.data_dir@, new_m.file_name, new_m.category)
                        &&& u.old_path@ == note_path(store.data_dir@, old_m.file_name@, old_m.category@)
                    })
                },
            },
    {
        if let Err(e) = validate_note_id(id) {
            return Err(e);
        }
        let i = match self.position(id) {
            Some(i) => i,
            None => return Err(AppError::note_not_found(id)),
        };
        let new_file_name = store.file_name_for(id, request.title.as_str());
        let new_path = match store.note_path_in_category(
            new_file_name.as_str(),
            request.category.as_str(),
        ) {
            Ok(p) => p,
            Err(e) => return Err(e),
        };
        let old_path = match store.note_path_in_category(
            self.notes[i].file_name.as_str(),
            self.notes[i].category.as_str(),
        ) {
            Ok(p) => p,
            Err(e) => return Err(e),
        };
        let word_count = count_words(request.content.as_str());
        let pv = preview(request.content.as_str());
        let entry = NoteMetadata {
            id: self.notes[i].id.clone(),
            title: request.title.clone(),
            file_name: new_file_name.clone(),
            category: request.category.clone(),
            created_at: self.notes[i].created_at,
            updated_at: now,
            word_count,
            preview: pv,
            tags: copy_strings(&request.tags),
            pinned: request.pinned,
        };
        let note = Note {
            id: self.notes[i].id.clone(),
            title: request.title,
            file_name: new_file_name,
            category: request.category,
            created_at: self.notes[i].created_at,
            updated_at: now,
            word_count,
            content: request.content,
            tags: request.tags,
            pinned: request.pinned,
        };
        self.notes.set(i, entry);
        Ok(NoteUpdate { index: i, old_path, new_path, note })
    }
}


/// What moving a note to another category does: the entry at `index` gets
/// the new category and is returned; when the category really changes, the
/// file goes from `from` to `to`.
#[derive(Debug)]
pub struct CategoryMove {
    pub index: usize,
    pub metadata: NoteMetadata,
    pub paths: Option<(String, String)>,
}

impl MetadataFile {
    /// Moves the note `id` into `new_category` (the empty category being
    /// "uncategorized"). Fails with `invalidNoteId`,
    /// `categoryNameInvalidChars`, `noteNotFound`, or the path error of an
    /// unsafe file name; on failure nothing changes. A move into the
    /// note's own category changes nothing and moves no file.
    pub fn move_to_category(&mut self, store: &NoteStore, id: &str, new_category: &str) -> (r:
        Result<CategoryMove, AppError>)
        ensures
            r is Err ==> final(self).notes@ == old(self).notes@,
            !is_safe_component(id@) ==> (r matches Err(e) && e.code@ == "invalidNoteId"@),
            is_safe_component(id@) && !category_ok(new_category@) ==> (r matches Err(e) && e.code@
                == "categoryNameInvalidChars"@),
            is_safe_component(id@) && category_ok(new_category@) ==> match index_of_id(
                old(self).notes@,
                id@,
            ) {
                None => r matches Err(e) && e.code@ == "noteNotFound"@,
                Some(i) => {
                    let old_m = old(self).notes@[i];
                    if old_m.category@ == new_category@ {
                        &&& r matches Ok(m) && m.index == i && m.paths is None && m.metadata@ == old_m@
                        &&& final(self).notes@ == old(self).notes@
                    } else {
                        &&& r is Ok <==> is_note_file_name(old_m.file_name@) && category_ok(old_m.category@)
                        &&& (r matches Ok(m) ==> {
                            &&& m.index == i
                            &&& final(self).notes@.len() == old(self).notes@.len()
                            &&& final(self).notes@[i]@ == MetaView { category: new_category@, ..old_m@ }
                            &&& m.metadata@ == final(self).notes@[i]@
                            &&& forall|k: int|
                                0 <= k < old(self).notes@.len() && k != i ==> #[trigger] final(self).notes@[k]
                                    == old(self).notes@[k]
                            &&& m.paths matches Some(p) && p.0@ == note_path(store.data_dir@, old_m.file_name@, old_m.category@)
                                && p.1@ == note_path(store.data_dir@, old_m.file_name@, new_category@)
                        })
                    }
                },
            },
    {
        if let Err(e) = validate_note_id(id) {
            return Err(e);
        }
        if let Err(e) = validate_category_name(new_category) {
            return Err(e);
        }
        let i = match self.position(id) {
            Some(i) => i,
            None => return Err(AppError::note_not_found(id)),
        };
        if str_eq(self.notes[i].category.as_str(), new_category) {
            return Ok(CategoryMove { index: i, metadata: self.notes[i].copied(), paths: None });
        }
        let from = match store.note_path_in_category(
            self.notes[i].file_name.as_str(),
            self.notes[i].category.as_str(),
        ) {
            Ok(p) => p,
            Err(e) => return Err(e),
        };
        let to = match store.note_path_in_category(self.notes[i].file_name.as_str(), new_category) {
            Ok(p) => p,
            Err(e) => return Err(e),
        };
        let mut m = self.notes[i].copied();
        m.category = string_of(new_category);
        let result = m.copied();
        self.notes.set(i, m);
        Ok(CategoryMove { index: i, metadata: result, paths: Some((from, to)) })
    }
}

/// Whether `tags` holds `t`.
pub fn contains_tag(tags: &Vec<String>, t: &str) -> (r: bool)
    ensures
        r == strings_view(tags@).contains(t@),
{
    let mut i: usize = 0;
    while i < tags.len()
        invariant
            i <= tags@.len(),
            forall|j: int| 0 <= j < i ==> tags@[j]@ != t@,
        decreases tags@.len() - i,
    {
        if str_eq(tags[i].as_str(), t) {
            assert(strings_view(tags@)[i as int] == t@);
            return true;
        }
        i = i + 1;
    }
    assert forall|j: int| 0 <= j < strings_view(tags@).len() implies strings_view(tags@)[j] != t@ by {
        assert(strings_view(tags@)[j] == tags@[j]@);
    }
    false
}

/// `acc` followed by each tag of `src` that is not already there, in order.
pub open spec fn merge_tags(acc: Seq<Seq<char>>, src: Seq<Seq<char>>) -> Seq<Seq<char>>
    decreases src.len(),
{
    if src.len() == 0 {
        acc
    } else {
        merge_tags(if acc.contains(src[0]) { acc } else { acc.push(src[0]) }, src.drop_first())
    }
}

/// The image directory prefix of a note's Markdown references.
pub open spec fn image_prefix(id: Seq<char>) -> Seq<char> {
    "images/"@ + id + "/"@
}

/// The heading under which a merged source note appears.
pub open spec fn merge_heading(source_title: Seq<char>) -> Seq<char> {
    if trim(source_title).len() == 0 { "未命名笔记"@ } else { trim(source_title) }
}

/// The content of the target note after the source note is merged into it:
/// the target's content, a rule unless that content is blank, a heading
/// naming the source, and the source's content with its image references
/// pointed at the target's image directory.
pub open spec fn merged_content(target: NoteView, source: NoteView) -> Seq<char> {
    let sep = if trim(target.content).len() == 0 { seq![] } else { "\n\n---\n\n"@ };
    target.content + sep + "## 合并自："@ + merge_heading(source.title) + "\n\n"@ + replace_all(
        source.content,
        image_prefix(source.id),
        image_prefix(target.id),
    )
}

fn image_prefix_exec(id: &str) -> (r: Vec<char>)
    ensures
        r@ == image_prefix(id@),
        r@.len() > 0,
{
    let mut r: Vec<char> = Vec::new();
    append_str(&mut r, "images/");
    append_str(&mut r, id);
    append_str(&mut r, "/");
    proof {
        reveal_strlit("images/");
    }
    r
}

/// Refuses to merge a note into itself.
pub fn check_merge_request(request: &MergeNotesRequest) -> (r: Result<(), AppError>)
    ensures
        r is Ok <==> request.target_id@ != request.source_id@,
        r matches Err(e) ==> e.code@ == "mergeSameNote"@ && e.message@ == "不能合并同一篇笔记"@,
{
    if str_eq(request.target_id.as_str(), request.source_id.as_str()) {
        Err(AppError::new(string_of("mergeSameNote"), string_of("不能合并同一篇笔记")))
    } else {
        Ok(())
    }
}

/// Whether the source's content refers to its own images, which then have
/// to be copied to the target's image directory first.
pub fn source_has_images(source: &Note) -> (r: bool)
    ensures
        r == exists|i: int| 0 <= i <= source.content@.len() && starts_with(
            #[trigger] source.content@.skip(i),
            image_prefix(source.id@),
        ),
{
    let c = to_chars(source.content.as_str());
    let p = image_prefix_exec(source.id.as_str());
    let mut i: usize = 0;
    while i < c.len()
        invariant
            i <= c@.len(),
            c@ == source.content@,
            p@ == image_prefix(source.id@),
            p@.len() > 0,
            forall|j: int| 0 <= j < i ==> !starts_with(#[trigger] c@.skip(j), p@),
        decreases c@.len() - i,
    {
        if starts_with_at(c.as_slice(), i, p.as_slice()) {
            return true;
        }
        i = i + 1;
    }
    assert(!starts_with(c@.skip(c@.len() as int), p@));
    false
}

/// The request that saves the target note after the source is merged into
/// it: the target's title, category and pin, the merged content, and the
/// target's tags followed by the source's new tags.
pub fn merged_request(target: &Note, source: &Note) -> (r: SaveNoteRequest)
    ensures
        r.title@ == target.title@,
        r.content@ == merged_content(target@, source@),
        r.category@ == target.category@,
        strings_view(r.tags@) == merge_tags(strings_view(target.tags@), strings_view(source.tags@)),
        r.pinned == target.pinned,
{
    let mut content = to_chars(target.content.as_str());
    let tc = trim_chars(content.as_slice());
    if tc.len() > 0 {
        append_str(&mut content, "\n\n---\n\n");
    }
    append_str(&mut content, "## 合并自：");
    let st = trim_chars(to_chars(source.title.as_str()).as_slice());
    if st.len() == 0 {
        append_str(&mut content, "未命名笔记");
    } else {
        append_chars(&mut content, st.as_slice());
    }
    append_str(&mut content, "\n\n");
    let from = image_prefix_exec(source.id.as_str());
    let to = image_prefix_exec(target.id.as_str());
    let sc = to_chars(source.content.as_str());
    let replaced = replace_all_exec(sc.as_slice(), from.as_slice(), to.as_slice());
    append_chars(&mut content, replaced.as_slice());
    let mut tags = copy_strings(&target.tags);
    let ghost tv = strings_view(target.tags@);
    let ghost sv = strings_view(source.tags@);
    let mut i: usize = 0;
    assert(sv.skip(0) == sv);
    while i < source.tags.len()
        invariant
            i <= source.tags@.len(),
            sv == strings_view(source.tags@),
            merge_tags(tv, sv) == merge_tags(strings_view(tags@), sv.skip(i as int)),
        decreases source.tags@.len() - i,
    {
        assert(sv.skip(i as int).drop_first() == sv.skip(i + 1));
        assert(sv.skip(i as int)[0] == source.tags@[i as int]@);
        let ghost acc = strings_view(tags@);
        let ghost t = source.tags@[i as int]@;
        assert(merge_tags(acc, sv.skip(i as int)) == merge_tags(
            if acc.contains(t) { acc } else { acc.push(t) },
            sv.skip(i + 1),
        ));
        if !contains_tag(&tags, source.tags[i].as_str()) {
            tags.push(source.tags[i].clone());
            assert(strings_view(tags@) == acc.push(t));
        }
        i = i + 1;
    }
    SaveNoteRequest {
        title: target.title.clone(),
        content: string_from_chars(content.as_slice()),
        category: target.category.clone(),
        tags,
        pinned: target.pinned,
    }
}

/// Merging keeps every tag of the target, in its place, and brings in
/// every tag of the source.
pub proof fn lemma_merge_tags_keeps_all(acc: Seq<Seq<char>>, src: Seq<Seq<char>>)
    ensures
        merge_tags(acc, src).len() >= acc.len(),
        forall|k: int| 0 <= k < acc.len() ==> #[trigger] merge_tags(acc, src)[k] == acc[k],
        forall|k: int| 0 <= k < src.len() ==> merge_tags(acc, src).contains(#[trigger] src[k]),
    decreases src.len(),
{
    if src.len() > 0 {
        let next = if acc.contains(src[0]) { acc } else { acc.push(src[0]) };
        lemma_merge_tags_keeps_all(next, src.drop_first());
        let m = merge_tags(acc, src);
        assert(next.contains(src[0])) by {
            if !acc.contains(src[0]) {
                assert(next[acc.len() as int] == src[0]);
            }
        }
        let j = choose|j: int| 0 <= j < next.len() && next[j] == src[0];
        assert(m[j] == src[0]);
        assert forall|k: int| 0 <= k < src.len() implies m.contains(#[trigger] src[k]) by {
            if k > 0 {
                assert(src[k] == src.drop_first()[k - 1]);
            }
        }
    }
}

/// The request that creates the daily note of `date`.
pub fn daily_note_request(date: &str) -> (r: SaveNoteRequest)
    ensures
        r.title@ == date@,
        r.content@ == "# "@ + date@ + "\n\n## 待办\n- [ ] \n\n## 随手记\n"@,
        r.category@ == "每日便笺"@,
        strings_view(r.tags@) == seq!["daily"@],
        !r.pinned,
{
    let mut c: Vec<char> = Vec::new();
    append_str(&mut c, "# ");
    append_str(&mut c, date);
    append_str(&mut c, "\n\n## 待办\n- [ ] \n\n## 随手记\n");
    let mut tags: Vec<String> = Vec::new();
    tags.push(string_of("daily"));
    assert(strings_view(tags@) == seq!["daily"@]);
    SaveNoteRequest {
        title: string_of(date),
        content: string_from_chars(c.as_slice()),
        category: string_of("每日便笺"),
        tags,
        pinned: false,
    }
}

/// Whether `m` is the daily note of `date`: tagged `daily` and titled with
/// the date.
pub open spec fn is_daily_of(m: NoteMetadata, date: Seq<char>) -> bool {
    strings_view(m.tags@).contains("daily"@) && m.title@ == date
}

/// Only a note tagged `daily` and titled with the date is a daily note:
/// `find_daily` never opens an ordinary note named by its date, and finds
/// every note with the `daily` tag and that title.
pub proof fn lemma_daily_note_is_tagged_daily(m: NoteMetadata, date: Seq<char>)
    ensures
        is_daily_of(m, date) <==> ((exists|k: int| 0 <= k < m.tags@.len() && (#[trigger] m.tags@[k])@ == "daily"@)
            && m.title@ == date),
{
    if exists|k: int| 0 <= k < m.tags@.len() && (#[trigger] m.tags@[k])@ == "daily"@ {
        let k = choose|k: int| 0 <= k < m.tags@.len() && (#[trigger] m.tags@[k])@ == "daily"@;
        assert(strings_view(m.tags@)[k] == "daily"@);
    }
    if strings_view(m.tags@).contains("daily"@) {
        let k = choose|k: int| 0 <= k < strings_view(m.tags@).len() && strings_view(m.tags@)[k] == "daily"@;
        assert(m.tags@[k]@ == "daily"@);
    }
}

impl MetadataFile {
    /// The position of the first daily note of `date`, if there is one.
    pub fn find_daily(&self, date: &str) -> (r: Option<usize>)
        ensures
            match r {
                Some(i) => i < self.notes@.len() && is_daily_of(self.notes@[i as int], date@)
                    && forall|j: int| 0 <= j < i ==> !is_daily_of(#[trigger] self.notes@[j], date@),
                None => forall|j: int|
                    0 <= j < self.notes@.len() ==> !is_daily_of(#[trigger] self.notes@[j], date@),
            },
    {
        let mut i: usize = 0;
        while i < self.notes.len()
            invariant
                i <= self.notes@.len(),
                forall|j: int| 0 <= j < i ==> !is_daily_of(#[trigger] self.notes@[j], date@),
            decreases self.notes@.len() - i,
        {
            if contains_tag(&self.notes[i].tags, "daily") && str_eq(
                self.notes[i].title.as_str(),
                date,
            ) {
                return Some(i);
            }
            i = i + 1;
        }
        None
    }
}

/// The daily note of a day is found again on that day: once a note made
/// from `daily_note_request(date)` (titled with the date and tagged
/// `daily`, as `plan_new_note` keeps them) is in the metadata, there is a
/// daily note of `date` for `find_daily` to return.
pub proof fn lemma_daily_note_is_found_again(notes: Seq<NoteMetadata>, k: int, date: Seq<char>)
    requires
        0 <= k < notes.len(),
        notes[k]@.title == date,
        notes[k]@.tags == seq!["daily"@],
    ensures
        exists|i: int| 0 <= i < notes.len() && is_daily_of(#[trigger] notes[i], date),
{
    assert(strings_view(notes[k].tags@)[0] == "daily"@);
    assert(is_daily_of(notes[k], date));
}

/// The sort keys of note lists: the time of the last change.
pub open spec fn updated_keys(v: Seq<NoteMetadata>) -> Seq<(i64, i64)> {
    v.map_values(|m: NoteMetadata| m.updated_at.key())
}

/// The notes in the order of the note list: those whose file exists
/// (`exists[i]` tells it of `notes[i]`), most recently changed first,
/// equal times in stored order.
pub fn list_notes(notes: Vec<NoteMetadata>, exists: &Vec<bool>) -> (r: Vec<NoteMetadata>)
    requires
        exists@.len() == notes@.len(),
    ensures
        is_sorted_copy(
            r@,
            filter_by_flags(notes@, exists@),
            updated_keys(filter_by_flags(notes@, exists@)),
            true,
        ),
{
    let ghost orig = notes@;
    let mut rest = notes;
    let mut kept: Vec<NoteMetadata> = Vec::new();
    let mut keys: Vec<(i64, i64)> = Vec::new();
    let n = rest.len();
    let mut i: usize = 0;
    while i < n
        invariant
            n == orig.len(),
            exists@.len() == n,
            i <= n,
            rest@ == orig.skip(i as int),
            kept@ == filter_by_flags(orig.take(i as int), exists@.take(i as int)),
            keys@ == updated_keys(kept@),
        decreases n - i,
    {
        let m = rest.remove(0);
        assert(orig.skip(i as int).drop_first() == orig.skip(i + 1));
        assert(orig.take(i + 1).drop_last() == orig.take(i as int));
        assert(exists@.take(i + 1).drop_last() == exists@.take(i as int));
        if exists[i] {
            keys.push(m.updated_at.sort_key());
            kept.push(m);
            assert(updated_keys(kept@) == updated_keys(kept@.drop_last()).push(kept@.last().updated_at.key()));
        }
        i = i + 1;
    }
    assert(orig.take(n as int) == orig);
    assert(exists@.take(n as int) == exists@);
    let (sorted, _perm) = stable_sort_by_key(kept, keys, true);
    sorted
}

/// The items of `v` whose flag in `flags` is set, in order.
pub open spec fn filter_by_flags<T>(v: Seq<T>, flags: Seq<bool>) -> Seq<T>
    decreases v.len(),
{
    if v.len() == 0 || flags.len() == 0 {
        seq![]
    } else if flags.last() {
        filter_by_flags(v.drop_last(), flags.drop_last()).push(v.last())
    } else {
        filter_by_flags(v.drop_last(), flags.drop_last())
    }
}

} // verus!
