//! The error that every fallible operation of the notebook reports: a stable
//! machine-readable `code`, a human-readable `message`, and optional details.

use vstd::prelude::*;

use crate::text::{append_str, string_from_chars, string_of};

verus! {

/// An error with a stable `code`, a `message` for people, and `details`: a
/// small map from detail names to values, kept as pairs with distinct names.
#[derive(Debug)]
pub struct AppError {
    pub code: String,
    pub message: String,
    pub details: Vec<(String, String)>,
}

/// The value that `details` holds under the name `key`, if any.
pub open spec fn detail_of(details: Seq<(String, String)>, key: Seq<char>) -> Option<Seq<char>>
    decreases details.len(),
{
    if details.len() == 0 {
        None
    } else if details.last().0@ == key {
        Some(details.last().1@)
    } else {
        detail_of(details.drop_last(), key)
    }
}

/// No detail name occurs twice.
pub open spec fn details_distinct(details: Seq<(String, String)>) -> bool {
    forall|i: int, j: int|
        0 <= i < j < details.len() ==> #[trigger] details[i].0@ != #[trigger] details[j].0@
}

impl AppError {
    /// Whether the details name no key twice.
    pub open spec fn wf(&self) -> bool {
        details_distinct(self.details@)
    }

    /// The detail stored under `key`.
    pub open spec fn detail(&self, key: Seq<char>) -> Option<Seq<char>> {
        detail_of(self.details@, key)
    }

    /// An error with the given code and message and no details.
    pub fn new(code: String, message: String) -> (e: AppError)
        ensures
            e.code@ == code@,
            e.message@ == message@,
            e.details@.len() == 0,
            e.wf(),
    {
        AppError { code, message, details: Vec::new() }
    }

    /// This error with `value` stored under `key`, replacing an earlier value
    /// under the same key; code, message and every other detail stay.
    pub fn with_detail(self, key: String, value: String) -> (e: AppError)
        requires
            self.wf(),
        ensures
            e.wf(),
            e.code@ == self.code@,
            e.message@ == self.message@,
            e.detail(key@) == Some(value@),
            forall|k: Seq<char>| k != key@ ==> e.detail(k) == self.detail(k),
    {
        let mut e = self;
        let mut i: usize = 0;
        while i < e.details.len()
            invariant
                i <= e.details@.len(),
                e.details@ == self.details@,
                e.code == self.code,
                e.message == self.message,
                self.wf(),
                forall|j: int| 0 <= j < i ==> (#[trigger] e.details@[j]).0@ != key@,
            decreases e.details@.len() - i,
        {
            if e.details[i].0 == key {
                let ghost old_d = e.details@;
                let ghost kv = (key, value);
                e.details.set(i, (key, value));
                proof {
                    lemma_detail_of_set(old_d, i as int, kv.0@, kv);
                }
                return e;
            }
            i = i + 1;
        }
        let ghost old_d = e.details@;
        e.details.push((key, value));
        proof {
            assert(e.details@.drop_last() == old_d);
            assert forall|k: Seq<char>| k != key@ implies #[trigger] detail_of(e.details@, k)
                == detail_of(old_d, k) by {}
        }
        e
    }

    /// The error for a note id that no note has.
    pub fn note_not_found(id: &str) -> (e: AppError)
        ensures
            e.wf(),
            e.code@ == "noteNotFound"@,
            e.message@ == "Note "@ + id@ + " was not found"@,
            e.detail("noteId"@) == Some(id@),
            forall|k: Seq<char>| k != "noteId"@ ==> e.detail(k) is None,
    {
        let mut m: Vec<char> = Vec::new();
        append_str(&mut m, "Note ");
        append_str(&mut m, id);
        append_str(&mut m, " was not found");
        AppError::new(string_of("noteNotFound"), string_from_chars(m.as_slice())).with_detail(
            string_of("noteId"),
            string_of(id),
        )
    }

    /// The error for importing a file that is not Markdown.
    pub fn unsupported_file() -> (e: AppError)
        ensures
            e.wf(),
            e.code@ == "unsupportedFile"@,
            e.message@ == "只支持导入 .md 文件"@,
            e.details@.len() == 0,
    {
        AppError::new(string_of("unsupportedFile"), string_of("只支持导入 .md 文件"))
    }

    /// The error for an empty category name.
    pub fn category_name_empty() -> (e: AppError)
        ensures
            e.wf(),
            e.code@ == "categoryNameEmpty"@,
            e.message@ == "分类名不能为空"@,
            e.details@.len() == 0,
    {
        AppError::new(string_of("categoryNameEmpty"), string_of("分类名不能为空"))
    }

    /// The error for a category name that is not a single safe path component.
    pub fn category_name_invalid_chars() -> (e: AppError)
        ensures
            e.wf(),
            e.code@ == "categoryNameInvalidChars"@,
            e.message@ == "分类名不能包含特殊字符"@,
            e.details@.len() == 0,
    {
        AppError::new(string_of("categoryNameInvalidChars"), string_of("分类名不能包含特殊字符"))
    }

    /// The error for a category that does not exist.
    pub fn category_not_found(name: &str) -> (e: AppError)
        ensures
            e.wf(),
            e.code@ == "categoryNotFound"@,
            e.message@ == "分类「"@ + name@ + "」不存在"@,
            e.detail("category"@) == Some(name@),
            forall|k: Seq<char>| k != "category"@ ==> e.detail(k) is None,
    {
        let mut m: Vec<char> = Vec::new();
        append_str(&mut m, "分类「");
        append_str(&mut m, name);
        append_str(&mut m, "」不存在");
        AppError::new(string_of("categoryNotFound"), string_from_chars(m.as_slice())).with_detail(
            string_of("category"),
            string_of(name),
        )
    }

    /// The error for a category name that is already taken.
    pub fn category_already_exists(name: &str) -> (e: AppError)
        ensures
            e.wf(),
            e.code@ == "categoryAlreadyExists"@,
            e.message@ == "分类「"@ + name@ + "」已存在"@,
            e.detail("category"@) == Some(name@),
            forall|k: Seq<char>| k != "category"@ ==> e.detail(k) is None,
    {
        let mut m: Vec<char> = Vec::new();
        append_str(&mut m, "分类「");
        append_str(&mut m, name);
        append_str(&mut m, "」已存在");
        AppError::new(string_of("categoryAlreadyExists"), string_from_chars(m.as_slice()))
            .with_detail(string_of("category"), string_of(name))
    }

    /// The code followed by the message, the way the error is shown to people.
    pub fn to_display_string(&self) -> (s: String)
        ensures
            s@ == self.code@ + ": "@ + self.message@,
    {
        let mut m: Vec<char> = Vec::new();
        append_str(&mut m, self.code.as_str());
        append_str(&mut m, ": ");
        append_str(&mut m, self.message.as_str());
        string_from_chars(m.as_slice())
    }
}

proof fn lemma_detail_of_set(d: Seq<(String, String)>, i: int, key: Seq<char>, value: (String, String))
    requires
        0 <= i < d.len(),
        d[i].0@ == key,
        value.0@ == key,
        details_distinct(d),
    ensures
        details_distinct(d.update(i, value)),
        detail_of(d.update(i, value), key) == Some(value.1@),
        forall|k: Seq<char>| k != key ==> detail_of(d.update(i, value), k) == detail_of(d, k),
    decreases d.len(),
{
    let u = d.update(i, value);
    if i == d.len() - 1 {
        assert(u.last() == value);
        assert(u.drop_last() == d.drop_last());
    } else {
        assert(u.drop_last() == d.drop_last().update(i, value));
        lemma_detail_of_set(d.drop_last(), i, key, value);
        assert(d.last().0@ != key);
        assert(u.last() == d.last());
        assert forall|k: Seq<char>| k != key implies detail_of(u, k) == detail_of(d, k) by {
            if d.last().0@ == k {
            } else {
                assert(detail_of(u.drop_last(), k) == detail_of(d.drop_last(), k));
            }
        }
    }
}

/// An error with the given code and message and no details.
pub fn err(code: &str, message: &str) -> (e: AppError)
    ensures
        e.wf(),
        e.code@ == code@,
        e.message@ == message@,
        e.details@.len() == 0,
{
    AppError::new(string_of(code), string_of(message))
}

/// The error of the derived search database.
pub fn db_error(message: String) -> (e: AppError)
    ensures
        e.wf(),
        e.code@ == "db"@,
        e.message@ == message@,
        e.details@.len() == 0,
{
    AppError::new(string_of("db"), message)
}

} // verus!
