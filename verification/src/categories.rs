//! Categories: the directories directly under the notes directory.

use vstd::prelude::*;

use crate::error::AppError;
use crate::names::{rank_keys, sort_names};
use crate::notes::NoteStore;
use crate::paths::{is_safe_component, join_path, path_join, validate_category_name};
use crate::sort::is_sorted_copy;
use crate::storage::{path_has_prefix, path_starts_with, paths_equal, same_path};
use crate::text::{append_str, string_from_chars, string_of, to_chars, trim, trim_chars};

verus! {

/// Whether a category exists, given the names of the entries of the
/// notes directory: the empty category is the notes directory itself.
pub open spec fn category_exists(existing: Seq<String>, name: Seq<char>) -> bool {
    name.len() == 0 || exists|i: int| 0 <= i < existing.len() && #[trigger] existing[i]@ == name
}

fn exists_in(existing: &Vec<String>, name: &str) -> (r: bool)
    ensures
        r == category_exists(existing@, name@),
{
    if name.is_empty() {
        return true;
    }
    let mut i: usize = 0;
    while i < existing.len()
        invariant
            i <= existing@.len(),
            name@.len() > 0,
            forall|k: int| 0 <= k < i ==> #[trigger] existing@[k]@ != name@,
        decreases existing@.len() - i,
    {
        if crate::text::str_eq(existing[i].as_str(), name) {
            return true;
        }
        i = i + 1;
    }
    false
}

/// The directories of a category rename: where it lies, where it goes, and
/// its new (trimmed) name.
#[derive(Debug)]
pub struct CategoryRename {
    pub old_path: String,
    pub new_path: String,
    pub new_name: String,
}

impl NoteStore {
    /// The categories (the names of the directories in the notes
    /// directory), in name order.
    pub fn list_categories(&self, dir_names: Vec<String>) -> (r: Vec<String>)
        requires
            dir_names@.len() <= i64::MAX,
        ensures
            is_sorted_copy(r@, dir_names@, rank_keys(dir_names@), false),
    {
        sort_names(dir_names)
    }

    /// The directory of a new category. The name is trimmed; an empty name
    /// is refused (`categoryNameEmpty`), so is one that is not a safe path
    /// component (`categoryNameInvalidChars`).
    pub fn create_category(&self, name: &str) -> (r: Result<String, AppError>)
        ensures
            trim(name@).len() == 0 ==> (r matches Err(e) && e.code@ == "categoryNameEmpty"@),
            trim(name@).len() > 0 && !is_safe_component(trim(name@)) ==> (r matches Err(e) && e.code@
                == "categoryNameInvalidChars"@),
            trim(name@).len() > 0 && is_safe_component(trim(name@)) ==> (r matches Ok(p) && p@
                == path_join(path_join(self.data_dir@, "notes"@), trim(name@))),
    {
        let t = string_from_chars(trim_chars(to_chars(name).as_slice()).as_slice());
        if t.as_str().is_empty() {
            return Err(AppError::category_name_empty());
        }
        match validate_category_name(t.as_str()) {
            Err(e) => {
                return Err(e);
            },
            Ok(()) => {},
        }
        let notes_dir = self.notes_dir();
        Ok(join_path(notes_dir.as_str(), t.as_str()))
    }

    /// Checks a category rename, given the names of the entries of the
    /// notes directory. Refused, in this order: an unusable old name or
    /// (trimmed) new name (`categoryNameInvalidChars`), a missing old
    /// category (`categoryNotFound`), an existing new one
    /// (`categoryAlreadyExists`). The caller renames the directory and
    /// then the notes' category (see `MetadataFile::rename_category`).
    pub fn rename_category(&self, old_name: &str, new_name: &str, existing: &Vec<String>) -> (r: Result<
        CategoryRename,
        AppError,
    >)
        ensures
            !(old_name@.len() == 0 || is_safe_component(old_name@)) ==> (r matches Err(e) && e.code@
                == "categoryNameInvalidChars"@),
            ({
                let nn = trim(new_name@);
                let valid = (old_name@.len() == 0 || is_safe_component(old_name@)) && (nn.len() == 0
                    || is_safe_component(nn));
                let notes = path_join(self.data_dir@, "notes"@);
                &&& (old_name@.len() == 0 || is_safe_component(old_name@)) && !(nn.len() == 0
                    || is_safe_component(nn)) ==> (r matches Err(e) && e.code@
                    == "categoryNameInvalidChars"@)
                &&& valid && !category_exists(existing@, old_name@) ==> (r matches Err(e) && e.code@
                    == "categoryNotFound"@ && e.message@ == "分类「"@ + old_name@ + "」不存在"@)
                &&& valid && category_exists(existing@, old_name@) && category_exists(existing@, nn)
                    ==> (r matches Err(e) && e.code@ == "categoryAlreadyExists"@ && e.message@ == "分类「"@
                    + nn + "」已存在"@)
                &&& valid && category_exists(existing@, old_name@) && !category_exists(existing@, nn)
                    ==> (r matches Ok(c) && c.old_path@ == path_join(notes, old_name@) && c.new_path@
                    == path_join(notes, nn) && c.new_name@ == nn)
            }),
    {
        match validate_category_name(old_name) {
            Err(e) => {
                return Err(e);
            },
            Ok(()) => {},
        }
        let nn = string_from_chars(trim_chars(to_chars(new_name).as_slice()).as_slice());
        match validate_category_name(nn.as_str()) {
            Err(e) => {
                return Err(e);
            },
            Ok(()) => {},
        }
        let notes_dir = self.notes_dir();
        let old_path = join_path(notes_dir.as_str(), old_name);
        let new_path = join_path(notes_dir.as_str(), nn.as_str());
        if !exists_in(existing, old_name) {
            return Err(AppError::category_not_found(old_name));
        }
        if exists_in(existing, nn.as_str()) {
            return Err(AppError::category_already_exists(nn.as_str()));
        }
        Ok(CategoryRename { old_path, new_path, new_name: nn })
    }

    /// Checks that deleting category `name` touches nothing outside the
    /// notes directory: the name must be usable, and when its directory
    /// exists, its canonical path must lie strictly inside the canonical
    /// notes directory (else `unsafePath`). The caller then moves the
    /// category's notes to the top (see `MetadataFile::uncategorize`) and
    /// trashes the directory.
    pub fn delete_category(
        &self,
        name: &str,
        dir_exists: bool,
        canonical_notes: &str,
        canonical_category: &str,
    ) -> (r: Result<(), AppError>)
        ensures
            !(name@.len() == 0 || is_safe_component(name@)) ==> (r matches Err(e) && e.code@
                == "categoryNameInvalidChars"@),
            (name@.len() == 0 || is_safe_component(name@)) ==> (r is Ok <==> (!dir_exists || (
            path_starts_with(canonical_category@, canonical_notes@) && !same_path(
                canonical_category@,
                canonical_notes@,
            )))),
            (name@.len() == 0 || is_safe_component(name@)) && r is Err ==> (r matches Err(e) && e.code@
                == "unsafePath"@ && e.message@ == "拒绝删除「"@ + path_join(
                path_join(self.data_dir@, "notes"@),
                name@,
            ) + "」：路径不在数据目录内"@),
    {
        match validate_category_name(name) {
            Err(e) => {
                return Err(e);
            },
            Ok(()) => {},
        }
        if dir_exists {
            if !path_has_prefix(canonical_category, canonical_notes) || paths_equal(
                canonical_category,
                canonical_notes,
            ) {
                let notes_dir = self.notes_dir();
                let path = join_path(notes_dir.as_str(), name);
                let mut m: Vec<char> = Vec::new();
                append_str(&mut m, "拒绝删除「");
                append_str(&mut m, path.as_str());
                append_str(&mut m, "」：路径不在数据目录内");
                return Err(AppError::new(string_of("unsafePath"), string_from_chars(m.as_slice())));
            }
        }
        Ok(())
    }
}

} // verus!
