//! The settings of the notebook that are not numbers with fractions: their
//! defaults, and the one-time change of the global shortcut on macOS.

use vstd::prelude::*;

use crate::notes::NoteStore;
use crate::text::{is_whitespace, spec_is_whitespace, string_of, to_chars};

verus! {

/// The language of the interface by default.
pub fn default_locale() -> (r: String)
    ensures
        r@ == "zh-CN"@,
{
    string_of("zh-CN")
}

/// Whether notes save themselves by default.
pub fn default_note_auto_save() -> (r: bool)
    ensures
        r,
{
    true
}

/// Whether the note surface saves itself by default.
pub fn default_note_surface_auto_save() -> (r: bool)
    ensures
        r,
{
    true
}

/// The default color of tiles.
pub fn default_tile_color() -> (r: String)
    ensures
        r@ == "#f6f3ec"@,
{
    string_of("#f6f3ec")
}

/// The default shortcut that closes a tab.
pub fn default_close_tab_shortcut() -> (r: String)
    ensures
        r@ == "Ctrl+W"@,
{
    string_of("Ctrl+W")
}

/// The default color mode of tiles.
pub fn default_tile_color_mode() -> (r: String)
    ensures
        r@ == "system"@,
{
    string_of("system")
}

/// The default theme.
pub fn default_theme() -> (r: String)
    ensures
        r@ == "system"@,
{
    string_of("system")
}

/// The default font size.
pub fn default_font_size() -> (r: u32)
    ensures
        r == 14,
{
    14
}

/// The default font size of the note surface.
pub fn default_surface_font_size() -> (r: u32)
    ensures
        r == 14,
{
    14
}

/// The default indentation of a tab, in spaces.
pub fn default_tab_indent_size() -> (r: u32)
    ensures
        r == 2,
{
    2
}

/// Whether external files save themselves by default.
pub fn default_external_file_auto_save() -> (r: bool)
    ensures
        r,
{
    true
}

/// How a background image fits by default.
pub fn default_background_fit() -> (r: String)
    ensures
        r@ == "cover"@,
{
    string_of("cover")
}

/// Whether the surface's size is remembered by default.
pub fn default_remember_surface_size() -> (r: bool)
    ensures
        r,
{
    true
}

/// Whether Ctrl closes tiles by default.
pub fn default_tile_ctrl_close() -> (r: bool)
    ensures
        r,
{
    true
}

/// Whether split views scroll together by default.
pub fn default_split_scroll_sync() -> (r: bool)
    ensures
        r,
{
    true
}

/// The shortcut that toggles the window: none by default.
pub fn default_toggle_visibility_shortcut() -> (r: String)
    ensures
        r@.len() == 0,
{
    String::new()
}

/// Whether windows open at the cursor by default.
pub fn default_open_at_cursor() -> (r: bool)
    ensures
        r,
{
    true
}

/// The default preset theme.
pub fn default_preset_theme() -> (r: String)
    ensures
        r@ == "default"@,
{
    string_of("default")
}

/// The default theme of code blocks.
pub fn default_code_theme() -> (r: String)
    ensures
        r@ == "light"@,
{
    string_of("light")
}

/// The default width of the editor.
pub fn default_editor_width() -> (r: String)
    ensures
        r@ == "normal"@,
{
    string_of("normal")
}

/// The default side of the sidebar.
pub fn default_sidebar_position() -> (r: String)
    ensures
        r@ == "left"@,
{
    string_of("left")
}

/// Whether links are previewed by default.
pub fn default_link_preview() -> (r: bool)
    ensures
        r,
{
    true
}

/// The global shortcut by default: `Command+Option+N` on macOS,
/// `Ctrl+Space` elsewhere.
pub fn default_global_shortcut(macos: bool) -> (r: String)
    ensures
        r@ == (if macos {
            "Command+Option+N"@
        } else {
            "Ctrl+Space"@
        }),
{
    if macos {
        string_of("Command+Option+N")
    } else {
        string_of("Ctrl+Space")
    }
}

/// The indentation of a tab as stored: between 1 and 8 spaces.
pub fn clamp_tab_indent(n: u32) -> (r: u32)
    ensures
        r == (if n < 1 {
            1
        } else if n > 8 {
            8
        } else {
            n
        }),
{
    if n < 1 {
        1
    } else if n > 8 {
        8
    } else {
        n
    }
}

/// The lower-case form of one character, as `char::to_lowercase` yields
/// it from the Unicode tables (one to three characters): a function of the
/// character alone.
pub uninterp spec fn char_lowercase_of(c: char) -> Seq<char>;

/// `char::to_lowercase`, appended to `out`.
#[verifier::external_body]
fn push_lowercase(out: &mut Vec<char>, c: char)
    ensures
        final(out)@ == old(out)@ + char_lowercase_of(c),
{
    out.extend(c.to_lowercase());
}

/// A shortcut as it is compared: without whitespace, each character in
/// lower case.
pub open spec fn normalized_shortcut(s: Seq<char>) -> Seq<char>
    decreases s.len(),
{
    if s.len() == 0 {
        seq![]
    } else {
        normalized_shortcut(s.drop_last()) + if spec_is_whitespace(s.last()) {
            Seq::<char>::empty()
        } else {
            char_lowercase_of(s.last())
        }
    }
}

fn normalize_shortcut(s: &str) -> (r: Vec<char>)
    ensures
        r@ == normalized_shortcut(s@),
{
    let v = to_chars(s);
    let mut out: Vec<char> = Vec::new();
    let mut i: usize = 0;
    while i < v.len()
        invariant
            i <= v@.len(),
            v@ == s@,
            out@ == normalized_shortcut(v@.take(i as int)),
        decreases v@.len() - i,
    {
        assert(v@.take(i + 1).drop_last() == v@.take(i as int));
        if !is_whitespace(v[i]) {
            push_lowercase(&mut out, v[i]);
        }
        i = i + 1;
        assert(out@ =~= normalized_shortcut(v@.take(i as int)));
    }
    assert(v@.take(v@.len() as int) == v@);
    out
}

/// Whether two shortcuts are the same, regardless of whitespace and case.
pub fn shortcuts_equal(left: &str, right: &str) -> (r: bool)
    ensures
        r == (normalized_shortcut(left@) == normalized_shortcut(right@)),
{
    let a = normalize_shortcut(left);
    let b = normalize_shortcut(right);
    crate::text::chars_eq(a.as_slice(), b.as_slice())
}

/// The global shortcuts that earlier versions used on macOS.
pub open spec fn legacy_macos_shortcuts() -> Seq<Seq<char>> {
    seq![
        "Option+Space"@,
        "Alt+Space"@,
        "Ctrl+Option+Space"@,
        "Control+Option+Space"@,
        "Ctrl+Alt+Space"@,
    ]
}

/// Whether a shortcut is one that earlier versions used on macOS.
pub open spec fn is_legacy_macos_shortcut(s: Seq<char>) -> bool {
    exists|i: int|
        0 <= i < legacy_macos_shortcuts().len() && normalized_shortcut(
            #[trigger] legacy_macos_shortcuts()[i],
        ) == normalized_shortcut(s)
}

/// The global shortcut after a configuration is loaded on macOS, given
/// whether the migration of the old default is recorded already.
pub open spec fn shortcut_after_load(handled: bool, stored: Seq<char>) -> Seq<char> {
    if !handled && is_legacy_macos_shortcut(stored) {
        "Command+Option+N"@
    } else {
        stored
    }
}

/// The old default shortcut is migrated only once: the first load, with
/// no migration recorded, replaces an old default (and the caller then
/// records the migration); every later load keeps the stored shortcut,
/// even an old default that the user has saved since.
pub proof fn lemma_shortcut_default_migrated_once(first: Seq<char>, later: Seq<char>)
    ensures
        is_legacy_macos_shortcut(first) ==> shortcut_after_load(false, first) == "Command+Option+N"@,
        !is_legacy_macos_shortcut(first) ==> shortcut_after_load(false, first) == first,
        shortcut_after_load(true, later) == later,
{
}

impl NoteStore {
    /// Moves a macOS configuration from an old default global shortcut to
    /// `Command+Option+N`, once: when the migration is already recorded
    /// (`handled`) nothing changes; otherwise an old default is replaced
    /// and any other shortcut kept. Says whether it replaced; the caller
    /// then records the migration.
    pub fn migrate_macos_shortcut_default(&self, handled: bool, global_shortcut: &mut String) -> (r:
        bool)
        ensures
            r == (!handled && is_legacy_macos_shortcut(old(global_shortcut)@)),
            r ==> final(global_shortcut)@ == "Command+Option+N"@,
            !r ==> final(global_shortcut)@ == old(global_shortcut)@,
            handled ==> final(global_shortcut)@ == old(global_shortcut)@,
            final(global_shortcut)@ == shortcut_after_load(handled, old(global_shortcut)@),
    {
        if handled {
            return false;
        }
        let legacy: [&str; 5] = [
            "Option+Space",
            "Alt+Space",
            "Ctrl+Option+Space",
            "Control+Option+Space",
            "Ctrl+Alt+Space",
        ];
        let mut found = false;
        let mut i: usize = 0;
        while i < 5
            invariant
                i <= 5,
                forall|k: int| 0 <= k < 5 ==> (#[trigger] legacy@[k])@ == legacy_macos_shortcuts()[k],
                found == exists|k: int|
                    0 <= k < i && normalized_shortcut(#[trigger] legacy_macos_shortcuts()[k])
                        == normalized_shortcut(global_shortcut@),
            decreases 5 - i,
        {
            if shortcuts_equal(legacy[i], global_shortcut.as_str()) {
                found = true;
            }
            i = i + 1;
        }
        if found {
            *global_shortcut = string_of("Command+Option+N");
        }
        found
    }
}

} // verus!
