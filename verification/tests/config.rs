use floral_notepaper::config::{
    default_background_fit, default_close_tab_shortcut, default_code_theme, default_editor_width,
    default_external_file_auto_save, default_font_size, default_global_shortcut, default_link_preview,
    default_locale, default_note_auto_save, default_note_surface_auto_save, default_open_at_cursor,
    default_preset_theme, default_remember_surface_size, default_sidebar_position,
    default_split_scroll_sync, default_surface_font_size, default_tab_indent_size, default_theme,
    default_tile_color, default_tile_color_mode, default_tile_ctrl_close,
    default_toggle_visibility_shortcut, shortcuts_equal,
};
use floral_notepaper::notes::NoteStore;

#[test]
fn defaults_match_the_documented_settings() {
    assert_eq!(default_locale(), "zh-CN");
    assert_eq!(default_tile_color(), "#f6f3ec");
    assert_eq!(default_close_tab_shortcut(), "Ctrl+W");
    assert_eq!(default_tile_color_mode(), "system");
    assert_eq!(default_theme(), "system");
    assert_eq!(default_font_size(), 14);
    assert_eq!(default_surface_font_size(), 14);
    assert_eq!(default_tab_indent_size(), 2);
    assert_eq!(default_background_fit(), "cover");
    assert_eq!(default_toggle_visibility_shortcut(), "");
    assert_eq!(default_preset_theme(), "default");
    assert_eq!(default_code_theme(), "light");
    assert_eq!(default_editor_width(), "normal");
    assert_eq!(default_sidebar_position(), "left");
    assert!(default_note_auto_save());
    assert!(default_note_surface_auto_save());
    assert!(default_external_file_auto_save());
    assert!(default_remember_surface_size());
    assert!(default_tile_ctrl_close());
    assert!(default_split_scroll_sync());
    assert!(default_open_at_cursor());
    assert!(default_link_preview());
    assert_eq!(default_global_shortcut(true), "Command+Option+N");
    assert_eq!(default_global_shortcut(false), "Ctrl+Space");
}

#[test]
fn shortcuts_compare_without_case_and_spaces() {
    assert!(shortcuts_equal("Option+Space", "option + space"));
    assert!(shortcuts_equal("CTRL+ALT+SPACE", "Ctrl+Alt+Space"));
    assert!(!shortcuts_equal("Ctrl+Space", "Ctrl+Alt+Space"));
}

#[test]
fn migrates_legacy_macos_shortcut_default_once() {
    let store = NoteStore::new("/c".into(), "/d".into());
    let mut shortcut = "Option+Space".to_string();
    assert!(store.migrate_macos_shortcut_default(false, &mut shortcut));
    assert_eq!(shortcut, "Command+Option+N");
    let mut again = "Option+Space".to_string();
    assert!(!store.migrate_macos_shortcut_default(true, &mut again));
    assert_eq!(again, "Option+Space");
}

#[test]
fn leaves_custom_macos_shortcut_unchanged() {
    let store = NoteStore::new("/c".into(), "/d".into());
    let mut shortcut = "Command+K".to_string();
    assert!(!store.migrate_macos_shortcut_default(false, &mut shortcut));
    assert_eq!(shortcut, "Command+K");
    let mut spaced = "control + option + space".to_string();
    assert!(store.migrate_macos_shortcut_default(false, &mut spaced));
}
