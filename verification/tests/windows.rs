use stik::layout::{SETTINGS_WINDOW_MIN_WIDTH, SETTINGS_WINDOW_WIDTH};
use stik::window_rules::{
    after_palette_closed, after_settings_closed, focused_sticked_window, is_sticked_label, is_viewing_label,
    is_viewing_note_id, last_note_to_reopen, sticked_labels, sticked_window_label, sticked_window_url,
    viewing_window_url, Refocus, ViewingNoteContent, ViewingNotes, WindowInfo,
};
use stik::viewing::{
    derive_viewing_window_identity, extract_display_title, filename_title_from_path,
    is_break_placeholder_line, normalize_display_title, remember_last_note, sanitize_label_slug,
    stable_path_hash, LastSavedNote,
};

#[test]
fn remember_last_note_updates_state_for_shortcuts() {
    let mut last: Option<LastSavedNote> = None;
    remember_last_note(&mut last, "/tmp/stik/foo.md", "Inbox");

    let note = last.as_ref().expect("last note should be set");
    assert_eq!(note.path, "/tmp/stik/foo.md");
    assert_eq!(note.folder, "Inbox");
}

#[test]
fn remember_last_note_ignores_blank_path() {
    let mut last: Option<LastSavedNote> = None;
    remember_last_note(&mut last, "  ", "Inbox");
    assert!(last.is_none());
}

#[test]
fn viewing_identity_keeps_icloud_paths_tauri_safe() {
    let identity = derive_viewing_window_identity(
        "# This is my last note\n\nBody",
        "/Users/test/Library/Mobile Documents/com~apple~CloudDocs/Stik/Inbox/20260423-084615-this-is-my-last-note-a1b2.md",
    );

    assert_eq!(identity.display_title, "This is my last note");
    assert!(
        identity
            .viewing_id
            .chars()
            .all(|ch| ch.is_ascii_alphanumeric() || ch == '-' || ch == '_'),
        "viewing id should contain only Tauri-safe characters: {}",
        identity.viewing_id
    );
    assert!(!identity.viewing_id.contains('~'));
    assert!(identity
        .viewing_id
        .starts_with("view-this-is-my-last-note-"));
}

#[test]
fn viewing_identity_uses_hash_to_avoid_duplicate_title_collisions() {
    let first = derive_viewing_window_identity(
        "# Same Title",
        "/Users/test/Documents/Stik/Inbox/20260423-084615-same-title-a1b2.md",
    );
    let second = derive_viewing_window_identity(
        "# Same Title",
        "/Users/test/Documents/Stik/Work/20260423-084700-same-title-c3d4.md",
    );

    assert_eq!(first.display_title, "Same Title");
    assert_eq!(second.display_title, "Same Title");
    assert_ne!(first.viewing_id, second.viewing_id);
}

#[test]
fn viewing_identity_is_stable_for_the_same_path() {
    let path = "/Users/test/Documents/Stik/Inbox/20260423-084615-repeatable-a1b2.md";
    let first = derive_viewing_window_identity("# Repeatable", path);
    let second = derive_viewing_window_identity("# Repeatable", path);

    assert_eq!(first.viewing_id, second.viewing_id);
}

#[test]
fn viewing_identity_keeps_unicode_title_readable_but_slug_safe() {
    let identity = derive_viewing_window_identity(
        "## Café (Project) / 東京\n\nBody",
        "/Users/test/Documents/Stik/Inbox/20260423-084615-cafe-project-a1b2.md",
    );

    assert_eq!(identity.display_title, "Café (Project) / 東京");
    assert!(identity.viewing_id.starts_with("view-caf-project-"));
}

#[test]
fn viewing_identity_falls_back_to_filename_for_locked_notes() {
    let identity = derive_viewing_window_identity(
        "---stik-locked---\nnonce: abc\ndata",
        "/Users/test/Documents/Stik/Inbox/20260423-084615-my-secret-note-a1b2.md",
    );

    assert_eq!(identity.display_title, "my secret note");
    assert!(identity.viewing_id.starts_with("view-my-secret-note-"));
}

#[test]
fn break_placeholders_in_any_case() {
    assert!(is_break_placeholder_line("<br>"));
    assert!(is_break_placeholder_line("<BR/>"));
    assert!(is_break_placeholder_line("<Br />"));
    assert!(!is_break_placeholder_line("<br  />"));
    assert!(!is_break_placeholder_line("br"));
}

#[test]
fn display_title_skips_blank_and_break_lines() {
    assert_eq!(extract_display_title("\n  \n<br>\n###   Hello    world  \nrest", "/x/a.md"), "Hello world");
    assert_eq!(extract_display_title("###\n\n", "/x/20260101-000000-from-name-ab12.md"), "from name");
    assert_eq!(normalize_display_title("  ## A\u{3000}B  "), "A B");
}

#[test]
fn display_title_is_cut_to_120_chars() {
    let long = "x".repeat(300);
    assert_eq!(extract_display_title(&long, "/a.md").chars().count(), 120);
}

#[test]
fn filename_titles() {
    assert_eq!(filename_title_from_path("/a/b/simple-name.md"), "simple name");
    assert_eq!(filename_title_from_path("/a/b/20260101-101010-long-title-here-ab12.md"), "long title here");
    assert_eq!(filename_title_from_path("/"), "Untitled");
    assert_eq!(filename_title_from_path("/a/.."), "Untitled");
    assert_eq!(filename_title_from_path("/a/.hidden"), ".hidden");
    assert_eq!(filename_title_from_path("/a/b/---.md"), "Untitled");
    assert_eq!(filename_title_from_path("notes/./idea.txt/."), "idea");
}

#[test]
fn slugs() {
    assert_eq!(sanitize_label_slug("Hello, World!"), "hello-world");
    assert_eq!(sanitize_label_slug("!!!"), "untitled");
    assert_eq!(sanitize_label_slug("  --Ab--Cd--  "), "ab-cd");
    let long = "a".repeat(47) + " b c";
    assert_eq!(sanitize_label_slug(&long), "a".repeat(47));
    assert_eq!(sanitize_label_slug(&"z".repeat(60)).len(), 48);
}

#[test]
fn path_hash_is_fnv1a_prefix() {
    // FNV-1a of the empty input is the offset basis cbf29ce484222325.
    assert_eq!(stable_path_hash(""), "cbf29ce48422");
    // FNV-1a of "a" is af63dc4c8601ec8c.
    assert_eq!(stable_path_hash("a"), "af63dc4c8601");
}

#[test]
fn settings_window_min_width_is_large_enough_for_full_menu_bar() {
    assert!(SETTINGS_WINDOW_MIN_WIDTH as f64 >= 760.0);
    assert!(SETTINGS_WINDOW_WIDTH > SETTINGS_WINDOW_MIN_WIDTH);
}

fn window(label: &str, focused: bool) -> WindowInfo {
    WindowInfo { label: label.to_string(), focused }
}

#[test]
fn window_labels_and_pages() {
    assert_eq!(sticked_window_label("abc"), "sticked-abc");
    assert_eq!(sticked_window_url("abc"), "index.html?window=sticked&id=abc");
    assert_eq!(viewing_window_url("view-x-1"), "index.html?window=sticked&id=view-x-1&viewing=true");
    assert!(is_sticked_label("sticked-view-a"));
    assert!(!is_sticked_label("settings"));
    assert!(is_viewing_label("sticked-view-a"));
    assert!(!is_viewing_label("sticked-abc"));
    assert!(is_viewing_note_id("view-a"));
    assert!(!is_viewing_note_id("abc"));
}

#[test]
fn viewing_windows_are_sticked_viewing_windows() {
    let identity = derive_viewing_window_identity("# Title", "/S/Inbox/a.md");
    let label = sticked_window_label(&identity.viewing_id);
    assert!(is_viewing_label(&label));
    assert!(is_sticked_label(&label));
}

#[test]
fn focus_returns_to_the_focused_sticked_window() {
    let windows = vec![window("postit", true), window("sticked-1", false), window("sticked-2", true), window("sticked-3", true)];
    assert_eq!(focused_sticked_window(&windows), Some("sticked-2".to_string()));
    assert_eq!(focused_sticked_window(&vec![window("sticked-1", false)]), None);
    match after_settings_closed(Some("sticked-2".to_string()), true) {
        Refocus::Window(l) => assert_eq!(l, "sticked-2"),
        _ => panic!("expected the sticked window"),
    }
    assert!(matches!(after_settings_closed(None, true), Refocus::Postit));
    assert!(matches!(after_settings_closed(None, false), Refocus::Nothing));
}

#[test]
fn palette_close_shows_capture_unless_a_note_is_viewed() {
    let labels = vec!["postit".to_string(), "sticked-1".to_string()];
    assert!(after_palette_closed(true, &labels));
    assert!(!after_palette_closed(false, &labels));
    let viewing = vec!["sticked-view-a-1".to_string()];
    assert!(!after_palette_closed(true, &viewing));
    assert_eq!(
        sticked_labels(&vec!["postit".to_string(), "sticked-1".to_string(), "settings".to_string(), "sticked-view-2".to_string()]),
        vec!["sticked-1".to_string(), "sticked-view-2".to_string()]
    );
}

#[test]
fn reopening_needs_a_saved_note() {
    assert_eq!(last_note_to_reopen(&None).unwrap_err(), "No note saved yet");
    let last = Some(LastSavedNote { path: "/a.md".to_string(), folder: "Inbox".to_string() });
    assert_eq!(last_note_to_reopen(&last).unwrap(), ("/a.md".to_string(), "Inbox".to_string()));
}

#[test]
fn viewing_notes_are_kept_until_their_window_closes() {
    let mut notes = ViewingNotes::new();
    assert_eq!(notes.get_viewing_note_content("view-a").err(), Some("Viewing note content not found".to_string()));
    notes.insert(ViewingNoteContent {
        id: "view-a".to_string(),
        content: "# A".to_string(),
        folder: "Inbox".to_string(),
        path: "/a.md".to_string(),
    });
    assert_eq!(notes.get_viewing_note_content("view-a").unwrap().content, "# A");
    notes.window_closed("abc");
    assert!(notes.get_viewing_note_content("view-a").is_ok());
    notes.window_closed("view-a");
    assert!(notes.get_viewing_note_content("view-a").is_err());
}

#[test]
fn slugs_never_start_end_or_double_with_dashes() {
    for title in ["--Hello,  World!!--", "  ***  ", "a - - b", "Ünïcode only", "x", "-a-"] {
        let slug = sanitize_label_slug(title);
        assert!(!slug.is_empty(), "{title}");
        assert!(!slug.starts_with('-') && !slug.ends_with('-'), "{title}");
        assert!(!slug.contains("--"), "{title}");
    }
    assert_eq!(sanitize_label_slug("--Hello,  World!!--"), "hello-world");
    assert_eq!(sanitize_label_slug("a - - b"), "a-b");
    assert_eq!(sanitize_label_slug("  ***  "), "untitled");
}
