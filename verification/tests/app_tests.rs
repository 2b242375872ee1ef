use blitz_notepad::app::{normalized_selection, text_matches};
use blitz_notepad::document::{DocumentPath, LoadMode, LoadedSource};
use blitz_notepad::piece_table::SourceBytes;
use blitz_notepad::settings::EditorSettings;
use blitz_notepad::{BlitzApp, BlitzError};

fn file(name: &str) -> DocumentPath {
    DocumentPath {
        location: name.as_bytes().to_vec(),
        file_name: Some(name.to_owned()),
    }
}

fn read(bytes: &[u8]) -> LoadedSource {
    LoadedSource {
        source: SourceBytes::from_vec(bytes.to_vec()),
        mode: LoadMode::Heap,
        original_file_len: bytes.len() as u64,
    }
}

#[test]
fn zoom_steps_match_notepad_style_bounds() {
    let mut app = BlitzApp::default();
    app.zoom_in();
    assert_eq!(app.settings().zoom_percent, 125);
    app.restore_default_zoom();
    app.zoom_out();
    assert_eq!(app.settings().zoom_percent, 90);
}

#[test]
fn keyboard_editing_operations_update_text_and_caret() {
    let mut app = BlitzApp::default();
    app.insert_text("abc\ndef").expect("insert");
    app.set_caret_offset(2).expect("caret");
    app.insert_text("X").expect("insert");
    assert_eq!(app.document().text_lossy(), "abXc\ndef");

    app.backspace().expect("backspace");
    assert_eq!(app.document().text_lossy(), "abc\ndef");
    assert_eq!(app.caret_offset(), 2);

    app.move_down().expect("down");
    assert_eq!(
        app.document()
            .caret_position(app.caret_offset())
            .unwrap()
            .line,
        2
    );
    app.move_line_end().expect("end");
    app.delete_forward().expect("delete at end");
    assert_eq!(app.document().text_lossy(), "abc\ndef");
}

#[test]
fn select_all_replaces_document_text() {
    let mut app = BlitzApp::default();
    app.insert_text("alpha").expect("insert");
    app.select_all();
    app.insert_text("beta").expect("replace");

    assert_eq!(app.document().text_lossy(), "beta");
    assert_eq!(app.caret_offset(), "beta".len());
}

#[test]
fn selection_range_normalizes_anchor_and_focus() {
    let mut app = BlitzApp::default();
    app.insert_text("abcdef").expect("insert");

    app.set_selection_range(5, 2).expect("selection");

    assert_eq!(app.selected_range(), Some(2..5));
    assert_eq!(app.caret_offset(), 2);
    assert_eq!(app.selected_text().as_deref(), Some("cde"));
}

#[test]
fn find_replace_and_go_to_work() {
    let mut app = BlitzApp::default();
    app.insert_text("alpha\nbeta\nALPHA").expect("insert");
    app.set_caret_offset(0).expect("caret");

    assert!(app.find_text("ALPHA", false, true).expect("find"));
    assert_eq!(app.selected_range(), Some(0..5));

    assert!(app.replace_next("alpha", "one", false).expect("replace"));
    assert_eq!(app.document().text_lossy(), "one\nbeta\nALPHA");

    assert_eq!(
        app.replace_all("beta", "two", false).expect("replace all"),
        1
    );
    assert_eq!(app.document().text_lossy(), "one\ntwo\nALPHA");

    assert!(app.go_to_line(2).expect("go to"));
    assert_eq!(
        app.document()
            .caret_position(app.caret_offset())
            .unwrap()
            .line,
        2
    );
}

#[test]
fn find_text_can_disable_wrap_around() {
    let mut app = BlitzApp::default();
    app.insert_text("one two one").expect("insert");
    app.set_caret_offset("one two one".len()).expect("caret");

    assert!(!app
        .find_text_with_options("one", true, true, false)
        .expect("find without wrap"));
    assert!(app
        .find_text_with_options("one", true, true, true)
        .expect("find with wrap"));
    assert_eq!(app.selected_range(), Some(0..3));
}

#[test]
fn fast_find_starts_at_caret_within_same_chunk() {
    let mut app = BlitzApp::default();
    app.insert_text("one one one").expect("insert");
    app.set_caret_offset(4).expect("caret");

    assert!(app
        .find_text_with_options("one", true, true, false)
        .expect("find"));

    assert_eq!(app.selected_range(), Some(4..7));
}

#[test]
fn fast_find_forward_can_start_inside_self_overlapping_match() {
    let mut app = BlitzApp::default();
    app.insert_text("aaa").expect("insert");
    app.set_caret_offset(1).expect("caret");

    assert!(app
        .find_text_with_options("aa", true, true, false)
        .expect("find"));

    assert_eq!(app.selected_range(), Some(1..3));
}

#[test]
fn fast_find_is_ascii_case_insensitive_when_requested() {
    let mut app = BlitzApp::default();
    app.insert_text("alpha BETA").expect("insert");
    app.set_caret_offset(0).expect("caret");

    assert!(app
        .find_text_with_options("beta", false, true, false)
        .expect("find"));

    assert_eq!(app.selected_range(), Some(6..10));
}

#[test]
fn fast_find_backward_finds_previous_ascii_match() {
    let mut app = BlitzApp::default();
    app.insert_text("one two one").expect("insert");
    app.set_caret_offset("one two one".len()).expect("caret");

    assert!(app
        .find_text_with_options("one", true, false, false)
        .expect("find backward"));

    assert_eq!(app.selected_range(), Some(8..11));
}

#[test]
fn fast_find_backward_repeated_search_skips_current_selection() {
    let mut app = BlitzApp::default();
    app.insert_text("one two one").expect("insert");
    app.set_caret_offset("one two one".len()).expect("caret");

    assert!(app
        .find_text_with_options("one", true, false, false)
        .expect("first find"));
    assert_eq!(app.selected_range(), Some(8..11));
    assert!(app
        .find_text_with_options("one", true, false, false)
        .expect("second find"));

    assert_eq!(app.selected_range(), Some(0..3));
}

#[test]
fn fast_find_backward_can_wrap() {
    let mut app = BlitzApp::default();
    app.insert_text("one two one").expect("insert");
    app.set_caret_offset(0).expect("caret");

    assert!(!app
        .find_text_with_options("one", true, false, false)
        .expect("find no wrap"));
    assert!(app
        .find_text_with_options("one", true, false, true)
        .expect("find wrap"));

    assert_eq!(app.selected_range(), Some(8..11));
}

#[test]
fn fast_find_backward_uses_nearest_self_overlapping_match() {
    let mut app = BlitzApp::default();
    app.insert_text("aaa").expect("insert");
    app.set_caret_offset(3).expect("caret");

    assert!(app
        .find_text_with_options("aa", true, false, false)
        .expect("find"));

    assert_eq!(app.selected_range(), Some(1..3));
}

#[test]
fn fast_find_backward_handles_self_overlap_near_end_of_chunked_document() {
    let mut app = BlitzApp::default();
    let text = "a".repeat(1024 * 1024 + 3);
    app.insert_text(&text).expect("insert");
    app.set_caret_offset(text.len()).expect("caret");

    assert!(app
        .find_text_with_options("aa", true, false, false)
        .expect("find"));

    assert_eq!(app.selected_range(), Some(text.len() - 2..text.len()));
}

#[test]
fn fast_find_supports_exact_non_ascii_queries() {
    let mut app = BlitzApp::default();
    app.insert_text("alpha テスト 😀 beta").expect("insert");
    app.set_caret_offset(0).expect("caret");

    assert!(app
        .find_text_with_options("テスト 😀", true, true, false)
        .expect("find"));

    assert_eq!(app.selected_text().as_deref(), Some("テスト 😀"));
}

#[test]
fn fast_find_streams_non_ascii_queries_without_match_case() {
    let mut app = BlitzApp::default();
    app.insert_text("alpha テスト 😀 beta").expect("insert");
    app.set_caret_offset(0).expect("caret");

    assert!(app
        .find_text_with_options("テスト 😀", false, true, false)
        .expect("find"));

    assert_eq!(app.selected_text().as_deref(), Some("テスト 😀"));
}

#[test]
fn replace_next_uses_streaming_search_case_rules_for_mixed_text() {
    let mut app = BlitzApp::default();
    app.insert_text("alpha 日本A beta").expect("insert");
    app.set_caret_offset(0).expect("caret");

    assert!(app.replace_next("日本a", "done", false).expect("replace"));

    assert_eq!(app.document().text_lossy(), "alpha done beta");
}

#[test]
fn replace_all_keeps_non_overlapping_match_behavior() {
    let mut app = BlitzApp::default();
    app.insert_text("aaaa").expect("insert");

    assert_eq!(app.replace_all("aa", "b", true).expect("replace all"), 2);

    assert_eq!(app.document().text_lossy(), "bb");
}

#[test]
fn fast_find_handles_match_across_piece_boundaries_after_edit() {
    let mut app = BlitzApp::open(
        file("piece-boundary.txt"),
        read(b"abcXYZ"),
        EditorSettings::default(),
    )
    .expect("open");
    app.set_caret_offset(3).expect("caret");
    app.insert_text("de").expect("insert");
    app.set_caret_offset(0).expect("caret");

    assert!(app
        .find_text_with_options("cdeX", true, true, false)
        .expect("find"));

    assert_eq!(app.selected_text().as_deref(), Some("cdeX"));
}

#[test]
fn fast_find_backward_handles_match_across_piece_boundaries_after_edit() {
    let mut app = BlitzApp::open(
        file("piece-boundary-backward.txt"),
        read(b"abcXYZ"),
        EditorSettings::default(),
    )
    .expect("open");
    app.set_caret_offset(3).expect("caret");
    app.insert_text("de").expect("insert");
    app.set_caret_offset(app.document().len()).expect("caret");

    assert!(app
        .find_text_with_options("cdeX", true, false, false)
        .expect("find"));

    assert_eq!(app.selected_text().as_deref(), Some("cdeX"));
}

#[test]
fn fast_find_backward_uses_nearest_self_overlapping_match_across_pieces() {
    let mut app = BlitzApp::open(
        file("piece-overlap.txt"),
        read(b"aa"),
        EditorSettings::default(),
    )
    .expect("open");
    app.set_caret_offset(1).expect("caret");
    app.insert_text("a").expect("insert");
    app.set_caret_offset(app.document().len()).expect("caret");

    assert!(app
        .find_text_with_options("aa", true, false, false)
        .expect("find"));

    assert_eq!(app.selected_range(), Some(1..3));
}

#[test]
fn fast_find_forward_handles_match_across_stream_chunks() {
    let mut app = BlitzApp::default();
    let mut text = "a".repeat(1024 * 1024 - 2);
    text.push_str("xyZtail");
    app.insert_text(&text).expect("insert");
    app.set_caret_offset(0).expect("caret");

    assert!(app
        .find_text_with_options("xyZ", true, true, false)
        .expect("find"));

    assert_eq!(app.selected_range(), Some(1024 * 1024 - 2..1024 * 1024 + 1));
}

#[test]
fn fast_find_backward_handles_match_across_stream_chunks() {
    let mut app = BlitzApp::default();
    let mut text = "a".repeat(1024 * 1024 - 2);
    text.push_str("xyZtail");
    app.insert_text(&text).expect("insert");
    app.set_caret_offset(text.len()).expect("caret");

    assert!(app
        .find_text_with_options("xyz", false, false, false)
        .expect("find"));

    assert_eq!(app.selected_range(), Some(1024 * 1024 - 2..1024 * 1024 + 1));
}

#[test]
fn save_snapshot_completion_clears_dirty_only_for_same_generation() {
    let mut app = BlitzApp::default();
    app.insert_text("alpha").expect("insert");
    let written = app
        .document()
        .contents(app.document().encoding(), app.document().line_ending())
        .expect("contents");
    app.save_as_path(file("snapshot.txt"), written.len() as u64);
    app.insert_text(" beta").expect("edit");

    let snapshot = app.save_snapshot().expect("snapshot");
    let saved = snapshot
        .document
        .contents(snapshot.target.encoding, snapshot.target.line_ending)
        .expect("save snapshot");
    let saved_len = saved.len() as u64;

    assert!(app.complete_save_snapshot(snapshot.target.generation, saved_len));
    assert!(!app.document().is_dirty());
    assert_eq!(saved, b"alpha beta");

    app.insert_text(" gamma").expect("edit again");
    let stale_generation = snapshot.target.generation;
    assert!(!app.complete_save_snapshot(stale_generation, saved_len));
    assert!(app.document().is_dirty());
}

// ---------------------------------------------------------------------------

#[test]
fn moving_left_undoes_moving_right() {
    let mut app = BlitzApp::default();
    app.insert_text("a日b").expect("insert");
    app.set_caret_offset(1).expect("caret");
    app.move_right().expect("right");
    assert_eq!(app.caret_offset(), 4);
    app.move_left().expect("left");
    assert_eq!(app.caret_offset(), 1);
}

#[test]
fn undoing_replace_all_restores_the_text() {
    let mut app = BlitzApp::default();
    app.insert_text("x-x-x").expect("insert");
    assert_eq!(app.replace_all("x", "日本", true).expect("replace"), 3);
    assert_eq!(app.document().text_lossy(), "日本-日本-日本");
    assert!(app.undo().expect("undo"));
    assert_eq!(app.document().text_lossy(), "x-x-x");
}

#[test]
fn found_text_is_selected() {
    let mut app = BlitzApp::default();
    app.insert_text("one Two").expect("insert");
    app.set_caret_offset(0).expect("caret");
    assert!(app.find_text("two", false, true).expect("find"));
    assert_eq!(app.selected_text().as_deref(), Some("Two"));
    assert!(!app.find_text("three", false, true).expect("find"));
}

#[test]
fn a_caret_within_a_character_is_refused() {
    let mut app = BlitzApp::default();
    app.insert_text("日").expect("insert");
    assert!(matches!(
        app.set_caret_offset(1),
        Err(BlitzError::Encoding(_))
    ));
    assert!(matches!(
        app.set_selection(0..1),
        Err(BlitzError::Encoding(_))
    ));
    assert_eq!(
        app.document_mut().insert_text(1, "x"),
        Err(BlitzError::InvalidCharBoundary { offset: 1 })
    );
    assert_eq!(
        app.set_caret_offset(9),
        Err(BlitzError::InvalidRange {
            start: 9,
            end: 9,
            len: 3
        })
    );
    assert_eq!(app.caret_offset(), 3);
}

#[test]
fn zoom_reaches_both_ends() {
    let mut app = BlitzApp::default();
    for _ in 0..40 {
        app.zoom_in();
    }
    assert_eq!(app.settings().zoom_percent, 500);
    for _ in 0..40 {
        app.zoom_out();
    }
    assert_eq!(app.settings().zoom_percent, 10);
}

#[test]
fn matching_ignores_ascii_case_only() {
    assert!(text_matches("Straße", "sTRAßE", false));
    assert!(!text_matches("Ä", "ä", false));
    assert!(!text_matches("A", "a", true));
    assert_eq!(normalized_selection(7, 3), Some(3..7));
    assert_eq!(normalized_selection(3, 3), None);
}

#[test]
fn cursors_type_at_several_places() {
    let mut app = BlitzApp::default();
    app.insert_text("a b c").expect("insert");
    app.apply_multi_cursor_text(vec![4..5, 0..1], "日")
        .expect("type");
    assert_eq!(app.document().text_lossy(), "日 b 日");
    assert!(app.undo().expect("undo"));
    assert_eq!(app.document().text_lossy(), "a b c");
}

#[test]
fn cut_text_can_be_pasted_back() {
    let mut app = BlitzApp::default();
    app.insert_text("one two").expect("insert");
    app.set_selection_range(0, 4).expect("select");
    let cut = app.cut_selection().expect("cut").expect("text");
    assert_eq!(cut, "one ");
    assert_eq!(app.document().text_lossy(), "two");
    app.paste_text(&cut).expect("paste");
    assert_eq!(app.document().text_lossy(), "one two");
}

#[test]
fn pasting_puts_back_what_was_cut() {
    let mut app = BlitzApp::default();
    app.insert_text("one 日本 two").expect("insert");
    app.set_selection(4..10).expect("select");
    let cut = app.cut_selection().expect("cut").expect("text");
    assert_eq!(cut, "日本");
    assert_eq!(app.document().text_lossy(), "one  two");
    app.paste_text(&cut).expect("paste");
    assert_eq!(app.document().text_lossy(), "one 日本 two");
    assert_eq!(app.caret_offset(), 10);
}

#[test]
fn backspace_takes_back_a_typed_character() {
    let mut app = BlitzApp::default();
    app.insert_text("ab").expect("insert");
    app.set_caret_offset(1).expect("caret");
    for text in ["x", "é", "日", "😀", "\n"] {
        app.insert_text(text).expect("type");
        app.backspace().expect("backspace");
        assert_eq!(app.document().text_lossy(), "ab");
        assert_eq!(app.caret_offset(), 1);
    }
}

#[test]
fn undo_brings_back_what_was_typed_over() {
    let mut app = BlitzApp::default();
    app.insert_text("alpha beta").expect("insert");
    app.set_selection(0..5).expect("select");
    app.insert_text("gamma!").expect("type");
    assert_eq!(app.document().text_lossy(), "gamma! beta");
    assert!(app.undo().expect("undo"));
    assert_eq!(app.document().text_lossy(), "alpha beta");
}

#[test]
fn undo_takes_back_one_text_typed_twice_at_one_place() {
    let mut app = BlitzApp::default();
    app.insert_text("ab").expect("insert");
    app.apply_multi_cursor_text(vec![1..1, 1..1, 2..2], "é")
        .expect("type");
    assert_eq!(app.document().text_lossy(), "aééb\u{e9}");
    assert!(app.undo().expect("undo"));
    assert_eq!(app.document().text_lossy(), "ab");
}

#[test]
fn undo_brings_back_touching_matches_that_were_deleted() {
    let mut app = BlitzApp::default();
    app.insert_text("xababab").expect("insert");
    assert_eq!(app.replace_all("ab", "", true).expect("replace"), 3);
    assert_eq!(app.document().text_lossy(), "x");
    assert!(app.undo().expect("undo"));
    assert_eq!(app.document().text_lossy(), "xababab");
}

#[test]
fn the_start_of_each_line_is_on_that_line() {
    let mut app = BlitzApp::default();
    app.insert_text("a\r\nbb\n\nc").expect("insert");
    for line in 1..=4 {
        assert!(app.go_to_line(line).expect("go"));
        let state = app.ui_state().expect("state");
        assert_eq!((state.caret_line, state.caret_column), (line, 1));
    }
    assert!(!app.go_to_line(5).expect("go"));
    assert!(!app.go_to_line(0).expect("go"));
}

#[test]
fn zooming_out_undoes_zooming_in() {
    let mut app = BlitzApp::default();
    for _ in 0..8 {
        let before = app.settings().zoom_percent;
        app.zoom_in();
        app.zoom_out();
        assert_eq!(app.settings().zoom_percent, before);
        app.zoom_in();
    }
    assert_eq!(app.settings().zoom_percent, 500);
}

#[test]
fn matches_are_replaced_however_the_text_came_together() {
    for cut in 0..=4 {
        let mut app = BlitzApp::default();
        app.insert_text(&"aaaa"[cut..]).expect("insert");
        app.set_caret_offset(0).expect("caret");
        app.insert_text(&"aaaa"[..cut]).expect("insert");
        assert_eq!(app.replace_all("aa", "b", true).expect("replace"), 2);
        assert_eq!(app.document().text_lossy(), "bb");
        assert!(app.undo().expect("undo"));
        assert_eq!(app.document().text_lossy(), "aaaa");
    }
}

#[test]
fn undo_brings_back_neighbours_that_differ_in_case() {
    let mut app = BlitzApp::default();
    app.insert_text("aAéa").expect("insert");
    assert_eq!(app.replace_all("a", "", false).expect("replace"), 3);
    assert_eq!(app.document().text_lossy(), "é");
    assert!(app.undo().expect("undo"));
    assert_eq!(app.document().text_lossy(), "aAéa");
}

#[test]
fn the_next_match_is_the_nearest_one() {
    let mut app = BlitzApp::default();
    app.insert_text("ab\nab\nab").expect("insert");
    app.set_caret_offset(1).expect("caret");
    assert!(app.find_text("ab", true, true).expect("find"));
    assert_eq!(app.selected_range(), Some(3..5));
    assert!(app.find_text("ab", true, true).expect("find"));
    assert_eq!(app.selected_range(), Some(6..8));
    assert!(app.find_text("ab", true, true).expect("find"));
    assert_eq!(app.selected_range(), Some(0..2));
}
