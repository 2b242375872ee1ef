use blitz_notepad::canvas::{copy_frame_to_rgba, rgb_bytes, Canvas, RenderFrame};
use blitz_notepad::commands::{
    find_again, go_to_dialog_line, run_command, Command, Effect, Step, Surroundings,
};
use blitz_notepad::date_time::LocalDateTime;
use blitz_notepad::dialog::{
    append_dialog_character, append_find_query_paste, clipboard_has_text, dialog_window_size,
    find_cancel_button_rect, find_direction_group_rect, find_down_radio_rect, find_field_rect,
    find_match_case_rect, find_next_button_rect, find_up_radio_rect, find_wrap_rect,
    go_to_accept_button_rect, go_to_cancel_button_rect, go_to_field_rect, parse_line_number,
    should_defer_dialog_window, DialogState, FindWindow, ReplaceField, SearchSpec,
    FIND_WINDOW_HEIGHT, FIND_WINDOW_WIDTH, GO_TO_WINDOW_HEIGHT, GO_TO_WINDOW_WIDTH,
};
use blitz_notepad::document::{DocumentPath, LoadMode, LoadedSource, VisibleLine};
use blitz_notepad::draw::{
    centered_text_y, find_ime_caret_x, find_ime_caret_y, render_dialog_window,
    render_find_window_view,
};
use blitz_notepad::frame::{render_frame, render_frame_with_state};
use blitz_notepad::glyphs::{
    description, font_families, font_index_for, font_stack, has_font, place_text, shape_emoji_cluster,
    ClusterShape, FontGlyph, Placed,
};
use blitz_notepad::gui::{
    count_frame, GuiOptions, GuiState, ScrollDrag, DEFAULT_HEIGHT, DEFAULT_WIDTH,
};
use blitz_notepad::input::{
    ascii_find_char_for_key, command_shortcuts_suppressed_for_text_input, input_queue_has_text,
    should_handle_command_shortcuts, should_use_find_ascii_fallback, Key, TextInput,
};
use blitz_notepad::jobs::{
    answer_unsaved_changes, finish_open, finish_save, finish_save_as, frame_signature,
    poll_print_job, poll_save_job, print_request_for_app, proceed_if_saved, report_browser,
    report_new_window, status_bar_cells, unsaved_changes_question, update_editor_ime_state, Answer,
    Answered, PrintEnd, SaveEnd,
};
use blitz_notepad::keys::{handle_keys, handle_text_input, menu_row_command, KeyInput};
use blitz_notepad::menu::{menu_row_hit, menu_rows, menu_title_hit, menu_titles, MenuRow};
use blitz_notepad::mouse::{
    handle_mouse, handle_scroll_wheel, update_mouse_selection, MouseInput, WheelInput,
};
use blitz_notepad::picture::{accept_png, png_bytes};
use blitz_notepad::piece_table::SourceBytes;
use blitz_notepad::pointer::{
    editor_ime_caret_point, editor_ime_y, editor_visible_lines, handle_scrollbar_click,
    text_offset_for_point, update_scroll_drag, visible_line_index_for_caret,
};
use blitz_notepad::print::{
    page_layout, print_lines, print_pages, sanitized_print_file_name, PrintStep, Printer,
    PRINT_LINE_CHUNK_BYTES,
};
use blitz_notepad::ruler::{Ruler, TextRole};
use blitz_notepad::scroll::{
    centered_offset_for_range, dropdown_top, editor_metrics_from_flags, menu_top, offset_for_thumb,
    scroll_thumb, text_top, visible_byte_capacity, EditorMetrics, EDITOR_LINE_HEIGHT,
    STATUS_HEIGHT, TEXT_MARGIN_X, TEXT_MARGIN_Y,
};
use blitz_notepad::settings::EditorSettings;
use blitz_notepad::sketch::{
    paint_shape, DrawOp, Sketch, COLOR_BUTTON, COLOR_CARET, COLOR_FOCUS_BORDER, COLOR_SCROLLBAR,
    COLOR_SCROLL_THUMB, COLOR_SELECTION, COLOR_STATUS, COLOR_TEXT_AREA, COLOR_WINDOW,
};
use blitz_notepad::text_units::{text_units, TextUnitKind};
use blitz_notepad::ui::NotepadUiState;
use blitz_notepad::windows::{
    accept_dialog_state, activate_go_to_button, handle_dialog_window, handle_find_window,
    DialogInput, FindInput,
};
use blitz_notepad::{BlitzApp, BlitzError};

// ---------------------------------------------------------------------------
// Helpers
// ---------------------------------------------------------------------------

/// A ruler for the characters used here: nine pixels to a character of the
/// editor, twice that for a wide one.
fn ruler() -> Ruler {
    let mut ruler = Ruler::new();
    for (role, pixels) in [
        (TextRole::Ui, 8),
        (TextRole::Find, 7),
        (TextRole::Editor, 9),
    ] {
        for code in 0x20u8..0x7f {
            ruler.set_glyph(role, code as char, pixels * 64);
        }
        for wide in "日本語".chars() {
            ruler.set_glyph(role, wide, 2 * pixels * 64);
        }
        for emoji in ["😀", "😐", "🙆‍♂️"] {
            ruler.set_cluster(role, emoji, Some(2 * pixels * 64));
        }
    }
    ruler
}

fn new_gui() -> GuiState {
    let mut gui_state = GuiState::new();
    gui_state.ruler = ruler();
    gui_state
}

fn new_app() -> BlitzApp {
    BlitzApp::new(EditorSettings::default())
}

fn editor_metrics(state: &NotepadUiState, width: usize, height: usize) -> Option<EditorMetrics> {
    editor_metrics_from_flags(state.status_bar_visible, state.word_wrap, width, height)
}

/// Paints all but the text of a sketch.
fn paint(sketch: &Sketch, width: usize, height: usize) -> RenderFrame {
    let mut canvas = Canvas::new(width, height, COLOR_WINDOW);
    for op in &sketch.ops {
        paint_shape(&mut canvas, op);
    }
    canvas.into_frame()
}

fn rendered(app: &BlitzApp, width: usize, height: usize) -> RenderFrame {
    let mut gui_state = new_gui();
    let sketch = render_frame(app, width, height, &mut gui_state).expect("render");
    paint(&sketch, width, height)
}

fn pixel_index(frame: &RenderFrame, x: usize, y: usize) -> usize {
    y * frame.width + x
}

fn surroundings() -> Surroundings {
    Surroundings {
        clipboard: None,
        now: LocalDateTime {
            year: 2026,
            month: 5,
            day: 28,
            hour: 9,
            minute: 5,
        },
        fonts: "Segoe UI / Aptos".to_owned(),
        width: 640,
        height: 400,
    }
}

fn run(app: &mut BlitzApp, gui_state: &mut GuiState, command: Command) -> Effect {
    run_command(app, gui_state, command, &surroundings()).expect("command")
}

fn file(name: &str) -> DocumentPath {
    DocumentPath {
        location: name.as_bytes().to_vec(),
        file_name: Some(name.to_owned()),
    }
}

fn read(bytes: &[u8]) -> LoadedSource {
    LoadedSource {
        source: SourceBytes::from_vec(bytes.to_vec()),
        mode: LoadMode::Heap,
        original_file_len: bytes.len() as u64,
    }
}

fn row(label: &'static str) -> MenuRow {
    MenuRow {
        label,
        shortcut: None,
        enabled: true,
        checked: false,
        separator_before: false,
        indent: 0,
        has_children: false,
    }
}

/// Runs the command of a menu, without saving what changed.
fn execute_menu_row(
    app: &mut BlitzApp,
    gui_state: &mut GuiState,
    menu_index: usize,
    menu_row: MenuRow,
) -> Effect {
    let command = menu_row_command(menu_index, &menu_row).expect("command");
    match run(app, gui_state, command) {
        Effect::Ask(step) => match answer_unsaved_changes(app, gui_state, step, Answer::No) {
            Answered::Go(effect) => effect,
            other => panic!("{other:?}"),
        },
        effect => effect,
    }
}

// ---------------------------------------------------------------------------
// Pictures
// ---------------------------------------------------------------------------

#[test]
fn renderer_produces_nonblank_notepad_shell() {
    let app = new_app();
    let frame = rendered(&app, 640, 400);

    assert_eq!(frame.width, 640);
    assert_eq!(frame.height, 400);
    assert!(frame.pixels.iter().any(|pixel| *pixel == COLOR_TEXT_AREA));
    assert!(frame.pixels.iter().any(|pixel| *pixel == COLOR_STATUS));
    assert!(frame.pixels.iter().any(|pixel| *pixel != COLOR_WINDOW));
}

#[test]
fn gpu_frame_upload_converts_0rgb_pixels_to_rgba() {
    let frame = RenderFrame {
        width: 2,
        height: 1,
        pixels: vec![0x00123456, 0x00abcdef],
    };
    let mut rgba = vec![0; frame.width * frame.height * 4];

    copy_frame_to_rgba(&frame, &mut rgba).expect("convert frame");

    assert_eq!(rgba, vec![0x12, 0x34, 0x56, 0xff, 0xab, 0xcd, 0xef, 0xff]);
}

#[test]
fn gpu_frame_upload_rejects_mismatched_buffer_size() {
    let frame = RenderFrame {
        width: 2,
        height: 1,
        pixels: vec![0x00123456, 0x00abcdef],
    };
    let mut rgba = vec![0; 4];

    assert!(copy_frame_to_rgba(&frame, &mut rgba).is_err());
}

#[test]
fn a_picture_file_holds_three_bytes_to_a_pixel() {
    let frame = RenderFrame {
        width: 2,
        height: 1,
        pixels: vec![0x00123456, 0x00abcdef],
    };
    assert_eq!(
        rgb_bytes(&frame),
        vec![0x12, 0x34, 0x56, 0xab, 0xcd, 0xef]
    );
}

#[test]
fn startup_frame_contains_required_chrome_regions() {
    let app = new_app();
    let frame = rendered(&app, DEFAULT_WIDTH, DEFAULT_HEIGHT);

    assert_eq!(
        frame.pixels[pixel_index(&frame, 5, menu_top() + 5)],
        COLOR_WINDOW
    );
    assert_eq!(
        frame.pixels[pixel_index(&frame, 5, text_top() + 5)],
        COLOR_TEXT_AREA
    );
    assert!(matches!(
        frame.pixels[pixel_index(&frame, DEFAULT_WIDTH - 5, text_top() + 20)],
        COLOR_SCROLLBAR | COLOR_SCROLL_THUMB
    ));
    assert_eq!(
        frame.pixels[pixel_index(&frame, 5, DEFAULT_HEIGHT - STATUS_HEIGHT + 5)],
        COLOR_STATUS
    );
    assert!(frame.pixels.iter().any(|pixel| *pixel == COLOR_CARET));
}

#[test]
fn selected_text_is_highlighted_in_editor() {
    let mut app = new_app();
    app.insert_text("abcdef").expect("insert");
    app.set_selection_range(1, 4).expect("selection");

    let frame = rendered(&app, 640, 400);

    assert!(frame.pixels.iter().any(|pixel| *pixel == COLOR_SELECTION));
}

#[test]
fn find_window_view_draws_notepad_style_controls() {
    let fonts = ruler();
    let view = FindWindow {
        query: "test".to_owned(),
        match_case: false,
        wrap_around: false,
        forward: true,
        mouse_was_down: false,
    };

    let sketch = render_find_window_view(&view, &fonts);
    let frame = paint(&sketch, FIND_WINDOW_WIDTH, FIND_WINDOW_HEIGHT);

    let field = find_field_rect();
    let next = find_next_button_rect();
    let cancel = find_cancel_button_rect();
    let group = find_direction_group_rect();
    let match_case = find_match_case_rect();
    let wrap = find_wrap_rect();
    let up = find_up_radio_rect();
    let down = find_down_radio_rect();
    assert_eq!(frame.width, FIND_WINDOW_WIDTH);
    assert_eq!(frame.height, FIND_WINDOW_HEIGHT);
    assert!(fonts.measure("Find Next", TextRole::Find) <= next.width - 8);
    assert_eq!(field.y, next.y);
    assert_eq!(field.height, next.height);
    assert_eq!(next.x, cancel.x);
    assert_eq!(next.width, cancel.width);
    assert!(cancel.y + cancel.height <= group.y);
    assert!(cancel.y + cancel.height <= match_case.y);
    assert!(wrap.y + wrap.height <= FIND_WINDOW_HEIGHT);
    assert!(group.y + group.height <= FIND_WINDOW_HEIGHT);
    assert!(down.x + down.width <= group.x + group.width);
    assert!(group.x + group.width < cancel.x);
    assert!(up.x >= group.x);
    assert!(up.x + up.width <= down.x);
    assert_eq!(
        frame.pixels[pixel_index(&frame, field.x, field.y)],
        COLOR_FOCUS_BORDER
    );
    assert_eq!(
        frame.pixels[pixel_index(&frame, next.x + 2, next.y + 2)],
        COLOR_BUTTON
    );
    assert_eq!(
        frame.pixels[pixel_index(&frame, match_case.x + 8, match_case.y + 11)],
        COLOR_TEXT_AREA
    );
}

#[test]
fn go_to_dialog_view_matches_reference_layout() {
    let fonts = ruler();
    let dialog = DialogState::GoTo {
        line: "1".to_owned(),
        replace_on_input: true,
    };

    let sketch = render_dialog_window(&dialog, &fonts);
    let (width, height) = dialog_window_size(&dialog);
    let frame = paint(&sketch, width, height);

    let field = go_to_field_rect();
    let accept = go_to_accept_button_rect();
    let cancel = go_to_cancel_button_rect();
    assert_eq!(frame.width, GO_TO_WINDOW_WIDTH);
    assert_eq!(frame.height, GO_TO_WINDOW_HEIGHT);
    assert_eq!(frame.pixels[pixel_index(&frame, 0, 0)], COLOR_WINDOW);
    assert_eq!(
        frame.pixels[pixel_index(&frame, field.x, field.y)],
        COLOR_FOCUS_BORDER
    );
    assert_eq!(
        frame.pixels[pixel_index(&frame, field.x + 1, field.y + 1)],
        COLOR_TEXT_AREA
    );
    let mut selected_pixels = 0;
    for y in field.y + 3..field.y + field.height - 3 {
        for x in field.x + 5..field.x + 20 {
            if frame.pixels[pixel_index(&frame, x, y)] == COLOR_FOCUS_BORDER {
                selected_pixels += 1;
            }
        }
    }
    assert!(selected_pixels > 0);
    assert_eq!(
        frame.pixels[pixel_index(&frame, accept.x - 1, accept.y - 1)],
        COLOR_FOCUS_BORDER
    );
    assert_eq!(
        frame.pixels[pixel_index(&frame, accept.x + 2, accept.y + 2)],
        COLOR_BUTTON
    );
    assert_eq!(
        frame.pixels[pixel_index(&frame, cancel.x + 2, cancel.y + 2)],
        COLOR_BUTTON
    );
    assert!(fonts.measure("Go To", TextRole::Find) <= accept.width - 8);
    assert!(fonts.measure("Cancel", TextRole::Find) <= cancel.width - 8);
    assert!(field.y + field.height < accept.y);
    assert!(accept.x + accept.width < cancel.x);
}

#[test]
fn selection_highlight_is_clipped_before_vertical_scrollbar() {
    let mut app = new_app();
    app.insert_text(&"x".repeat(512)).expect("insert");
    app.select_all();

    let frame = rendered(&app, 640, 400);
    let metrics = editor_metrics(&app.ui_state().expect("ui"), 640, 400).expect("metrics");
    let y = text_top() + TEXT_MARGIN_Y + 4;

    assert_eq!(
        frame.pixels[pixel_index(&frame, metrics.text_width + 1, y)],
        COLOR_SCROLLBAR
    );
    assert_ne!(
        frame.pixels[pixel_index(&frame, metrics.text_width + 1, y)],
        COLOR_SELECTION
    );
}

#[test]
fn transient_messages_do_not_cover_text_area() {
    let app = new_app();
    let mut gui_state = new_gui();
    gui_state.set_message("New document");

    let state = app.ui_state().expect("ui state");
    let sketch =
        render_frame_with_state(&app, &state, DEFAULT_WIDTH, DEFAULT_HEIGHT, &mut gui_state);
    let frame = paint(&sketch, DEFAULT_WIDTH, DEFAULT_HEIGHT);

    assert_eq!(
        frame.pixels[pixel_index(&frame, TEXT_MARGIN_X + 24, text_top() + TEXT_MARGIN_Y + 4)],
        COLOR_TEXT_AREA
    );
}

#[test]
fn frame_signature_tracks_viewport_changes() {
    let app = new_app();
    let mut gui_state = new_gui();

    let initial = frame_signature(&app, app.ui_state().expect("ui"), 640, 400, &gui_state);
    let unchanged = frame_signature(&app, app.ui_state().expect("ui"), 640, 400, &gui_state);
    gui_state.first_visible_line = 1;
    let scrolled = frame_signature(&app, app.ui_state().expect("ui"), 640, 400, &gui_state);

    assert_eq!(initial, unchanged);
    assert_ne!(initial, scrolled);
}

#[test]
fn frame_signature_tracks_status_message_changes() {
    let app = new_app();
    let mut gui_state = new_gui();
    let initial = frame_signature(&app, app.ui_state().expect("ui"), 640, 400, &gui_state);

    gui_state.set_message("Printing...");
    let updated = frame_signature(&app, app.ui_state().expect("ui"), 640, 400, &gui_state);

    assert_ne!(initial, updated);
}

#[test]
fn frame_signature_ignores_status_message_when_status_bar_hidden() {
    let mut app = new_app();
    let mut gui_state = new_gui();
    app.toggle_status_bar();
    let initial = frame_signature(&app, app.ui_state().expect("ui"), 640, 400, &gui_state);

    gui_state.set_message("Printing...");
    let updated = frame_signature(&app, app.ui_state().expect("ui"), 640, 400, &gui_state);

    assert_eq!(initial, updated);
}

#[test]
fn status_bar_cells_show_printing_while_print_job_is_active() {
    let app = new_app();
    let mut gui_state = new_gui();
    gui_state.printing = true;
    gui_state.set_message("Some older status");

    let cells = status_bar_cells(&app.ui_state().expect("ui state"), &gui_state);

    assert_eq!(cells.first().map(String::as_str), Some("Printing..."));
}

#[test]
fn an_open_menu_is_drawn_over_the_text() {
    let app = new_app();
    let mut gui_state = new_gui();
    gui_state.active_menu = Some(0);
    let sketch = render_frame(&app, 640, 400, &mut gui_state).expect("render");
    let labels = menu_rows(&app, 0)
        .iter()
        .map(|row| row.label)
        .collect::<Vec<_>>();
    for label in labels {
        assert!(sketch
            .ops
            .iter()
            .any(|op| matches!(op, DrawOp::Text { text, .. } if text == label)));
    }
    gui_state.active_menu = Some(99);
    let without = render_frame(&app, 640, 400, &mut gui_state).expect("render");
    assert!(without.ops.len() < sketch.ops.len());
}

#[test]
fn an_information_shows_four_lines_at_most() {
    let dialog = DialogState::Info {
        title: "Print".to_owned(),
        message: "a\r\nb\n\nd\ne\nf".to_owned(),
    };
    let sketch = render_dialog_window(&dialog, &ruler());
    let shown = sketch
        .ops
        .iter()
        .filter_map(|op| match op {
            DrawOp::Text { text, .. } => Some(text.as_str()),
            _ => None,
        })
        .collect::<Vec<_>>();
    assert_eq!(shown, vec!["Print", "a", "b", "", "d", "Enter/Esc: Close"]);
}

#[test]
fn the_replace_dialog_says_whether_case_matters() {
    let dialog = DialogState::Replace {
        query: "needle".to_owned(),
        replacement: "pin".to_owned(),
        active_field: ReplaceField::Replace,
        match_case: true,
    };
    let sketch = render_dialog_window(&dialog, &ruler());
    assert!(sketch.ops.iter().any(|op| matches!(op,
        DrawOp::Text { text, .. } if text == "[Tab] Field   [Space] Match case: On")));
    assert!(sketch
        .ops
        .iter()
        .any(|op| matches!(op, DrawOp::Text { text, .. } if text == "pin")));
}

#[test]
fn shapes_are_painted_where_they_lie() {
    let mut sketch = Sketch::new();
    sketch.fill_rect(1, 1, 2, 2, 7);
    sketch.rect(0, 0, 4, 4, 9);
    sketch.circle(8, 8, 2, 5);
    let frame = paint(&sketch, 11, 11);
    assert_eq!(frame.pixels[pixel_index(&frame, 2, 2)], 7);
    assert_eq!(frame.pixels[pixel_index(&frame, 3, 2)], COLOR_WINDOW);
    assert_eq!(frame.pixels[pixel_index(&frame, 4, 2)], 9);
    assert_eq!(frame.pixels[pixel_index(&frame, 0, 4)], 9);
    assert_eq!(frame.pixels[pixel_index(&frame, 10, 8)], 5);
    assert_eq!(frame.pixels[pixel_index(&frame, 8, 8)], COLOR_WINDOW);
}

// ---------------------------------------------------------------------------
// The mouse
// ---------------------------------------------------------------------------

#[test]
fn mouse_point_maps_to_document_offset() {
    let mut gui_state = new_gui();
    let mut app = new_app();
    app.insert_text(&"abc\ndef\n".repeat(32)).expect("insert");

    let x_for_c = TEXT_MARGIN_X + gui_state.ruler.measure("ab", TextRole::Editor);
    let offset = text_offset_for_point(
        &app,
        &mut gui_state,
        640,
        400,
        x_for_c,
        text_top() + TEXT_MARGIN_Y,
    )
    .expect("offset");
    assert_eq!(offset, 2);

    let x_for_e = TEXT_MARGIN_X + gui_state.ruler.measure("d", TextRole::Editor);
    let second_line = text_offset_for_point(
        &app,
        &mut gui_state,
        640,
        400,
        x_for_e,
        text_top() + TEXT_MARGIN_Y + EDITOR_LINE_HEIGHT,
    )
    .expect("offset");
    assert_eq!(second_line, "abc\n".len() + 1);

    gui_state.first_visible_line = 1;
    let scrolled_top_line = text_offset_for_point(
        &app,
        &mut gui_state,
        640,
        400,
        TEXT_MARGIN_X,
        text_top() + TEXT_MARGIN_Y,
    )
    .expect("scrolled offset");
    assert_eq!(scrolled_top_line, "abc\n".len());
}

#[test]
fn horizontal_scroll_offsets_hit_testing() {
    let mut gui_state = new_gui();
    let mut app = new_app();
    app.insert_text("abcdef").expect("insert");
    gui_state.horizontal_offset = 3;

    let offset = text_offset_for_point(
        &app,
        &mut gui_state,
        640,
        400,
        TEXT_MARGIN_X,
        text_top() + TEXT_MARGIN_Y,
    )
    .expect("offset");

    assert_eq!(offset, 3);
}

#[test]
fn mouse_drag_selection_updates_range_from_anchor() {
    let mut gui_state = new_gui();
    let mut app = new_app();
    app.insert_text("abcdef").expect("insert");
    gui_state.selection_anchor = Some(1);
    gui_state.selection_focus = Some(1);
    gui_state.mouse_selecting = true;

    let x = TEXT_MARGIN_X + gui_state.ruler.measure("abc", TextRole::Editor);
    update_mouse_selection(
        &mut app,
        &mut gui_state,
        640,
        400,
        x,
        text_top() + TEXT_MARGIN_Y,
    )
    .expect("drag selection");

    assert_eq!(app.selected_range(), Some(1..3));
    assert_eq!(gui_state.selection_focus, Some(3));

    update_mouse_selection(
        &mut app,
        &mut gui_state,
        640,
        400,
        x,
        text_top() + TEXT_MARGIN_Y,
    )
    .expect("redundant drag selection");
    assert_eq!(app.selected_range(), Some(1..3));
}

#[test]
fn scrollbar_clicks_move_viewport() {
    let mut app = new_app();
    let mut gui_state = new_gui();
    app.insert_text(
        &(0..100)
            .map(|line| format!("line {line}\n"))
            .collect::<String>(),
    )
    .expect("insert");

    let state = app.ui_state().expect("ui state");
    let metrics = editor_metrics(&state, 640, 400).expect("metrics");
    let clicked = handle_scrollbar_click(
        &app,
        &mut gui_state,
        640,
        400,
        metrics.text_width + 2,
        metrics.editor_bottom - 2,
    );

    assert!(clicked);
    assert!(gui_state.first_visible_line > 0);
}

#[test]
fn horizontal_scrollbar_click_and_drag_move_offset() {
    let mut app = new_app();
    let mut gui_state = new_gui();
    app.insert_text(&"abcdef".repeat(400)).expect("insert");

    let state = app.ui_state().expect("ui state");
    let metrics = editor_metrics(&state, 640, 400).expect("metrics");
    let scroll_y = metrics.horizontal_scroll_y.expect("horizontal scrollbar");

    let clicked = handle_scrollbar_click(
        &app,
        &mut gui_state,
        640,
        400,
        metrics.text_width - 2,
        scroll_y + 8,
    );
    assert!(clicked);
    assert!(gui_state.horizontal_offset > 0);

    gui_state.horizontal_offset = 0;
    handle_scrollbar_click(&app, &mut gui_state, 640, 400, 1, scroll_y + 8);
    assert!(matches!(
        gui_state.scroll_drag,
        Some(ScrollDrag::Horizontal { .. })
    ));

    update_scroll_drag(
        &app,
        &mut gui_state,
        640,
        400,
        metrics.text_width - 2,
        scroll_y + 8,
    );

    assert!(gui_state.horizontal_offset > 0);
}

#[test]
fn the_wheel_scrolls_down_and_sideways() {
    let mut app = new_app();
    let mut gui_state = new_gui();
    app.insert_text(&format!("{}\n", "x".repeat(500)).repeat(100))
        .expect("insert");
    let down = WheelInput {
        lines: 3,
        bytes: 0,
        shift: false,
    };
    handle_scroll_wheel(&app, &mut gui_state, down, 640, 400);
    assert_eq!(gui_state.first_visible_line, 3);
    let sideways = WheelInput {
        lines: 3,
        bytes: 96,
        shift: true,
    };
    handle_scroll_wheel(&app, &mut gui_state, sideways, 640, 400);
    assert_eq!(gui_state.first_visible_line, 3);
    assert_eq!(gui_state.horizontal_offset, 96);
}

#[test]
fn menu_hit_testing_finds_file_new() {
    let fonts = ruler();
    let app = new_app();
    let title = menu_titles(&fonts)[0];

    assert_eq!(menu_title_hit(&fonts, title.x + 1, menu_top() + 4), Some(0));
    let row = menu_row_hit(&app, &fonts, 0, title.x + 20, dropdown_top() + 10).expect("row");
    assert_eq!(row.label, "New");
}

#[test]
fn a_click_opens_a_menu_and_the_next_one_chooses() {
    let mut app = new_app();
    let mut gui_state = new_gui();
    let title = menu_titles(&gui_state.ruler)[3];
    let at = |x: usize, y: usize, down: bool| MouseInput {
        down,
        position: Some((x, y)),
        width: 640,
        height: 400,
        shift: false,
    };
    let none = handle_mouse(&mut app, &mut gui_state, at(title.x + 2, 5, true)).expect("click");
    assert!(none.is_none());
    assert_eq!(gui_state.active_menu, Some(3));
    handle_mouse(&mut app, &mut gui_state, at(title.x + 2, 5, false)).expect("release");
    let chosen = handle_mouse(
        &mut app,
        &mut gui_state,
        at(title.x + 30, dropdown_top() + 10, true),
    )
    .expect("choose")
    .expect("row");
    assert_eq!(chosen.0, 3);
    assert_eq!(chosen.1.label, "Zoom");
}

#[test]
fn a_thumb_stays_on_its_track() {
    assert_eq!(scroll_thumb(10, 100, 1000, 100, 0), (10, 32));
    assert_eq!(scroll_thumb(10, 100, 1000, 100, 900), (78, 32));
    assert_eq!(offset_for_thumb(10, 100, 32, 1000, 100, 78), 900);
    assert_eq!(offset_for_thumb(10, 100, 32, 1000, 100, 10), 0);
    assert_eq!(scroll_thumb(10, 100, 50, 100, 0), (10, 100));
}

// ---------------------------------------------------------------------------
// Typing
// ---------------------------------------------------------------------------

#[test]
fn text_input_decodes_surrogate_pair_emoji() {
    let mut input = TextInput::new();

    input.add_char(0xD83D);
    input.add_char(0xDE00);

    assert_eq!(*input.queued(), vec!['😀']);
}

#[test]
fn text_input_repairs_legacy_pua_emoji_code_unit() {
    let mut input = TextInput::new();

    input.add_char(0xF610);

    assert_eq!(*input.queued(), vec!['😐']);
}

#[test]
fn pending_text_input_suppresses_command_shortcuts() {
    assert!(should_handle_command_shortcuts(true, false, false));
    assert!(!should_handle_command_shortcuts(true, true, false));
    assert!(!should_handle_command_shortcuts(true, false, true));
    assert!(!should_handle_command_shortcuts(false, false, false));
    assert!(command_shortcuts_suppressed_for_text_input(true));
}

#[test]
fn input_queue_has_text_ignores_control_characters() {
    let mut queue = vec!['\u{1}', 'a'];
    assert!(input_queue_has_text(&queue));

    queue = vec!['\u{1}', '\n'];
    assert!(!input_queue_has_text(&queue));
}

#[test]
fn text_units_keep_emoji_zwj_sequence_together() {
    let text = "🙆‍♂️a";
    let units = text_units(text);

    assert_eq!(units.len(), 2);
    assert_eq!(&text[units[0].start..units[0].end], "🙆‍♂️");
    assert_eq!(units[0].kind, TextUnitKind::EmojiCluster);
    assert_eq!(&text[units[1].start..units[1].end], "a");
}

#[test]
fn typed_text_goes_into_the_document() {
    let mut app = new_app();
    let mut gui_state = new_gui();
    handle_text_input(&vec!['日', '\u{8}', 'x'], false, &mut app, &mut gui_state).expect("type");
    assert_eq!(app.document().text_lossy(), "日x");
    handle_text_input(&vec!['\u{19}'], true, &mut app, &mut gui_state).expect("type");
    assert_eq!(app.document().text_lossy(), "日x");
    gui_state.dialog = Some(DialogState::GoTo {
        line: "1".to_owned(),
        replace_on_input: true,
    });
    handle_text_input(&vec!['y'], false, &mut app, &mut gui_state).expect("type");
    assert_eq!(app.document().text_lossy(), "日x");
}

#[test]
fn keys_become_commands() {
    let app = new_app();
    let mut gui_state = new_gui();
    let keys = KeyInput {
        pressed: vec![Key::A],
        repeated: vec![Key::A],
        shift: false,
        command: true,
        composing: false,
    };
    assert_eq!(
        handle_keys(&vec![], &keys, &app, &mut gui_state),
        vec![Command::SelectAll]
    );
    let arrows = KeyInput {
        pressed: vec![Key::Left],
        repeated: vec![Key::Left],
        shift: true,
        command: false,
        composing: false,
    };
    assert_eq!(
        handle_keys(&vec![], &arrows, &app, &mut gui_state),
        vec![Command::MoveLeft { extend: true }]
    );
}

// ---------------------------------------------------------------------------
// Printing
// ---------------------------------------------------------------------------

#[test]
fn print_request_snapshots_clean_existing_file_contents() {
    let app = BlitzApp::open(
        file("print.txt"),
        read(b"print me"),
        EditorSettings::default(),
    )
    .expect("open");

    let request = print_request_for_app(&app);

    assert_eq!(request.title, "print.txt");
    assert_eq!(request.document.text_lossy(), "print me");
}

#[test]
fn print_request_snapshots_dirty_or_untitled_documents() {
    let mut app = new_app();
    app.insert_text("unsaved print").expect("insert");

    let request = print_request_for_app(&app);

    assert_eq!(request.title, "Untitled");
    assert_eq!(request.document.text_lossy(), "unsaved print");
}

#[test]
fn print_request_uses_lightweight_snapshot_for_large_documents() {
    let mut app = new_app();
    app.insert_text(&"x".repeat(PRINT_LINE_CHUNK_BYTES + 1))
        .expect("insert");

    let request = print_request_for_app(&app);

    assert_eq!(request.document.len(), PRINT_LINE_CHUNK_BYTES + 1);
    assert!(!request.document.can_undo());
}

#[test]
fn print_line_visitor_splits_crlf_lines_and_long_rows() {
    let mut app = new_app();
    app.insert_text("a\r\nb\n").expect("insert");
    app.insert_text(&"x".repeat(PRINT_LINE_CHUNK_BYTES + 1))
        .expect("long insert");

    let lines = print_lines(app.document());

    assert_eq!(lines[0], "a");
    assert_eq!(lines[1], "b");
    assert!(lines
        .iter()
        .any(|line| line.len() == PRINT_LINE_CHUNK_BYTES));
}

#[test]
fn print_line_visitor_keeps_utf8_scalars_intact_when_splitting_long_rows() {
    let mut app = new_app();
    app.insert_text(&"x".repeat(PRINT_LINE_CHUNK_BYTES - 1))
        .expect("insert prefix");
    app.insert_text("😀tail").expect("insert emoji");

    let lines = print_lines(app.document());

    assert!(lines.iter().any(|line| line.contains("😀tail")));
    assert!(lines.iter().all(|line| !line.contains('\u{fffd}')));
}

#[test]
fn an_empty_text_prints_one_empty_line() {
    let app = new_app();
    assert_eq!(print_lines(app.document()), vec![String::new()]);
    let mut ended = new_app();
    ended.insert_text("a\n\nb\n").expect("insert");
    assert_eq!(print_lines(ended.document()), vec!["a", "", "b"]);
}

#[test]
fn printed_files_have_plain_names() {
    assert_eq!(sanitized_print_file_name("notes-1.txt"), "notes-1.txt");
    assert_eq!(sanitized_print_file_name("a b/c"), "a_b_c");
    assert_eq!(sanitized_print_file_name("日本"), "Untitled");
    assert_eq!(sanitized_print_file_name(&"a".repeat(70)), "a".repeat(64));
}

#[test]
fn pages_are_turned_when_they_are_full() {
    let layout = page_layout(Printer {
        dots_x: 100,
        dots_y: 100,
        page_width: 850,
        page_height: 200,
        text_height: 40,
        text_leading: 0,
        knows_text: true,
    });
    assert_eq!((layout.left, layout.top), (50, 50));
    assert_eq!((layout.right, layout.bottom), (800, 150));
    assert_eq!(layout.font_height, -13);
    let lines = vec!["one".to_owned(), String::new(), "three".to_owned()];
    assert_eq!(
        print_pages(layout, &lines),
        vec![
            PrintStep::StartPage,
            PrintStep::Draw {
                line: 0,
                top: 50,
                bottom: 90
            },
            PrintStep::EndPage,
            PrintStep::StartPage,
            PrintStep::Draw {
                line: 2,
                top: 50,
                bottom: 90
            },
            PrintStep::EndPage,
        ]
    );
}

#[test]
fn the_end_of_printing_is_told() {
    let mut gui_state = new_gui();
    gui_state.printing = true;
    poll_print_job(&mut gui_state, PrintEnd::Submitted);
    assert_eq!(gui_state.status_text().as_deref(), Some("Printed"));
    poll_print_job(&mut gui_state, PrintEnd::Cancelled);
    assert_eq!(gui_state.status_text().as_deref(), Some("Print canceled"));
    poll_print_job(&mut gui_state, PrintEnd::Failed("no paper".to_owned()));
    assert_eq!(
        gui_state.dialog,
        Some(DialogState::Info {
            title: "Print".to_owned(),
            message: "Print failed: no paper".to_owned()
        })
    );
    poll_print_job(&mut gui_state, PrintEnd::Stopped);
    assert_eq!(
        gui_state.pending_info_dialog,
        Some(DialogState::Info {
            title: "Print".to_owned(),
            message: "Print failed: worker stopped".to_owned()
        })
    );
}

// ---------------------------------------------------------------------------
// Dialogs
// ---------------------------------------------------------------------------

#[test]
fn go_to_dialog_line_uses_current_caret_line() {
    let mut app = new_app();
    app.insert_text("one\ntwo\nthree").expect("insert");
    app.set_caret_offset("one\nt".len()).expect("caret");

    assert_eq!(go_to_dialog_line(&app).expect("line"), "2");
}

#[test]
fn go_to_dialog_replaces_initial_line_number_on_first_digit() {
    let mut dialog = DialogState::GoTo {
        line: "1".to_owned(),
        replace_on_input: true,
    };

    append_dialog_character(&mut dialog, '2');
    append_dialog_character(&mut dialog, '5');

    assert_eq!(
        dialog,
        DialogState::GoTo {
            line: "25".to_owned(),
            replace_on_input: false,
        }
    );
}

#[test]
fn go_to_button_action_moves_caret_and_closes_dialog() {
    let mut app = new_app();
    let mut gui_state = new_gui();
    app.insert_text("one\ntwo\nthree").expect("insert");
    let dialog = DialogState::GoTo {
        line: "2".to_owned(),
        replace_on_input: false,
    };

    let keep_open =
        activate_go_to_button(&mut app, &mut gui_state, &dialog).expect("go to action");

    assert!(!keep_open);
    assert_eq!(app.ui_state().expect("ui").caret_line, 2);
    assert!(gui_state.last_search.is_none());
    assert!(!gui_state.pending_reveal_selection);
}

#[test]
fn find_textbox_ascii_key_fallback_maps_printable_keys() {
    assert_eq!(ascii_find_char_for_key(Key::A, false), Some('a'));
    assert_eq!(ascii_find_char_for_key(Key::A, true), Some('A'));
    assert_eq!(ascii_find_char_for_key(Key::Key1, false), Some('1'));
    assert_eq!(ascii_find_char_for_key(Key::Key1, true), Some('!'));
    assert_eq!(ascii_find_char_for_key(Key::Space, false), Some(' '));
    assert_eq!(ascii_find_char_for_key(Key::Enter, false), None);
}

#[test]
fn find_textbox_ascii_fallback_is_disabled_while_ime_is_open() {
    assert!(should_use_find_ascii_fallback(true, false, false));
    assert!(!should_use_find_ascii_fallback(true, false, true));
    assert!(!should_use_find_ascii_fallback(true, true, false));
    assert!(!should_use_find_ascii_fallback(false, false, false));
}

#[test]
fn find_ime_position_tracks_query_caret() {
    let fonts = ruler();
    let field = find_field_rect();

    let empty_x = find_ime_caret_x(&fonts, "");
    let text_x = find_ime_caret_x(&fonts, "kakikukeko");
    let long_x = find_ime_caret_x(&fonts, &"x".repeat(512));

    assert_eq!(empty_x, field.x + 6);
    assert_eq!(find_ime_caret_y(), centered_text_y(field, TextRole::Find));
    assert!(find_ime_caret_y() < field.y + field.height);
    assert!(text_x > empty_x);
    assert!(long_x <= field.x + field.width - 4);
}

#[test]
fn editor_ime_position_tracks_editor_caret() {
    let mut app = new_app();
    app.insert_text("abcdef").expect("insert");
    app.set_caret_offset(3).expect("caret");
    let mut gui_state = new_gui();

    let (x, y) = editor_ime_caret_point(&app, &mut gui_state, 640, 400).expect("ime point");

    assert!(x > TEXT_MARGIN_X);
    assert_eq!(y, editor_ime_y(text_top() + TEXT_MARGIN_Y));
}

#[test]
fn editor_ime_position_uses_baseline_in_empty_editor() {
    let app = new_app();
    let mut gui_state = new_gui();

    let (x, y) = editor_ime_caret_point(&app, &mut gui_state, 640, 400).expect("ime point");

    assert_eq!(x, TEXT_MARGIN_X);
    assert_eq!(y, editor_ime_y(text_top() + TEXT_MARGIN_Y));
}

#[test]
fn editor_ime_position_tracks_wrapped_visual_row() {
    let mut app = new_app();
    app.toggle_word_wrap();
    app.insert_text(&"abcdef ".repeat(24)).expect("insert");
    let mut gui_state = new_gui();
    let state = app.ui_state().expect("ui state");
    let metrics = editor_metrics(&state, 220, 220).expect("metrics");
    let rows = editor_visible_lines(&app, 0, metrics, &mut gui_state);
    assert!(rows.len() > 1);
    app.set_caret_offset(rows[1].byte_range.start)
        .expect("caret");

    let (_x, y) = editor_ime_caret_point(&app, &mut gui_state, 220, 220).expect("ime point");

    assert_eq!(
        y,
        editor_ime_y(metrics.text_top + TEXT_MARGIN_Y + EDITOR_LINE_HEIGHT)
    );
}

#[test]
fn find_textbox_paste_appends_clipboard_text() {
    let mut query = "prefix ".to_owned();
    let mut clipboard_cache = String::new();

    append_find_query_paste(&mut query, &mut clipboard_cache, "日本語 search".to_owned());

    assert_eq!(query, "prefix 日本語 search");
    assert_eq!(clipboard_cache, "日本語 search");
}

#[test]
fn paste_menu_enablement_uses_clipboard_cache() {
    assert!(clipboard_has_text("cached text", None));
    assert!(clipboard_has_text("", Some("system".to_owned())));
    assert!(!clipboard_has_text("", Some(String::new())));
}

#[test]
fn info_window_is_deferred_while_child_dialog_is_open() {
    let info = DialogState::Info {
        title: "Print".to_owned(),
        message: "Print failed".to_owned(),
    };
    let replace = DialogState::Replace {
        query: "needle".to_owned(),
        replacement: "replacement".to_owned(),
        active_field: ReplaceField::Find,
        match_case: false,
    };

    assert!(should_defer_dialog_window(&info, true));
    assert!(!should_defer_dialog_window(&info, false));
    assert!(!should_defer_dialog_window(&replace, true));
}

#[test]
fn replace_dialog_can_replace_all() {
    let mut app = new_app();
    let mut gui_state = new_gui();
    app.insert_text("one one").expect("insert");
    let dialog = DialogState::Replace {
        query: "one".to_owned(),
        replacement: "two".to_owned(),
        active_field: ReplaceField::Find,
        match_case: true,
    };

    assert!(accept_dialog_state(&mut app, &mut gui_state, &dialog, true).expect("replace all"));
    assert_eq!(app.document().text_lossy(), "two two");
}

#[test]
fn line_numbers_are_read_from_digits() {
    assert_eq!(parse_line_number("42"), 42);
    assert_eq!(parse_line_number(""), 0);
    assert_eq!(parse_line_number("999999999999999999999999"), 0);
}

#[test]
fn typing_and_entering_drive_the_dialogs() {
    let mut app = new_app();
    let mut gui_state = new_gui();
    app.insert_text("one\ntwo\nthree").expect("insert");
    gui_state.dialog = Some(DialogState::GoTo {
        line: "1".to_owned(),
        replace_on_input: true,
    });
    let mut input = DialogInput {
        escape: false,
        paste: false,
        command: false,
        backspace: false,
        tab: false,
        space: false,
        enter: false,
        characters: vec!['3'],
        clipboard: None,
        mouse_down: false,
        mouse: None,
    };
    handle_dialog_window(&mut app, &mut gui_state, true, &input).expect("type");
    input.characters = vec![];
    input.enter = true;
    handle_dialog_window(&mut app, &mut gui_state, true, &input).expect("go to");
    assert!(gui_state.dialog.is_none());
    assert_eq!(app.ui_state().expect("ui").caret_line, 3);
}

#[test]
fn typing_and_entering_drive_the_find_window() {
    let mut app = new_app();
    let mut gui_state = new_gui();
    app.insert_text("one two one").expect("insert");
    app.set_caret_offset(0).expect("caret");
    assert_eq!(run(&mut app, &mut gui_state, Command::Find), Effect::Nothing);
    let mut input = FindInput {
        escape: false,
        enter: false,
        backspace: false,
        up: false,
        down: false,
        paste: false,
        command: false,
        shift: false,
        ime_open: false,
        characters: vec!['t', 'w', 'o'],
        keys: vec![],
        clipboard: None,
        mouse_down: false,
        mouse: None,
    };
    handle_find_window(&mut app, &mut gui_state, true, &input);
    input.characters = vec![];
    input.enter = true;
    handle_find_window(&mut app, &mut gui_state, true, &input);
    assert_eq!(app.selected_range(), Some(4..7));
    assert_eq!(
        gui_state.last_search.as_ref().map(|s| s.query.as_str()),
        Some("two")
    );
}

// ---------------------------------------------------------------------------
// Rows
// ---------------------------------------------------------------------------

#[test]
fn long_editor_text_prefix_is_clipped_to_available_width() {
    let fonts = ruler();
    let text = "日本語abcdef".repeat(128);
    let max_width = fonts.measure("日本語abc", TextRole::Editor);

    let prefix = fonts.text_prefix_for_width(&text, TextRole::Editor, max_width);

    assert!(prefix.len() < text.len());
    assert!(fonts.measure(&prefix, TextRole::Editor) <= max_width);
    assert!(text.is_char_boundary(prefix.len()));
    assert_eq!(prefix, "日本語abc");
}

#[test]
fn word_wrap_splits_long_editor_line_into_visible_rows() {
    let mut app = new_app();
    app.toggle_word_wrap();
    app.insert_text(&"abcdef ".repeat(24)).expect("insert");
    let mut gui_state = new_gui();
    let state = app.ui_state().expect("ui state");
    let metrics = editor_metrics(&state, 220, 220).expect("metrics");
    let rows = editor_visible_lines(&app, 0, metrics, &mut gui_state);

    assert!(rows.len() > 1);
    assert_eq!(rows[0].number, 1);
    assert_eq!(rows[1].number, 1);
    assert_eq!(rows[0].byte_range.end, rows[1].byte_range.start);
    assert!(gui_state.ruler.measure(&rows[0].text, TextRole::Editor) <= metrics.editor_text_width);
}

#[test]
fn word_wrap_keeps_multibyte_and_emoji_boundaries_intact() {
    let mut app = new_app();
    app.toggle_word_wrap();
    app.insert_text(&"日本語🙆‍♂️😀".repeat(12))
        .expect("insert multilingual text");
    let mut gui_state = new_gui();
    let state = app.ui_state().expect("ui state");
    let metrics = editor_metrics(&state, 240, 260).expect("metrics");
    let document_text = app.document().text_lossy();

    let rows = editor_visible_lines(&app, 0, metrics, &mut gui_state);

    assert!(rows.len() > 1);
    assert!(rows.iter().all(|row| !row.text.contains('\u{fffd}')));
    assert!(rows
        .iter()
        .all(|row| document_text.is_char_boundary(row.byte_range.start)));
    assert!(rows
        .iter()
        .all(|row| document_text.is_char_boundary(row.byte_range.end)));
}

#[test]
fn word_wrap_hit_testing_uses_wrapped_visual_row() {
    let mut app = new_app();
    app.toggle_word_wrap();
    app.insert_text(&"abcdef ".repeat(24)).expect("insert");
    let mut gui_state = new_gui();
    let state = app.ui_state().expect("ui state");
    let metrics = editor_metrics(&state, 220, 220).expect("metrics");
    let rows = editor_visible_lines(&app, 0, metrics, &mut gui_state);
    assert!(rows.len() > 1);

    let offset = text_offset_for_point(
        &app,
        &mut gui_state,
        220,
        220,
        TEXT_MARGIN_X,
        metrics.text_top + TEXT_MARGIN_Y + EDITOR_LINE_HEIGHT,
    )
    .expect("offset");

    assert!(rows[1].byte_range.contains(&offset) || offset == rows[1].byte_range.end);
}

#[test]
fn word_wrap_boundary_offsets_belong_to_following_visual_row() {
    let mut app = new_app();
    app.toggle_word_wrap();
    app.insert_text(&"abcdef ".repeat(24)).expect("insert");
    let mut gui_state = new_gui();
    let state = app.ui_state().expect("ui state");
    let metrics = editor_metrics(&state, 220, 220).expect("metrics");
    let rows = editor_visible_lines(&app, 0, metrics, &mut gui_state);
    assert!(rows.len() > 1);

    let boundary = rows[1].byte_range.start;
    let visual_row = gui_state
        .visual_row_for_offset(&app, metrics, boundary)
        .expect("row");

    assert_eq!(visual_row, 1);
}

#[test]
fn caret_visual_line_prefers_following_wrapped_row_at_boundary() {
    let rows = vec![
        VisibleLine {
            number: 1,
            byte_range: 0..10,
            text: "abcdefghij".to_owned(),
        },
        VisibleLine {
            number: 1,
            byte_range: 10..20,
            text: "klmnopqrst".to_owned(),
        },
    ];

    assert_eq!(visible_line_index_for_caret(&rows, 1, 10), Some(1));
    assert_eq!(visible_line_index_for_caret(&rows, 1, 20), Some(1));
}

#[test]
fn word_wrap_vertical_scroll_moves_within_one_long_physical_line() {
    let mut app = new_app();
    app.toggle_word_wrap();
    app.insert_text(&"abcdef ".repeat(96)).expect("insert");
    let mut gui_state = new_gui();
    let state = app.ui_state().expect("ui state");
    let metrics = editor_metrics(&state, 220, 180).expect("metrics");

    let total_rows = gui_state.vertical_content_len(&app, metrics);
    let before = editor_visible_lines(&app, 0, metrics, &mut gui_state);
    gui_state.scroll_vertical(&app, metrics.visible_line_count as isize, metrics);
    let first = gui_state.first_visible_line;
    let after = editor_visible_lines(&app, first, metrics, &mut gui_state);

    assert_eq!(app.document().line_count(), 1);
    assert!(total_rows > metrics.visible_line_count);
    assert!(gui_state.first_visible_line > 0);
    assert_eq!(after[0].number, 1);
    assert!(after[0].byte_range.start > before[0].byte_range.start);
}

#[test]
fn word_wrap_vertical_scroll_reaches_beyond_first_long_line_chunk() {
    let mut app = new_app();
    app.toggle_word_wrap();
    app.insert_text(&"abcdef ".repeat(8_000)).expect("insert");
    let mut gui_state = new_gui();
    let state = app.ui_state().expect("ui state");
    let metrics = editor_metrics(&state, 220, 180).expect("metrics");
    let total_rows = gui_state.vertical_content_len(&app, metrics);

    gui_state.scroll_vertical(&app, total_rows as isize, metrics);
    let first = gui_state.first_visible_line;
    let rows = editor_visible_lines(&app, first, metrics, &mut gui_state);

    assert_eq!(app.document().line_count(), 1);
    assert!(total_rows > metrics.visible_line_count);
    assert!(rows[0].byte_range.start > 16 * 1024);
    assert_eq!(rows[0].number, 1);
}

#[test]
fn reset_scroll_clears_wrapped_row_cache_for_new_one_line_document() {
    let mut app = new_app();
    app.toggle_word_wrap();
    app.insert_text("short").expect("insert short");
    let mut gui_state = new_gui();
    let state = app.ui_state().expect("ui state");
    let metrics = editor_metrics(&state, 220, 180).expect("metrics");
    assert_eq!(gui_state.vertical_content_len(&app, metrics), 1);

    app.new_document();
    app.insert_text(&"abcdef ".repeat(96)).expect("insert long");
    gui_state.reset_scroll(&app);
    let state = app.ui_state().expect("ui state");
    let metrics = editor_metrics(&state, 220, 180).expect("metrics");

    assert!(gui_state.vertical_content_len(&app, metrics) > metrics.visible_line_count);
}

// ---------------------------------------------------------------------------
// Commands
// ---------------------------------------------------------------------------

#[test]
fn menu_commands_mutate_editor_state() {
    let mut app = new_app();
    let mut gui_state = new_gui();

    app.insert_text("alpha").expect("insert");
    execute_menu_row(
        &mut app,
        &mut gui_state,
        0,
        MenuRow {
            label: "New",
            shortcut: Some("Ctrl+N"),
            enabled: true,
            checked: false,
            separator_before: false,
            indent: 0,
            has_children: false,
        },
    );
    assert_eq!(app.document().text_lossy(), "");

    execute_menu_row(
        &mut app,
        &mut gui_state,
        3,
        MenuRow {
            label: "Status Bar",
            shortcut: None,
            enabled: true,
            checked: true,
            separator_before: false,
            indent: 0,
            has_children: false,
        },
    );
    assert!(!app.ui_state().expect("ui").status_bar_visible);

    execute_menu_row(
        &mut app,
        &mut gui_state,
        2,
        MenuRow {
            label: "Word Wrap",
            shortcut: None,
            enabled: true,
            checked: false,
            separator_before: false,
            indent: 0,
            has_children: false,
        },
    );
    assert!(app.ui_state().expect("ui").word_wrap);
}

#[test]
fn find_next_uses_persisted_search() {
    let mut app = new_app();
    let mut gui_state = new_gui();
    app.insert_text("one two one").expect("insert");
    gui_state.last_search = Some(SearchSpec {
        query: "one".to_owned(),
        match_case: true,
        wrap_around: true,
    });

    find_again(&mut app, &mut gui_state, true).expect("find");
    assert_eq!(app.selected_range(), Some(0..3));
    find_again(&mut app, &mut gui_state, true).expect("find");
    assert_eq!(app.selected_range(), Some(8..11));
}

#[test]
fn find_next_reveals_match_horizontally() {
    let mut app = new_app();
    let mut gui_state = new_gui();
    let prefix = "a".repeat(200);
    app.insert_text(&format!("{prefix}needle")).expect("insert");
    gui_state.last_search = Some(SearchSpec {
        query: "needle".to_owned(),
        match_case: true,
        wrap_around: true,
    });

    find_again(&mut app, &mut gui_state, true).expect("find");
    gui_state
        .follow_caret_if_moved(&mut app, 640, 400)
        .expect("reveal");

    let selection = app.selected_range().expect("selection");
    let metrics = editor_metrics(&app.ui_state().expect("ui"), 640, 400).expect("metrics");
    let content_range = app
        .document()
        .line_content_range_for_offset(selection.start)
        .expect("line range");
    let visible_bytes = visible_byte_capacity(&gui_state.ruler, metrics.editor_text_width);
    let relative_start = selection.start - content_range.start;
    let relative_end = selection.end - content_range.start;

    assert!(gui_state.horizontal_offset > 0);
    assert_eq!(
        gui_state.horizontal_offset,
        centered_offset_for_range(relative_start, relative_end, visible_bytes)
    );
    assert!(gui_state.horizontal_offset <= relative_start);
    assert!(relative_end <= gui_state.horizontal_offset + visible_bytes);
}

#[test]
fn find_previous_reveals_match_when_caret_offset_does_not_change() {
    let mut app = new_app();
    let mut gui_state = new_gui();
    let prefix = "a".repeat(200);
    let text = format!("{prefix}needle");
    app.insert_text(&text).expect("insert");
    app.set_caret_offset(text.len()).expect("caret");
    gui_state.last_caret_offset = app.caret_offset();
    gui_state.last_search = Some(SearchSpec {
        query: "needle".to_owned(),
        match_case: true,
        wrap_around: false,
    });

    find_again(&mut app, &mut gui_state, false).expect("find previous");
    assert_eq!(app.caret_offset(), text.len());
    assert!(gui_state.pending_reveal_selection);

    gui_state
        .follow_caret_if_moved(&mut app, 640, 400)
        .expect("reveal");

    assert!(!gui_state.pending_reveal_selection);
    assert!(gui_state.horizontal_offset > 0);
}

#[test]
fn searching_the_web_encodes_the_selection() {
    let mut app = new_app();
    let mut gui_state = new_gui();
    app.insert_text("a b&c/é").expect("insert");
    app.select_all();
    assert_eq!(
        run(&mut app, &mut gui_state, Command::SearchWithBing),
        Effect::Browse("https://www.bing.com/search?q=a%20b%26c%2F%C3%A9".to_owned())
    );
    let mut empty = new_app();
    assert_eq!(
        run(&mut empty, &mut gui_state, Command::SearchWithBing),
        Effect::Nothing
    );
    assert_eq!(
        gui_state.status_text().as_deref(),
        Some("Select text before searching")
    );
}

#[test]
fn the_time_is_inserted_as_text() {
    let mut app = new_app();
    let mut gui_state = new_gui();
    run(&mut app, &mut gui_state, Command::TimeDate);
    assert_eq!(app.document().text_lossy(), "09:05 05/28/2026");
}

#[test]
fn commands_without_a_meaning_say_so() {
    let mut app = new_app();
    let mut gui_state = new_gui();
    let command = menu_row_command(0, &row("Page Setup...")).expect("command");
    assert_eq!(run(&mut app, &mut gui_state, command), Effect::Nothing);
    assert_eq!(
        gui_state.status_text().as_deref(),
        Some("Page Setup... is not available yet")
    );
}

#[test]
fn unsaved_changes_are_asked_about() {
    let mut app = new_app();
    let mut gui_state = new_gui();
    app.insert_text("x").expect("insert");
    assert_eq!(
        run(&mut app, &mut gui_state, Command::Exit),
        Effect::Ask(Step::Exit)
    );
    assert_eq!(
        unsaved_changes_question(&app),
        "Do you want to save changes to Untitled?"
    );
    assert_eq!(
        answer_unsaved_changes(&mut app, &mut gui_state, Step::Exit, Answer::Cancel),
        Answered::Stay
    );
    assert_eq!(
        answer_unsaved_changes(&mut app, &mut gui_state, Step::Exit, Answer::Yes),
        Answered::PickFileFirst
    );
    assert_eq!(
        proceed_if_saved(&mut app, &mut gui_state, Step::Exit),
        Effect::Nothing
    );
    finish_save_as(&mut app, &mut gui_state, file("x.txt"), 1, "/tmp/x.txt");
    assert_eq!(
        gui_state.status_text().as_deref(),
        Some("Saved /tmp/x.txt")
    );
    assert_eq!(
        proceed_if_saved(&mut app, &mut gui_state, Step::Exit),
        Effect::Quit
    );
    app.insert_text("y").expect("insert");
    assert_eq!(
        answer_unsaved_changes(&mut app, &mut gui_state, Step::Open, Answer::Yes),
        Answered::SaveFirst
    );
    let target = app.save().expect("target");
    finish_save(&mut app, &mut gui_state, target.generation, 2);
    assert!(!app.document().is_dirty());
    assert_eq!(
        answer_unsaved_changes(&mut app, &mut gui_state, Step::Open, Answer::No),
        Answered::Go(Effect::PickFile)
    );
}

#[test]
fn a_save_in_the_background_ends() {
    let mut app = new_app();
    let mut gui_state = new_gui();
    app.insert_text("x").expect("insert");
    finish_save_as(&mut app, &mut gui_state, file("x.txt"), 1, "x.txt");
    app.insert_text("y").expect("insert");
    assert_eq!(run(&mut app, &mut gui_state, Command::Save), Effect::Save);
    assert_eq!(gui_state.status_text().as_deref(), Some("Saving..."));
    let generation = app.document().change_generation();
    app.insert_text("z").expect("insert");
    poll_save_job(
        &mut app,
        &mut gui_state,
        SaveEnd::Written { generation, len: 2 },
    );
    assert_eq!(
        gui_state.status_text().as_deref(),
        Some("Saved snapshot; newer edits remain")
    );
    assert!(app.document().is_dirty());
    let generation = app.document().change_generation();
    poll_save_job(
        &mut app,
        &mut gui_state,
        SaveEnd::Written { generation, len: 3 },
    );
    assert!(!app.document().is_dirty());
    assert_eq!(gui_state.status_text().as_deref(), Some("Saved"));
    poll_save_job(
        &mut app,
        &mut gui_state,
        SaveEnd::Failed("disk full".to_owned()),
    );
    assert_eq!(
        gui_state.dialog,
        Some(DialogState::Info {
            title: "Save".to_owned(),
            message: "Save failed: disk full".to_owned()
        })
    );
    poll_save_job(&mut app, &mut gui_state, SaveEnd::Stopped);
    assert_eq!(
        gui_state.pending_info_dialog,
        Some(DialogState::Info {
            title: "Save".to_owned(),
            message: "Save failed: worker stopped".to_owned()
        })
    );
}

#[test]
fn an_opened_file_is_named() {
    let mut app = new_app();
    let mut gui_state = new_gui();
    gui_state.first_visible_line = 4;
    finish_open(
        &mut app,
        &mut gui_state,
        file("a.txt"),
        read(b"text"),
        "/tmp/a.txt",
    )
    .expect("open");
    assert_eq!(app.document().text_lossy(), "text");
    assert_eq!(gui_state.first_visible_line, 0);
    assert_eq!(
        gui_state.status_text().as_deref(),
        Some("Opened /tmp/a.txt")
    );
    let broken = finish_open(
        &mut app,
        &mut gui_state,
        file("b.txt"),
        read(&[0xFF, 0xFE, 0x00]),
        "/tmp/b.txt",
    );
    assert!(matches!(broken, Err(BlitzError::Encoding(_))));
    assert_eq!(app.document().text_lossy(), "text");
}

#[test]
fn what_was_tried_outside_is_told() {
    let mut gui_state = new_gui();
    report_new_window(&mut gui_state, None);
    assert_eq!(
        gui_state.status_text().as_deref(),
        Some("Opened new window")
    );
    report_new_window(&mut gui_state, Some("gone".to_owned()));
    assert_eq!(
        gui_state.status_text().as_deref(),
        Some("New Window failed: gone")
    );
    report_browser(&mut gui_state, None);
    assert_eq!(gui_state.status_text().as_deref(), Some("Opened browser"));
    report_browser(&mut gui_state, Some("gone".to_owned()));
    assert_eq!(
        gui_state.status_text().as_deref(),
        Some("Browser open failed: gone")
    );
}

#[test]
fn composing_belongs_to_the_editor_alone() {
    let mut gui_state = new_gui();
    update_editor_ime_state(&mut gui_state, Some("に".to_owned()));
    assert_eq!(gui_state.editor_ime_composition, "に");
    gui_state.dialog = Some(DialogState::GoTo {
        line: "1".to_owned(),
        replace_on_input: true,
    });
    update_editor_ime_state(&mut gui_state, Some("に".to_owned()));
    assert_eq!(gui_state.editor_ime_composition, "");
}

#[test]
fn a_smoke_test_ends_after_its_frames() {
    let mut remaining = GuiOptions::smoke_test(2).smoke_frames;
    assert!(!count_frame(&mut remaining));
    assert!(count_frame(&mut remaining));
    assert_eq!(GuiOptions::smoke_test(0).smoke_frames, Some(1));
    let mut unlimited = GuiOptions::interactive().smoke_frames;
    assert!(!count_frame(&mut unlimited));
}

// ---------------------------------------------------------------------------
// Glyphs
// ---------------------------------------------------------------------------

fn glyph(glyph_id: u16, color: u16, image: bool, outline: bool) -> FontGlyph {
    FontGlyph {
        glyph_id,
        color_glyph_id: color,
        has_color_image: image,
        has_outline: outline,
    }
}

#[test]
fn the_first_font_that_can_draw_a_character_is_taken() {
    let fonts = vec![
        glyph(0, 0, false, false),
        glyph(3, 0, false, false),
        glyph(4, 5, true, false),
        glyph(6, 0, false, true),
    ];
    assert_eq!(font_index_for('a', &fonts), (3, 6, 0));
    assert_eq!(font_index_for('😀', &fonts), (2, 4, 5));
    assert_eq!(font_index_for(' ', &fonts), (1, 3, 0));
    assert_eq!(font_index_for('a', &vec![glyph(0, 0, false, false)]).0, 0);
}

#[test]
fn a_joined_emoji_needs_one_glyph() {
    let shapes = vec![
        None,
        Some(ClusterShape {
            glyphs: 2,
            has_color: true,
        }),
        Some(ClusterShape {
            glyphs: 1,
            has_color: true,
        }),
    ];
    assert_eq!(shape_emoji_cluster("😀", &shapes), Some(1));
    assert_eq!(shape_emoji_cluster("🙆‍♂️", &shapes), Some(2));
    assert_eq!(
        shape_emoji_cluster(
            "😀",
            &vec![Some(ClusterShape {
                glyphs: 1,
                has_color: false
            })]
        ),
        None
    );
}

#[test]
fn glyphs_are_placed_one_after_the_other() {
    let placed = place_text(&ruler(), "a\tb😀", TextRole::Editor, None);
    assert_eq!(
        placed,
        vec![
            Placed::Glyph {
                character: 'a',
                x: 0
            },
            Placed::Glyph {
                character: 'b',
                x: 45 * 64
            },
            Placed::Cluster {
                start: 3,
                end: 4,
                x: 54 * 64
            },
        ]
    );
    let clipped = place_text(&ruler(), "abc", TextRole::Editor, Some(20));
    assert_eq!(clipped.len(), 2);
}

#[test]
fn fonts_are_named_once() {
    let names = vec!["Segoe UI".to_owned(), "Aptos".to_owned(), "Arial".to_owned()];
    assert!(has_font(&names, "Aptos"));
    assert!(!has_font(&names, "Symbola"));
    assert_eq!(description(&names), "Segoe UI / Aptos");
    assert_eq!(font_families()[0], "Aptos");
    assert_eq!(font_families()[3], "Yu Gothic UI");
    assert_eq!(font_families()[6], "Segoe UI");
    assert_eq!(font_families().len(), 22);
}

#[test]
fn preferred_fonts_come_before_those_of_the_system() {
    let usable = ["Segoe UI", "Yu Gothic UI", "Aptos", "Comic"].map(str::to_owned).to_vec();
    assert_eq!(
        font_stack(&usable, Some("Comic".to_owned())).unwrap(),
        ["Aptos", "Yu Gothic UI", "Segoe UI"]
    );
    assert_eq!(
        font_stack(&vec![], Some("Comic".to_owned())).unwrap(),
        ["Comic"]
    );
    assert_eq!(
        font_stack(&vec![], None).unwrap_err().message(),
        "window error: no usable system font found"
    );
}

#[test]
fn a_picture_becomes_a_png_file() {
    let frame = RenderFrame {
        width: 2,
        height: 1,
        pixels: vec![0x00ff_0000, 0x0000_00ff],
    };
    let file = png_bytes(&frame).unwrap();
    assert_eq!(&file[..8], &[137, 80, 78, 71, 13, 10, 26, 10]);
    // The header holds width, height, eight bits and the three colours.
    assert_eq!(&file[12..16], b"IHDR");
    assert_eq!(&file[16..26], &[0, 0, 0, 2, 0, 0, 0, 1, 8, 2]);

    let decoder = png::Decoder::new(std::io::Cursor::new(file));
    let mut reader = decoder.read_info().unwrap();
    let mut pixels = vec![0; reader.output_buffer_size().unwrap()];
    reader.next_frame(&mut pixels).unwrap();
    assert_eq!(pixels, vec![255, 0, 0, 0, 0, 255]);
}

#[test]
fn a_picture_without_size_is_no_png_file() {
    let flat = RenderFrame {
        width: 0,
        height: 1,
        pixels: vec![],
    };
    assert_eq!(
        png_bytes(&flat).unwrap_err().message(),
        "window error: Zero width not allowed"
    );
    let thin = RenderFrame {
        width: 1,
        height: 0,
        pixels: vec![],
    };
    assert_eq!(
        png_bytes(&thin).unwrap_err().message(),
        "window error: Zero height not allowed"
    );
    let short = RenderFrame {
        width: 2,
        height: 2,
        pixels: vec![0, 0, 0],
    };
    assert_eq!(
        png_bytes(&short).unwrap_err().message(),
        "window error: wrong data size, expected 12 got 9"
    );
}

#[test]
fn a_failed_png_file_is_a_window_error() {
    assert_eq!(accept_png(Ok(vec![1, 2])).unwrap(), vec![1, 2]);
    assert!(matches!(
        accept_png(Err("broken".to_owned())),
        Err(BlitzError::Window(text)) if text == "broken"
    ));
}
