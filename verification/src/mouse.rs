//! What the mouse does in the editor's window.

use crate::app::{caret_set, range_selected, AppModel, BlitzApp};
use crate::error::{fails_as, ErrorModel, Result};
use crate::gui::{
    horizontally_clamped, layout_of, scrolled_to, GuiModel, GuiState, MIN_HEIGHT, MIN_WIDTH,
};
use crate::menu::{
    app_rows, heading_at, menu_row_hit, menu_title_hit, row_hit, row_model, MenuRow, RowModel,
    MENU_COUNT,
};
use crate::pointer::{
    handle_scrollbar_click, offset_at_point, on_text, scroll_dragged, scrollbar_clicked,
    text_offset_for_point, update_scroll_drag, viewed,
};
use crate::scroll::{editor_metrics_from_flags, greater, greater_of, moved, MENU_HEIGHT};
use vstd::prelude::*;

verus! {

/// The mouse in one frame: whether its button is down, where it is in the
/// window, the size of the window, and whether shift is down.
#[derive(Clone, Copy, Debug, PartialEq, Eq)]
pub struct MouseInput {
    pub down: bool,
    pub position: Option<(usize, usize)>,
    pub width: usize,
    pub height: usize,
    pub shift: bool,
}

/// What a frame with the mouse leads to: the state of the window, the editor,
/// the row of a menu that was chosen, and the error.
pub struct MouseOutcome {
    pub gui: GuiModel,
    pub app: AppModel,
    pub chosen: Option<(usize, RowModel)>,
    pub error: Option<ErrorModel>,
}

/// The state holds no menu that is not there.
pub open spec fn menu_valid(g: GuiModel) -> bool {
    g.active_menu matches Some(i) ==> i < MENU_COUNT
}

/// The state and the editor after the mouse has moved with its button down in
/// the text.
pub open spec fn selection_dragged(
    g: GuiModel,
    a: AppModel,
    width: int,
    height: int,
    x: int,
    y: int,
) -> (GuiModel, AppModel, Option<ErrorModel>) {
    let seen = if on_text(a, width, height, x, y) {
        viewed(g, a, width, height)
    } else {
        g
    };
    match g.selection_anchor {
        None => (g, a, None),
        Some(anchor) => match offset_at_point(g, a, width, height, x, y) {
            None => (seen, a, None),
            Some(focus) => if g.selection_focus == Some(focus as usize) {
                (seen, a, None)
            } else {
                let outcome = range_selected(a, anchor as int, focus);
                (
                    GuiModel { selection_focus: Some(focus as usize), ..seen },
                    outcome.0,
                    outcome.1,
                )
            },
        },
    }
}

pub fn update_mouse_selection(
    app: &mut BlitzApp,
    gui_state: &mut GuiState,
    width: usize,
    height: usize,
    x: usize,
    y: usize,
) -> (result: Result<()>)
    requires
        old(app).wf(),
    ensures
        final(app).wf(),
        final(app).doc() == old(app).doc(),
        final(gui_state)@.active_menu == old(gui_state)@.active_menu,
        ({
            let outcome = selection_dragged(
                old(gui_state)@,
                old(app)@,
                width as int,
                height as int,
                x as int,
                y as int,
            );
            &&& final(gui_state)@ == outcome.0
            &&& final(app)@ == outcome.1
            &&& fails_as(result, outcome.2)
        }),
{
    let anchor: usize = match gui_state.selection_anchor {
        Some(anchor) => anchor,
        None => {
            return Ok(());
        },
    };
    let focus: usize = match text_offset_for_point(app, gui_state, width, height, x, y) {
        Some(focus) => focus,
        None => {
            return Ok(());
        },
    };
    if let Some(known) = gui_state.selection_focus {
        if known == focus {
            return Ok(());
        }
    }
    gui_state.selection_focus = Some(focus);
    app.set_selection_range(anchor, focus)
}

/// The state and the editor after a click into the text.
pub open spec fn text_clicked(
    g: GuiModel,
    a: AppModel,
    width: int,
    height: int,
    x: int,
    y: int,
    shift: bool,
) -> (GuiModel, AppModel, Option<ErrorModel>) {
    let seen = if on_text(a, width, height, x, y) {
        viewed(g, a, width, height)
    } else {
        g
    };
    match offset_at_point(g, a, width, height, x, y) {
        None => (seen, a, None),
        Some(offset) => {
            let anchor = if !shift {
                offset
            } else {
                match g.selection_anchor {
                    Some(anchor) => anchor as int,
                    None => a.caret,
                }
            };
            let outcome = if shift {
                range_selected(a, anchor, offset)
            } else {
                caret_set(a, offset)
            };
            if outcome.1 is Some {
                (seen, outcome.0, outcome.1)
            } else {
                (
                    GuiModel {
                        selection_anchor: Some(anchor as usize),
                        selection_focus: Some(offset as usize),
                        mouse_selecting: true,
                        ..seen
                    },
                    outcome.0,
                    None,
                )
            }
        },
    }
}

fn click_text(
    app: &mut BlitzApp,
    gui_state: &mut GuiState,
    width: usize,
    height: usize,
    x: usize,
    y: usize,
    shift: bool,
) -> (result: Result<()>)
    requires
        old(app).wf(),
    ensures
        final(app).wf(),
        final(app).doc() == old(app).doc(),
        ({
            let outcome = text_clicked(
                old(gui_state)@,
                old(app)@,
                width as int,
                height as int,
                x as int,
                y as int,
                shift,
            );
            &&& final(gui_state)@ == outcome.0
            &&& final(app)@ == outcome.1
            &&& fails_as(result, outcome.2)
        }),
{
    let offset: usize = match text_offset_for_point(app, gui_state, width, height, x, y) {
        Some(offset) => offset,
        None => {
            return Ok(());
        },
    };
    let anchor: usize = if shift {
        match gui_state.selection_anchor {
            Some(anchor) => anchor,
            None => app.caret_offset(),
        }
    } else {
        offset
    };
    if shift {
        app.set_selection_range(anchor, offset)?;
    } else {
        app.set_caret_offset(offset)?;
    }
    gui_state.selection_anchor = Some(anchor);
    gui_state.selection_focus = Some(offset);
    gui_state.mouse_selecting = true;
    Ok(())
}

/// The state and the editor after a click below the menu bar, with no menu open.
pub open spec fn body_clicked(
    g: GuiModel,
    a: AppModel,
    width: int,
    height: int,
    x: int,
    y: int,
    shift: bool,
) -> (GuiModel, AppModel, Option<ErrorModel>) {
    let bar = scrollbar_clicked(g, a, width, height, x, y);
    if bar.1 {
        (bar.0, a, None)
    } else {
        text_clicked(g, a, width, height, x, y, shift)
    }
}

/// What a click leads to.
pub open spec fn clicked(
    g: GuiModel,
    a: AppModel,
    width: int,
    height: int,
    x: int,
    y: int,
    shift: bool,
) -> MouseOutcome {
    let title = if y < MENU_HEIGHT {
        heading_at(g.ruler, x, 0)
    } else {
        None
    };
    let closed = GuiModel { active_menu: None, ..g };
    match title {
        Some(i) => MouseOutcome {
            gui: GuiModel {
                active_menu: if g.active_menu == Some(i as usize) {
                    None
                } else {
                    Some(i as usize)
                },
                ..g
            },
            app: a,
            chosen: None,
            error: None,
        },
        None => {
            let row = match g.active_menu {
                Some(menu) => row_hit(g.ruler, app_rows(a, menu as int), menu as int, x, y),
                None => None,
            };
            match row {
                Some(i) => MouseOutcome {
                    gui: closed,
                    app: a,
                    chosen: Some(
                        (g.active_menu->0, app_rows(a, g.active_menu->0 as int)[i]),
                    ),
                    error: None,
                },
                None => {
                    let outcome = body_clicked(closed, a, width, height, x, y, shift);
                    MouseOutcome {
                        gui: outcome.0,
                        app: outcome.1,
                        chosen: None,
                        error: outcome.2,
                    }
                },
            }
        },
    }
}

/// What the button leads to while it is down: a drag goes on, and only a fresh
/// press is a click.
pub open spec fn pressed(
    g: GuiModel,
    a: AppModel,
    width: int,
    height: int,
    x: int,
    y: int,
    shift: bool,
    fresh: bool,
) -> MouseOutcome {
    if g.scroll_drag is Some {
        MouseOutcome {
            gui: scroll_dragged(g, a, width, height, x, y),
            app: a,
            chosen: None,
            error: None,
        }
    } else if g.mouse_selecting {
        let outcome = selection_dragged(g, a, width, height, x, y);
        MouseOutcome { gui: outcome.0, app: outcome.1, chosen: None, error: outcome.2 }
    } else if !fresh || g.dialog is Some {
        MouseOutcome { gui: g, app: a, chosen: None, error: None }
    } else {
        clicked(g, a, width, height, x, y, shift)
    }
}

/// What a frame with the mouse leads to.
pub open spec fn moused(g: GuiModel, a: AppModel, input: MouseInput) -> MouseOutcome {
    let width = greater(input.width as int, MIN_WIDTH as int);
    let height = greater(input.height as int, MIN_HEIGHT as int);
    let now = GuiModel { mouse_was_down: input.down, ..g };
    if !input.down {
        MouseOutcome {
            gui: GuiModel {
                scroll_drag: None,
                mouse_selecting: false,
                selection_anchor: if a.selection is None {
                    None
                } else {
                    g.selection_anchor
                },
                selection_focus: if a.selection is None {
                    None
                } else {
                    g.selection_focus
                },
                ..now
            },
            app: a,
            chosen: None,
            error: None,
        }
    } else {
        match input.position {
            None => MouseOutcome { gui: now, app: a, chosen: None, error: None },
            Some((x, y)) => pressed(
                now,
                a,
                width,
                height,
                x as int,
                y as int,
                input.shift,
                !g.mouse_was_down,
            ),
        }
    }
}

fn click_body(
    app: &mut BlitzApp,
    gui_state: &mut GuiState,
    width: usize,
    height: usize,
    x: usize,
    y: usize,
    shift: bool,
) -> (result: Result<()>)
    requires
        old(app).wf(),
    ensures
        final(app).wf(),
        final(app).doc() == old(app).doc(),
        final(gui_state)@.active_menu == old(gui_state)@.active_menu,
        ({
            let outcome = body_clicked(
                old(gui_state)@,
                old(app)@,
                width as int,
                height as int,
                x as int,
                y as int,
                shift,
            );
            &&& final(gui_state)@ == outcome.0
            &&& final(app)@ == outcome.1
            &&& fails_as(result, outcome.2)
        }),
{
    if handle_scrollbar_click(app, gui_state, width, height, x, y) {
        return Ok(());
    }
    click_text(app, gui_state, width, height, x, y, shift)
}

fn click(
    app: &mut BlitzApp,
    gui_state: &mut GuiState,
    width: usize,
    height: usize,
    x: usize,
    y: usize,
    shift: bool,
) -> (chosen: Result<Option<(usize, MenuRow)>>)
    requires
        old(app).wf(),
        menu_valid(old(gui_state)@),
    ensures
        final(app).wf(),
        final(app).doc() == old(app).doc(),
        menu_valid(final(gui_state)@),
        ({
            let outcome = clicked(
                old(gui_state)@,
                old(app)@,
                width as int,
                height as int,
                x as int,
                y as int,
                shift,
            );
            &&& final(gui_state)@ == outcome.gui
            &&& final(app)@ == outcome.app
            &&& fails_as(chosen, outcome.error)
            &&& chosen matches Ok(row) ==> chosen_model(row) == outcome.chosen
        }),
{
    if let Some(menu_index) = menu_title_hit(&gui_state.ruler, x, y) {
        let open = match gui_state.active_menu {
            Some(active) => active == menu_index,
            None => false,
        };
        gui_state.active_menu = if open {
            None
        } else {
            Some(menu_index)
        };
        return Ok(None);
    }
    if let Some(menu_index) = gui_state.active_menu {
        let hit = menu_row_hit(app, &gui_state.ruler, menu_index, x, y);
        gui_state.active_menu = None;
        if let Some(row) = hit {
            return Ok(Some((menu_index, row)));
        }
    }
    click_body(app, gui_state, width, height, x, y, shift)?;
    Ok(None)
}

pub open spec fn chosen_model(chosen: Option<(usize, MenuRow)>) -> Option<(usize, RowModel)> {
    match chosen {
        Some((menu, row)) => Some((menu, row_model(row))),
        None => None,
    }
}

fn press(
    app: &mut BlitzApp,
    gui_state: &mut GuiState,
    width: usize,
    height: usize,
    x: usize,
    y: usize,
    shift: bool,
    fresh: bool,
) -> (chosen: Result<Option<(usize, MenuRow)>>)
    requires
        old(app).wf(),
        menu_valid(old(gui_state)@),
    ensures
        final(app).wf(),
        final(app).doc() == old(app).doc(),
        menu_valid(final(gui_state)@),
        ({
            let outcome = pressed(
                old(gui_state)@,
                old(app)@,
                width as int,
                height as int,
                x as int,
                y as int,
                shift,
                fresh,
            );
            &&& final(gui_state)@ == outcome.gui
            &&& final(app)@ == outcome.app
            &&& fails_as(chosen, outcome.error)
            &&& chosen matches Ok(row) ==> chosen_model(row) == outcome.chosen
        }),
{
    if gui_state.scroll_drag.is_some() {
        update_scroll_drag(app, gui_state, width, height, x, y);
        return Ok(None);
    }
    if gui_state.mouse_selecting {
        update_mouse_selection(app, gui_state, width, height, x, y)?;
        return Ok(None);
    }
    if !fresh || gui_state.dialog.is_some() {
        return Ok(None);
    }
    click(app, gui_state, width, height, x, y, shift)
}

/// Takes in one frame with the mouse. The answer is the row of a menu that was
/// chosen.
pub fn handle_mouse(app: &mut BlitzApp, gui_state: &mut GuiState, input: MouseInput) -> (chosen: Result<
    Option<(usize, MenuRow)>,
>)
    requires
        old(app).wf(),
        menu_valid(old(gui_state)@),
    ensures
        final(app).wf(),
        final(app).doc() == old(app).doc(),
        menu_valid(final(gui_state)@),
        ({
            let outcome = moused(old(gui_state)@, old(app)@, input);
            &&& final(gui_state)@ == outcome.gui
            &&& final(app)@ == outcome.app
            &&& fails_as(chosen, outcome.error)
            &&& chosen matches Ok(row) ==> chosen_model(row) == outcome.chosen
        }),
{
    let fresh = !gui_state.mouse_was_down;
    gui_state.mouse_was_down = input.down;
    if !input.down {
        gui_state.scroll_drag = None;
        gui_state.mouse_selecting = false;
        if app.selected_range().is_none() {
            gui_state.selection_anchor = None;
            gui_state.selection_focus = None;
        }
        return Ok(None);
    }
    let (x, y) = match input.position {
        Some(position) => position,
        None => {
            return Ok(None);
        },
    };
    let width: usize = greater_of(input.width, MIN_WIDTH);
    let height: usize = greater_of(input.height, MIN_HEIGHT);
    press(app, gui_state, width, height, x, y, input.shift, fresh)
}

// ---------------------------------------------------------------------------
// The wheel
// ---------------------------------------------------------------------------

/// How many lines a step of the wheel scrolls.
pub const WHEEL_LINES: isize = 3;

/// How many bytes a step of the wheel scrolls sideways.
pub const HORIZONTAL_WHEEL_BYTES: isize = 96;

/// How far the wheel was turned, in lines and sideways in bytes.
#[derive(Clone, Copy, Debug, PartialEq, Eq, Structural)]
pub struct WheelInput {
    pub lines: isize,
    pub bytes: isize,
    pub shift: bool,
}

/// The view after the wheel was turned: up or down, but for the shift key, and
/// sideways where there is a scrollbar.
pub open spec fn wheeled(g: GuiModel, a: AppModel, input: WheelInput, width: int, height: int) -> GuiModel {
    match layout_of(a, width, height) {
        None => g,
        Some(metrics) => {
            let up = if !input.shift && input.lines != 0 {
                scrolled_to(g, a, moved(g.first_visible_line, input.lines as int), metrics)
            } else {
                g
            };
            if metrics.horizontal_scroll_y is Some && input.bytes != 0 {
                horizontally_clamped(
                    GuiModel {
                        horizontal_offset: moved(up.horizontal_offset, input.bytes as int),
                        ..up
                    },
                    a,
                    metrics.visible_line_count as int,
                )
            } else {
                up
            }
        },
    }
}

pub fn handle_scroll_wheel(
    app: &BlitzApp,
    gui_state: &mut GuiState,
    input: WheelInput,
    width: usize,
    height: usize,
)
    requires
        app.wf(),
    ensures
        final(gui_state)@ == wheeled(
            old(gui_state)@,
            app@,
            input,
            width as int,
            height as int,
        ),
{
    let metrics = match editor_metrics_from_flags(
        app.settings().status_bar_visible,
        app.settings().word_wrap,
        width,
        height,
    ) {
        Some(metrics) => metrics,
        None => {
            return ;
        },
    };
    if !input.shift && input.lines != 0 {
        gui_state.scroll_vertical(app, input.lines, metrics);
    }
    if metrics.horizontal_scroll_y.is_some() && input.bytes != 0 {
        gui_state.scroll_horizontal(app, input.bytes, metrics.visible_line_count);
    }
}

} // verus!
