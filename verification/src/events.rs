//! Where a key goes: the message pager, the help, the save dialog or the
//! canvas, whichever is in front, and what the help and the save dialog do
//! with it.
use vstd::prelude::*;

use crate::app::{quiet, same_but_dialogs, save_view, App, HelpState};
use crate::canvas::Rect;
use crate::input::{canvas_area_of, canvas_command_of, cleared, command_done, handle_canvas_key, layable, InteractionRequest};
use crate::keys::{KeyCode, KeyEvent};
use crate::messages::{handle_key, pager_key_done, MessageAction, MessageViewState};

verus! {

/// The number of rows of the complete help.
pub const HELP_ROW_COUNT: usize = 34;

/// The complete help: each key or mouse action with what it does, under
/// headings for the canvas, the search, the save dialog and the help.
pub fn help_rows() -> (r: Vec<(&'static str, &'static str)>)
    ensures
        r@.len() == HELP_ROW_COUNT,
{
    let r = vec![
        ("Canvas", ""),
        ("?", "open or close this complete help"),
        ("ac / at", "search and add a call / type anchor"),
        ("tl / tr", "toggle the selected node's left / right branch"),
        ("r", "refresh both loaded directions of the selected node"),
        ("h j k l / arrows", "select the nearest visible node by geometry"),
        ("mouse click", "select a node without moving it in the viewport"),
        ("mouse double-click", "send an exact source location to editor clients"),
        ("mouse side button", "select a node and toggle only that branch"),
        ("mouse drag", "pan the viewport from a node or empty canvas"),
        ("dd", "unpin the selected anchor"),
        ("dp / dn", "clear the selected node's left / right branch"),
        ("ec", "edit .cgraph.toml, reload it, and refresh loaded branches"),
        ("w", "open the graph save dialog"),
        ("q / Esc", "quit cgraph"),
        ("", ""),
        ("Search", ""),
        ("text / Backspace", "edit the fuzzy workspace-symbol query"),
        ("Up / Down", "move through results (Ctrl-p / Ctrl-n also work)"),
        ("Enter / click", "accept the selected result"),
        ("mouse move / wheel", "highlight or scroll results"),
        ("Esc", "close search without adding an anchor"),
        ("", ""),
        ("Save", ""),
        ("text / Backspace", "edit the destination path"),
        ("Enter", "create the destination without overwriting an existing file"),
        ("Esc", "close save without writing"),
        ("", ""),
        ("Help", ""),
        ("Up / Down, j / k", "scroll one line"),
        ("PageUp / PageDown", "scroll one page"),
        ("Home / End", "jump to the first / last help row"),
        ("mouse wheel", "scroll help"),
        ("? / q / Esc", "close help without quitting cgraph"),
    ];
    r
}

/// `x` down by `d`, stopping at 0.
pub open spec fn down_by(x: usize, d: int) -> usize {
    if x >= d {
        (x - d) as usize
    } else {
        0
    }
}

/// `x` up by `d`, stopping at the last help row.
pub open spec fn up_by(x: usize, d: int) -> usize {
    if x + d > HELP_ROW_COUNT - 1 {
        (HELP_ROW_COUNT - 1) as usize
    } else {
        (x + d) as usize
    }
}

/// The help after a key: `?`, `q` or Esc close it; the arrows, `j` and
/// `k`, PageUp and PageDown, Home and End scroll it within its rows.
pub open spec fn help_after(h: HelpState, key: KeyEvent) -> Option<HelpState> {
    let none = key.modifiers.is_none();
    if key.code == KeyCode::Char('?') && (none || key.modifiers.is_shift()) {
        None
    } else if (key.code == KeyCode::Char('q') || key.code == KeyCode::Esc) && none {
        None
    } else if (key.code == KeyCode::Up || key.code == KeyCode::Char('k')) && none {
        Some(HelpState { scroll: down_by(h.scroll, 1) })
    } else if (key.code == KeyCode::Down || key.code == KeyCode::Char('j')) && none {
        Some(HelpState { scroll: up_by(h.scroll, 1) })
    } else if key.code == KeyCode::PageUp {
        Some(HelpState { scroll: down_by(h.scroll, 10) })
    } else if key.code == KeyCode::PageDown {
        Some(HelpState { scroll: up_by(h.scroll, 10) })
    } else if key.code == KeyCode::Home {
        Some(HelpState { scroll: 0 })
    } else if key.code == KeyCode::End {
        Some(HelpState { scroll: (HELP_ROW_COUNT - 1) as usize })
    } else {
        Some(h)
    }
}

/// `x` down by `d`, stopping at 0.
fn scroll_back(x: usize, d: usize) -> (r: usize)
    ensures
        r == down_by(x, d as int),
{
    x.saturating_sub(d)
}

/// `x` up by `d`, stopping at the last help row.
fn scroll_on(x: usize, d: usize) -> (r: usize)
    ensures
        r == up_by(x, d as int),
{
    let y = x.saturating_add(d);
    if y > HELP_ROW_COUNT - 1 {
        HELP_ROW_COUNT - 1
    } else {
        y
    }
}

/// Handles a key in the help (see `help_after`); nothing happens without
/// the help.
pub fn handle_help_key(app: &mut App, key: KeyEvent)
    ensures
        *final(app) == match old(app).help {
            None => *old(app),
            Some(h) => App { help: help_after(h, key), ..*old(app) },
        },
{
    let h = match app.help {
        None => {
            return;
        },
        Some(h) => h,
    };
    let none = key.modifiers.empty();
    let code = key.code;
    app.help = if code == KeyCode::Char('?') && (none || key.modifiers.only_shift()) {
        None
    } else if (code == KeyCode::Char('q') || code == KeyCode::Esc) && none {
        None
    } else if (code == KeyCode::Up || code == KeyCode::Char('k')) && none {
        Some(HelpState { scroll: scroll_back(h.scroll, 1) })
    } else if (code == KeyCode::Down || code == KeyCode::Char('j')) && none {
        Some(HelpState { scroll: scroll_on(h.scroll, 1) })
    } else if code == KeyCode::PageUp {
        Some(HelpState { scroll: scroll_back(h.scroll, 10) })
    } else if code == KeyCode::PageDown {
        Some(HelpState { scroll: scroll_on(h.scroll, 10) })
    } else if code == KeyCode::Home {
        Some(HelpState { scroll: 0 })
    } else if code == KeyCode::End {
        Some(HelpState { scroll: HELP_ROW_COUNT - 1 })
    } else {
        Some(h)
    };
}

/// Scrolls the help by three rows for a turn of the mouse wheel.
pub fn handle_help_wheel(app: &mut App, down: bool)
    ensures
        *final(app) == match old(app).help {
            None => *old(app),
            Some(h) => App {
                help: Some(
                    HelpState {
                        scroll: if down {
                            up_by(h.scroll, 3)
                        } else {
                            down_by(h.scroll, 3)
                        },
                    },
                ),
                ..*old(app)
            },
        },
{
    match app.help {
        None => {},
        Some(h) => {
            app.help = Some(
                HelpState {
                    scroll: if down {
                        scroll_on(h.scroll, 3)
                    } else {
                        scroll_back(h.scroll, 3)
                    },
                },
            );
        },
    }
}

/// What a key does in the save dialog: Esc closes it, Enter asks to write
/// the graph to the typed path (the returned text), Backspace erases and a
/// character without Control or Alt is typed.
pub open spec fn save_key_done(a: App, b: App, key: KeyEvent, r: Option<String>) -> bool {
    &&& b.pending_key == a.pending_key
    &&& b.help == a.help
    &&& quiet(a, b)
    &&& same_but_dialogs(a, b)
    &&& if key.code == KeyCode::Esc {
        b.save is None && r is None
    } else if key.code == KeyCode::Enter {
        &&& b.save == a.save
        &&& match save_view(a.save) {
            Some((input, _)) => r matches Some(p) && p@ == input,
            None => r is None,
        }
    } else if key.code == KeyCode::Backspace {
        &&& r is None
        &&& save_view(b.save) == match save_view(a.save) {
            Some((input, _)) => Some((
                if input.len() > 0 {
                    input.drop_last()
                } else {
                    input
                },
                None::<Seq<char>>,
            )),
            None => None,
        }
    } else {
        match key.code {
            KeyCode::Char(c) => if !key.modifiers.control && !key.modifiers.alt {
                &&& r is None
                &&& save_view(b.save) == match save_view(a.save) {
                    Some((input, _)) => Some((input.push(c), None::<Seq<char>>)),
                    None => None,
                }
            } else {
                r is None && b == a
            },
            _ => r is None && b == a,
        }
    }
}

/// Handles a key in the save dialog; Enter gives the path to write to,
/// which the caller writes before reporting the outcome to the dialog.
pub fn handle_save_key(app: &mut App, key: KeyEvent) -> (r: Option<String>)
    ensures
        save_key_done(*old(app), *final(app), key, r),
{
    match key.code {
        KeyCode::Esc => {
            app.close_save();
            None
        },
        KeyCode::Enter => match &app.save {
            Some(save) => Some(save.input.clone()),
            None => None,
        },
        KeyCode::Backspace => {
            app.pop_save_char();
            None
        },
        KeyCode::Char(c) => {
            if !key.modifiers.control && !key.modifiers.alt {
                app.push_save_char(c);
            }
            None
        },
        _ => None,
    }
}

/// What a key pressed anywhere does: the pager takes it while open (and
/// closes or asks to copy), else the help, else the save dialog (Enter asks
/// to write the graph), else the canvas.
pub open spec fn key_done(
    a: App,
    b: App,
    v0: Option<MessageViewState>,
    v1: Option<MessageViewState>,
    key: KeyEvent,
    analysis_available: bool,
    screen: Rect,
    r: Option<InteractionRequest>,
) -> bool {
    match v0 {
        Some(v) => {
            &&& b == a
            &&& exists|w: MessageViewState, act: MessageAction|
                #![trigger pager_key_done(v, w, key, act)]
                {
                    &&& pager_key_done(v, w, key, act)
                    &&& match act {
                        MessageAction::Close => v1 is None && r is None,
                        MessageAction::Copy(t) => v1 == Some(w) && (r matches Some(InteractionRequest::CopyMessages(u))
                            && u@ == t@),
                        MessageAction::Handled => v1 == Some(w) && r is None,
                    }
                }
        },
        None => {
            &&& v1 is None
            &&& if a.help is Some {
                r is None && b == (App { help: help_after(a.help.unwrap(), key), ..a })
            } else if a.save is Some {
                exists|p: Option<String>|
                    #![trigger save_key_done(a, b, key, p)]
                    save_key_done(a, b, key, p) && match p {
                        Some(path) => (r matches Some(InteractionRequest::SaveGraph(q)) && q@ == path@),
                        None => r is None,
                    }
            } else {
                command_done(cleared(a), b, canvas_command_of(a.pending_key, key), analysis_available, canvas_area_of(screen), r)
            }
        },
    }
}

/// Sends a key to whatever is in front: the pager, the help, the save
/// dialog or the canvas.
pub fn handle_key_event(
    app: &mut App,
    message_view: &mut Option<MessageViewState>,
    key: KeyEvent,
    analysis_available: bool,
    screen: Rect,
) -> (r: Option<InteractionRequest>)
    requires
        old(app).well_formed(),
        layable(old(app).graph),
    ensures
        final(app).well_formed(),
        layable(final(app).graph),
        key_done(*old(app), *final(app), *old(message_view), *final(message_view), key, analysis_available, screen, r),
{
    match message_view {
        Some(view) => {
            let ghost v = *view;
            let action = handle_key(view, key);
            let ghost w = *view;
            assert(pager_key_done(v, w, key, action));
            match action {
                MessageAction::Close => {
                    *message_view = None;
                    None
                },
                MessageAction::Copy(text) => Some(InteractionRequest::CopyMessages(text)),
                MessageAction::Handled => None,
            }
        },
        None => {
            if app.help.is_some() {
                handle_help_key(app, key);
                None
            } else if app.save.is_some() {
                match handle_save_key(app, key) {
                    Some(path) => Some(InteractionRequest::SaveGraph(path)),
                    None => None,
                }
            } else {
                handle_canvas_key(app, key, analysis_available, screen)
            }
        },
    }
}

} // verus!
