//! The editable cell: its text as grapheme clusters, its cursor, and how
//! it answers the user's keys and clicks.

pub mod cursor;
pub mod editor;
pub mod value;

use vstd::prelude::*;
use crate::matcell::cursor::{
    end, move_left, move_left_by_words, move_right_by, move_right_by_words, select_all,
    select_left, select_left_by_words, select_range, select_right, select_right_by_words,
    selection, start, CursorState,
};
use crate::matcell::editor::{
    backspace, copy_range, delete, edit_backspace, edit_delete, edit_insert, edit_paste, insert,
    paste, spliced_text,
};
use crate::matcell::value::{
    concat_all, concat_range, control, graphemes_of, is_control, next_end_of_word,
    next_end_of_word_exec, previous_start_of_word, previous_start_of_word_exec, spec_graphemes,
};
use crate::text::{chars_of, string_of, string_views};

verus! {

/// The side of a cell on which its icon stands.
#[derive(Debug)]
pub enum Side {
    Right,
    Left,
}

impl Clone for Side {
    fn clone(&self) -> (side: Side)
        ensures
            side == *self,
    {
        match self {
            Side::Right => Side::Right,
            Side::Left => Side::Left,
        }
    }
}

} // verus!

verus! {

/// How many times the cell was clicked in a row.
#[derive(Clone, Copy, Debug, PartialEq, Eq, Structural)]
pub enum Click {
    Single,
    Double,
    Triple,
}

/// The keys a cell answers to.
#[derive(Clone, Copy, Debug, PartialEq, Eq, Structural)]
pub enum CellKey {
    Enter,
    Backspace,
    Delete,
    Left,
    Right,
    Home,
    End,
    C,
    X,
    V,
    A,
    Escape,
    Tab,
    Up,
    Down,
    Other,
}

/// What happens to a cell, with what the window measured: where a click
/// or a drag falls in the text, in grapheme clusters, and how many clicks
/// came in a row.
#[derive(Clone, Copy, Debug, PartialEq, Eq, Structural)]
pub enum CellEvent {
    /// The left button or a finger went down; `over` tells whether over
    /// the cell, and `at` is the position of the click in the text.
    Pressed { over: bool, click: Click, at: usize },
    /// The left button or a finger went up.
    Released,
    /// The pointer moved to the given position in the text.
    Dragged(usize),
    /// A character was typed.
    Char(char),
    /// A key went down.
    KeyPressed(CellKey),
    /// A key went up.
    KeyReleased(CellKey),
    /// The modifier keys changed: shift, the command key, and the key that
    /// makes moves jump by words.
    Modifiers { shift: bool, command: bool, jump: bool },
}

/// What the window does after a cell has taken an event.
#[derive(Debug)]
pub enum CellAction {
    /// Tell the table that the cell at this position now holds this text.
    Publish(usize, String),
    /// The same, for text that was pasted, when the cell reports pastes
    /// apart.
    Paste(usize, String),
    /// The user submitted the cell.
    Submit,
    /// Put this text on the clipboard.
    WriteClipboard(String),
    /// The cursor was used: start its blinking over.
    RestartBlink,
}

/// How a cell is set up: its position in the table, whether its text is
/// hidden, whether it can be edited, and whether it reports pastes and
/// submits.
#[derive(Clone, Copy, Debug)]
pub struct CellConfig {
    pub pos: usize,
    pub is_secure: bool,
    pub editable: bool,
    pub has_on_paste: bool,
    pub has_on_submit: bool,
}

/// The state of a cell between events.
#[derive(Debug)]
pub struct CellState {
    pub focused: bool,
    pub dragging: bool,
    /// The clusters being pasted while the paste key is held.
    pub pasting: Option<Vec<String>>,
    pub cursor: CursorState,
    pub shift: bool,
    pub command: bool,
    pub jump: bool,
}

/// The state of a cell as plain values.
pub struct CellStateView {
    pub focused: bool,
    pub dragging: bool,
    pub pasting: Option<Seq<Seq<char>>>,
    pub cursor: CursorState,
    pub shift: bool,
    pub command: bool,
    pub jump: bool,
}

impl View for CellState {
    type V = CellStateView;

    open spec fn view(&self) -> CellStateView {
        CellStateView {
            focused: self.focused,
            dragging: self.dragging,
            pasting: match self.pasting {
                Some(p) => Some(string_views(p@)),
                None => None,
            },
            cursor: self.cursor,
            shift: self.shift,
            command: self.command,
            jump: self.jump,
        }
    }
}

impl CellState {
    /// A cell without the focus, its cursor at the front, no key held.
    pub fn new() -> (st: CellState)
        ensures
            st@ == (CellStateView {
                focused: false,
                dragging: false,
                pasting: None,
                cursor: CursorState::Index(0),
                shift: false,
                command: false,
                jump: false,
            }),
    {
        CellState {
            focused: false,
            dragging: false,
            pasting: None,
            cursor: CursorState::Index(0),
            shift: false,
            command: false,
            jump: false,
        }
    }

    /// A cell with the focus, its cursor at the front, no key held.
    pub fn focused() -> (st: CellState)
        ensures
            st@ == (CellStateView {
                focused: true,
                dragging: false,
                pasting: None,
                cursor: CursorState::Index(0),
                shift: false,
                command: false,
                jump: false,
            }),
    {
        let mut st = CellState::new();
        st.focused = true;
        st
    }

    /// Whether the cell has the focus.
    pub fn is_focused(&self) -> (b: bool)
        ensures
            b == self.focused,
    {
        self.focused
    }

    /// Where the cursor stands.
    pub fn cursor(&self) -> (c: CursorState)
        ensures
            c == self.cursor,
    {
        self.cursor
    }

    /// Gives the cell the focus and moves the cursor to the end of the
    /// text.
    pub fn focus(&mut self)
        ensures
            final(self)@ == (CellStateView {
                focused: true,
                cursor: CursorState::Index(usize::MAX),
                ..old(self)@
            }),
    {
        self.focused = true;
        self.move_cursor_to_end();
    }

    /// Takes the focus away.
    pub fn unfocus(&mut self)
        ensures
            final(self)@ == (CellStateView { focused: false, ..old(self)@ }),
    {
        self.focused = false;
    }

    /// Moves the cursor to the front of the text.
    pub fn move_cursor_to_front(&mut self)
        ensures
            final(self)@ == with_cursor(old(self)@, CursorState::Index(0)),
    {
        self.cursor = CursorState::Index(0);
    }

    /// Moves the cursor to the end of the text, whatever its length.
    pub fn move_cursor_to_end(&mut self)
        ensures
            final(self)@ == with_cursor(old(self)@, CursorState::Index(usize::MAX)),
    {
        self.cursor = CursorState::Index(usize::MAX);
    }

    /// Moves the cursor to `position`.
    pub fn move_cursor_to(&mut self, position: usize)
        ensures
            final(self)@ == with_cursor(old(self)@, CursorState::Index(position)),
    {
        self.cursor = CursorState::Index(position);
    }

    /// Selects the whole text, whatever its length.
    pub fn select_all(&mut self)
        ensures
            final(self)@ == with_cursor(old(self)@, select_range(0, usize::MAX)),
    {
        self.cursor = CursorState::select_range(0, usize::MAX);
    }
}

/// An action as plain values.
pub enum ActionView {
    Publish(usize, Seq<char>),
    Paste(usize, Seq<char>),
    Submit,
    WriteClipboard(Seq<char>),
    RestartBlink,
}

/// The action as plain values.
pub open spec fn action_view(a: CellAction) -> ActionView {
    match a {
        CellAction::Publish(p, s) => ActionView::Publish(p, s@),
        CellAction::Paste(p, s) => ActionView::Paste(p, s@),
        CellAction::Submit => ActionView::Submit,
        CellAction::WriteClipboard(s) => ActionView::WriteClipboard(s@),
        CellAction::RestartBlink => ActionView::RestartBlink,
    }
}

/// The actions as plain values.
pub open spec fn action_views(a: Seq<CellAction>) -> Seq<ActionView> {
    a.map_values(|x: CellAction| action_view(x))
}

/// What an event leads to: the cell's text and state after it, the
/// actions for the window, and whether the cell took the event.
pub struct StepView {
    pub value: Seq<Seq<char>>,
    pub state: CellStateView,
    pub actions: Seq<ActionView>,
    pub captured: bool,
}

/// The text without its control characters.
pub open spec fn no_controls(s: Seq<char>) -> Seq<char>
    decreases s.len(),
{
    if s.len() == 0 {
        seq![]
    } else if is_control(s.last()) {
        no_controls(s.drop_last())
    } else {
        no_controls(s.drop_last()).push(s.last())
    }
}

/// The state with another cursor.
pub open spec fn with_cursor(st: CellStateView, c: CursorState) -> CellStateView {
    CellStateView { cursor: c, ..st }
}

/// Nothing changes and the event is not taken.
pub open spec fn unchanged(v: Seq<Seq<char>>, st: CellStateView) -> StepView {
    StepView { value: v, state: st, actions: seq![], captured: false }
}

/// A click: over an editable cell it focuses the cell and places the
/// cursor (one click), selects a word (two; everything when the text is
/// hidden) or selects everything (three); anywhere else it takes the
/// focus away.
pub open spec fn pressed_step(
    cfg: CellConfig,
    v: Seq<Seq<char>>,
    st: CellStateView,
    over: bool,
    click: Click,
    at: usize,
) -> StepView {
    let n = v.len() as usize;
    if cfg.editable && over {
        let st1 = CellStateView { focused: true, ..st };
        let (c, dragging) = match click {
            Click::Single => (
                if st.shift {
                    select_range(start(st.cursor, n), at)
                } else {
                    CursorState::Index(at)
                },
                true,
            ),
            Click::Double => (
                if cfg.is_secure {
                    select_all(n)
                } else {
                    select_range(
                        previous_start_of_word(v, at as int) as usize,
                        next_end_of_word(v, at as int) as usize,
                    )
                },
                false,
            ),
            Click::Triple => (select_all(n), false),
        };
        StepView {
            value: v,
            state: CellStateView { cursor: c, dragging, ..st1 },
            actions: seq![],
            captured: true,
        }
    } else {
        unchanged(v, CellStateView { focused: false, ..st })
    }
}

/// The text with an edit, published.
pub open spec fn edited(
    cfg: CellConfig,
    st: CellStateView,
    e: (Seq<Seq<char>>, CursorState),
) -> StepView {
    StepView {
        value: e.0,
        state: with_cursor(st, e.1),
        actions: seq![ActionView::RestartBlink, ActionView::Publish(cfg.pos, concat_all(e.0))],
        captured: true,
    }
}

/// A key going down in a focused, editable cell.
pub open spec fn key_step(
    cfg: CellConfig,
    v: Seq<Seq<char>>,
    st: CellStateView,
    k: CellKey,
    clip: Option<Seq<char>>,
) -> StepView {
    let n = v.len() as usize;
    let blink = seq![ActionView::RestartBlink];
    let moved = |c: CursorState|
        StepView { value: v, state: with_cursor(st, c), actions: blink, captured: true };
    match k {
        CellKey::Enter => StepView {
            value: v,
            state: st,
            actions: if cfg.has_on_submit {
                blink.push(ActionView::Submit)
            } else {
                blink
            },
            captured: true,
        },
        CellKey::Backspace => {
            let c = if st.jump && selection(st.cursor, n) is None {
                if cfg.is_secure {
                    select_range(0, end(st.cursor, n))
                } else {
                    select_left_by_words(st.cursor, v)
                }
            } else {
                st.cursor
            };
            edited(cfg, st, edit_backspace(v, c))
        },
        CellKey::Delete => {
            let c = if st.jump && selection(st.cursor, n) is None {
                if cfg.is_secure {
                    select_range(end(st.cursor, n), n)
                } else {
                    select_right_by_words(st.cursor, v)
                }
            } else {
                st.cursor
            };
            edited(cfg, st, edit_delete(v, c))
        },
        CellKey::Left => moved(
            if st.jump && !cfg.is_secure {
                if st.shift {
                    select_left_by_words(st.cursor, v)
                } else {
                    move_left_by_words(st.cursor, v)
                }
            } else if st.shift {
                select_left(st.cursor, n)
            } else {
                move_left(st.cursor, n)
            },
        ),
        CellKey::Right => moved(
            if st.jump && !cfg.is_secure {
                if st.shift {
                    select_right_by_words(st.cursor, v)
                } else {
                    move_right_by_words(st.cursor, v)
                }
            } else if st.shift {
                select_right(st.cursor, n)
            } else {
                move_right_by(st.cursor, n, 1)
            },
        ),
        CellKey::Home => moved(
            if st.shift {
                select_range(start(st.cursor, n), 0)
            } else {
                CursorState::Index(0)
            },
        ),
        CellKey::End => moved(
            if st.shift {
                select_range(start(st.cursor, n), n)
            } else {
                CursorState::Index(n)
            },
        ),
        CellKey::C => StepView {
            value: v,
            state: st,
            actions: match selection(st.cursor, n) {
                Some((s, e)) if st.command => blink.push(
                    ActionView::WriteClipboard(concat_all(v.subrange(s as int, e as int))),
                ),
                _ => blink,
            },
            captured: true,
        },
        CellKey::X => if st.command {
            let copied = match selection(st.cursor, n) {
                Some((s, e)) => seq![
                    ActionView::WriteClipboard(concat_all(v.subrange(s as int, e as int))),
                ],
                None => seq![],
            };
            let d = edit_delete(v, st.cursor);
            StepView {
                value: d.0,
                state: with_cursor(st, d.1),
                actions: blink + copied + seq![ActionView::Publish(cfg.pos, concat_all(d.0))],
                captured: true,
            }
        } else {
            StepView { value: v, state: st, actions: blink, captured: true }
        },
        CellKey::V => if st.command {
            let content = match st.pasting {
                Some(p) => p,
                None => spec_graphemes(
                    no_controls(
                        match clip {
                            Some(t) => t,
                            None => seq![],
                        },
                    ),
                ),
            };
            let p = edit_paste(v, st.cursor, content);
            StepView {
                value: p.0,
                state: CellStateView { cursor: p.1, pasting: Some(content), ..st },
                actions: blink.push(
                    if cfg.has_on_paste {
                        ActionView::Paste(cfg.pos, concat_all(p.0))
                    } else {
                        ActionView::Publish(cfg.pos, concat_all(p.0))
                    },
                ),
                captured: true,
            }
        } else {
            StepView {
                value: v,
                state: CellStateView { pasting: None, ..st },
                actions: blink,
                captured: true,
            }
        },
        CellKey::A => moved(
            if st.command {
                select_all(n)
            } else {
                st.cursor
            },
        ),
        CellKey::Escape => StepView {
            value: v,
            state: CellStateView {
                focused: false,
                dragging: false,
                pasting: None,
                shift: false,
                command: false,
                jump: false,
                ..st
            },
            actions: blink,
            captured: true,
        },
        CellKey::Tab | CellKey::Up | CellKey::Down => StepView {
            value: v,
            state: st,
            actions: blink,
            captured: false,
        },
        CellKey::Other => StepView { value: v, state: st, actions: blink, captured: true },
    }
}

/// What an event does to a cell, given the clipboard's text for a paste.
pub open spec fn cell_step_spec(
    cfg: CellConfig,
    v: Seq<Seq<char>>,
    st: CellStateView,
    ev: CellEvent,
    clip: Option<Seq<char>>,
) -> StepView {
    let n = v.len() as usize;
    match ev {
        CellEvent::Pressed { over, click, at } => pressed_step(cfg, v, st, over, click, at),
        CellEvent::Released => unchanged(v, CellStateView { dragging: false, ..st }),
        CellEvent::Dragged(at) => if st.dragging {
            StepView {
                value: v,
                state: with_cursor(st, select_range(start(st.cursor, n), at)),
                actions: seq![],
                captured: true,
            }
        } else {
            unchanged(v, st)
        },
        CellEvent::Char(ch) => if st.focused && cfg.editable && st.pasting is None && !st.command
            && !is_control(ch) {
            let e = edit_insert(v, st.cursor, ch);
            StepView {
                value: e.0,
                state: with_cursor(st, e.1),
                actions: seq![ActionView::Publish(cfg.pos, concat_all(e.0)), ActionView::RestartBlink],
                captured: true,
            }
        } else {
            unchanged(v, st)
        },
        CellEvent::KeyPressed(k) => if st.focused && cfg.editable {
            key_step(cfg, v, st, k, clip)
        } else {
            unchanged(v, st)
        },
        CellEvent::KeyReleased(k) => if st.focused {
            match k {
                CellKey::V => StepView {
                    value: v,
                    state: CellStateView { pasting: None, ..st },
                    actions: seq![],
                    captured: true,
                },
                CellKey::Tab | CellKey::Up | CellKey::Down => unchanged(v, st),
                _ => StepView { value: v, state: st, actions: seq![], captured: true },
            }
        } else {
            unchanged(v, CellStateView { pasting: None, ..st })
        },
        CellEvent::Modifiers { shift, command, jump } => unchanged(
            v,
            CellStateView { shift, command, jump, ..st },
        ),
    }
}

/// The clipboard's text as plain values.
pub open spec fn clip_view(clip: Option<String>) -> Option<Seq<char>> {
    match clip {
        Some(t) => Some(t@),
        None => None,
    }
}

/// The text that V with the command key pastes: the clusters already
/// being pasted while the key is held, or else the clipboard's text
/// without its control characters.
pub open spec fn paste_text(st: CellStateView, clip: Option<Seq<char>>) -> Seq<char> {
    match st.pasting {
        Some(p) => concat_all(p),
        None => no_controls(
            match clip {
                Some(t) => t,
                None => seq![],
            },
        ),
    }
}

/// The text of a cell's clusters.
fn contents(value: &Vec<String>) -> (s: String)
    ensures
        s@ == concat_all(string_views(value@)),
{
    let s = concat_range(value, 0, value.len());
    assert(string_views(value@).subrange(0, value.len() as int) =~= string_views(value@));
    s
}

/// The text without its control characters.
fn without_controls(t: &str) -> (r: String)
    ensures
        r@ == no_controls(t@),
{
    let cs = chars_of(t);
    let mut kept: Vec<char> = Vec::new();
    let mut i: usize = 0;
    while i < cs.len()
        invariant
            cs@ == t@,
            i <= cs.len(),
            kept@ == no_controls(cs@.take(i as int)),
        decreases cs.len() - i,
    {
        assert(cs@.take(i + 1).drop_last() =~= cs@.take(i as int));
        assert(cs@.take(i + 1).last() == cs@[i as int]);
        if !control(cs[i]) {
            kept.push(cs[i]);
        }
        i += 1;
    }
    assert(cs@.take(cs.len() as int) =~= cs@);
    string_of(&kept)
}

/// Enter going down in a focused, editable cell.
fn key_enter(
    cfg: &CellConfig,
    value: &mut Vec<String>,
    state: &mut CellState,
    k: CellKey,
    clipboard: Option<String>,
) -> (r: (Vec<CellAction>, bool))
    requires
        k == CellKey::Enter,
    ensures
        ({
            let s = key_step(*cfg, string_views(old(value)@), old(state)@, k, clip_view(clipboard));
            &&& string_views(final(value)@) == s.value
            &&& final(state)@ == s.state
            &&& action_views(r.0@) == s.actions
            &&& r.1 == s.captured
        }),
{
    let mut actions: Vec<CellAction> = Vec::new();
    actions.push(CellAction::RestartBlink);
    let ghost v0 = string_views(value@);
    let ghost st0 = state@;
    if cfg.has_on_submit {
        actions.push(CellAction::Submit);
    }
    assert(action_views(actions@) =~= key_step(*cfg, v0, st0, k, clip_view(clipboard)).actions);
    (actions, true)
}

/// Backspace or Delete going down in a focused, editable cell.
fn key_erase(
    cfg: &CellConfig,
    value: &mut Vec<String>,
    state: &mut CellState,
    k: CellKey,
    clipboard: Option<String>,
) -> (r: (Vec<CellAction>, bool))
    requires
        k == CellKey::Backspace || k == CellKey::Delete,
    ensures
        ({
            let s = key_step(*cfg, string_views(old(value)@), old(state)@, k, clip_view(clipboard));
            &&& string_views(final(value)@) == s.value
            &&& final(state)@ == s.state
            &&& action_views(r.0@) == s.actions
            &&& r.1 == s.captured
        }),
{
    let n = value.len();
    let mut actions: Vec<CellAction> = Vec::new();
    actions.push(CellAction::RestartBlink);
    let ghost v0 = string_views(value@);
    let ghost st0 = state@;
    let mut c = state.cursor;
    if state.jump && state.cursor.selection(n).is_none() {
        c = if cfg.is_secure {
            if k == CellKey::Backspace {
                CursorState::select_range(0, state.cursor.end(n))
            } else {
                CursorState::select_range(state.cursor.end(n), n)
            }
        } else if k == CellKey::Backspace {
            state.cursor.select_left_by_words(value)
        } else {
            state.cursor.select_right_by_words(value)
        };
    }
    if k == CellKey::Backspace {
        backspace(value, &mut c);
    } else {
        delete(value, &mut c);
    }
    state.cursor = c;
    actions.push(CellAction::Publish(cfg.pos, contents(value)));
    assert(action_views(actions@) =~= key_step(*cfg, v0, st0, k, clip_view(clipboard)).actions);
    (actions, true)
}

/// an arrow, Home, End or A going down in a focused, editable cell.
fn key_move(
    cfg: &CellConfig,
    value: &mut Vec<String>,
    state: &mut CellState,
    k: CellKey,
    clipboard: Option<String>,
) -> (r: (Vec<CellAction>, bool))
    requires
        k == CellKey::Left || k == CellKey::Right || k == CellKey::Home || k == CellKey::End
            || k == CellKey::A,
    ensures
        ({
            let s = key_step(*cfg, string_views(old(value)@), old(state)@, k, clip_view(clipboard));
            &&& string_views(final(value)@) == s.value
            &&& final(state)@ == s.state
            &&& action_views(r.0@) == s.actions
            &&& r.1 == s.captured
        }),
{
    let n = value.len();
    let mut actions: Vec<CellAction> = Vec::new();
    actions.push(CellAction::RestartBlink);
    let ghost v0 = string_views(value@);
    let ghost st0 = state@;
    let c = match k {
        CellKey::Left => if state.jump && !cfg.is_secure {
            if state.shift {
                state.cursor.select_left_by_words(value)
            } else {
                state.cursor.move_left_by_words(value)
            }
        } else if state.shift {
            state.cursor.select_left(n)
        } else {
            state.cursor.move_left(n)
        },
        CellKey::Right => if state.jump && !cfg.is_secure {
            if state.shift {
                state.cursor.select_right_by_words(value)
            } else {
                state.cursor.move_right_by_words(value)
            }
        } else if state.shift {
            state.cursor.select_right(n)
        } else {
            state.cursor.move_right_by(n, 1)
        },
        CellKey::Home => if state.shift {
            CursorState::select_range(state.cursor.start(n), 0)
        } else {
            CursorState::Index(0)
        },
        CellKey::End => if state.shift {
            CursorState::select_range(state.cursor.start(n), n)
        } else {
            CursorState::Index(n)
        },
        _ => if state.command {
            CursorState::select_range(0, n)
        } else {
            state.cursor
        },
    };
    state.cursor = c;
    assert(action_views(actions@) =~= key_step(*cfg, v0, st0, k, clip_view(clipboard)).actions);
    (actions, true)
}

/// C going down in a focused, editable cell.
fn key_copy(
    cfg: &CellConfig,
    value: &mut Vec<String>,
    state: &mut CellState,
    k: CellKey,
    clipboard: Option<String>,
) -> (r: (Vec<CellAction>, bool))
    requires
        k == CellKey::C,
    ensures
        ({
            let s = key_step(*cfg, string_views(old(value)@), old(state)@, k, clip_view(clipboard));
            &&& string_views(final(value)@) == s.value
            &&& final(state)@ == s.state
            &&& action_views(r.0@) == s.actions
            &&& r.1 == s.captured
        }),
{
    let n = value.len();
    let mut actions: Vec<CellAction> = Vec::new();
    actions.push(CellAction::RestartBlink);
    let ghost v0 = string_views(value@);
    let ghost st0 = state@;
    if state.command {
        if let Some((s, e)) = state.cursor.selection(n) {
            actions.push(CellAction::WriteClipboard(concat_range(value, s, e)));
        }
    }
    assert(action_views(actions@) =~= key_step(*cfg, v0, st0, k, clip_view(clipboard)).actions);
    (actions, true)
}

/// X going down in a focused, editable cell.
fn key_cut(
    cfg: &CellConfig,
    value: &mut Vec<String>,
    state: &mut CellState,
    k: CellKey,
    clipboard: Option<String>,
) -> (r: (Vec<CellAction>, bool))
    requires
        k == CellKey::X,
    ensures
        ({
            let s = key_step(*cfg, string_views(old(value)@), old(state)@, k, clip_view(clipboard));
            &&& string_views(final(value)@) == s.value
            &&& final(state)@ == s.state
            &&& action_views(r.0@) == s.actions
            &&& r.1 == s.captured
        }),
{
    let n = value.len();
    let mut actions: Vec<CellAction> = Vec::new();
    actions.push(CellAction::RestartBlink);
    let ghost v0 = string_views(value@);
    let ghost st0 = state@;
    if state.command {
        if let Some((s, e)) = state.cursor.selection(n) {
            actions.push(CellAction::WriteClipboard(concat_range(value, s, e)));
        }
        let mut c = state.cursor;
        delete(value, &mut c);
        state.cursor = c;
        actions.push(CellAction::Publish(cfg.pos, contents(value)));
    }
    assert(action_views(actions@) =~= key_step(*cfg, v0, st0, k, clip_view(clipboard)).actions);
    (actions, true)
}

/// V going down in a focused, editable cell.
fn key_paste(
    cfg: &CellConfig,
    value: &mut Vec<String>,
    state: &mut CellState,
    k: CellKey,
    clipboard: Option<String>,
) -> (r: (Vec<CellAction>, bool))
    requires
        k == CellKey::V,
    ensures
        ({
            let s = key_step(*cfg, string_views(old(value)@), old(state)@, k, clip_view(clipboard));
            &&& string_views(final(value)@) == s.value
            &&& final(state)@ == s.state
            &&& action_views(r.0@) == s.actions
            &&& r.1 == s.captured
        }),
        old(state).command ==> concat_all(string_views(final(value)@)) == spliced_text(
            string_views(old(value)@),
            old(state).cursor,
            paste_text(old(state)@, clip_view(clipboard)),
        ),
{
    let mut actions: Vec<CellAction> = Vec::new();
    actions.push(CellAction::RestartBlink);
    let ghost v0 = string_views(value@);
    let ghost st0 = state@;
    if state.command {
        let content = match &state.pasting {
            Some(p) => copy_range(p, 0, p.len()),
            None => {
                let empty = String::new();
                let text = match &clipboard {
                    Some(t) => without_controls(t.as_str()),
                    None => without_controls(empty.as_str()),
                };
                assert(text@ == paste_text(state@, clip_view(clipboard)));
                graphemes_of(text.as_str())
            },
        };
        proof {
            if let Some(p) = &state.pasting {
                assert(string_views(p@).subrange(0, p.len() as int) =~= string_views(p@));
            }
        }
        let mut c = state.cursor;
        paste(value, &mut c, &content);
        state.cursor = c;
        state.pasting = Some(content);
        let text = contents(value);
        if cfg.has_on_paste {
            actions.push(CellAction::Paste(cfg.pos, text));
        } else {
            actions.push(CellAction::Publish(cfg.pos, text));
        }
    } else {
        state.pasting = None;
    }
    assert(action_views(actions@) =~= key_step(*cfg, v0, st0, k, clip_view(clipboard)).actions);
    (actions, true)
}

/// Escape going down in a focused, editable cell.
fn key_escape(
    cfg: &CellConfig,
    value: &mut Vec<String>,
    state: &mut CellState,
    k: CellKey,
    clipboard: Option<String>,
) -> (r: (Vec<CellAction>, bool))
    requires
        k == CellKey::Escape,
    ensures
        ({
            let s = key_step(*cfg, string_views(old(value)@), old(state)@, k, clip_view(clipboard));
            &&& string_views(final(value)@) == s.value
            &&& final(state)@ == s.state
            &&& action_views(r.0@) == s.actions
            &&& r.1 == s.captured
        }),
{
    let mut actions: Vec<CellAction> = Vec::new();
    actions.push(CellAction::RestartBlink);
    let ghost v0 = string_views(value@);
    let ghost st0 = state@;
    state.focused = false;
    state.dragging = false;
    state.pasting = None;
    state.shift = false;
    state.command = false;
    state.jump = false;
    assert(action_views(actions@) =~= key_step(*cfg, v0, st0, k, clip_view(clipboard)).actions);
    (actions, true)
}

/// A key going down in a focused, editable cell.
fn key_step_exec(
    cfg: &CellConfig,
    value: &mut Vec<String>,
    state: &mut CellState,
    k: CellKey,
    clipboard: Option<String>,
) -> (r: (Vec<CellAction>, bool))
    ensures
        ({
            let s = key_step(*cfg, string_views(old(value)@), old(state)@, k, clip_view(clipboard));
            &&& string_views(final(value)@) == s.value
            &&& final(state)@ == s.state
            &&& action_views(r.0@) == s.actions
            &&& r.1 == s.captured
        }),
        k == CellKey::V && old(state).command ==> concat_all(string_views(final(value)@))
            == spliced_text(
            string_views(old(value)@),
            old(state).cursor,
            paste_text(old(state)@, clip_view(clipboard)),
        ),
{
    match k {
        CellKey::Enter => key_enter(cfg, value, state, k, clipboard),
        CellKey::Backspace | CellKey::Delete => key_erase(cfg, value, state, k, clipboard),
        CellKey::Left | CellKey::Right | CellKey::Home | CellKey::End | CellKey::A => key_move(
            cfg,
            value,
            state,
            k,
            clipboard,
        ),
        CellKey::C => key_copy(cfg, value, state, k, clipboard),
        CellKey::X => key_cut(cfg, value, state, k, clipboard),
        CellKey::V => key_paste(cfg, value, state, k, clipboard),
        CellKey::Escape => key_escape(cfg, value, state, k, clipboard),
        _ => {
            let mut actions: Vec<CellAction> = Vec::new();
            actions.push(CellAction::RestartBlink);
            let captured = !(k == CellKey::Tab || k == CellKey::Up || k == CellKey::Down);
            assert(action_views(actions@) =~= key_step(
                *cfg,
                string_views(value@),
                state@,
                k,
                clip_view(clipboard),
            ).actions);
            (actions, captured)
        },
    }
}

/// How a cell answers an event: its text and state change, and it says
/// what the window should do and whether it took the event. The window
/// hands it the clipboard's text for a paste.
///
/// A click over an editable cell focuses it and places the cursor, selects
/// a word or selects everything; a click elsewhere takes the focus away. A
/// drag grows the selection. A typed character replaces the selection, or
/// goes in at the cursor. Backspace and Delete erase the selection, or one
/// cluster, or a word with the jump key. The arrows, Home and End move the
/// cursor, or grow the selection with shift. With the command key, C
/// copies the selection, X cuts it, V pastes and A selects everything.
/// Escape gives up the focus; Enter submits.
pub fn cell_step(
    cfg: &CellConfig,
    value: &mut Vec<String>,
    state: &mut CellState,
    event: CellEvent,
    clipboard: Option<String>,
) -> (r: (Vec<CellAction>, bool))
    requires
        event matches CellEvent::Pressed { at, .. } ==> at <= old(value).len(),
    ensures
        ({
            let s = cell_step_spec(
                *cfg,
                string_views(old(value)@),
                old(state)@,
                event,
                clip_view(clipboard),
            );
            &&& string_views(final(value)@) == s.value
            &&& final(state)@ == s.state
            &&& action_views(r.0@) == s.actions
            &&& r.1 == s.captured
        }),
        event matches CellEvent::Char(ch) ==> (old(state).focused && cfg.editable
            && old(state).pasting is None && !old(state).command && !is_control(ch)
            ==> concat_all(string_views(final(value)@)) == spliced_text(
            string_views(old(value)@),
            old(state).cursor,
            seq![ch],
        )),
        event == CellEvent::KeyPressed(CellKey::V) && old(state).focused && cfg.editable
            && old(state).command ==> concat_all(string_views(final(value)@)) == spliced_text(
            string_views(old(value)@),
            old(state).cursor,
            paste_text(old(state)@, clip_view(clipboard)),
        ),
{
    let n = value.len();
    let ghost v0 = string_views(value@);
    let ghost st0 = state@;
    match event {
        CellEvent::Pressed { over, click, at } => {
            if cfg.editable && over {
                state.focused = true;
                match click {
                    Click::Single => {
                        state.cursor = if state.shift {
                            CursorState::select_range(state.cursor.start(n), at)
                        } else {
                            CursorState::Index(at)
                        };
                        state.dragging = true;
                    },
                    Click::Double => {
                        state.cursor = if cfg.is_secure {
                            CursorState::select_range(0, n)
                        } else {
                            CursorState::select_range(
                                previous_start_of_word_exec(value, at),
                                next_end_of_word_exec(value, at),
                            )
                        };
                        state.dragging = false;
                    },
                    Click::Triple => {
                        state.cursor = CursorState::select_range(0, n);
                        state.dragging = false;
                    },
                }
                let actions: Vec<CellAction> = Vec::new();
                assert(action_views(actions@) =~= Seq::<ActionView>::empty());
                (actions, true)
            } else {
                state.focused = false;
                let actions: Vec<CellAction> = Vec::new();
                assert(action_views(actions@) =~= Seq::<ActionView>::empty());
                (actions, false)
            }
        },
        CellEvent::Released => {
            state.dragging = false;
            let actions: Vec<CellAction> = Vec::new();
            assert(action_views(actions@) =~= Seq::<ActionView>::empty());
            (actions, false)
        },
        CellEvent::Dragged(at) => {
            let captured = state.dragging;
            if state.dragging {
                state.cursor = CursorState::select_range(state.cursor.start(n), at);
            }
            let actions: Vec<CellAction> = Vec::new();
            assert(action_views(actions@) =~= Seq::<ActionView>::empty());
            (actions, captured)
        },
        CellEvent::Char(ch) => {
            let mut actions: Vec<CellAction> = Vec::new();
            if state.focused && cfg.editable && state.pasting.is_none() && !state.command
                && !control(ch) {
                let mut c = state.cursor;
                insert(value, &mut c, ch);
                state.cursor = c;
                actions.push(CellAction::Publish(cfg.pos, contents(value)));
                actions.push(CellAction::RestartBlink);
                assert(action_views(actions@) =~= cell_step_spec(
                    *cfg,
                    v0,
                    st0,
                    event,
                    clip_view(clipboard),
                ).actions);
                (actions, true)
            } else {
                assert(action_views(actions@) =~= Seq::<ActionView>::empty());
                (actions, false)
            }
        },
        CellEvent::KeyPressed(k) => {
            if state.focused && cfg.editable {
                key_step_exec(cfg, value, state, k, clipboard)
            } else {
                let actions: Vec<CellAction> = Vec::new();
                assert(action_views(actions@) =~= Seq::<ActionView>::empty());
                (actions, false)
            }
        },
        CellEvent::KeyReleased(k) => {
            let actions: Vec<CellAction> = Vec::new();
            assert(action_views(actions@) =~= Seq::<ActionView>::empty());
            if state.focused {
                match k {
                    CellKey::V => {
                        state.pasting = None;
                        (actions, true)
                    },
                    CellKey::Tab | CellKey::Up | CellKey::Down => (actions, false),
                    _ => (actions, true),
                }
            } else {
                state.pasting = None;
                (actions, false)
            }
        },
        CellEvent::Modifiers { shift, command, jump } => {
            state.shift = shift;
            state.command = command;
            state.jump = jump;
            let actions: Vec<CellAction> = Vec::new();
            assert(action_views(actions@) =~= Seq::<ActionView>::empty());
            (actions, false)
        },
    }
}

/// With the command key, C on a selection puts the selected text on the
/// clipboard and changes neither the text nor the cursor.
pub proof fn lemma_copy_writes_the_selection(
    cfg: CellConfig,
    v: Seq<Seq<char>>,
    st: CellStateView,
    clip: Option<Seq<char>>,
)
    requires
        st.focused,
        cfg.editable,
        st.command,
        selection(st.cursor, v.len() as usize) is Some,
    ensures
        ({
            let (s, e) = selection(st.cursor, v.len() as usize).unwrap();
            let r = cell_step_spec(cfg, v, st, CellEvent::KeyPressed(CellKey::C), clip);
            &&& r.value == v
            &&& r.state == st
            &&& r.actions == seq![
                ActionView::RestartBlink,
                ActionView::WriteClipboard(concat_all(v.subrange(s as int, e as int))),
            ]
        }),
{
}

/// With the command key, X on a selection puts the selected text on the
/// clipboard, takes it out of the text and publishes what is left.
pub proof fn lemma_cut_moves_the_selection(
    cfg: CellConfig,
    v: Seq<Seq<char>>,
    st: CellStateView,
    clip: Option<Seq<char>>,
)
    requires
        st.focused,
        cfg.editable,
        st.command,
        selection(st.cursor, v.len() as usize) is Some,
    ensures
        ({
            let (s, e) = selection(st.cursor, v.len() as usize).unwrap();
            let r = cell_step_spec(cfg, v, st, CellEvent::KeyPressed(CellKey::X), clip);
            let left = v.subrange(0, s as int) + v.subrange(e as int, v.len() as int);
            &&& r.value == left
            &&& r.state.cursor == CursorState::Index(s)
            &&& r.actions == seq![
                ActionView::RestartBlink,
                ActionView::WriteClipboard(concat_all(v.subrange(s as int, e as int))),
                ActionView::Publish(cfg.pos, concat_all(left)),
            ]
        }),
{
    let n = v.len() as usize;
    let (s, e) = selection(st.cursor, n).unwrap();
    assert(edit_delete(v, st.cursor) == edit_backspace(v, st.cursor));
    assert(move_left(st.cursor, n) == CursorState::Index(s));
}

/// Select-all then copy puts the whole text on the clipboard.
pub proof fn lemma_select_all_then_copy(
    cfg: CellConfig,
    v: Seq<Seq<char>>,
    st: CellStateView,
    clip: Option<Seq<char>>,
)
    requires
        st.focused,
        cfg.editable,
        st.command,
        0 < v.len() <= usize::MAX,
    ensures
        ({
            let a = cell_step_spec(cfg, v, st, CellEvent::KeyPressed(CellKey::A), clip);
            let c = cell_step_spec(cfg, a.value, a.state, CellEvent::KeyPressed(CellKey::C), clip);
            c.actions == seq![ActionView::RestartBlink, ActionView::WriteClipboard(concat_all(v))]
        }),
{
    let n = v.len() as usize;
    let a = cell_step_spec(cfg, v, st, CellEvent::KeyPressed(CellKey::A), clip);
    assert(a.value == v);
    assert(a.state.cursor == CursorState::Selection { start: 0, end: n });
    assert(selection(a.state.cursor, n) == Some((0usize, n)));
    assert(v.subrange(0, n as int) =~= v);
}

/// A character typed at a plain cursor goes in at the cursor: the text
/// becomes the text before the cursor, the character and the text after,
/// cut into clusters again, and it is published.
pub proof fn lemma_typed_char_goes_in_at_the_cursor(
    cfg: CellConfig,
    v: Seq<Seq<char>>,
    st: CellStateView,
    i: usize,
    ch: char,
    clip: Option<Seq<char>>,
)
    requires
        st.focused,
        cfg.editable,
        st.pasting is None,
        !st.command,
        !is_control(ch),
        st.cursor == CursorState::Index(i),
        i <= v.len() <= usize::MAX,
    ensures
        ({
            let r = cell_step_spec(cfg, v, st, CellEvent::Char(ch), clip);
            let t = spec_graphemes(
                concat_all(v.subrange(0, i as int)) + seq![ch] + concat_all(
                    v.subrange(i as int, v.len() as int),
                ),
            );
            &&& r.value == t
            &&& r.actions == seq![ActionView::Publish(cfg.pos, concat_all(t)), ActionView::RestartBlink]
        }),
{
}

/// A click outside the cell takes the focus away and leaves the text and
/// the cursor as they are.
pub proof fn lemma_click_elsewhere_unfocuses(
    cfg: CellConfig,
    v: Seq<Seq<char>>,
    st: CellStateView,
    click: Click,
    at: usize,
    clip: Option<Seq<char>>,
)
    ensures
        ({
            let r = cell_step_spec(cfg, v, st, CellEvent::Pressed { over: false, click, at }, clip);
            &&& !r.state.focused
            &&& r.value == v
            &&& r.state.cursor == st.cursor
            &&& !r.captured
        }),
{
}

/// Whether the action is a message for the table: new text, pasted text
/// or a submit.
pub open spec fn is_message(a: ActionView) -> bool {
    a is Publish || a is Paste || a is Submit
}

/// How many messages for the table the actions hold.
pub open spec fn message_count(a: Seq<ActionView>) -> nat
    decreases a.len(),
{
    if a.len() == 0 {
        0
    } else {
        message_count(a.drop_last()) + if is_message(a.last()) {
            1nat
        } else {
            0nat
        }
    }
}

/// Messages in one, two or three actions.
proof fn lemma_message_count_small(x: ActionView, y: ActionView, z: ActionView)
    ensures
        message_count(seq![x]) == (if is_message(x) {
            1nat
        } else {
            0nat
        }),
        message_count(seq![x, y]) == message_count(seq![x]) + (if is_message(y) {
            1nat
        } else {
            0nat
        }),
        message_count(seq![x, y, z]) == message_count(seq![x, y]) + (if is_message(z) {
            1nat
        } else {
            0nat
        }),
{
    assert(seq![x].drop_last() =~= Seq::<ActionView>::empty());
    assert(seq![x, y].drop_last() =~= seq![x]);
    assert(seq![x, y, z].drop_last() =~= seq![x, y]);
    assert(message_count(Seq::<ActionView>::empty()) == 0);
}

/// A key going down in a focused, editable cell sends at most one
/// message, and one whenever the text changes.
#[verifier::spinoff_prover]
#[verifier::rlimit(60)]
proof fn lemma_key_step_messages(
    cfg: CellConfig,
    v: Seq<Seq<char>>,
    st: CellStateView,
    k: CellKey,
    clip: Option<Seq<char>>,
)
    ensures
        message_count(key_step(cfg, v, st, k, clip).actions) <= 1,
        key_step(cfg, v, st, k, clip).value != v ==> message_count(
            key_step(cfg, v, st, k, clip).actions,
        ) == 1,
{
    let n = v.len() as usize;
    let r = key_step(cfg, v, st, k, clip);
    let blink = ActionView::RestartBlink;
    let w = ActionView::WriteClipboard(seq![]);
    lemma_message_count_small(blink, ActionView::Submit, w);
    match k {
        CellKey::Backspace | CellKey::Delete => {
            lemma_message_count_small(blink, r.actions[1], w);
            assert(r.actions =~= seq![blink, r.actions[1]]);
        },
        CellKey::C => {
            if r.actions.len() == 2 {
                lemma_message_count_small(blink, r.actions[1], w);
                assert(r.actions =~= seq![blink, r.actions[1]]);
            } else {
                assert(r.actions =~= seq![blink]);
            }
        },
        CellKey::X => {
            if st.command {
                if selection(st.cursor, n) is Some {
                    lemma_message_count_small(blink, r.actions[1], r.actions[2]);
                    assert(r.actions =~= seq![blink, r.actions[1], r.actions[2]]);
                } else {
                    lemma_message_count_small(blink, r.actions[1], w);
                    assert(r.actions =~= seq![blink, r.actions[1]]);
                }
            } else {
                assert(r.actions =~= seq![blink]);
            }
        },
        CellKey::V => {
            if st.command {
                lemma_message_count_small(blink, r.actions[1], w);
                assert(r.actions =~= seq![blink, r.actions[1]]);
            } else {
                assert(r.actions =~= seq![blink]);
            }
        },
        CellKey::Enter => {
            if cfg.has_on_submit {
                assert(r.actions =~= seq![blink, ActionView::Submit]);
            } else {
                assert(r.actions =~= seq![blink]);
            }
        },
        _ => {
            assert(r.actions =~= seq![blink]);
        },
    }
}

/// A cell's text changes only when the cell has the focus and can be
/// edited, and the event is a typed character, Backspace or Delete going
/// down, or X or V going down with the command key held.
pub proof fn lemma_text_changes_only_on_edits(
    cfg: CellConfig,
    v: Seq<Seq<char>>,
    st: CellStateView,
    ev: CellEvent,
    clip: Option<Seq<char>>,
)
    ensures
        cell_step_spec(cfg, v, st, ev, clip).value != v ==> st.focused && cfg.editable && (
        ev is Char || ev == CellEvent::KeyPressed(CellKey::Backspace) || ev
            == CellEvent::KeyPressed(CellKey::Delete) || (st.command && (ev == CellEvent::KeyPressed(
            CellKey::X,
        ) || ev == CellEvent::KeyPressed(CellKey::V)))),
{
}

/// An event sends the table at most one message, exactly one whenever it
/// changes the cell's text, and none at all, nor any other action, when
/// the cell cannot be edited.
pub proof fn lemma_one_message_per_event(
    cfg: CellConfig,
    v: Seq<Seq<char>>,
    st: CellStateView,
    ev: CellEvent,
    clip: Option<Seq<char>>,
)
    ensures
        message_count(cell_step_spec(cfg, v, st, ev, clip).actions) <= 1,
        cell_step_spec(cfg, v, st, ev, clip).value != v ==> message_count(
            cell_step_spec(cfg, v, st, ev, clip).actions,
        ) == 1,
        !cfg.editable ==> cell_step_spec(cfg, v, st, ev, clip).actions.len() == 0,
{
    let r = cell_step_spec(cfg, v, st, ev, clip);
    let blink = ActionView::RestartBlink;
    assert(message_count(Seq::<ActionView>::empty()) == 0);
    match ev {
        CellEvent::Char(ch) => {
            if r.actions.len() > 0 {
                lemma_message_count_small(r.actions[0], blink, blink);
                assert(r.actions =~= seq![r.actions[0], blink]);
            }
        },
        CellEvent::KeyPressed(k) => {
            if st.focused && cfg.editable {
                lemma_key_step_messages(cfg, v, st, k, clip);
            }
        },
        _ => {},
    }
}

/// A drag keeps the selection's anchor where it was and moves its other
/// end to where the drag is.
pub proof fn lemma_drag_keeps_the_anchor(
    cfg: CellConfig,
    v: Seq<Seq<char>>,
    st: CellStateView,
    at: usize,
    clip: Option<Seq<char>>,
)
    requires
        st.dragging,
        v.len() <= usize::MAX,
    ensures
        ({
            let n = v.len() as usize;
            let r = cell_step_spec(cfg, v, st, CellEvent::Dragged(at), clip);
            &&& start(r.state.cursor, n) == start(st.cursor, n)
            &&& end(r.state.cursor, n) == if at < n {
                at
            } else {
                n
            }
            &&& r.state.dragging
            &&& r.value == v
        }),
{
}

/// A click at `p` followed by two drags selects from `p` to where the
/// last drag is, whatever the first drag's position.
pub proof fn lemma_click_then_drags_select_from_the_click(
    cfg: CellConfig,
    v: Seq<Seq<char>>,
    st: CellStateView,
    p: usize,
    a: usize,
    b: usize,
    clip: Option<Seq<char>>,
)
    requires
        cfg.editable,
        !st.shift,
        p <= v.len() <= usize::MAX,
    ensures
        ({
            let n = v.len() as usize;
            let r1 = cell_step_spec(
                cfg,
                v,
                st,
                CellEvent::Pressed { over: true, click: Click::Single, at: p },
                clip,
            );
            let r2 = cell_step_spec(cfg, r1.value, r1.state, CellEvent::Dragged(a), clip);
            let r3 = cell_step_spec(cfg, r2.value, r2.state, CellEvent::Dragged(b), clip);
            &&& r3.value == v
            &&& start(r3.state.cursor, n) == p
            &&& end(r3.state.cursor, n) == if b < n {
                b
            } else {
                n
            }
        }),
{
    let r1 = cell_step_spec(
        cfg,
        v,
        st,
        CellEvent::Pressed { over: true, click: Click::Single, at: p },
        clip,
    );
    assert(r1.value == v);
    assert(r1.state.dragging);
    lemma_drag_keeps_the_anchor(cfg, v, r1.state, a, clip);
    let r2 = cell_step_spec(cfg, r1.value, r1.state, CellEvent::Dragged(a), clip);
    lemma_drag_keeps_the_anchor(cfg, v, r2.state, b, clip);
}

} // verus!
