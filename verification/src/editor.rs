//! The editor state machine: modes, actions, the dispatcher that applies an
//! action to the aggregate state, and the cursor/viewport clamp that runs
//! after every action. The whole transition is specified by `step_key` over
//! an `EditorView`, and every step keeps the state invariant `wf`.

use vstd::prelude::*;

use crate::buffer::{Buffer, BufferView, EditError};
use crate::text::{chars_eq_str, clone_chars, split_ws, split_ws_chars};

verus! {

/// The editing mode: how key input is interpreted.
#[derive(Clone, Copy, Debug, PartialEq, Eq, Structural)]
pub enum Mode {
    /// Navigation and commands on single keys.
    Normal,
    /// Typed characters go into the buffer.
    Insert,
    /// A colon command is being typed.
    Command,
}

/// A key press, as the surrounding program reports it.
#[derive(Clone, Copy, Debug, PartialEq, Eq, Structural)]
pub enum Key {
    Up,
    Down,
    Left,
    Right,
    Enter,
    Esc,
    Backspace,
    /// A printable character.
    Char(char),
    /// Any key the editor does not interpret.
    Other,
}

/// A status message for the status line; the surrounding program renders it
/// as text.
#[derive(Clone, Copy, Debug, PartialEq, Eq, Structural)]
pub enum Status {
    FileSaved,
    FileSavedAs,
    SaveFailed,
    NoFileName,
    UnsavedChanges,
    UnknownCommand,
}

/// An intent produced by the mode machine and applied atomically by the
/// dispatcher.
#[derive(Debug)]
pub enum Action {
    Quit,
    Save,
    SaveAs(Vec<char>),
    MoveUp,
    MoveDown,
    MoveLeft,
    MoveRight,
    MoveStartOfLine,
    MoveEndOfLine,
    PageUp,
    PageDown,
    AddChar(char),
    NewLine,
    DeleteChar,
    DeleteLine,
    EnterMode(Mode),
    NextBuffer,
    PreviousBuffer,
    ExecuteCommand(Vec<char>),
}

/// The ghost counterpart of an `Action`, over character sequences.
pub enum Act {
    Quit,
    Save,
    SaveAs(Seq<char>),
    MoveUp,
    MoveDown,
    MoveLeft,
    MoveRight,
    MoveStartOfLine,
    MoveEndOfLine,
    PageUp,
    PageDown,
    AddChar(char),
    NewLine,
    DeleteChar,
    DeleteLine,
    EnterMode(Mode),
    NextBuffer,
    PreviousBuffer,
    ExecuteCommand(Seq<char>),
}

impl View for Action {
    type V = Act;

    open spec fn view(&self) -> Act {
        match self {
            Action::Quit => Act::Quit,
            Action::Save => Act::Save,
            Action::SaveAs(p) => Act::SaveAs(p@),
            Action::MoveUp => Act::MoveUp,
            Action::MoveDown => Act::MoveDown,
            Action::MoveLeft => Act::MoveLeft,
            Action::MoveRight => Act::MoveRight,
            Action::MoveStartOfLine => Act::MoveStartOfLine,
            Action::MoveEndOfLine => Act::MoveEndOfLine,
            Action::PageUp => Act::PageUp,
            Action::PageDown => Act::PageDown,
            Action::AddChar(c) => Act::AddChar(*c),
            Action::NewLine => Act::NewLine,
            Action::DeleteChar => Act::DeleteChar,
            Action::DeleteLine => Act::DeleteLine,
            Action::EnterMode(m) => Act::EnterMode(*m),
            Action::NextBuffer => Act::NextBuffer,
            Action::PreviousBuffer => Act::PreviousBuffer,
            Action::ExecuteCommand(c) => Act::ExecuteCommand(c@),
        }
    }
}

/// What the dispatcher asks the surrounding program to write to disk; the
/// program reports the outcome back through `finish_save` or
/// `finish_save_as`.
#[derive(Debug)]
pub enum SaveRequest {
    /// Nothing to write.
    NoSave,
    /// Write the active buffer to its bound path.
    SaveCurrent,
    /// Write the active buffer to this path.
    SaveCurrentAs(Vec<char>),
}

/// The ghost counterpart of a `SaveRequest`.
pub enum SaveReq {
    NoSave,
    SaveCurrent,
    SaveCurrentAs(Seq<char>),
}

impl View for SaveRequest {
    type V = SaveReq;

    open spec fn view(&self) -> SaveReq {
        match self {
            SaveRequest::NoSave => SaveReq::NoSave,
            SaveRequest::SaveCurrent => SaveReq::SaveCurrent,
            SaveRequest::SaveCurrentAs(p) => SaveReq::SaveCurrentAs(p@),
        }
    }
}

/// The views of a sequence of buffers.
pub open spec fn buffers_view(bs: Seq<Buffer>) -> Seq<BufferView> {
    Seq::new(bs.len(), |i: int| bs[i]@)
}

/// The mathematical content of the whole editor state.
#[verifier::ext_equal]
pub struct EditorView {
    pub buffers: Seq<BufferView>,
    pub active: int,
    pub cols: int,
    pub rows: int,
    pub cx: int,
    pub cy: int,
    pub mode: Mode,
    pub exit: bool,
    pub scroll: int,
    pub command_line: Seq<char>,
    pub status: Option<Status>,
}

/// The largest column the cursor may rest on in `mode` on a line of `len`
/// characters: one past the end while inserting, on the last character
/// otherwise.
pub open spec fn col_cap(mode: Mode, len: int) -> int {
    if mode == Mode::Insert {
        len
    } else if len > 0 {
        len - 1
    } else {
        0
    }
}

/// The farthest the viewport may scroll: the last line sits on the bottom
/// row, and a buffer that fits entirely is never scrolled.
pub open spec fn max_scroll(len: int, visible: int) -> int {
    if len > visible {
        len - visible
    } else {
        0
    }
}

impl EditorView {
    /// The buffer under edit.
    pub open spec fn cur(self) -> BufferView {
        self.buffers[self.active]
    }

    /// Rows available for text: the terminal height minus two reserved
    /// rows, never less than one.
    pub open spec fn visible(self) -> int {
        if self.rows >= 3 {
            self.rows - 2
        } else {
            1
        }
    }

    /// Structure that every reachable state keeps: at least one well-formed
    /// buffer, the active index in range, coordinates non-negative.
    pub open spec fn base_wf(self) -> bool {
        &&& self.buffers.len() >= 1
        &&& 0 <= self.active < self.buffers.len()
        &&& forall|i: int| 0 <= i < self.buffers.len() ==> (#[trigger] self.buffers[i]).wf()
        &&& self.cx >= 0
        &&& self.cy >= 0
        &&& self.scroll >= 0
        &&& self.rows >= 0
        &&& self.cols >= 0
    }

    /// The full state invariant: structure, the cursor on a line and within
    /// the mode's column bound, and the cursor inside the scroll window.
    pub open spec fn wf(self) -> bool {
        &&& self.base_wf()
        &&& self.cy < self.cur().lines.len()
        &&& self.cx <= col_cap(self.mode, self.cur().lines[self.cy].len() as int)
        &&& self.scroll <= self.cy
        &&& self.cy < self.scroll + self.visible()
        &&& self.scroll <= max_scroll(self.cur().lines.len() as int, self.visible())
    }
}

/// `v` with its active buffer replaced.
pub open spec fn with_cur(v: EditorView, b: BufferView) -> EditorView {
    EditorView { buffers: v.buffers.update(v.active, b), ..v }
}

/// `v` with a status message set.
pub open spec fn with_status(v: EditorView, s: Status) -> EditorView {
    EditorView { status: Some(s), ..v }
}

/// Clamps the cursor to the buffer and the viewport to the cursor: row onto
/// an existing line, column within the mode's bound, then the scroll window
/// pulled up or pushed down to contain the row and clamped so no blank
/// filler shows past the content.
pub open spec fn clamp(v: EditorView) -> EditorView {
    let len = v.cur().lines.len() as int;
    let cy = if v.cy >= len {
        len - 1
    } else {
        v.cy
    };
    let cap = col_cap(v.mode, v.cur().lines[cy].len() as int);
    let cx = if v.cx > cap {
        cap
    } else {
        v.cx
    };
    let s1 = if cy < v.scroll {
        cy
    } else {
        v.scroll
    };
    let s2 = if cy >= s1 + v.visible() {
        cy - v.visible() + 1
    } else {
        s1
    };
    let s3 = if s2 > max_scroll(len, v.visible()) {
        max_scroll(len, v.visible())
    } else {
        s2
    };
    EditorView { cy, cx, scroll: s3, ..v }
}

/// Save intent on the active buffer: a write request when a path is bound,
/// a status message otherwise.
pub open spec fn save_step(v: EditorView) -> (EditorView, SaveReq) {
    match v.cur().file {
        Option::Some(_) => (v, SaveReq::SaveCurrent),
        Option::None => (with_status(v, Status::NoFileName), SaveReq::NoSave),
    }
}

/// The save command and its long form.
pub open spec fn cmd_write(t: Seq<char>) -> bool {
    t == "w"@ || t == "write"@
}

/// The guarded quit command and its long form.
pub open spec fn cmd_quit(t: Seq<char>) -> bool {
    t == "q"@ || t == "quit"@
}

/// The forced quit command and its long form.
pub open spec fn cmd_force_quit(t: Seq<char>) -> bool {
    t == "q!"@ || t == "quit!"@
}

/// Save, then quit.
pub open spec fn cmd_write_quit(t: Seq<char>) -> bool {
    t == "wq"@
}

/// Executes a colon command line: `w`/`write` with an optional path,
/// `q`/`quit` guarded by the modified flag, `q!`/`quit!` unguarded, `wq`,
/// and a status message for anything else.
pub open spec fn run_command(v: EditorView, cl: Seq<char>) -> (EditorView, SaveReq) {
    let toks = split_ws(cl);
    if toks.len() == 0 {
        (v, SaveReq::NoSave)
    } else if cmd_write(toks[0]) {
        if toks.len() > 1 {
            (v, SaveReq::SaveCurrentAs(toks[1]))
        } else {
            save_step(v)
        }
    } else if cmd_quit(toks[0]) {
        if !v.cur().modified {
            (EditorView { exit: true, ..v }, SaveReq::NoSave)
        } else {
            (with_status(v, Status::UnsavedChanges), SaveReq::NoSave)
        }
    } else if cmd_force_quit(toks[0]) {
        (EditorView { exit: true, ..v }, SaveReq::NoSave)
    } else if cmd_write_quit(toks[0]) {
        (EditorView { exit: true, ..save_step(v).0 }, save_step(v).1)
    } else {
        (with_status(v, Status::UnknownCommand), SaveReq::NoSave)
    }
}

/// Inserting a character at the cursor, when the cursor addresses a valid
/// slot and the character is not a line feed; anything else is a silent
/// no-op.
pub open spec fn apply_add_char(v: EditorView, c: char) -> EditorView {
    if v.cy < v.cur().lines.len() && v.cx <= v.cur().lines[v.cy].len() && c != '\n' {
        let b = BufferView {
            lines: v.cur().lines.update(v.cy, v.cur().lines[v.cy].insert(v.cx, c)),
            modified: true,
            ..v.cur()
        };
        EditorView { cx: v.cx + 1, ..with_cur(v, b) }
    } else {
        v
    }
}

/// Splitting the current line at the cursor; the cursor moves to the start
/// of the new line.
pub open spec fn apply_new_line(v: EditorView) -> EditorView {
    if v.cy < v.cur().lines.len() && v.cx <= v.cur().lines[v.cy].len() {
        let line = v.cur().lines[v.cy];
        let b = BufferView {
            lines: v.cur().lines.update(v.cy, line.take(v.cx)).insert(v.cy + 1, line.skip(v.cx)),
            modified: true,
            ..v.cur()
        };
        EditorView { cx: 0, cy: v.cy + 1, ..with_cur(v, b) }
    } else {
        v
    }
}

/// Deleting the character left of the cursor; at column zero of a later
/// line, the line is merged into the one above and the cursor moves to the
/// join point.
pub open spec fn apply_delete_char(v: EditorView) -> EditorView {
    let len = v.cur().lines.len();
    if v.cx > 0 {
        if v.cy < len && v.cx - 1 < v.cur().lines[v.cy].len() {
            let b = BufferView {
                lines: v.cur().lines.update(v.cy, v.cur().lines[v.cy].remove(v.cx - 1)),
                modified: true,
                ..v.cur()
            };
            EditorView { cx: v.cx - 1, ..with_cur(v, b) }
        } else {
            v
        }
    } else if v.cy > 0 && v.cy < len {
        let prev = v.cur().lines[v.cy - 1];
        let b = BufferView {
            lines: v.cur().lines.update(v.cy - 1, prev + v.cur().lines[v.cy]).remove(v.cy),
            modified: true,
            ..v.cur()
        };
        EditorView { cx: prev.len() as int, cy: v.cy - 1, ..with_cur(v, b) }
    } else {
        v
    }
}

/// Removing the current line; the only line of a buffer is cleared instead.
pub open spec fn apply_delete_line(v: EditorView) -> EditorView {
    let len = v.cur().lines.len();
    if v.cy < len {
        let b = BufferView {
            lines: (if len == 1 {
                seq![Seq::<char>::empty()]
            } else {
                v.cur().lines.remove(v.cy)
            }),
            modified: true,
            ..v.cur()
        };
        with_cur(v, b)
    } else {
        v
    }
}

/// The dispatcher: one action, applied atomically.
pub open spec fn apply_act(v: EditorView, a: Act) -> (EditorView, SaveReq) {
    match a {
        Act::Quit => (EditorView { exit: true, ..v }, SaveReq::NoSave),
        Act::Save => save_step(v),
        Act::SaveAs(p) => (v, SaveReq::SaveCurrentAs(p)),
        Act::MoveUp => (
            EditorView {
                cy: if v.cy > 0 {
                    v.cy - 1
                } else {
                    0
                },
                ..v
            },
            SaveReq::NoSave,
        ),
        Act::MoveDown => (
            EditorView {
                cy: if v.cy + 1 < v.cur().lines.len() {
                    v.cy + 1
                } else {
                    v.cy
                },
                ..v
            },
            SaveReq::NoSave,
        ),
        Act::MoveLeft => (
            EditorView {
                cx: if v.cx > 0 {
                    v.cx - 1
                } else {
                    0
                },
                ..v
            },
            SaveReq::NoSave,
        ),
        Act::MoveRight => (
            EditorView {
                cx: if v.cx < v.cur().lines[v.cy].len() {
                    v.cx + 1
                } else {
                    v.cx
                },
                ..v
            },
            SaveReq::NoSave,
        ),
        Act::MoveStartOfLine => (EditorView { cx: 0, ..v }, SaveReq::NoSave),
        Act::MoveEndOfLine => (
            EditorView { cx: v.cur().lines[v.cy].len() as int, ..v },
            SaveReq::NoSave,
        ),
        Act::PageUp => (
            EditorView {
                cy: if v.cy >= v.visible() {
                    v.cy - v.visible()
                } else {
                    0
                },
                ..v
            },
            SaveReq::NoSave,
        ),
        Act::PageDown => (
            EditorView {
                cy: if v.cy + v.visible() < v.cur().lines.len() - 1 {
                    v.cy + v.visible()
                } else {
                    v.cur().lines.len() - 1
                },
                ..v
            },
            SaveReq::NoSave,
        ),
        Act::AddChar(c) => (apply_add_char(v, c), SaveReq::NoSave),
        Act::NewLine => (apply_new_line(v), SaveReq::NoSave),
        Act::DeleteChar => (apply_delete_char(v), SaveReq::NoSave),
        Act::DeleteLine => (apply_delete_line(v), SaveReq::NoSave),
        Act::EnterMode(m) => (
            EditorView {
                mode: m,
                command_line: if m == Mode::Command || v.mode == Mode::Command {
                    Seq::empty()
                } else {
                    v.command_line
                },
                ..v
            },
            SaveReq::NoSave,
        ),
        Act::NextBuffer => (
            EditorView {
                active: if v.active + 1 < v.buffers.len() {
                    v.active + 1
                } else {
                    0
                },
                ..v
            },
            SaveReq::NoSave,
        ),
        Act::PreviousBuffer => (
            EditorView {
                active: if v.active == 0 {
                    v.buffers.len() - 1
                } else {
                    v.active - 1
                },
                ..v
            },
            SaveReq::NoSave,
        ),
        Act::ExecuteCommand(cl) => run_command(v, cl),
    }
}

/// The key table of Normal mode.
pub open spec fn normal_act(key: Key, ctrl: bool) -> Option<Act> {
    if key == Key::Char(':') {
        Some(Act::EnterMode(Mode::Command))
    } else if key == Key::Char('i') {
        Some(Act::EnterMode(Mode::Insert))
    } else if key == Key::Up || key == Key::Char('k') {
        Some(Act::MoveUp)
    } else if key == Key::Down || key == Key::Char('j') {
        Some(Act::MoveDown)
    } else if key == Key::Left || key == Key::Char('h') {
        Some(Act::MoveLeft)
    } else if key == Key::Right || key == Key::Char('l') {
        Some(Act::MoveRight)
    } else if key == Key::Char('0') {
        Some(Act::MoveStartOfLine)
    } else if key == Key::Char('$') {
        Some(Act::MoveEndOfLine)
    } else if key == Key::Char('n') {
        Some(Act::NextBuffer)
    } else if key == Key::Char('p') {
        Some(Act::PreviousBuffer)
    } else if key == Key::Char('d') && ctrl {
        Some(Act::PageDown)
    } else if key == Key::Char('u') && ctrl {
        Some(Act::PageUp)
    } else if key == Key::Char('w') && ctrl {
        Some(Act::Save)
    } else if key == Key::Char('d') {
        Some(Act::DeleteLine)
    } else {
        None
    }
}

/// The key table of Insert mode.
pub open spec fn insert_act(key: Key) -> Option<Act> {
    match key {
        Key::Esc => Some(Act::EnterMode(Mode::Normal)),
        Key::Enter => Some(Act::NewLine),
        Key::Backspace => Some(Act::DeleteChar),
        Key::Char(c) => Some(Act::AddChar(c)),
        _ => None,
    }
}

/// One key, before the clamp: the mode machine maps it to an action and the
/// dispatcher applies it; Command mode edits the command line directly.
pub open spec fn step_key_raw(v: EditorView, key: Key, ctrl: bool) -> (EditorView, SaveReq) {
    match v.mode {
        Mode::Normal => match normal_act(key, ctrl) {
            Some(a) => apply_act(v, a),
            None => (v, SaveReq::NoSave),
        },
        Mode::Insert => match insert_act(key) {
            Some(a) => apply_act(v, a),
            None => (v, SaveReq::NoSave),
        },
        Mode::Command => match key {
            Key::Esc => apply_act(v, Act::EnterMode(Mode::Normal)),
            Key::Enter => (
                apply_act(run_command(v, v.command_line).0, Act::EnterMode(Mode::Normal)).0,
                run_command(v, v.command_line).1,
            ),
            Key::Backspace => (
                EditorView {
                    command_line: if v.command_line.len() > 0 {
                        v.command_line.drop_last()
                    } else {
                        v.command_line
                    },
                    ..v
                },
                SaveReq::NoSave,
            ),
            Key::Char(c) => (
                EditorView { command_line: v.command_line.push(c), ..v },
                SaveReq::NoSave,
            ),
            _ => (v, SaveReq::NoSave),
        },
    }
}

/// One key, clamped: the whole transition one input event causes.
pub open spec fn step_key(v: EditorView, key: Key, ctrl: bool) -> (EditorView, SaveReq) {
    (clamp(step_key_raw(v, key, ctrl).0), step_key_raw(v, key, ctrl).1)
}

/// The outcome of a requested save of the active buffer: on success the
/// buffer is clean and the status says so; on failure only the status
/// changes.
pub open spec fn note_saved(v: EditorView, ok: bool) -> EditorView {
    if ok {
        with_status(
            with_cur(v, BufferView { modified: false, ..v.cur() }),
            Status::FileSaved,
        )
    } else {
        with_status(v, Status::SaveFailed)
    }
}

/// The outcome of a requested save-as: on success the buffer is rebound to
/// the path and clean.
pub open spec fn note_saved_as(v: EditorView, p: Seq<char>, ok: bool) -> EditorView {
    if ok {
        with_status(
            with_cur(
                v,
                BufferView { file: Option::Some(p), modified: false, ..v.cur() },
            ),
            Status::FileSavedAs,
        )
    } else {
        with_status(v, Status::SaveFailed)
    }
}

/// Clamping restores the full invariant from the structural one.
pub proof fn lemma_clamp_wf(v: EditorView)
    requires
        v.base_wf(),
    ensures
        clamp(v).wf(),
        clamp(v).buffers == v.buffers,
        clamp(v).active == v.active,
        clamp(v).mode == v.mode,
        clamp(v).exit == v.exit,
        clamp(v).status == v.status,
        clamp(v).command_line == v.command_line,
{
}

/// Executing a command changes only the exit flag, the status and the save
/// request: the full invariant survives.
pub proof fn lemma_run_command_wf(v: EditorView, cl: Seq<char>)
    requires
        v.wf(),
    ensures
        run_command(v, cl).0.wf(),
        run_command(v, cl).0.buffers == v.buffers,
        run_command(v, cl).0.mode == v.mode,
{
}

/// Applying any action to a well-formed state leaves the structural
/// invariant intact; the clamp then restores the rest.
pub proof fn lemma_apply_act_base_wf(v: EditorView, a: Act)
    requires
        v.wf(),
    ensures
        apply_act(v, a).0.base_wf(),
{
    match a {
        Act::AddChar(c) => {
            if v.cy < v.cur().lines.len() && v.cx <= v.cur().lines[v.cy].len() && c != '\n' {
                let line = v.cur().lines[v.cy];
                let nl = line.insert(v.cx, c);
                assert(crate::text::line_ok(nl)) by {
                    assert forall|j: int| 0 <= j < nl.len() implies nl[j] != '\n' by {
                        if j < v.cx {
                            assert(nl[j] == line[j]);
                        } else if j == v.cx {
                            assert(nl[j] == c);
                        } else {
                            assert(nl[j] == line[j - 1]);
                        }
                    }
                }
                let nb = BufferView { lines: v.cur().lines.update(v.cy, nl), modified: true, ..v.cur() };
                assert(nb.wf()) by {
                    assert forall|i: int| 0 <= i < nb.lines.len() implies crate::text::line_ok(
                        #[trigger] nb.lines[i],
                    ) by {
                        if i != v.cy {
                            assert(nb.lines[i] == v.cur().lines[i]);
                        }
                    }
                }
                let w = apply_add_char(v, c);
                assert forall|i: int| 0 <= i < w.buffers.len() implies (#[trigger] w.buffers[i]).wf() by {
                    if i != v.active {
                        assert(w.buffers[i] == v.buffers[i]);
                    }
                }
            }
        },
        Act::NewLine => {
            if v.cy < v.cur().lines.len() && v.cx <= v.cur().lines[v.cy].len() {
                let line = v.cur().lines[v.cy];
                let head = line.take(v.cx);
                let tail = line.skip(v.cx);
                assert(crate::text::line_ok(head)) by {
                    assert forall|j: int| 0 <= j < head.len() implies head[j] != '\n' by {
                        assert(head[j] == line[j]);
                    }
                }
                assert(crate::text::line_ok(tail)) by {
                    assert forall|j: int| 0 <= j < tail.len() implies tail[j] != '\n' by {
                        assert(tail[j] == line[j + v.cx]);
                    }
                }
                let nls = v.cur().lines.update(v.cy, head).insert(v.cy + 1, tail);
                let nb = BufferView { lines: nls, modified: true, ..v.cur() };
                assert(nb.wf()) by {
                    assert forall|i: int| 0 <= i < nls.len() implies crate::text::line_ok(
                        #[trigger] nls[i],
                    ) by {
                        if i < v.cy {
                            assert(nls[i] == v.cur().lines[i]);
                        } else if i == v.cy {
                            assert(nls[i] == head);
                        } else if i == v.cy + 1 {
                            assert(nls[i] == tail);
                        } else {
                            assert(nls[i] == v.cur().lines[i - 1]);
                        }
                    }
                }
                let w = apply_new_line(v);
                assert forall|i: int| 0 <= i < w.buffers.len() implies (#[trigger] w.buffers[i]).wf() by {
                    if i != v.active {
                        assert(w.buffers[i] == v.buffers[i]);
                    }
                }
            }
        },
        Act::DeleteChar => {
            let len = v.cur().lines.len();
            if v.cx > 0 && v.cy < len && v.cx - 1 < v.cur().lines[v.cy].len() {
                let line = v.cur().lines[v.cy];
                let nl = line.remove(v.cx - 1);
                assert(crate::text::line_ok(nl)) by {
                    assert forall|j: int| 0 <= j < nl.len() implies nl[j] != '\n' by {
                        if j < v.cx - 1 {
                            assert(nl[j] == line[j]);
                        } else {
                            assert(nl[j] == line[j + 1]);
                        }
                    }
                }
                let nb = BufferView { lines: v.cur().lines.update(v.cy, nl), modified: true, ..v.cur() };
                assert(nb.wf()) by {
                    assert forall|i: int| 0 <= i < nb.lines.len() implies crate::text::line_ok(
                        #[trigger] nb.lines[i],
                    ) by {
                        if i != v.cy {
                            assert(nb.lines[i] == v.cur().lines[i]);
                        }
                    }
                }
                let w = apply_delete_char(v);
                assert forall|i: int| 0 <= i < w.buffers.len() implies (#[trigger] w.buffers[i]).wf() by {
                    if i != v.active {
                        assert(w.buffers[i] == v.buffers[i]);
                    }
                }
            } else if v.cx == 0 && v.cy > 0 && v.cy < len {
                let prev = v.cur().lines[v.cy - 1];
                let merged = prev + v.cur().lines[v.cy];
                assert(crate::text::line_ok(merged)) by {
                    assert forall|j: int| 0 <= j < merged.len() implies merged[j] != '\n' by {
                        if j < prev.len() {
                            assert(merged[j] == prev[j]);
                        } else {
                            assert(merged[j] == v.cur().lines[v.cy][j - prev.len()]);
                        }
                    }
                }
                let nls = v.cur().lines.update(v.cy - 1, merged).remove(v.cy);
                let nb = BufferView { lines: nls, modified: true, ..v.cur() };
                assert(nb.wf()) by {
                    assert(nls.len() == len - 1);
                    assert forall|i: int| 0 <= i < nls.len() implies crate::text::line_ok(
                        #[trigger] nls[i],
                    ) by {
                        if i < v.cy - 1 {
                            assert(nls[i] == v.cur().lines[i]);
                        } else if i == v.cy - 1 {
                            assert(nls[i] == merged);
                        } else {
                            assert(nls[i] == v.cur().lines[i + 1]);
                        }
                    }
                }
                let w = apply_delete_char(v);
                assert forall|i: int| 0 <= i < w.buffers.len() implies (#[trigger] w.buffers[i]).wf() by {
                    if i != v.active {
                        assert(w.buffers[i] == v.buffers[i]);
                    }
                }
            }
        },
        Act::DeleteLine => {
            let len = v.cur().lines.len();
            if v.cy < len {
                let nls = if len == 1 {
                    seq![Seq::<char>::empty()]
                } else {
                    v.cur().lines.remove(v.cy)
                };
                let nb = BufferView { lines: nls, modified: true, ..v.cur() };
                assert(nb.wf()) by {
                    if len == 1 {
                        assert(nls[0].len() == 0);
                    } else {
                        assert forall|i: int| 0 <= i < nls.len() implies crate::text::line_ok(
                            #[trigger] nls[i],
                        ) by {
                            if i < v.cy {
                                assert(nls[i] == v.cur().lines[i]);
                            } else {
                                assert(nls[i] == v.cur().lines[i + 1]);
                            }
                        }
                    }
                }
                let w = apply_delete_line(v);
                assert forall|i: int| 0 <= i < w.buffers.len() implies (#[trigger] w.buffers[i]).wf() by {
                    if i != v.active {
                        assert(w.buffers[i] == v.buffers[i]);
                    }
                }
            }
        },
        Act::ExecuteCommand(cl) => {
            lemma_run_command_wf(v, cl);
        },
        _ => {},
    }
}

/// Any key, in any mode, leaves the structural invariant intact before the
/// clamp.
pub proof fn lemma_step_raw_base_wf(v: EditorView, key: Key, ctrl: bool)
    requires
        v.wf(),
    ensures
        step_key_raw(v, key, ctrl).0.base_wf(),
{
    match v.mode {
        Mode::Normal => {
            match normal_act(key, ctrl) {
                Some(a) => lemma_apply_act_base_wf(v, a),
                None => {},
            }
        },
        Mode::Insert => {
            match insert_act(key) {
                Some(a) => lemma_apply_act_base_wf(v, a),
                None => {},
            }
        },
        Mode::Command => {
            match key {
                Key::Enter => {
                    lemma_run_command_wf(v, v.command_line);
                    lemma_apply_act_base_wf(
                        run_command(v, v.command_line).0,
                        Act::EnterMode(Mode::Normal),
                    );
                },
                _ => {},
            }
        },
    }
}

/// The editor: the buffer list and everything the dispatcher mutates.
pub struct Editor {
    /// The open buffers, in the order given at startup; never empty.
    pub buffers: Vec<Buffer>,
    /// Index of the buffer under edit.
    pub active_buffer: usize,
    /// Terminal size as (columns, rows).
    pub size: (u16, u16),
    /// Cursor column, in characters.
    pub cx: usize,
    /// Cursor row, a line index of the active buffer.
    pub cy: usize,
    /// The current editing mode.
    pub mode: Mode,
    /// Set by a quit action; the run loop exits after the next render.
    pub exit: bool,
    /// First visible row of the viewport.
    pub scroll_offset: usize,
    /// The colon command being typed, while in Command mode.
    pub command_line: Vec<char>,
    /// The last status message, if any.
    pub status_message: Option<Status>,
}

impl View for Editor {
    type V = EditorView;

    open spec fn view(&self) -> EditorView {
        EditorView {
            buffers: buffers_view(self.buffers@),
            active: self.active_buffer as int,
            cols: self.size.0 as int,
            rows: self.size.1 as int,
            cx: self.cx as int,
            cy: self.cy as int,
            mode: self.mode,
            exit: self.exit,
            scroll: self.scroll_offset as int,
            command_line: self.command_line@,
            status: self.status_message,
        }
    }
}

impl Editor {
    /// A new editor over at least one buffer, in Normal mode, with the
    /// cursor and the viewport at the origin.
    pub fn new(buffers: Vec<Buffer>, size: (u16, u16)) -> (r: Result<Editor, EditError>)
        requires
            forall|i: int| 0 <= i < buffers@.len() ==> (#[trigger] buffers@[i]@).wf(),
        ensures
            r is Ok <==> buffers@.len() >= 1,
            r matches Err(e) ==> e == EditError::NoBuffers,
            r matches Ok(ed) ==> ed@ == (EditorView {
                buffers: buffers_view(buffers@),
                active: 0,
                cols: size.0 as int,
                rows: size.1 as int,
                cx: 0,
                cy: 0,
                mode: Mode::Normal,
                exit: false,
                scroll: 0,
                command_line: Seq::empty(),
                status: None,
            }),
            r matches Ok(ed) ==> ed@.wf(),
    {
        if buffers.len() == 0 {
            return Err(EditError::NoBuffers);
        }
        let ed = Editor {
            buffers,
            active_buffer: 0,
            size,
            cx: 0,
            cy: 0,
            mode: Mode::Normal,
            exit: false,
            scroll_offset: 0,
            command_line: Vec::new(),
            status_message: None,
        };
        proof {
            assert(ed@ =~= (EditorView {
                buffers: buffers_view(ed.buffers@),
                active: 0,
                cols: size.0 as int,
                rows: size.1 as int,
                cx: 0,
                cy: 0,
                mode: Mode::Normal,
                exit: false,
                scroll: 0,
                command_line: Seq::empty(),
                status: None,
            }));
            assert(ed@.cur().wf());
        }
        Ok(ed)
    }

    /// Rows available for text.
    pub fn visible_lines(&self) -> (n: usize)
        ensures
            n == self@.visible(),
            n >= 1,
    {
        let rows = self.size.1;
        if rows >= 3 {
            (rows - 2) as usize
        } else {
            1
        }
    }

    /// The buffer under edit.
    pub fn current_buffer(&self) -> (b: &Buffer)
        requires
            self@.base_wf(),
        ensures
            b@ == self@.cur(),
    {
        &self.buffers[self.active_buffer]
    }

    /// Sets the status message.
    pub fn set_status_message(&mut self, msg: Status)
        ensures
            final(self)@ == with_status(old(self)@, msg),
    {
        self.status_message = Some(msg);
        proof {
            assert(final(self)@ =~= with_status(old(self)@, msg));
        }
    }

    /// Clamps the cursor to the buffer and the viewport to the cursor;
    /// restores the invariant after any action or resize.
    pub fn adjust_cursor_position(&mut self)
        requires
            old(self)@.base_wf(),
        ensures
            final(self)@ == clamp(old(self)@),
            final(self)@.wf(),
    {
        let len = self.buffers[self.active_buffer].len();
        if self.cy >= len {
            self.cy = len - 1;
        }
        let line_len = self.buffers[self.active_buffer].lines[self.cy].len();
        let cap = if self.mode == Mode::Insert {
            line_len
        } else if line_len > 0 {
            line_len - 1
        } else {
            0
        };
        if self.cx > cap {
            self.cx = cap;
        }
        let vis = self.visible_lines();
        if self.cy < self.scroll_offset {
            self.scroll_offset = self.cy;
        }
        if self.cy - self.scroll_offset >= vis {
            self.scroll_offset = self.cy - vis + 1;
        }
        let maxs = if len > vis {
            len - vis
        } else {
            0
        };
        if self.scroll_offset > maxs {
            self.scroll_offset = maxs;
        }
        proof {
            assert(self@ =~= clamp(old(self)@));
            lemma_clamp_wf(old(self)@);
        }
    }

    /// Save intent on the active buffer: a request when a path is bound, a
    /// status message otherwise.
    fn do_save_step(&mut self) -> (r: SaveRequest)
        requires
            old(self)@.base_wf(),
        ensures
            final(self)@ == save_step(old(self)@).0,
            r@ == save_step(old(self)@).1,
    {
        if self.buffers[self.active_buffer].file.is_some() {
            proof {
                assert(self@ =~= save_step(old(self)@).0);
            }
            SaveRequest::SaveCurrent
        } else {
            self.status_message = Some(Status::NoFileName);
            proof {
                assert(self@ =~= save_step(old(self)@).0);
            }
            SaveRequest::NoSave
        }
    }

    /// Inserts `c` at the cursor and advances the column.
    fn do_add_char(&mut self, c: char)
        requires
            old(self)@.wf(),
        ensures
            final(self)@ == apply_add_char(old(self)@, c),
    {
        let idx = self.active_buffer;
        let cx = self.cx;
        let cy = self.cy;
        let mut b = self.buffers.remove(idx);
        let res = b.insert_char(cx, cy, c);
        let ghost bv = b@;
        self.buffers.insert(idx, b);
        proof {
            assert(self.buffers@ =~= old(self).buffers@.update(idx as int, self.buffers@[idx as int]));
            assert(buffers_view(self.buffers@) =~= buffers_view(old(self).buffers@).update(
                idx as int,
                bv,
            ));
        }
        if res.is_ok() {
            self.cx = cx + 1;
        }
        proof {
            if res is Ok {
                assert(self@ =~= apply_add_char(old(self)@, c));
            } else {
                assert(buffers_view(self.buffers@) =~= buffers_view(old(self).buffers@));
                assert(self@ =~= old(self)@);
            }
        }
    }

    /// Splits the current line at the cursor; the cursor moves to the start
    /// of the new line.
    fn do_new_line(&mut self)
        requires
            old(self)@.wf(),
        ensures
            final(self)@ == apply_new_line(old(self)@),
    {
        let idx = self.active_buffer;
        let cx = self.cx;
        let cy = self.cy;
        let blen = self.buffers[idx].len();
        if cy < blen && cx <= self.buffers[idx].lines[cy].len() {
            let mut b = self.buffers.remove(idx);
            b.split_line(cy, cx);
            let ghost bv = b@;
            self.buffers.insert(idx, b);
            self.cx = 0;
            self.cy = cy + 1;
            proof {
                assert(self.buffers@ =~= old(self).buffers@.update(
                    idx as int,
                    self.buffers@[idx as int],
                ));
                assert(buffers_view(self.buffers@) =~= buffers_view(old(self).buffers@).update(
                    idx as int,
                    bv,
                ));
                assert(self@ =~= apply_new_line(old(self)@));
            }
        } else {
            proof {
                assert(self@ =~= apply_new_line(old(self)@));
            }
        }
    }

    /// Deletes left of the cursor, merging into the previous line at column
    /// zero.
    fn do_delete_char(&mut self)
        requires
            old(self)@.wf(),
        ensures
            final(self)@ == apply_delete_char(old(self)@),
    {
        let idx = self.active_buffer;
        let cx = self.cx;
        let cy = self.cy;
        let blen = self.buffers[idx].len();
        if cx > 0 {
            if cy < blen && cx - 1 < self.buffers[idx].lines[cy].len() {
                let mut b = self.buffers.remove(idx);
                let _res = b.remove_char(cx - 1, cy);
                let ghost bv = b@;
                self.buffers.insert(idx, b);
                self.cx = cx - 1;
                proof {
                    assert(self.buffers@ =~= old(self).buffers@.update(
                        idx as int,
                        self.buffers@[idx as int],
                    ));
                    assert(buffers_view(self.buffers@) =~= buffers_view(
                        old(self).buffers@,
                    ).update(idx as int, bv));
                    assert(self@ =~= apply_delete_char(old(self)@));
                }
            } else {
                proof {
                    assert(self@ =~= apply_delete_char(old(self)@));
                }
            }
        } else {
            if cy > 0 && cy < blen {
                let prev_len = self.buffers[idx].lines[cy - 1].len();
                let mut b = self.buffers.remove(idx);
                b.merge_line(cy);
                let ghost bv = b@;
                self.buffers.insert(idx, b);
                self.cx = prev_len;
                self.cy = cy - 1;
                proof {
                    assert(self.buffers@ =~= old(self).buffers@.update(
                        idx as int,
                        self.buffers@[idx as int],
                    ));
                    assert(buffers_view(self.buffers@) =~= buffers_view(
                        old(self).buffers@,
                    ).update(idx as int, bv));
                    assert(self@ =~= apply_delete_char(old(self)@));
                }
            } else {
                proof {
                    assert(self@ =~= apply_delete_char(old(self)@));
                }
            }
        }
    }

    /// Removes the current line; the only line is cleared instead.
    fn do_delete_line(&mut self)
        requires
            old(self)@.wf(),
        ensures
            final(self)@ == apply_delete_line(old(self)@),
    {
        let idx = self.active_buffer;
        let cy = self.cy;
        let blen = self.buffers[idx].len();
        if cy < blen {
            let mut b = self.buffers.remove(idx);
            let _res = b.remove_line(cy);
            let ghost bv = b@;
            self.buffers.insert(idx, b);
            proof {
                assert(self.buffers@ =~= old(self).buffers@.update(
                    idx as int,
                    self.buffers@[idx as int],
                ));
                assert(buffers_view(self.buffers@) =~= buffers_view(old(self).buffers@).update(
                    idx as int,
                    bv,
                ));
                assert(self@ =~= apply_delete_line(old(self)@));
            }
        } else {
            proof {
                assert(self@ =~= apply_delete_line(old(self)@));
            }
        }
    }

    /// Applies one action to the editor state: the single authority for
    /// every mutation. Returns the save request the action calls for; the
    /// surrounding program performs it and reports back through
    /// `finish_save` or `finish_save_as`.
    pub fn handle_action(&mut self, action: Action) -> (r: SaveRequest)
        requires
            old(self)@.wf(),
        ensures
            final(self)@ == apply_act(old(self)@, action@).0,
            r@ == apply_act(old(self)@, action@).1,
    {
        let ghost av = action@;
        match action {
            Action::Quit => {
                self.exit = true;
                proof {
                    assert(self@ =~= apply_act(old(self)@, av).0);
                }
                SaveRequest::NoSave
            },
            Action::Save => self.do_save_step(),
            Action::SaveAs(p) => {
                proof {
                    assert(self@ =~= apply_act(old(self)@, av).0);
                }
                SaveRequest::SaveCurrentAs(p)
            },
            Action::MoveUp => {
                if self.cy > 0 {
                    self.cy = self.cy - 1;
                }
                proof {
                    assert(self@ =~= apply_act(old(self)@, av).0);
                }
                SaveRequest::NoSave
            },
            Action::MoveDown => {
                let len = self.buffers[self.active_buffer].len();
                if self.cy + 1 < len {
                    self.cy = self.cy + 1;
                }
                proof {
                    assert(self@ =~= apply_act(old(self)@, av).0);
                }
                SaveRequest::NoSave
            },
            Action::MoveLeft => {
                if self.cx > 0 {
                    self.cx = self.cx - 1;
                }
                proof {
                    assert(self@ =~= apply_act(old(self)@, av).0);
                }
                SaveRequest::NoSave
            },
            Action::MoveRight => {
                let line_len = self.buffers[self.active_buffer].lines[self.cy].len();
                if self.cx < line_len {
                    self.cx = self.cx + 1;
                }
                proof {
                    assert(self@ =~= apply_act(old(self)@, av).0);
                }
                SaveRequest::NoSave
            },
            Action::MoveStartOfLine => {
                self.cx = 0;
                proof {
                    assert(self@ =~= apply_act(old(self)@, av).0);
                }
                SaveRequest::NoSave
            },
            Action::MoveEndOfLine => {
                let line_len = self.buffers[self.active_buffer].lines[self.cy].len();
                self.cx = line_len;
                proof {
                    assert(self@ =~= apply_act(old(self)@, av).0);
                }
                SaveRequest::NoSave
            },
            Action::PageUp => {
                let vis = self.visible_lines();
                if self.cy >= vis {
                    self.cy = self.cy - vis;
                } else {
                    self.cy = 0;
                }
                proof {
                    assert(self@ =~= apply_act(old(self)@, av).0);
                }
                SaveRequest::NoSave
            },
            Action::PageDown => {
                let vis = self.visible_lines();
                let len = self.buffers[self.active_buffer].len();
                if vis < len - 1 - self.cy {
                    self.cy = self.cy + vis;
                } else {
                    self.cy = len - 1;
                }
                proof {
                    assert(self@ =~= apply_act(old(self)@, av).0);
                }
                SaveRequest::NoSave
            },
            Action::AddChar(c) => {
                self.do_add_char(c);
                SaveRequest::NoSave
            },
            Action::NewLine => {
                self.do_new_line();
                SaveRequest::NoSave
            },
            Action::DeleteChar => {
                self.do_delete_char();
                SaveRequest::NoSave
            },
            Action::DeleteLine => {
                self.do_delete_line();
                SaveRequest::NoSave
            },
            Action::EnterMode(m) => {
                let leaving = self.mode == Mode::Command;
                self.mode = m;
                if m == Mode::Command || leaving {
                    self.command_line = Vec::new();
                }
                proof {
                    assert(self@ =~= apply_act(old(self)@, av).0);
                }
                SaveRequest::NoSave
            },
            Action::NextBuffer => {
                let n = self.buffers.len();
                if self.active_buffer + 1 < n {
                    self.active_buffer = self.active_buffer + 1;
                } else {
                    self.active_buffer = 0;
                }
                proof {
                    assert(self@ =~= apply_act(old(self)@, av).0);
                }
                SaveRequest::NoSave
            },
            Action::PreviousBuffer => {
                if self.active_buffer == 0 {
                    self.active_buffer = self.buffers.len() - 1;
                } else {
                    self.active_buffer = self.active_buffer - 1;
                }
                proof {
                    assert(self@ =~= apply_act(old(self)@, av).0);
                }
                SaveRequest::NoSave
            },
            Action::ExecuteCommand(cl) => self.handle_command(&cl),
        }
    }

    /// Parses and executes one colon command line.
    pub fn handle_command(&mut self, cmd: &Vec<char>) -> (r: SaveRequest)
        requires
            old(self)@.base_wf(),
        ensures
            final(self)@ == run_command(old(self)@, cmd@).0,
            r@ == run_command(old(self)@, cmd@).1,
    {
        let toks = split_ws_chars(cmd);
        if toks.len() == 0 {
            proof {
                assert(split_ws(cmd@).len() == 0);
            }
            return SaveRequest::NoSave;
        }
        proof {
            assert(toks@[0]@ == split_ws(cmd@)[0]);
        }
        let t0 = &toks[0];
        if chars_eq_str(t0, "w") || chars_eq_str(t0, "write") {
            if toks.len() > 1 {
                proof {
                    assert(toks@[1]@ == split_ws(cmd@)[1]);
                }
                let p = clone_chars(&toks[1]);
                SaveRequest::SaveCurrentAs(p)
            } else {
                self.do_save_step()
            }
        } else if chars_eq_str(t0, "q") || chars_eq_str(t0, "quit") {
            if !self.buffers[self.active_buffer].is_modified {
                self.exit = true;
                proof {
                    assert(self@ =~= run_command(old(self)@, cmd@).0);
                }
            } else {
                self.status_message = Some(Status::UnsavedChanges);
                proof {
                    assert(self@ =~= run_command(old(self)@, cmd@).0);
                }
            }
            SaveRequest::NoSave
        } else if chars_eq_str(t0, "q!") || chars_eq_str(t0, "quit!") {
            self.exit = true;
            proof {
                assert(self@ =~= run_command(old(self)@, cmd@).0);
            }
            SaveRequest::NoSave
        } else if chars_eq_str(t0, "wq") {
            let r = self.do_save_step();
            self.exit = true;
            proof {
                assert(self@ =~= run_command(old(self)@, cmd@).0);
            }
            r
        } else {
            self.status_message = Some(Status::UnknownCommand);
            proof {
                assert(self@ =~= run_command(old(self)@, cmd@).0);
            }
            SaveRequest::NoSave
        }
    }

    /// One key in Normal mode: the key table, then the dispatcher.
    fn handle_normal_key(&mut self, key: Key, ctrl: bool) -> (r: SaveRequest)
        requires
            old(self)@.wf(),
            old(self)@.mode == Mode::Normal,
        ensures
            final(self)@ == step_key_raw(old(self)@, key, ctrl).0,
            r@ == step_key_raw(old(self)@, key, ctrl).1,
    {
        let a_opt: Option<Action> = if key == Key::Char(':') {
            Some(Action::EnterMode(Mode::Command))
        } else if key == Key::Char('i') {
            Some(Action::EnterMode(Mode::Insert))
        } else if key == Key::Up || key == Key::Char('k') {
            Some(Action::MoveUp)
        } else if key == Key::Down || key == Key::Char('j') {
            Some(Action::MoveDown)
        } else if key == Key::Left || key == Key::Char('h') {
            Some(Action::MoveLeft)
        } else if key == Key::Right || key == Key::Char('l') {
            Some(Action::MoveRight)
        } else if key == Key::Char('0') {
            Some(Action::MoveStartOfLine)
        } else if key == Key::Char('$') {
            Some(Action::MoveEndOfLine)
        } else if key == Key::Char('n') {
            Some(Action::NextBuffer)
        } else if key == Key::Char('p') {
            Some(Action::PreviousBuffer)
        } else if key == Key::Char('d') && ctrl {
            Some(Action::PageDown)
        } else if key == Key::Char('u') && ctrl {
            Some(Action::PageUp)
        } else if key == Key::Char('w') && ctrl {
            Some(Action::Save)
        } else if key == Key::Char('d') {
            Some(Action::DeleteLine)
        } else {
            None
        };
        match a_opt {
            Some(a) => {
                proof {
                    assert(normal_act(key, ctrl) == Some(a@));
                }
                self.handle_action(a)
            },
            None => {
                proof {
                    assert(normal_act(key, ctrl) is None);
                }
                SaveRequest::NoSave
            },
        }
    }

    /// One key in Insert mode.
    fn handle_insert_key(&mut self, key: Key) -> (r: SaveRequest)
        requires
            old(self)@.wf(),
            old(self)@.mode == Mode::Insert,
        ensures
            final(self)@ == step_key_raw(old(self)@, key, false).0,
            r@ == step_key_raw(old(self)@, key, false).1,
    {
        match key {
            Key::Esc => self.handle_action(Action::EnterMode(Mode::Normal)),
            Key::Enter => self.handle_action(Action::NewLine),
            Key::Backspace => self.handle_action(Action::DeleteChar),
            Key::Char(c) => self.handle_action(Action::AddChar(c)),
            _ => SaveRequest::NoSave,
        }
    }

    /// One key in Command mode: edits the command line, or executes it on
    /// enter and returns to Normal mode.
    fn handle_command_key(&mut self, key: Key) -> (r: SaveRequest)
        requires
            old(self)@.wf(),
            old(self)@.mode == Mode::Command,
        ensures
            final(self)@ == step_key_raw(old(self)@, key, false).0,
            r@ == step_key_raw(old(self)@, key, false).1,
    {
        match key {
            Key::Esc => self.handle_action(Action::EnterMode(Mode::Normal)),
            Key::Enter => {
                let cmd = clone_chars(&self.command_line);
                let r = self.handle_command(&cmd);
                self.mode = Mode::Normal;
                self.command_line = Vec::new();
                proof {
                    assert(self@ =~= apply_act(
                        run_command(old(self)@, old(self)@.command_line).0,
                        Act::EnterMode(Mode::Normal),
                    ).0);
                }
                r
            },
            Key::Backspace => {
                if self.command_line.len() > 0 {
                    let _last = self.command_line.pop();
                    proof {
                        assert(self.command_line@ =~= old(self)@.command_line.drop_last());
                        assert(self@ =~= step_key_raw(old(self)@, key, false).0);
                    }
                } else {
                    proof {
                        assert(self@ =~= step_key_raw(old(self)@, key, false).0);
                    }
                }
                SaveRequest::NoSave
            },
            Key::Char(c) => {
                self.command_line.push(c);
                proof {
                    assert(self@ =~= step_key_raw(old(self)@, key, false).0);
                }
                SaveRequest::NoSave
            },
            _ => SaveRequest::NoSave,
        }
    }

    /// One input event: maps the key through the current mode's table,
    /// applies the action, and re-clamps. The state invariant holds
    /// afterwards, whatever the key and whatever came before.
    pub fn handle_key(&mut self, key: Key, ctrl: bool) -> (r: SaveRequest)
        requires
            old(self)@.wf(),
        ensures
            final(self)@ == step_key(old(self)@, key, ctrl).0,
            r@ == step_key(old(self)@, key, ctrl).1,
            final(self)@.wf(),
    {
        let r = match self.mode {
            Mode::Normal => self.handle_normal_key(key, ctrl),
            Mode::Insert => self.handle_insert_key(key),
            Mode::Command => self.handle_command_key(key),
        };
        proof {
            lemma_step_raw_base_wf(old(self)@, key, ctrl);
        }
        self.adjust_cursor_position();
        r
    }

    /// The outcome of a requested save: clears the modified flag on
    /// success, and reports either way in the status line.
    pub fn finish_save(&mut self, ok: bool)
        requires
            old(self)@.base_wf(),
        ensures
            final(self)@ == note_saved(old(self)@, ok),
    {
        if ok {
            let idx = self.active_buffer;
            let mut b = self.buffers.remove(idx);
            b.mark_saved();
            let ghost bv = b@;
            self.buffers.insert(idx, b);
            self.status_message = Some(Status::FileSaved);
            proof {
                assert(self.buffers@ =~= old(self).buffers@.update(
                    idx as int,
                    self.buffers@[idx as int],
                ));
                assert(buffers_view(self.buffers@) =~= buffers_view(old(self).buffers@).update(
                    idx as int,
                    bv,
                ));
                assert(self@ =~= note_saved(old(self)@, ok));
            }
        } else {
            self.status_message = Some(Status::SaveFailed);
            proof {
                assert(self@ =~= note_saved(old(self)@, ok));
            }
        }
    }

    /// The outcome of a requested save-as: rebinds the path and clears the
    /// modified flag on success.
    pub fn finish_save_as(&mut self, path: Vec<char>, ok: bool)
        requires
            old(self)@.base_wf(),
        ensures
            final(self)@ == note_saved_as(old(self)@, path@, ok),
    {
        if ok {
            let idx = self.active_buffer;
            let mut b = self.buffers.remove(idx);
            b.set_file(path);
            b.mark_saved();
            let ghost bv = b@;
            self.buffers.insert(idx, b);
            self.status_message = Some(Status::FileSavedAs);
            proof {
                assert(self.buffers@ =~= old(self).buffers@.update(
                    idx as int,
                    self.buffers@[idx as int],
                ));
                assert(buffers_view(self.buffers@) =~= buffers_view(old(self).buffers@).update(
                    idx as int,
                    bv,
                ));
                assert(self@ =~= note_saved_as(old(self)@, path@, ok));
            }
        } else {
            self.status_message = Some(Status::SaveFailed);
            proof {
                assert(self@ =~= note_saved_as(old(self)@, path@, ok));
            }
        }
    }

    /// Records a new terminal size and re-clamps.
    pub fn handle_resize(&mut self, size: (u16, u16))
        requires
            old(self)@.base_wf(),
        ensures
            final(self)@ == clamp(
                EditorView { cols: size.0 as int, rows: size.1 as int, ..old(self)@ },
            ),
            final(self)@.wf(),
    {
        self.size = size;
        proof {
            assert(self@ =~= (EditorView {
                cols: size.0 as int,
                rows: size.1 as int,
                ..old(self)@
            }));
        }
        self.adjust_cursor_position();
    }
}

} // verus!
