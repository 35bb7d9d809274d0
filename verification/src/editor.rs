//! The editing state machine: a document buffer, a clamped cursor, a dirty
//! flag and a one-shot force-quit flag, driven by one editing event at a time.
//!
//! The whole transition table is the spec function [`step`]; the executable
//! [`Editor::apply`] is proved to implement it exactly. The loop that feeds
//! events in and performs the requested actions (drawing, saving, quitting)
//! lives outside the library.

use vstd::prelude::*;
use crate::document::Document;

verus! {

/// One logical editing event, already decoded from whatever input backend
/// feeds the editor.
#[derive(Clone, Copy, PartialEq, Eq, Debug)]
pub enum EditorEvent {
    MoveUp,
    MoveDown,
    MoveLeft,
    MoveRight,
    InsertChar(char),
    Backspace,
    Enter,
    Save,
    Quit,
}

/// What the caller of [`Editor::apply`] must do next. The editor itself does
/// no input or output: saving and warning are requests to the surrounding
/// loop.
#[derive(Clone, Copy, PartialEq, Eq, Debug)]
pub enum ControlSignal {
    /// Nothing to do; keep looping.
    Continue,
    /// Leave the editor.
    Quit,
    /// Write the buffer to its file, then report back with
    /// [`Editor::mark_saved`] on success.
    SaveRequested,
    /// Show the unsaved-changes warning; quitting again at once will be
    /// honoured.
    WarnUnsaved,
}

/// The mathematical state of the editor: the lines of the buffer, the cursor
/// position, the dirty flag, and the one-shot force-quit flag.
#[verifier::ext_equal]
pub ghost struct EditorState {
    pub lines: Seq<Seq<char>>,
    pub cx: int,
    pub cy: int,
    pub dirty: bool,
    pub quit_override: bool,
}

/// The smaller of two integers.
pub open spec fn min2(a: int, b: int) -> int {
    if a <= b {
        a
    } else {
        b
    }
}

/// A well-formed editor state: at least one line, the cursor on a line, the
/// cursor column at most the line length (the append position), and no line
/// feed inside any line.
pub open spec fn state_wf(s: EditorState) -> bool {
    &&& s.lines.len() >= 1
    &&& 0 <= s.cy < s.lines.len()
    &&& 0 <= s.cx <= s.lines[s.cy].len()
    &&& forall|i: int| 0 <= i < s.lines.len() ==> !(#[trigger] s.lines[i]).contains('\n')
}

/// The transition table of the editor, one event at a time. Events whose
/// precondition does not hold (left at column zero, down on the last line,
/// a line feed as an inserted character) are silently ignored. Every event
/// but `Quit` clears the one-shot force-quit flag, so only an immediately
/// repeated quit is honoured while the buffer is dirty.
pub open spec fn step(s: EditorState, e: EditorEvent) -> EditorState {
    match e {
        EditorEvent::MoveUp => {
            let ny = if s.cy > 0 {
                s.cy - 1
            } else {
                0
            };
            EditorState {
                cy: ny,
                cx: min2(s.cx, s.lines[ny].len() as int),
                quit_override: false,
                ..s
            }
        },
        EditorEvent::MoveDown => {
            if s.cy + 1 < s.lines.len() {
                EditorState {
                    cy: s.cy + 1,
                    cx: min2(s.cx, s.lines[s.cy + 1].len() as int),
                    quit_override: false,
                    ..s
                }
            } else {
                EditorState { quit_override: false, ..s }
            }
        },
        EditorEvent::MoveLeft => {
            if s.cx > 0 {
                EditorState { cx: s.cx - 1, quit_override: false, ..s }
            } else {
                EditorState { quit_override: false, ..s }
            }
        },
        EditorEvent::MoveRight => {
            if s.cx < s.lines[s.cy].len() {
                EditorState { cx: s.cx + 1, quit_override: false, ..s }
            } else {
                EditorState { quit_override: false, ..s }
            }
        },
        EditorEvent::InsertChar(c) => {
            if c != '\n' {
                EditorState {
                    lines: s.lines.update(s.cy, s.lines[s.cy].insert(s.cx, c)),
                    cx: s.cx + 1,
                    dirty: true,
                    quit_override: false,
                    ..s
                }
            } else {
                EditorState { quit_override: false, ..s }
            }
        },
        EditorEvent::Backspace => {
            if s.cx > 0 {
                EditorState {
                    lines: s.lines.update(s.cy, s.lines[s.cy].remove(s.cx - 1)),
                    cx: s.cx - 1,
                    dirty: true,
                    quit_override: false,
                    ..s
                }
            } else if s.cy > 0 {
                EditorState {
                    lines: s.lines.remove(s.cy).update(s.cy - 1, s.lines[s.cy - 1] + s.lines[s.cy]),
                    cy: s.cy - 1,
                    cx: s.lines[s.cy - 1].len() as int,
                    dirty: true,
                    quit_override: false,
                    ..s
                }
            } else {
                EditorState { quit_override: false, ..s }
            }
        },
        EditorEvent::Enter => {
            EditorState {
                lines: s.lines.update(s.cy, s.lines[s.cy].take(s.cx)).insert(
                    s.cy + 1,
                    s.lines[s.cy].skip(s.cx),
                ),
                cy: s.cy + 1,
                cx: 0,
                dirty: true,
                quit_override: false,
                ..s
            }
        },
        EditorEvent::Save => EditorState { quit_override: false, ..s },
        EditorEvent::Quit => {
            if !s.dirty || s.quit_override {
                s
            } else {
                EditorState { quit_override: true, ..s }
            }
        },
    }
}

/// The control signal each event produces: quitting is honoured at once on a
/// clean buffer, and on a dirty one only when the force-quit flag is already
/// set; the first quit on a dirty buffer asks for the warning instead.
pub open spec fn signal_of(s: EditorState, e: EditorEvent) -> ControlSignal {
    match e {
        EditorEvent::Save => ControlSignal::SaveRequested,
        EditorEvent::Quit => {
            if !s.dirty || s.quit_override {
                ControlSignal::Quit
            } else {
                ControlSignal::WarnUnsaved
            }
        },
        _ => ControlSignal::Continue,
    }
}

/// The interactive editor session: the open document, the cursor, the dirty
/// flag, the one-shot force-quit flag and the file name the buffer belongs to.
pub struct Editor {
    doc: Document,
    cursor_x: usize,
    cursor_y: usize,
    dirty: bool,
    quit_override: bool,
    filename: String,
}

impl Editor {
    /// The mathematical state this editor is in.
    pub closed spec fn model(self) -> EditorState {
        EditorState {
            lines: self.doc@,
            cx: self.cursor_x as int,
            cy: self.cursor_y as int,
            dirty: self.dirty,
            quit_override: self.quit_override,
        }
    }

    /// The file name the buffer was opened under.
    pub closed spec fn filename_spec(self) -> Seq<char> {
        self.filename@
    }

    /// The editor's invariant, kept by every transition.
    pub open spec fn wf(self) -> bool {
        state_wf(self.model())
    }

    /// A fresh session on `doc`: cursor at the top left, nothing unsaved.
    pub fn new(doc: Document, filename: String) -> (ed: Editor)
        requires
            doc.wf(),
        ensures
            ed.wf(),
            ed.model() == (EditorState {
                lines: doc@,
                cx: 0,
                cy: 0,
                dirty: false,
                quit_override: false,
            }),
            ed.filename_spec() == filename@,
    {
        Editor { doc, cursor_x: 0, cursor_y: 0, dirty: false, quit_override: false, filename }
    }

    /// Clamps the cursor column to the current line: landing on a shorter
    /// line must not leave the column past its end.
    pub fn clamp_cursor_x(&mut self)
        ensures
            final(self).model() == (EditorState {
                cx: if 0 <= old(self).model().cy < old(self).model().lines.len() {
                    min2(
                        old(self).model().cx,
                        old(self).model().lines[old(self).model().cy].len() as int,
                    )
                } else {
                    0
                },
                ..old(self).model()
            }),
            final(self).filename_spec() == old(self).filename_spec(),
    {
        match self.doc.line(self.cursor_y) {
            Some(line) => {
                let n = line.len();
                if self.cursor_x > n {
                    self.cursor_x = n;
                }
            },
            None => {
                self.cursor_x = 0;
            },
        }
    }

    /// Applies one editing event and reports what the surrounding loop must
    /// do. This is exactly the transition table [`step`] with its signal
    /// [`signal_of`].
    pub fn apply(&mut self, e: EditorEvent) -> (sig: ControlSignal)
        requires
            old(self).wf(),
        ensures
            final(self).wf(),
            final(self).model() == step(old(self).model(), e),
            sig == signal_of(old(self).model(), e),
            final(self).filename_spec() == old(self).filename_spec(),
    {
        let ghost s0 = self.model();
        let sig = match e {
            EditorEvent::MoveUp => {
                if self.cursor_y > 0 {
                    self.cursor_y -= 1;
                }
                self.clamp_cursor_x();
                self.quit_override = false;
                ControlSignal::Continue
            },
            EditorEvent::MoveDown => {
                let n = self.doc.line_count();
                if self.cursor_y + 1 < n {
                    self.cursor_y += 1;
                    self.clamp_cursor_x();
                }
                self.quit_override = false;
                ControlSignal::Continue
            },
            EditorEvent::MoveLeft => {
                if self.cursor_x > 0 {
                    self.cursor_x -= 1;
                }
                self.quit_override = false;
                ControlSignal::Continue
            },
            EditorEvent::MoveRight => {
                let n = self.doc.line_len(self.cursor_y);
                if self.cursor_x < n {
                    self.cursor_x += 1;
                }
                self.quit_override = false;
                ControlSignal::Continue
            },
            EditorEvent::InsertChar(c) => {
                if c != '\n' {
                    self.doc.insert_char(self.cursor_y, self.cursor_x, c);
                    let n = self.doc.line_len(self.cursor_y);
                    assert(self.cursor_x < n);
                    self.cursor_x += 1;
                    self.dirty = true;
                }
                self.quit_override = false;
                ControlSignal::Continue
            },
            EditorEvent::Backspace => {
                if self.cursor_x > 0 {
                    let _ = self.doc.delete_char_before(self.cursor_y, self.cursor_x);
                    self.cursor_x -= 1;
                    self.dirty = true;
                } else if self.cursor_y > 0 {
                    let r = self.doc.merge_with_previous(self.cursor_y);
                    match r {
                        Some(off) => {
                            self.cursor_y -= 1;
                            self.cursor_x = off;
                            self.dirty = true;
                        },
                        None => {},
                    }
                }
                self.quit_override = false;
                ControlSignal::Continue
            },
            EditorEvent::Enter => {
                self.doc.split_line(self.cursor_y, self.cursor_x);
                let n = self.doc.line_count();
                assert(self.cursor_y < n);
                self.cursor_y += 1;
                self.cursor_x = 0;
                self.dirty = true;
                self.quit_override = false;
                ControlSignal::Continue
            },
            EditorEvent::Save => {
                self.quit_override = false;
                ControlSignal::SaveRequested
            },
            EditorEvent::Quit => {
                if !self.dirty || self.quit_override {
                    ControlSignal::Quit
                } else {
                    self.quit_override = true;
                    ControlSignal::WarnUnsaved
                }
            },
        };
        proof {
            lemma_step_preserves_wf(s0, e);
        }
        sig
    }

    /// Records a successful save: the buffer is clean again. Nothing else
    /// changes.
    pub fn mark_saved(&mut self)
        ensures
            final(self).model() == (EditorState { dirty: false, ..old(self).model() }),
            final(self).filename_spec() == old(self).filename_spec(),
            old(self).wf() ==> final(self).wf(),
    {
        self.dirty = false;
    }

    /// Clears the one-shot force-quit flag: the force window has timed out,
    /// so the next quit on a dirty buffer warns again.
    pub fn clear_quit_override(&mut self)
        ensures
            final(self).model() == (EditorState { quit_override: false, ..old(self).model() }),
            final(self).filename_spec() == old(self).filename_spec(),
            old(self).wf() ==> final(self).wf(),
    {
        self.quit_override = false;
    }

    /// The cursor column.
    pub fn cursor_x(&self) -> (x: usize)
        ensures
            x == self.model().cx,
    {
        self.cursor_x
    }

    /// The cursor line.
    pub fn cursor_y(&self) -> (y: usize)
        ensures
            y == self.model().cy,
    {
        self.cursor_y
    }

    /// Whether the buffer holds unsaved changes.
    pub fn is_dirty(&self) -> (d: bool)
        ensures
            d == self.model().dirty,
    {
        self.dirty
    }

    /// Whether the next quit on a dirty buffer will be honoured.
    pub fn quit_override_pending(&self) -> (p: bool)
        ensures
            p == self.model().quit_override,
    {
        self.quit_override
    }

    /// Read access to the open document.
    pub fn document(&self) -> (d: &Document)
        ensures
            d@ == self.model().lines,
    {
        &self.doc
    }

    /// The file name the buffer was opened under.
    pub fn filename(&self) -> (f: &String)
        ensures
            f@ == self.filename_spec(),
    {
        &self.filename
    }
}

/// No line feed appears in a sequence that had none after inserting a
/// character other than a line feed.
proof fn lemma_no_nl_insert(s: Seq<char>, i: int, c: char)
    requires
        0 <= i <= s.len(),
        !s.contains('\n'),
        c != '\n',
    ensures
        !s.insert(i, c).contains('\n'),
{
    s.insert_ensures(i, c);
    let t = s.insert(i, c);
    if t.contains('\n') {
        let j = choose|j: int| 0 <= j < t.len() && t[j] == '\n';
        if j < i {
            assert(s[j] == '\n');
        } else if j == i {
            assert(t[j] == c);
        } else {
            assert(t[(j - 1) + 1] == s[j - 1]);
            assert(s[j - 1] == '\n');
        }
    }
}

/// No line feed appears in a sequence that had none after removing a
/// character.
proof fn lemma_no_nl_remove(s: Seq<char>, i: int)
    requires
        0 <= i < s.len(),
        !s.contains('\n'),
    ensures
        !s.remove(i).contains('\n'),
{
    s.remove_ensures(i);
    let t = s.remove(i);
    if t.contains('\n') {
        let j = choose|j: int| 0 <= j < t.len() && t[j] == '\n';
        if j < i {
            assert(s[j] == '\n');
        } else {
            assert(s[j + 1] == '\n');
        }
    }
}

/// No line feed appears in the concatenation of two sequences that have none.
proof fn lemma_no_nl_concat(a: Seq<char>, b: Seq<char>)
    requires
        !a.contains('\n'),
        !b.contains('\n'),
    ensures
        !(a + b).contains('\n'),
{
    let t = a + b;
    if t.contains('\n') {
        let j = choose|j: int| 0 <= j < t.len() && t[j] == '\n';
        if j < a.len() {
            assert(a[j] == '\n');
        } else {
            assert(b[j - a.len()] == '\n');
        }
    }
}

/// No line feed appears in a subrange of a sequence that has none.
proof fn lemma_no_nl_subrange(s: Seq<char>, lo: int, hi: int)
    requires
        0 <= lo <= hi <= s.len(),
        !s.contains('\n'),
    ensures
        !s.subrange(lo, hi).contains('\n'),
{
    let t = s.subrange(lo, hi);
    if t.contains('\n') {
        let j = choose|j: int| 0 <= j < t.len() && t[j] == '\n';
        assert(s[lo + j] == '\n');
    }
}

/// Whether an event only moves the cursor.
pub open spec fn is_move(e: EditorEvent) -> bool {
    match e {
        EditorEvent::MoveUp => true,
        EditorEvent::MoveDown => true,
        EditorEvent::MoveLeft => true,
        EditorEvent::MoveRight => true,
        _ => false,
    }
}

/// The state after a whole sequence of events, applied first to last.
pub open spec fn step_all(s: EditorState, evs: Seq<EditorEvent>) -> EditorState
    decreases evs.len(),
{
    if evs.len() == 0 {
        s
    } else {
        step_all(step(s, evs[0]), evs.drop_first())
    }
}

/// Law: a sequence of pure cursor movements changes neither the buffer
/// content nor the dirty flag.
pub proof fn lemma_moves_leave_buffer_unchanged(s: EditorState, evs: Seq<EditorEvent>)
    requires
        forall|i: int| 0 <= i < evs.len() ==> is_move(#[trigger] evs[i]),
    ensures
        step_all(s, evs).lines == s.lines,
        step_all(s, evs).dirty == s.dirty,
    decreases evs.len(),
{
    if evs.len() > 0 {
        lemma_moves_leave_buffer_unchanged(step(s, evs[0]), evs.drop_first());
    }
}

/// Law: over any sequence of events — in particular any sequence of cursor
/// movements — the cursor column never exceeds the current line's length and
/// the cursor line stays within the buffer.
pub proof fn lemma_cursor_stays_bounded(s: EditorState, evs: Seq<EditorEvent>)
    requires
        state_wf(s),
    ensures
        state_wf(step_all(s, evs)),
        step_all(s, evs).cx <= step_all(s, evs).lines[step_all(s, evs).cy].len(),
        0 <= step_all(s, evs).cy < step_all(s, evs).lines.len(),
    decreases evs.len(),
{
    if evs.len() > 0 {
        lemma_step_preserves_wf(s, evs[0]);
        lemma_cursor_stays_bounded(step(s, evs[0]), evs.drop_first());
    }
}

/// Law: inserting a character and then pressing backspace leaves the buffer
/// content and the cursor where they were. A line feed is excluded, as the
/// editor refuses to insert one: for it the pair would not return the cursor.
pub proof fn lemma_insert_then_backspace(s: EditorState, c: char)
    requires
        state_wf(s),
        c != '\n',
    ensures
        step(step(s, EditorEvent::InsertChar(c)), EditorEvent::Backspace).lines == s.lines,
        step(step(s, EditorEvent::InsertChar(c)), EditorEvent::Backspace).cx == s.cx,
        step(step(s, EditorEvent::InsertChar(c)), EditorEvent::Backspace).cy == s.cy,
{
    let line = s.lines[s.cy];
    line.insert_ensures(s.cx, c);
    line.insert(s.cx, c).remove_ensures(s.cx);
    assert(line.insert(s.cx, c).remove(s.cx) =~= line);
    assert(step(step(s, EditorEvent::InsertChar(c)), EditorEvent::Backspace).lines =~~= s.lines);
}

/// Law: breaking a line with enter and pressing backspace at the start of the
/// new line restores the original single line and the cursor offset.
pub proof fn lemma_enter_then_backspace(s: EditorState)
    requires
        state_wf(s),
    ensures
        step(step(s, EditorEvent::Enter), EditorEvent::Backspace).lines == s.lines,
        step(step(s, EditorEvent::Enter), EditorEvent::Backspace).cx == s.cx,
        step(step(s, EditorEvent::Enter), EditorEvent::Backspace).cy == s.cy,
{
    let line = s.lines[s.cy];
    let mid = s.lines.update(s.cy, line.take(s.cx));
    mid.insert_ensures(s.cy + 1, line.skip(s.cx));
    let m = step(s, EditorEvent::Enter);
    m.lines.remove_ensures(s.cy + 1);
    assert(m.lines[s.cy] == line.take(s.cx));
    assert(m.lines[s.cy + 1] == line.skip(s.cx));
    assert(line.take(s.cx) + line.skip(s.cx) =~= line);
    assert(step(step(s, EditorEvent::Enter), EditorEvent::Backspace).lines =~~= s.lines);
}

/// Law of the quit guard: a quit on a clean buffer is honoured at once; the
/// first quit on a dirty buffer is never honoured and only arms the one-shot
/// force flag; a quit with the flag armed is honoured. Every other event
/// disarms the flag, so only an immediately repeated quit forces the exit.
pub proof fn lemma_quit_guard(s: EditorState, e: EditorEvent)
    ensures
        !s.dirty ==> signal_of(s, EditorEvent::Quit) == ControlSignal::Quit,
        s.dirty && !s.quit_override ==> signal_of(s, EditorEvent::Quit) != ControlSignal::Quit
            && step(s, EditorEvent::Quit) == (EditorState { quit_override: true, ..s })
            && step(s, EditorEvent::Quit).lines == s.lines && step(s, EditorEvent::Quit).dirty,
        s.dirty && s.quit_override ==> signal_of(s, EditorEvent::Quit) == ControlSignal::Quit,
        e != EditorEvent::Quit ==> !step(s, e).quit_override,
{
}

/// Law: every transition keeps the editor invariant, so the cursor column
/// never exceeds the current line's length and the cursor line never leaves
/// the buffer.
pub proof fn lemma_step_preserves_wf(s: EditorState, e: EditorEvent)
    requires
        state_wf(s),
    ensures
        state_wf(step(s, e)),
{
    match e {
        EditorEvent::InsertChar(c) => {
            if c != '\n' {
                s.lines[s.cy].insert_ensures(s.cx, c);
                lemma_no_nl_insert(s.lines[s.cy], s.cx, c);
            }
        },
        EditorEvent::Backspace => {
            if s.cx > 0 {
                s.lines[s.cy].remove_ensures(s.cx - 1);
                lemma_no_nl_remove(s.lines[s.cy], s.cx - 1);
            } else if s.cy > 0 {
                lemma_no_nl_concat(s.lines[s.cy - 1], s.lines[s.cy]);
                let t = step(s, e).lines;
                assert forall|i: int| 0 <= i < t.len() implies !(#[trigger] t[i]).contains(
                    '\n',
                ) by {
                    s.lines.remove_ensures(s.cy);
                }
            }
        },
        EditorEvent::Enter => {
            lemma_no_nl_subrange(s.lines[s.cy], 0, s.cx);
            lemma_no_nl_subrange(s.lines[s.cy], s.cx, s.lines[s.cy].len() as int);
            let t = step(s, e).lines;
            let mid = s.lines.update(s.cy, s.lines[s.cy].take(s.cx));
            mid.insert_ensures(s.cy + 1, s.lines[s.cy].skip(s.cx));
            assert forall|i: int| 0 <= i < t.len() implies !(#[trigger] t[i]).contains('\n') by {
                if i < s.cy + 1 {
                    assert(t[i] == mid[i]);
                } else if i == s.cy + 1 {
                    assert(t[i] == s.lines[s.cy].skip(s.cx));
                } else {
                    assert(t[(i - 1) + 1] == mid[i - 1]);
                }
            }
        },
        _ => {},
    }
}

} // verus!

