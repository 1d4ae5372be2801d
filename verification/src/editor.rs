//! The editing session: a line buffer, the screen, and key dispatch.
//!
//! An `Editor` owns the screen, the line buffer, and a finite queue of
//! decoded key events. `edit_spec` states exactly what running the session
//! over that queue does: which frames reach the output sink, where the
//! cursor ends up, and that the session stops at a control-q event or when
//! the queue runs out. The embedding program drives an interactive terminal
//! by feeding events one at a time through `process_keypress` instead.

use vstd::prelude::*;

use crate::error::Error;
use crate::input::DummyInputSequences;
use crate::input::InputSeq;
use crate::input::KeySeq;
use crate::screen::Screen;
use crate::screen::ScreenModel;
use crate::screen::after_first_cursor;
use crate::screen::clear_bytes;
use crate::screen::cpr_query;
use crate::screen::first_cursor;
use crate::screen::move_cursor_spec;
use crate::screen::refresh_spec;
use crate::screen::lemma_move_cursor_bounded;

verus! {

/// One line of the buffer. `size` is the visible length; `buf` may hold more
/// bytes, and only the first `size` of them count.
pub struct EditorRow {
    pub size: usize,
    pub buf: Vec<u8>,
}

impl EditorRow {
    /// The visible length never exceeds the bytes actually held.
    pub open spec fn wf(self) -> bool {
        self.size <= self.buf@.len()
    }
}

/// Every row of a line buffer is well formed.
pub open spec fn rows_wf(rows: Seq<EditorRow>) -> bool {
    forall|i: int| 0 <= i < rows.len() ==> (#[trigger] rows[i]).wf()
}

/// The visible length of a freshly loaded line: one trailing newline or
/// carriage-return byte, if present, does not count.
pub open spec fn stripped_len(line: Seq<u8>) -> int {
    if line.len() > 0 && (line.last() == 0x0a || line.last() == 0x0d) {
        line.len() - 1
    } else {
        line.len() as int
    }
}

/// The mathematical state of an editing session.
#[verifier::ext_equal]
pub ghost struct EditorModel {
    pub screen: ScreenModel,
    pub input: Seq<InputSeq>,
    pub buf_rows: int,
    pub rows: Seq<EditorRow>,
}

/// The editing session.
pub struct Editor {
    pub screen: Screen,
    pub input: DummyInputSequences,
    pub buf_rows: usize,
    pub rows: Vec<EditorRow>,
}

impl View for Editor {
    type V = EditorModel;

    open spec fn view(&self) -> EditorModel {
        EditorModel {
            screen: self.screen@,
            input: self.input.0@,
            buf_rows: self.buf_rows as int,
            rows: self.rows@,
        }
    }
}

// ---------------------------------------------------------------------------
// Key dispatch, at the specification level
// ---------------------------------------------------------------------------

/// `n` single cursor steps in the direction `key`.
pub open spec fn page_moves(s: ScreenModel, key: KeySeq, n: int, buf_rows: int) -> ScreenModel
    decreases n,
{
    if n <= 0 {
        s
    } else {
        page_moves(move_cursor_spec(s, key, buf_rows), key, n - 1, buf_rows)
    }
}

/// What one key event does to the screen, and whether the session goes on.
/// A control event quits on the letter `q` and is otherwise ignored. Home
/// and End place the cursor column at the edges; page keys move one step
/// short of a full screen height; arrows move one step; anything else is
/// ignored.
pub open spec fn keypress_spec(s: ScreenModel, seq: InputSeq, buf_rows: int) -> (ScreenModel, bool) {
    if seq.ctrl {
        if seq.key == KeySeq::Key(0x71) {
            (s, false)
        } else {
            (s, true)
        }
    } else {
        match seq.key {
            KeySeq::Home => (ScreenModel { cx: 0, ..s }, true),
            KeySeq::End => (ScreenModel { cx: s.cols - 1, ..s }, true),
            KeySeq::PageUp => (page_moves(s, KeySeq::Up, s.rows - 1, buf_rows), true),
            KeySeq::PageDown => (page_moves(s, KeySeq::Down, s.rows - 1, buf_rows), true),
            KeySeq::Up => (move_cursor_spec(s, seq.key, buf_rows), true),
            KeySeq::Down => (move_cursor_spec(s, seq.key, buf_rows), true),
            KeySeq::Right => (move_cursor_spec(s, seq.key, buf_rows), true),
            KeySeq::Left => (move_cursor_spec(s, seq.key, buf_rows), true),
            _ => (s, true),
        }
    }
}

/// The session loop from the top of an iteration: redraw, then take the next
/// event; stop — clearing the terminal — at a quit event or when the queue
/// is out.
pub open spec fn edit_loop_spec(m: EditorModel) -> EditorModel
    decreases m.input.len(),
{
    let s1 = refresh_spec(m.screen, m.buf_rows, m.rows);
    if m.input.len() == 0 {
        EditorModel { screen: ScreenModel { output: s1.output + clear_bytes(), ..s1 }, ..m }
    } else {
        let ev = m.input[0];
        let rest = m.input.skip(1);
        let stepped = keypress_spec(s1, ev, m.buf_rows);
        if stepped.1 {
            edit_loop_spec(EditorModel { screen: stepped.0, input: rest, ..m })
        } else {
            EditorModel {
                screen: ScreenModel { output: stepped.0.output + clear_bytes(), ..stepped.0 },
                input: rest,
                ..m
            }
        }
    }
}

/// What a whole session does: one redraw up front, then the loop.
pub open spec fn edit_spec(m: EditorModel) -> EditorModel {
    edit_loop_spec(
        EditorModel { screen: refresh_spec(m.screen, m.buf_rows, m.rows), ..m },
    )
}

impl Editor {
    /// A session is driven only with at least one visible row and column, a
    /// width the renderer's arithmetic can take, a cursor within the buffer
    /// and the width, room in `usize` for the scroll arithmetic, and
    /// well-formed buffer rows.
    pub open spec fn wf(self) -> bool {
        &&& self.screen.rows >= 1
        &&& self.screen.cols >= 1
        &&& self.screen.cols <= 0x7fffffff
        &&& self.screen.cx <= self.screen.cols
        &&& self.screen.cy <= self.buf_rows
        &&& self.buf_rows + self.screen.rows <= usize::MAX
        &&& rows_wf(self.rows@)
    }

    /// A session over an empty buffer; the window size is resolved from the
    /// terminal, with the cursor-position-report protocol as the fallback.
    pub fn new(input: DummyInputSequences, output: Vec<u8>) -> (r: Result<Self, Error>)
        ensures
            r matches Err(e) ==> e == Error::UnknownWindowSize && first_cursor(input.0@) is None,
            r matches Ok(ed) ==> ed@.buf_rows == 0 && ed@.rows.len() == 0 && ed@.screen.cx == 0
                && ed@.screen.cy == 0 && ed@.screen.row_off == 0 && ed@.screen.col_off == 0
                && ed@.screen.buf == Seq::<u8>::empty() && ((ed@.screen.output == output@ && 1
                <= ed@.screen.cols <= 0xffff && 1 <= ed@.screen.rows <= 0xffff && ed@.input
                == input.0@) || (ed@.screen.output == output@ + cpr_query() && first_cursor(
                input.0@,
            ) == Some((ed@.screen.cols as usize, ed@.screen.rows as usize)) && ed@.input
                == after_first_cursor(input.0@))),
    {
        let mut input = input;
        let screen = match Screen::new_from(None, &mut input, output) {
            Ok(sc) => sc,
            Err(e) => {
                return Err(e);
            },
        };
        Ok(Self { screen, input, buf_rows: 0, rows: Vec::new() })
    }

    /// A session over the given freshly loaded lines, in order; one trailing
    /// newline or carriage-return byte of each line is not counted in its
    /// visible length. The window size is resolved as in `new`.
    pub fn open(lines: Vec<Vec<u8>>, input: DummyInputSequences, output: Vec<u8>) -> (r: Result<
        Self,
        Error,
    >)
        requires
            lines@.len() < usize::MAX,
        ensures
            r matches Err(e) ==> e == Error::UnknownWindowSize && first_cursor(input.0@) is None,
            r matches Ok(ed) ==> ed@.buf_rows == 1 + lines@.len() && ed@.rows.len()
                == lines@.len() && (forall|i: int|
                0 <= i < lines@.len() ==> (#[trigger] ed@.rows[i]).buf@ == lines@[i]@
                    && ed@.rows[i].size == stripped_len(lines@[i]@)) && ed@.screen.cx == 0
                && ed@.screen.cy == 0 && ed@.screen.row_off == 0 && ed@.screen.col_off == 0
                && ed@.screen.buf == Seq::<u8>::empty() && ((ed@.screen.output == output@ && 1
                <= ed@.screen.cols <= 0xffff && 1 <= ed@.screen.rows <= 0xffff && ed@.input
                == input.0@) || (ed@.screen.output == output@ + cpr_query() && first_cursor(
                input.0@,
            ) == Some((ed@.screen.cols as usize, ed@.screen.rows as usize)) && ed@.input
                == after_first_cursor(input.0@))),
    {
        let mut input = input;
        let screen = match Screen::new_from(None, &mut input, output) {
            Ok(sc) => sc,
            Err(e) => {
                return Err(e);
            },
        };
        let mut editor = Self { screen, input, buf_rows: 1, rows: Vec::new() };
        let ghost lines0 = lines@;
        let ghost em0 = editor@;
        let mut lines = lines;
        while lines.len() > 0
            invariant
                lines0.len() < usize::MAX,
                lines@.len() <= lines0.len(),
                lines@ == lines0.skip(lines0.len() - lines@.len()),
                editor.buf_rows == 1 + lines0.len() - lines@.len(),
                editor.rows@.len() == lines0.len() - lines@.len(),
                forall|i: int|
                    0 <= i < editor.rows@.len() ==> (#[trigger] editor.rows@[i]).buf@
                        == lines0[i]@ && editor.rows@[i].size == stripped_len(lines0[i]@),
                editor.screen@ == em0.screen,
                editor.input.0@ == em0.input,
            decreases lines@.len(),
        {
            let ghost k = lines0.len() - lines@.len();
            let line = lines.remove(0);
            proof {
                assert(line == lines0[k]);
                assert(lines@ =~= lines0.skip(k + 1));
            }
            let mut size = line.len();
            if size > 0 {
                let last = line[size - 1];
                if last == 0x0a || last == 0x0d {
                    size = size - 1;
                }
            }
            editor.append_row(line, size);
        }
        Ok(editor)
    }

    /// Adds one line to the end of the buffer and counts it.
    pub fn append_row(&mut self, buf: Vec<u8>, len: usize)
        requires
            old(self).buf_rows < usize::MAX,
        ensures
            final(self)@ == (EditorModel {
                rows: old(self)@.rows.push(EditorRow { size: len, buf }),
                buf_rows: old(self)@.buf_rows + 1,
                ..old(self)@
            }),
    {
        self.rows.push(EditorRow { size: len, buf });
        self.buf_rows = self.buf_rows + 1;
        proof {
            assert(self@ =~= (EditorModel {
                rows: old(self)@.rows.push(EditorRow { size: len, buf }),
                buf_rows: old(self)@.buf_rows + 1,
                ..old(self)@
            }));
        }
    }

    /// Runs the session over the queued events.
    #[verifier::loop_isolation(false)]
    pub fn edit(&mut self) -> (r: Result<(), Error>)
        requires
            old(self).wf(),
        ensures
            r is Ok,
            final(self)@ == edit_spec(old(self)@),
    {
        let ghost goal = edit_spec(old(self)@);
        self.screen.refresh(self.buf_rows, &mut self.rows)?;
        proof {
            assert(self@ =~= (EditorModel {
                screen: refresh_spec(old(self)@.screen, old(self)@.buf_rows, old(self)@.rows),
                ..old(self)@
            }));
        }
        loop
            invariant
                self.wf(),
                edit_loop_spec(self@) == goal,
            decreases self.input.0@.len(),
        {
            let ghost m = self@;
            self.screen.refresh(self.buf_rows, &mut self.rows)?;
            match self.input.next_event() {
                Some(seq) => {
                    proof {
                        assert(self@ =~= (EditorModel {
                            screen: refresh_spec(m.screen, m.buf_rows, m.rows),
                            input: m.input.skip(1),
                            ..m
                        }));
                    }
                    let ok = self.process_keypress(seq)?;
                    if !ok {
                        self.screen.clear()?;
                        proof {
                            assert(self@ =~= edit_loop_spec(m));
                        }
                        return Ok(());
                    }
                    proof {
                        assert(edit_loop_spec(self@) == edit_loop_spec(m));
                    }
                },
                None => {
                    self.screen.clear()?;
                    proof {
                        assert(self@ =~= edit_loop_spec(m));
                    }
                    return Ok(());
                },
            }
        }
    }

    /// Applies one key event and says whether the session goes on.
    pub fn process_keypress(&mut self, seq: InputSeq) -> (r: Result<bool, Error>)
        requires
            old(self).wf(),
        ensures
            r == Ok::<bool, Error>(keypress_spec(old(self)@.screen, seq, old(self)@.buf_rows).1),
            final(self)@ == (EditorModel {
                screen: keypress_spec(old(self)@.screen, seq, old(self)@.buf_rows).0,
                ..old(self)@
            }),
            final(self).wf(),
    {
        if seq.ctrl {
            match seq.key {
                KeySeq::Key(b) => {
                    if b == 0x71 {
                        return Ok(false);
                    }
                },
                _ => {},
            }
            return Ok(true);
        }
        match seq.key {
            KeySeq::Home => {
                self.screen.set_cx(0);
            },
            KeySeq::End => {
                let c = self.screen.cols();
                self.screen.set_cx(c - 1);
            },
            KeySeq::PageUp => {
                self.page_move(KeySeq::Up);
            },
            KeySeq::PageDown => {
                self.page_move(KeySeq::Down);
            },
            KeySeq::Up => {
                self.screen.move_cursor(seq.key, self.buf_rows);
                proof {
                    lemma_move_cursor_bounded(
                        old(self)@.screen,
                        seq.key,
                        old(self)@.buf_rows,
                    );
                }
            },
            KeySeq::Down => {
                self.screen.move_cursor(seq.key, self.buf_rows);
                proof {
                    lemma_move_cursor_bounded(
                        old(self)@.screen,
                        seq.key,
                        old(self)@.buf_rows,
                    );
                }
            },
            KeySeq::Right => {
                self.screen.move_cursor(seq.key, self.buf_rows);
                proof {
                    lemma_move_cursor_bounded(
                        old(self)@.screen,
                        seq.key,
                        old(self)@.buf_rows,
                    );
                }
            },
            KeySeq::Left => {
                self.screen.move_cursor(seq.key, self.buf_rows);
                proof {
                    lemma_move_cursor_bounded(
                        old(self)@.screen,
                        seq.key,
                        old(self)@.buf_rows,
                    );
                }
            },
            _ => {},
        }
        Ok(true)
    }

    /// A page movement: one step short of a full screen height, one cursor
    /// step at a time, in the direction `key`.
    #[verifier::loop_isolation(false)]
    fn page_move(&mut self, key: KeySeq)
        requires
            old(self).wf(),
        ensures
            final(self)@ == (EditorModel {
                screen: page_moves(
                    old(self)@.screen,
                    key,
                    old(self)@.screen.rows - 1,
                    old(self)@.buf_rows,
                ),
                ..old(self)@
            }),
            final(self).wf(),
    {
        let ghost s0 = self@.screen;
        let ghost n = self@.screen.rows - 1;
        let mut i = self.screen.rows();
        while i > 1
            invariant
                1 <= i <= self.screen.rows,
                self.wf(),
                self.screen.rows == old(self).screen.rows,
                self.buf_rows == old(self).buf_rows,
                self.rows@ == old(self).rows@,
                self.input.0@ == old(self).input.0@,
                page_moves(self@.screen, key, i - 1, self@.buf_rows) == page_moves(
                    s0,
                    key,
                    n,
                    self@.buf_rows,
                ),
            decreases i,
        {
            let ghost cur = self@.screen;
            self.screen.move_cursor(key, self.buf_rows);
            proof {
                lemma_move_cursor_bounded(cur, key, self@.buf_rows);
            }
            i = i - 1;
        }
        proof {
            assert(self@ =~= (EditorModel {
                screen: page_moves(s0, key, n, old(self)@.buf_rows),
                ..old(self)@
            }));
        }
    }
}

} // verus!
