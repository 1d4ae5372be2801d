//! The viewport and frame renderer.
//!
//! A `Screen` owns the cursor coordinates and scroll offsets over a line
//! buffer, and renders each frame into an off-screen byte buffer which is
//! then appended, in one piece, to the output sink. The sink is a plain byte
//! vector: the embedding program hands its contents to the terminal after
//! each call. `frame_spec` and the spec functions around it state the exact
//! bytes of every frame.

use vstd::prelude::*;
use vstd::array::array_as_slice;
use vstd::slice::slice_index_get;
use vstd::slice::slice_subrange;

use crate::editor::EditorRow;
use crate::editor::rows_wf;
use crate::error::Error;
use crate::input::DummyInputSequences;
use crate::input::InputSeq;
use crate::input::KeySeq;

verus! {

/// The mathematical state of a screen: cursor, dimensions, scroll offsets,
/// the frame buffer being built, and the bytes written to the output sink.
#[verifier::ext_equal]
pub ghost struct ScreenModel {
    pub cx: int,
    pub cy: int,
    pub rows: int,
    pub cols: int,
    pub row_off: int,
    pub col_off: int,
    pub buf: Seq<u8>,
    pub output: Seq<u8>,
}

/// The viewport and frame renderer over an output byte sink.
pub struct Screen {
    /// Cursor column, in buffer coordinates.
    pub cx: usize,
    /// Cursor row, in buffer coordinates.
    pub cy: usize,
    /// Visible height, in rows.
    pub rows: usize,
    /// Visible width, in columns.
    pub cols: usize,
    /// Index of the topmost visible buffer row.
    pub row_off: usize,
    /// Index of the leftmost visible column.
    pub col_off: usize,
    /// The frame being built; written to `output` as one piece.
    pub buf: Vec<u8>,
    /// The output sink.
    pub output: Vec<u8>,
}

impl View for Screen {
    type V = ScreenModel;

    open spec fn view(&self) -> ScreenModel {
        ScreenModel {
            cx: self.cx as int,
            cy: self.cy as int,
            rows: self.rows as int,
            cols: self.cols as int,
            row_off: self.row_off as int,
            col_off: self.col_off as int,
            buf: self.buf@,
            output: self.output@,
        }
    }
}

// ---------------------------------------------------------------------------
// Control sequences and frame bytes, at the specification level
// ---------------------------------------------------------------------------

/// `ESC [ 2 J ESC [ H`: clear the screen and move home.
pub open spec fn clear_bytes() -> Seq<u8> {
    seq![0x1b, 0x5b, 0x32, 0x4a, 0x1b, 0x5b, 0x48]
}

/// `ESC [ ? 2 5 l`: hide the cursor.
pub open spec fn hide_cursor() -> Seq<u8> {
    seq![0x1b, 0x5b, 0x3f, 0x32, 0x35, 0x6c]
}

/// `ESC [ ? 2 5 h`: show the cursor.
pub open spec fn show_cursor() -> Seq<u8> {
    seq![0x1b, 0x5b, 0x3f, 0x32, 0x35, 0x68]
}

/// `ESC [ H`: move the cursor home.
pub open spec fn move_home() -> Seq<u8> {
    seq![0x1b, 0x5b, 0x48]
}

/// `ESC [ K`: erase to the end of the line.
pub open spec fn erase_eol() -> Seq<u8> {
    seq![0x1b, 0x5b, 0x4b]
}

/// The line break between rendered rows.
pub open spec fn crlf() -> Seq<u8> {
    seq![0x0d, 0x0a]
}

/// `ESC [ 999 C ESC [ 999 B ESC [ 6 n`: push the cursor to the bottom-right
/// corner and request a cursor position report.
pub open spec fn cpr_query() -> Seq<u8> {
    seq![
        0x1b, 0x5b, 0x39, 0x39, 0x39, 0x43, 0x1b, 0x5b, 0x39, 0x39, 0x39, 0x42, 0x1b, 0x5b, 0x36,
        0x6e,
    ]
}

/// The decimal digits of `n`, most significant first.
pub open spec fn dec_digits(n: nat) -> Seq<u8>
    decreases n,
{
    if n < 10 {
        seq![(0x30 + n) as u8]
    } else {
        dec_digits(n / 10) + seq![(0x30 + n % 10) as u8]
    }
}

/// `ESC [ row ; col H`: place the cursor, in 1-based terminal coordinates.
pub open spec fn cursor_position(row: nat, col: nat) -> Seq<u8> {
    seq![0x1b, 0x5b] + dec_digits(row) + seq![0x3b] + dec_digits(col) + seq![0x48]
}

/// The welcome banner text.
pub open spec fn welcome_text() -> Seq<u8> {
    seq![
        0x4b, 0x69, 0x72, 0x6f, 0x43, 0x6f, 0x64, 0x65, 0x20, 0x2d, 0x2d, 0x20, 0x76, 0x65, 0x72,
        0x73, 0x69, 0x6f, 0x6e, 0x20, 0x30, 0x2e, 0x30, 0x2e, 0x31,
    ]
}

/// The welcome banner row for a screen `cols` columns wide: a tilde when any
/// centering padding is called for, then the padding less the tilde and one
/// more — the count is spent once before it is tested, so the banner sits a
/// little left of exact centre — then the full banner text.
pub open spec fn welcome_row(cols: int) -> Seq<u8> {
    let wl = if welcome_text().len() > cols {
        cols
    } else {
        welcome_text().len() as int
    };
    let pad = (cols - wl) / 2;
    let tilde: Seq<u8> = if pad > 0 {
        seq![0x7e]
    } else {
        Seq::empty()
    };
    let spaces: int = if pad >= 2 {
        pad - 2
    } else {
        0
    };
    tilde + Seq::new(spaces as nat, |i: int| 0x20) + welcome_text()
}

/// The visible slice of one buffer row: its bytes clipped to the window
/// `[col_off, col_off + cols)`, respecting the row's visible length; nothing
/// when the window starts past the end of the line.
pub open spec fn row_slice(row: EditorRow, col_off: int, cols: int) -> Seq<u8> {
    let size = row.size as int;
    if col_off <= size {
        let end = if col_off + cols < size {
            col_off + cols
        } else {
            size
        };
        row.buf@.subrange(col_off, end)
    } else {
        Seq::empty()
    }
}

/// The bytes of the rendered row `y` of the frame: buffer content or filler,
/// erase-to-end-of-line, and a line break on every row but the last.
pub open spec fn draw_row(s: ScreenModel, num_rows: int, erows: Seq<EditorRow>, y: int) -> Seq<
    u8,
> {
    let fr = y + s.row_off;
    let content = if fr >= num_rows {
        if num_rows == 0 && y == s.rows / 3 {
            welcome_row(s.cols)
        } else {
            seq![0x7e]
        }
    } else if fr < erows.len() {
        row_slice(erows[fr], s.col_off, s.cols)
    } else {
        Seq::empty()
    };
    content + erase_eol() + if y < s.rows - 1 {
        crlf()
    } else {
        Seq::empty()
    }
}

/// The bytes of the first `y` rendered rows of the frame.
pub open spec fn draw_upto(s: ScreenModel, num_rows: int, erows: Seq<EditorRow>, y: int) -> Seq<
    u8,
>
    decreases y,
{
    if y <= 0 {
        Seq::empty()
    } else {
        draw_upto(s, num_rows, erows, y - 1) + draw_row(s, num_rows, erows, y - 1)
    }
}

/// The bytes of all rendered rows of the frame.
pub open spec fn draw_all(s: ScreenModel, num_rows: int, erows: Seq<EditorRow>) -> Seq<u8> {
    draw_upto(s, num_rows, erows, s.rows)
}

/// The rendered rows read nothing of a screen but its dimensions and scroll
/// offsets.
proof fn lemma_draw_upto_coords(m1: ScreenModel, m2: ScreenModel, num_rows: int, erows: Seq<
    EditorRow,
>, y: int)
    requires
        m1.rows == m2.rows,
        m1.cols == m2.cols,
        m1.row_off == m2.row_off,
        m1.col_off == m2.col_off,
    ensures
        draw_upto(m1, num_rows, erows, y) == draw_upto(m2, num_rows, erows, y),
    decreases y,
{
    if y > 0 {
        lemma_draw_upto_coords(m1, m2, num_rows, erows, y - 1);
        assert(draw_row(m1, num_rows, erows, y - 1) == draw_row(m2, num_rows, erows, y - 1));
    }
}

// ---------------------------------------------------------------------------
// Scrolling and cursor movement, at the specification level
// ---------------------------------------------------------------------------

/// The scroll recomputation: each offset is pulled back to the cursor when
/// the cursor lies before it, then pushed forward just enough to keep the
/// cursor within the visible span.
pub open spec fn scroll_spec(s: ScreenModel) -> ScreenModel {
    let ro1 = if s.cy < s.row_off {
        s.cy
    } else {
        s.row_off
    };
    let ro2 = if s.cy >= ro1 + s.rows {
        s.cy - s.rows + 1
    } else {
        ro1
    };
    let co1 = if s.cx < s.col_off {
        s.cx
    } else {
        s.col_off
    };
    let co2 = if s.cx >= co1 + s.cols {
        s.cx - s.cols + 1
    } else {
        co1
    };
    ScreenModel { row_off: ro2, col_off: co2, ..s }
}

/// What `scroll` needs of the machine: the pushed-forward offsets stay
/// within `usize`.
pub open spec fn scroll_req(s: ScreenModel) -> bool {
    &&& s.cy + s.rows <= usize::MAX
    &&& s.cx + s.cols <= usize::MAX
    &&& s.rows == 0 ==> s.cy < usize::MAX
    &&& s.cols == 0 ==> s.cx < usize::MAX
}

/// The viewport invariant: the cursor lies within the visible span whenever
/// there is one.
pub open spec fn viewport_ok(s: ScreenModel) -> bool {
    &&& s.rows >= 1 ==> s.row_off <= s.cy < s.row_off + s.rows
    &&& s.cols >= 1 ==> s.col_off <= s.cx < s.col_off + s.cols
}

/// One cursor movement. `Left` and `Up` stop at zero; `Right` stops at the
/// screen width; `Down` stops at `buf_rows`, the number of buffer lines.
pub open spec fn move_cursor_spec(s: ScreenModel, key: KeySeq, buf_rows: int) -> ScreenModel {
    match key {
        KeySeq::Left => if s.cx > 0 {
            ScreenModel { cx: s.cx - 1, ..s }
        } else {
            s
        },
        KeySeq::Right => if s.cx < s.cols {
            ScreenModel { cx: s.cx + 1, ..s }
        } else {
            s
        },
        KeySeq::Up => if s.cy > 0 {
            ScreenModel { cy: s.cy - 1, ..s }
        } else {
            s
        },
        KeySeq::Down => if s.cy < buf_rows {
            ScreenModel { cy: s.cy + 1, ..s }
        } else {
            s
        },
        _ => s,
    }
}

/// What one full redraw does: scroll, then append to the output sink the
/// pending buffer and the frame — hide cursor, home, every rendered row, the
/// cursor placement in 1-based coordinates, show cursor — leaving the frame
/// buffer empty.
pub open spec fn refresh_spec(s: ScreenModel, num_rows: int, erows: Seq<EditorRow>) -> ScreenModel {
    let t = scroll_spec(s);
    let frame = t.buf + hide_cursor() + move_home() + draw_all(t, num_rows, erows)
        + cursor_position((t.cy - t.row_off + 1) as nat, (t.cx + 1) as nat) + show_cursor();
    ScreenModel { buf: Seq::empty(), output: t.output + frame, ..t }
}

/// What `refresh` needs: scroll arithmetic in range, at least one visible
/// row, a width small enough for the banner padding arithmetic, and
/// well-formed buffer rows.
pub open spec fn refresh_req(s: ScreenModel, erows: Seq<EditorRow>) -> bool {
    &&& scroll_req(s)
    &&& s.rows >= 1
    &&& s.cols <= 0x7fffffff
    &&& rows_wf(erows)
}

// ---------------------------------------------------------------------------
// Laws of the viewport
// ---------------------------------------------------------------------------

/// Law: a single scroll restores the viewport invariant from any state at
/// all, so the invariant holds after every sequence of cursor movements and
/// scrolls that ends with a scroll. Scrolling never touches the cursor or
/// the dimensions.
pub proof fn lemma_scroll_restores_viewport(s: ScreenModel)
    ensures
        viewport_ok(scroll_spec(s)),
        scroll_spec(s).cx == s.cx,
        scroll_spec(s).cy == s.cy,
        scroll_spec(s).rows == s.rows,
        scroll_spec(s).cols == s.cols,
        scroll_spec(s).buf == s.buf,
        scroll_spec(s).output == s.output,
{
}

/// Law: moving left at the left edge changes nothing.
pub proof fn lemma_move_left_at_origin(s: ScreenModel, buf_rows: int)
    requires
        s.cx == 0,
    ensures
        move_cursor_spec(s, KeySeq::Left, buf_rows) == s,
{
}

/// Law: moving right at the chosen cap — one column past the last, `cx ==
/// cols` — changes nothing.
pub proof fn lemma_move_right_at_cap(s: ScreenModel, buf_rows: int)
    requires
        s.cx == s.cols,
    ensures
        move_cursor_spec(s, KeySeq::Right, buf_rows) == s,
{
}

/// Law: moving down never takes the cursor past the last buffer line, and
/// moving up never takes it above the first.
pub proof fn lemma_move_cursor_bounded(s: ScreenModel, key: KeySeq, buf_rows: int)
    requires
        0 <= s.cy <= buf_rows,
        0 <= s.cx <= s.cols,
    ensures
        0 <= move_cursor_spec(s, key, buf_rows).cy <= buf_rows,
        0 <= move_cursor_spec(s, key, buf_rows).cx <= s.cols,
        move_cursor_spec(s, key, buf_rows).rows == s.rows,
        move_cursor_spec(s, key, buf_rows).cols == s.cols,
        move_cursor_spec(s, key, buf_rows).row_off == s.row_off,
        move_cursor_spec(s, key, buf_rows).col_off == s.col_off,
        move_cursor_spec(s, key, buf_rows).buf == s.buf,
        move_cursor_spec(s, key, buf_rows).output == s.output,
{
}

// ---------------------------------------------------------------------------
// Byte plumbing
// ---------------------------------------------------------------------------

/// Appends `b` to `v`.
fn push_bytes(v: &mut Vec<u8>, b: &[u8])
    ensures
        final(v)@ == old(v)@ + b@,
{
    let mut i: usize = 0;
    while i < b.len()
        invariant
            0 <= i <= b@.len(),
            v@ == old(v)@ + b@.take(i as int),
        decreases b@.len() - i,
    {
        v.push(*slice_index_get(b, i));
        proof {
            assert(v@ =~= old(v)@ + b@.take(i + 1));
        }
        i = i + 1;
    }
    proof {
        assert(b@.take(i as int) =~= b@);
        assert(v@ =~= old(v)@ + b@);
    }
}

/// Appends the decimal digits of `n` to `v`.
fn push_decimal(v: &mut Vec<u8>, n: usize)
    ensures
        final(v)@ == old(v)@ + dec_digits(n as nat),
    decreases n,
{
    if n >= 10 {
        push_decimal(v, n / 10);
    }
    v.push((n % 10) as u8 + 0x30);
    proof {
        assert(v@ =~= old(v)@ + dec_digits(n as nat));
    }
}

impl Screen {
    /// A screen of the given size over the given sink; without one, the size
    /// is resolved by asking the operating system and, failing that, by the
    /// cursor-position-report protocol over `input` and `output`.
    pub fn new(size: Option<(usize, usize)>, input: DummyInputSequences, output: Vec<u8>) -> (r:
        Result<Self, Error>)
        ensures
            size matches Some(s) ==> r matches Ok(sc) && sc@ == (ScreenModel {
                cx: 0,
                cy: 0,
                rows: s.1 as int,
                cols: s.0 as int,
                row_off: 0,
                col_off: 0,
                buf: Seq::<u8>::empty(),
                output: output@,
            }),
            size is None && r is Err ==> r == Err::<Self, Error>(Error::UnknownWindowSize)
                && first_cursor(input.0@) is None,
            size is None ==> (r matches Ok(sc) ==> sc@.cx == 0 && sc@.cy == 0 && sc@.row_off == 0
                && sc@.col_off == 0 && sc@.buf == Seq::<u8>::empty() && ((sc@.output == output@ && 1
                <= sc@.cols <= 0xffff && 1 <= sc@.rows <= 0xffff) || (sc@.output == output@
                + cpr_query() && first_cursor(input.0@) == Some((sc@.cols as usize, sc@.rows
                as usize))))),
    {
        let mut input = input;
        Self::new_from(size, &mut input, output)
    }

    /// As `new`, over a borrowed event queue: the queue is left untouched
    /// unless the cursor-position-report fallback runs, which consumes it up
    /// to and including the first report.
    pub(crate) fn new_from(
        size: Option<(usize, usize)>,
        input: &mut DummyInputSequences,
        output: Vec<u8>,
    ) -> (r: Result<Self, Error>)
        ensures
            size matches Some(s) ==> r matches Ok(sc) && sc@ == (ScreenModel {
                cx: 0,
                cy: 0,
                rows: s.1 as int,
                cols: s.0 as int,
                row_off: 0,
                col_off: 0,
                buf: Seq::<u8>::empty(),
                output: output@,
            }) && final(input).0@ == old(input).0@,
            size is None && r is Err ==> r == Err::<Self, Error>(Error::UnknownWindowSize)
                && first_cursor(old(input).0@) is None && final(input).0@ == after_first_cursor(
                old(input).0@,
            ),
            size is None ==> (r matches Ok(sc) ==> sc@.cx == 0 && sc@.cy == 0 && sc@.row_off == 0
                && sc@.col_off == 0 && sc@.buf == Seq::<u8>::empty() && ((sc@.output == output@ && 1
                <= sc@.cols <= 0xffff && 1 <= sc@.rows <= 0xffff && final(input).0@ == old(
                input,
            ).0@) || (sc@.output == output@ + cpr_query() && first_cursor(old(input).0@) == Some(
                (sc@.cols as usize, sc@.rows as usize),
            ) && final(input).0@ == after_first_cursor(old(input).0@)))),
    {
        let mut output = output;
        if let Some((w, h)) = size {
            return Ok(
                Self { cx: 0, cy: 0, rows: h, cols: w, row_off: 0, col_off: 0, buf: Vec::new(), output },
            );
        }
        let (w, h) = match get_window_size(input, &mut output) {
            Ok(p) => p,
            Err(e) => {
                return Err(e);
            },
        };
        Ok(Self { cx: 0, cy: 0, rows: h, cols: w, row_off: 0, col_off: 0, buf: Vec::new(), output })
    }

    /// The visible height, in rows.
    pub fn rows(&self) -> (r: usize)
        ensures
            r == self.rows,
    {
        self.rows
    }

    /// The visible width, in columns.
    pub fn cols(&self) -> (r: usize)
        ensures
            r == self.cols,
    {
        self.cols
    }

    /// Places the cursor column.
    pub fn set_cx(&mut self, cx: usize)
        ensures
            final(self)@ == (ScreenModel { cx: cx as int, ..old(self)@ }),
    {
        self.cx = cx;
    }

    /// Clears the terminal: writes the clear-screen and move-home sequences
    /// straight to the output sink.
    pub fn clear(&mut self) -> (r: Result<(), Error>)
        ensures
            r is Ok,
            final(self)@ == (ScreenModel { output: old(self)@.output + clear_bytes(), ..old(self)@ }),
    {
        push_bytes(&mut self.output, &[0x1b, 0x5b, 0x32, 0x4a]);
        push_bytes(&mut self.output, &[0x1b, 0x5b, 0x48]);
        proof {
            assert(self@.output =~= old(self)@.output + clear_bytes());
        }
        Ok(())
    }

    /// Appends `buf` to the frame buffer.
    pub fn append_buffers(&mut self, buf: &[u8])
        ensures
            final(self)@ == (ScreenModel { buf: old(self)@.buf + buf@, ..old(self)@ }),
    {
        push_bytes(&mut self.buf, buf);
    }

    /// Recomputes the scroll offsets so that the cursor is visible again.
    pub fn scroll(&mut self)
        requires
            scroll_req(old(self)@),
        ensures
            final(self)@ == scroll_spec(old(self)@),
            viewport_ok(final(self)@),
    {
        if self.cy < self.row_off {
            self.row_off = self.cy;
        }
        if self.cy >= self.row_off + self.rows {
            self.row_off = self.cy - self.rows + 1;
        }
        if self.cx < self.col_off {
            self.col_off = self.cx;
        }
        if self.cx >= self.col_off + self.cols {
            self.col_off = self.cx - self.cols + 1;
        }
        proof {
            lemma_scroll_restores_viewport(old(self)@);
            assert(self@ =~= scroll_spec(old(self)@));
        }
    }

    /// Moves the cursor one step.
    pub fn move_cursor(&mut self, key: KeySeq, buf_rows: usize)
        ensures
            final(self)@ == move_cursor_spec(old(self)@, key, buf_rows as int),
    {
        match key {
            KeySeq::Left => {
                if self.cx > 0 {
                    self.cx = self.cx - 1;
                }
            },
            KeySeq::Right => {
                if self.cx < self.cols {
                    self.cx = self.cx + 1;
                }
            },
            KeySeq::Up => {
                if self.cy > 0 {
                    self.cy = self.cy - 1;
                }
            },
            KeySeq::Down => {
                if self.cy < buf_rows {
                    self.cy = self.cy + 1;
                }
            },
            _ => {},
        }
        proof {
            assert(self@ =~= move_cursor_spec(old(self)@, key, buf_rows as int));
        }
    }

    /// Renders the visible rows into the frame buffer: buffer content
    /// clipped to the window, tilde fillers past the end of the buffer, and
    /// the welcome banner a third of the way down an entirely empty buffer.
    pub fn draw_rows(&mut self, num_rows: usize, rows: &mut Vec<EditorRow>)
        requires
            old(self).cols <= 0x7fffffff,
            old(self).rows == 0 || old(self).row_off + old(self).rows - 1 <= usize::MAX,
            rows_wf(old(rows)@),
        ensures
            final(self)@ == (ScreenModel {
                buf: old(self)@.buf + draw_all(old(self)@, num_rows as int, old(rows)@),
                ..old(self)@
            }),
            final(rows)@ == old(rows)@,
    {
        let ghost m = old(self)@;
        let mut y: usize = 0;
        while y < self.rows
            invariant
                0 <= y <= m.rows,
                self.cx == m.cx && self.cy == m.cy && self.rows == m.rows && self.cols == m.cols
                    && self.row_off == m.row_off && self.col_off == m.col_off,
                self.output@ == m.output,
                self.buf@ == m.buf + draw_upto(m, num_rows as int, rows@, y as int),
                rows@ == old(rows)@,
                rows_wf(rows@),
                m.cols <= 0x7fffffff,
                m.rows == 0 || m.row_off + m.rows - 1 <= usize::MAX,
            decreases m.rows - y,
        {
            let ghost pre = self.buf@;
            let file_row = y + self.row_off;
            if file_row >= num_rows {
                if num_rows == 0 && y == self.rows / 3 {
                    self.draw_welcome();
                } else {
                    self.append_buffers(&[0x7e]);
                }
            } else {
                if file_row < rows.len() {
                    let size = rows[file_row].size;
                    if self.col_off <= size {
                        let end = if size - self.col_off > self.cols {
                            self.col_off + self.cols
                        } else {
                            size
                        };
                        proof {
                            assert(rows@[file_row as int].wf());
                        }
                        let piece = slice_subrange(
                            rows[file_row].buf.as_slice(),
                            self.col_off,
                            end,
                        );
                        self.append_buffers(piece);
                    }
                }
            }
            self.append_buffers(&[0x1b, 0x5b, 0x4b]);
            if y < self.rows - 1 {
                self.append_buffers(&[0x0d, 0x0a]);
            }
            proof {
                assert(self.buf@ =~= pre + draw_row(m, num_rows as int, rows@, y as int));
                assert(self.buf@ =~= m.buf + draw_upto(m, num_rows as int, rows@, y as int + 1));
            }
            y = y + 1;
        }
    }

    /// Renders the welcome banner row into the frame buffer.
    fn draw_welcome(&mut self)
        requires
            old(self).cols <= 0x7fffffff,
        ensures
            final(self)@ == (ScreenModel {
                buf: old(self)@.buf + welcome_row(old(self)@.cols),
                ..old(self)@
            }),
    {
        let ghost m = old(self)@;
        let text: [u8; 25] = [
            0x4b, 0x69, 0x72, 0x6f, 0x43, 0x6f, 0x64, 0x65, 0x20, 0x2d, 0x2d, 0x20, 0x76, 0x65,
            0x72, 0x73, 0x69, 0x6f, 0x6e, 0x20, 0x30, 0x2e, 0x30, 0x2e, 0x31,
        ];
        proof {
            assert(text@ =~= welcome_text());
        }
        let text_len: usize = 25;
        let clipped = if text_len > self.cols {
            self.cols
        } else {
            text_len
        };
        let pad: usize = (self.cols - clipped) / 2;
        let mut p = pad;
        if p > 0 {
            self.append_buffers(&[0x7e]);
            p = p - 1;
        }
        let ghost after_tilde = self.buf@;
        let ghost p0 = p as int;
        let ghost spaces: int = if pad >= 2 {
            pad - 2
        } else {
            0
        };
        while p > 1
            invariant
                0 <= p <= p0,
                p0 >= 1 ==> p >= 1,
                p0 == 0 ==> p == 0,
                p0 == if pad > 0 { pad - 1 } else { 0int },
                spaces == if pad >= 2 { pad - 2 } else { 0int },
                self.buf@ == after_tilde + Seq::new((p0 - p) as nat, |i: int| 0x20u8),
                self.cx == m.cx && self.cy == m.cy && self.rows == m.rows && self.cols == m.cols
                    && self.row_off == m.row_off && self.col_off == m.col_off,
                self.output@ == m.output,
            decreases p,
        {
            self.append_buffers(&[0x20]);
            proof {
                assert(self.buf@ =~= after_tilde + Seq::new((p0 - p + 1) as nat, |i: int| 0x20u8));
            }
            p = p - 1;
        }
        proof {
            assert(p0 - p == spaces);
        }
        self.append_buffers(array_as_slice(&text));
        proof {
            assert(self.buf@ =~= m.buf + welcome_row(m.cols));
        }
    }

    /// One full redraw: scroll, build the frame, and hand it to the output
    /// sink in one piece.
    pub fn refresh(&mut self, num_size: usize, rows: &mut Vec<EditorRow>) -> (r: Result<(), Error>)
        requires
            refresh_req(old(self)@, old(rows)@),
        ensures
            r is Ok,
            final(self)@ == refresh_spec(old(self)@, num_size as int, old(rows)@),
            final(rows)@ == old(rows)@,
    {
        self.scroll();
        self.append_buffers(&[0x1b, 0x5b, 0x3f, 0x32, 0x35, 0x6c]);
        self.append_buffers(&[0x1b, 0x5b, 0x48]);
        self.draw_rows(num_size, rows);
        self.append_buffers(&[0x1b, 0x5b]);
        let cursor_row = self.cy - self.row_off + 1;
        push_decimal(&mut self.buf, cursor_row);
        self.append_buffers(&[0x3b]);
        let cursor_col = self.cx + 1;
        push_decimal(&mut self.buf, cursor_col);
        self.append_buffers(&[0x48]);
        self.append_buffers(&[0x1b, 0x5b, 0x3f, 0x32, 0x35, 0x68]);
        self.output.append(&mut self.buf);
        proof {
            let t = scroll_spec(old(self)@);
            let m2 = ScreenModel { buf: t.buf + hide_cursor() + move_home(), ..t };
            lemma_draw_upto_coords(m2, t, num_size as int, old(rows)@, t.rows);
            assert(self@ =~= refresh_spec(old(self)@, num_size as int, old(rows)@));
        }
        Ok(())
    }
}

// ---------------------------------------------------------------------------
// Window-size resolution
// ---------------------------------------------------------------------------

/// The first cursor position report among `events`, if any.
pub open spec fn first_cursor(events: Seq<InputSeq>) -> Option<(usize, usize)>
    decreases events.len(),
{
    if events.len() == 0 {
        None
    } else {
        match events[0].key {
            KeySeq::Cursor(x, y) => Some((x, y)),
            _ => first_cursor(events.skip(1)),
        }
    }
}

/// The events left after the first cursor position report has been read,
/// with everything before it; nothing is left when there is no report, since
/// the whole queue is scanned for one.
pub open spec fn after_first_cursor(events: Seq<InputSeq>) -> Seq<InputSeq>
    decreases events.len(),
{
    if events.len() == 0 {
        events
    } else {
        match events[0].key {
            KeySeq::Cursor(x, y) => events.skip(1),
            _ => after_first_cursor(events.skip(1)),
        }
    }
}

/// Relies on `term_size::dimensions`: the `(columns, rows)` of the attached
/// terminal when stdout, stdin or stderr is one, read as the two `u16`
/// fields of the window-size ioctl and returned only when both are nonzero.
#[verifier::external_body]
fn terminal_dimensions() -> (r: Option<(usize, usize)>)
    ensures
        r matches Some(p) ==> 1 <= p.0 <= 0xffff && 1 <= p.1 <= 0xffff,
{
    term_size::dimensions()
}

/// Resolves the window size: asks the operating system first, and otherwise
/// runs the cursor-position-report protocol.
fn get_window_size(input: &mut DummyInputSequences, output: &mut Vec<u8>) -> (r: Result<
    (usize, usize),
    Error,
>)
    ensures
        r matches Ok(p) ==> (final(output)@ == old(output)@ && 1 <= p.0 <= 0xffff && 1 <= p.1
            <= 0xffff && final(input).0@ == old(input).0@) || (final(output)@ == old(output)@
            + cpr_query() && first_cursor(old(input).0@) == Some(p) && final(input).0@
            == after_first_cursor(old(input).0@)),
        r matches Err(e) ==> e == Error::UnknownWindowSize && first_cursor(old(input).0@) is None
            && final(output)@ == old(output)@ + cpr_query() && final(input).0@
            == after_first_cursor(old(input).0@),
{
    match terminal_dimensions() {
        Some(s) => Ok(s),
        None => cpr_resolve(input, output),
    }
}

/// The cursor-position-report query, as bytes for the wire.
pub fn cpr_query_bytes() -> (r: Vec<u8>)
    ensures
        r@ == cpr_query(),
{
    let mut v: Vec<u8> = Vec::new();
    push_bytes(
        &mut v,
        &[
            0x1b, 0x5b, 0x39, 0x39, 0x39, 0x43, 0x1b, 0x5b, 0x39, 0x39, 0x39, 0x42, 0x1b, 0x5b,
            0x36, 0x6e,
        ],
    );
    proof {
        assert(v@ =~= cpr_query());
    }
    v
}

/// The cursor-position-report protocol: writes the query to the output sink
/// and scans the input events for the first report, whose coordinates are
/// read as `(columns, rows)`.
pub fn get_cursor_pos(input: DummyInputSequences, output: &mut Vec<u8>) -> (r: Result<
    (usize, usize),
    Error,
>)
    ensures
        final(output)@ == old(output)@ + cpr_query(),
        match first_cursor(input.0@) {
            Some(p) => r == Ok::<(usize, usize), Error>(p),
            None => r == Err::<(usize, usize), Error>(Error::UnknownWindowSize),
        },
{
    let mut input = input;
    cpr_resolve(&mut input, output)
}

/// The cursor-position-report protocol over a borrowed event queue, which is
/// consumed up to and including the first report.
#[verifier::loop_isolation(false)]
fn cpr_resolve(input: &mut DummyInputSequences, output: &mut Vec<u8>) -> (r: Result<
    (usize, usize),
    Error,
>)
    ensures
        final(output)@ == old(output)@ + cpr_query(),
        final(input).0@ == after_first_cursor(old(input).0@),
        match first_cursor(old(input).0@) {
            Some(p) => r == Ok::<(usize, usize), Error>(p),
            None => r == Err::<(usize, usize), Error>(Error::UnknownWindowSize),
        },
{
    push_bytes(
        output,
        &[
            0x1b, 0x5b, 0x39, 0x39, 0x39, 0x43, 0x1b, 0x5b, 0x39, 0x39, 0x39, 0x42, 0x1b, 0x5b,
            0x36, 0x6e,
        ],
    );
    proof {
        assert(output@ =~= old(output)@ + cpr_query());
    }
    loop
        invariant
            output@ == old(output)@ + cpr_query(),
            first_cursor(input.0@) == first_cursor(old(input).0@),
            after_first_cursor(input.0@) == after_first_cursor(old(input).0@),
        decreases input.0@.len(),
    {
        match input.next_event() {
            Some(seq) => {
                match seq.key {
                    KeySeq::Cursor(w, h) => {
                        return Ok((w, h));
                    },
                    _ => {},
                }
            },
            None => {
                return Err(Error::UnknownWindowSize);
            },
        }
    }
}

} // verus!
