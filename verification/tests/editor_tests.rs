use kirocode::DummyInputSequences;
use kirocode::Editor;
use kirocode::InputSeq;
use kirocode::KeySeq;
use kirocode::Screen;

use KeySeq::{Cursor, Del, Down, End, Home, Key, Left, PageDown, PageUp, Right};

// The window size is resolved through the operating system or, failing that,
// through the cursor-position-report fallback; a queued report serves either
// way.
fn size_reply() -> DummyInputSequences {
    DummyInputSequences(vec![InputSeq::new(Cursor(50, 100))])
}

#[test]
fn test_editor_new() {
    let i = size_reply();
    let o: Vec<u8> = vec![];
    let e = Editor::new(i, o).unwrap();
    assert_eq!(e.buf_rows, 0);
    assert_eq!(e.rows.len(), 0);
}

#[test]
fn test_editor_open() {
    // nothing could be loaded: the buffer stays empty
    let i = size_reply();
    let o: Vec<u8> = vec![];
    let e = Editor::open(vec![], i, o).unwrap();
    assert_eq!(e.buf_rows, 1);
    assert_eq!(e.rows.len(), 0);

    let i = size_reply();
    let o: Vec<u8> = vec![];
    let e = Editor::open(vec![b"kirocode test file.".to_vec()], i, o).unwrap();
    assert_eq!(e.buf_rows, 2);
    assert_eq!(e.rows.len(), 1);

    assert_eq!(e.rows[0].size, 19);
    assert_eq!(e.rows[0].buf, b"kirocode test file.");
}

#[test]
fn test_editor_open_strips_line_break() {
    let i = size_reply();
    let e = Editor::open(vec![b"abc\n".to_vec(), b"de\r".to_vec()], i, vec![]).unwrap();
    assert_eq!(e.rows[0].size, 3);
    assert_eq!(e.rows[0].buf, b"abc\n");
    assert_eq!(e.rows[1].size, 2);
    assert_eq!(e.rows[1].buf, b"de\r");
}

#[test]
fn test_append_row() {
    let i = size_reply();
    let o: Vec<u8> = vec![];
    let mut e = Editor::new(i, o).unwrap();

    e.append_row(b"kirocode".to_vec(), 8);
    assert_eq!(e.rows.len(), 1);
    assert_eq!(e.rows[0].size, 8);
    assert_eq!(e.rows[0].buf, b"kirocode");
    assert_eq!(e.buf_rows, 1);
}

#[test]
fn test_process_keypress() {
    let i = size_reply();
    let o: Vec<u8> = vec![];
    let mut e = Editor::new(i, o).unwrap();

    let ret = e.process_keypress(InputSeq::new(Key(b'a')));
    assert_eq!(ret.unwrap(), true);

    // quit
    let ret = e.process_keypress(InputSeq::ctrl(Key(b'q')));
    assert_eq!(ret.unwrap(), false);
}

#[test]
fn test_process_keypress_moves() {
    let screen = Screen::new(Some((50, 100)), DummyInputSequences(vec![]), vec![]).unwrap();
    let mut e = Editor {
        screen,
        input: DummyInputSequences(vec![]),
        buf_rows: 10,
        rows: vec![],
    };

    assert!(e.process_keypress(InputSeq::new(Right)).unwrap());
    assert!(e.process_keypress(InputSeq::new(Right)).unwrap());
    assert_eq!(e.screen.cx, 2);
    assert!(e.process_keypress(InputSeq::new(Down)).unwrap());
    assert_eq!(e.screen.cy, 1);
    assert!(e.process_keypress(InputSeq::new(End)).unwrap());
    assert_eq!(e.screen.cx, 49);
    assert!(e.process_keypress(InputSeq::new(Home)).unwrap());
    assert_eq!(e.screen.cx, 0);
    // a full page down is one step short of the screen height, stopped at
    // the last buffer line
    assert!(e.process_keypress(InputSeq::new(PageDown)).unwrap());
    assert_eq!(e.screen.cy, 10);
    assert!(e.process_keypress(InputSeq::new(PageUp)).unwrap());
    assert_eq!(e.screen.cy, 0);
    // an unhandled key changes nothing
    assert!(e.process_keypress(InputSeq::new(Del)).unwrap());
    assert_eq!((e.screen.cx, e.screen.cy), (0, 0));
    // any control key but `q` is ignored
    assert!(e.process_keypress(InputSeq::ctrl(Key(b'a' & 0x1f))).unwrap());
}

#[test]
fn test_edit_runs_until_quit() {
    let screen = Screen::new(Some((10, 4)), DummyInputSequences(vec![]), vec![]).unwrap();
    let mut e = Editor {
        screen,
        input: DummyInputSequences(vec![
            InputSeq::new(Right),
            InputSeq::new(Right),
            InputSeq::ctrl(Key(b'q')),
            InputSeq::new(Left),
        ]),
        buf_rows: 0,
        rows: vec![],
    };
    e.edit().unwrap();
    // the two moves before the quit event were applied, the one after was not
    assert_eq!(e.screen.cx, 2);
    assert_eq!(e.input.0.len(), 1);
    // the session ends by clearing the terminal
    assert!(e.screen.output.ends_with(b"\x1b[2J\x1b[H"));
    assert!(e.screen.buf.is_empty());
}

#[test]
fn test_edit_stops_when_input_is_exhausted() {
    let screen = Screen::new(Some((10, 4)), DummyInputSequences(vec![]), vec![]).unwrap();
    let mut e = Editor {
        screen,
        input: DummyInputSequences(vec![]),
        buf_rows: 0,
        rows: vec![],
    };
    e.edit().unwrap();
    assert!(e.input.0.is_empty());
    assert!(e.screen.output.ends_with(b"\x1b[2J\x1b[H"));
}
