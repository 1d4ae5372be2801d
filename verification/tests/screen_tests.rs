use kirocode::DummyInputSequences;
use kirocode::EditorRow;
use kirocode::Error;
use kirocode::InputSeq;
use kirocode::KeySeq;
use kirocode::Screen;
use kirocode::get_cursor_pos;

use KeySeq::{Cursor, Down, Left, Right, Up};

fn editor_rows_to_buf(erows: Vec<EditorRow>, rows: usize) -> Vec<u8> {
    let mut buf = vec![];
    for i in 0..erows.len() {
        let e = &erows[i];
        buf.extend(e.buf[..e.size].iter());
        buf.extend(b"\x1b[K");
        if i < rows - 1 {
            buf.extend(b"\r\n");
        }
    }

    for i in erows.len()..rows {
        buf.extend(b"~\x1b[K");
        if i < rows - 1 {
            buf.extend(b"\r\n");
        }
    }

    buf
}

#[test]
fn test_screen_new() {
    // the cursor report resolves the size wherever no terminal answers
    let input = DummyInputSequences(vec![InputSeq::new(Cursor(50, 100))]);
    let output: Vec<u8> = vec![];
    match Screen::new(None, input, output) {
        Ok(screen) => {
            assert!(screen.cols > 0);
            assert!(screen.rows > 0);
        }
        _ => unreachable!(),
    };
}

#[test]
fn test_screen_new_default_size() {
    let input = DummyInputSequences(vec![]);
    let output: Vec<u8> = vec![];
    match Screen::new(Some((50, 100)), input, output) {
        Ok(screen) => {
            assert_eq!(screen.cols, 50);
            assert_eq!(screen.rows, 100);
        }
        _ => unreachable!(),
    };
}

#[test]
fn test_get_cursor_pos() {
    let input = DummyInputSequences(vec![]);
    let mut output: Vec<u8> = vec![];

    match get_cursor_pos(input, &mut output) {
        Err(Error::UnknownWindowSize) => {}
        _ => unreachable!(),
    }

    let input = DummyInputSequences(vec![InputSeq::new(Cursor(50, 100))]);
    let mut output: Vec<u8> = vec![];
    match get_cursor_pos(input, &mut output) {
        Ok((x, y)) => {
            assert_eq!(x, 50);
            assert_eq!(y, 100);
        }
        _ => unreachable!(),
    }
}

#[test]
fn test_get_cursor_pos_writes_query() {
    let input = DummyInputSequences(vec![InputSeq::new(Cursor(50, 100))]);
    let mut output: Vec<u8> = vec![];
    get_cursor_pos(input, &mut output).unwrap();
    assert_eq!(output, b"\x1b[999C\x1b[999B\x1b[6n");
}

#[test]
fn test_get_cursor_pos_parity() {
    // the raw reply byte stream, decoded and handed to the resolver
    let reply = b"\x1b[50;100R";
    let mut seqs = kirocode::InputSequences::new(reply.iter().map(|b| Some(*b)).collect());
    let event = seqs.read_seq().unwrap();
    assert_eq!(event.key, Cursor(50, 100));

    let input = DummyInputSequences(vec![event]);
    let mut output: Vec<u8> = vec![];
    match get_cursor_pos(input, &mut output) {
        Ok((x, y)) => {
            assert_eq!(x, 50);
            assert_eq!(y, 100);
        }
        _ => unreachable!(),
    }
}

#[test]
fn test_clear() {
    let input = DummyInputSequences(vec![]);
    let mut screen = Screen::new(Some((50, 100)), input, vec![]).unwrap();
    screen.clear().unwrap();
    assert_eq!(screen.output, b"\x1b[2J\x1b[H");
}

#[test]
fn test_append_buffers() {
    let input = DummyInputSequences(vec![]);
    let output: Vec<u8> = vec![];
    let mut screen = Screen::new(Some((50, 100)), input, output).unwrap();
    screen.append_buffers(b"abcde");
    assert_eq!(screen.buf, b"abcde".to_vec());
}

#[test]
fn test_scroll() {
    let i = DummyInputSequences(vec![]);
    let o: Vec<u8> = vec![];
    let mut s = Screen::new(Some((50, 100)), i, o).unwrap();
    assert_eq!(s.row_off, 0);

    s.cy = 100;
    s.row_off = 101;
    s.scroll();
    assert_eq!(s.row_off, 100);

    // scroll
    let i = DummyInputSequences(vec![]);
    let o: Vec<u8> = vec![];
    let mut s = Screen::new(Some((50, 100)), i, o).unwrap();
    s.cy = 150;
    s.row_off = 50;
    s.scroll();
    assert_eq!(s.row_off, 51);
}

#[test]
fn test_move_cursor() {
    // left
    let input = DummyInputSequences(vec![]);
    let output: Vec<u8> = vec![];
    let mut screen = Screen::new(Some((50, 100)), input, output).unwrap();
    screen.move_cursor(Left, 1);
    assert_eq!(screen.cx, 0);
    screen.move_cursor(Right, 1);
    assert_eq!(screen.cx, 1);

    // right
    let input = DummyInputSequences(vec![]);
    let output: Vec<u8> = vec![];
    let mut screen = Screen::new(Some((50, 100)), input, output).unwrap();
    for _ in 0..100 {
        screen.move_cursor(Right, 1);
    }
    assert_eq!(screen.cx, 50);

    // up
    let input = DummyInputSequences(vec![]);
    let output: Vec<u8> = vec![];
    let mut screen = Screen::new(Some((50, 100)), input, output).unwrap();
    screen.move_cursor(Up, 10);
    assert_eq!(screen.cx, 0);
    screen.move_cursor(Down, 10);
    assert_eq!(screen.cy, 1);

    // down
    let input = DummyInputSequences(vec![]);
    let output: Vec<u8> = vec![];
    let mut screen = Screen::new(Some((50, 100)), input, output).unwrap();
    for _ in 0..200 {
        screen.move_cursor(Down, 10);
    }
    assert_eq!(screen.cy, 10);
    for _ in 0..200 {
        screen.move_cursor(Down, 100);
    }
    assert_eq!(screen.cy, 100);
}

#[test]
fn test_move_cursor_down_capped() {
    // twenty steps down over a ten-line buffer stop at the last line
    let input = DummyInputSequences(vec![]);
    let mut screen = Screen::new(Some((50, 100)), input, vec![]).unwrap();
    for _ in 0..20 {
        screen.move_cursor(Down, 10);
    }
    assert_eq!(screen.cy, 10);
}

#[test]
fn test_draw_rows_welcom_message() {
    let i = DummyInputSequences(vec![]);
    let o: Vec<u8> = vec![];
    let mut s = Screen::new(Some((50, 100)), i, o).unwrap();
    s.draw_rows(0, &mut vec![]);

    let mut buf: Vec<u8> = vec![];
    for _ in 0..33 {
        buf.extend(b"~\x1b[K\r\n");
    }
    buf.extend(b"~");
    for _ in 0..10 {
        buf.extend(b" ");
    }
    buf.extend(b"KiroCode -- version 0.0.1\x1b[K\r\n");
    for _ in 0..65 {
        buf.extend(b"~\x1b[K\r\n");
    }
    buf.extend(b"~\x1b[K");

    assert_eq!(
        String::from_utf8(s.buf).unwrap(),
        String::from_utf8(buf).unwrap(),
    );
}

#[test]
fn test_draw_rows_welcom_multiple_rows() {
    let i = DummyInputSequences(vec![]);
    let o: Vec<u8> = vec![];
    let mut s = Screen::new(Some((50, 100)), i, o).unwrap();

    let mut erows = vec![
        EditorRow {
            buf: b"hello".to_vec(),
            size: 5,
        },
        EditorRow {
            buf: b"world".to_vec(),
            size: 5,
        },
        EditorRow {
            buf: b"kirocode".to_vec(),
            size: 8,
        },
    ];
    s.draw_rows(3, &mut erows);
    assert_eq!(
        String::from_utf8(s.buf),
        String::from_utf8(editor_rows_to_buf(erows, 100)),
    );
}

#[test]
fn test_draw_rows_scrolled_clipping() {
    // a scrolled line shows the window [col_off, col_off + cols) of its bytes
    let i = DummyInputSequences(vec![]);
    let mut s = Screen::new(Some((5, 2)), i, vec![]).unwrap();
    s.col_off = 2;
    let mut erows = vec![EditorRow {
        buf: b"0123456789".to_vec(),
        size: 10,
    }];
    s.draw_rows(1, &mut erows);
    assert_eq!(s.buf, b"23456\x1b[K\r\n~\x1b[K".to_vec());

    // scrolled past the end of a short line: nothing of it is shown
    let i = DummyInputSequences(vec![]);
    let mut s = Screen::new(Some((5, 1)), i, vec![]).unwrap();
    s.col_off = 4;
    let mut erows = vec![EditorRow {
        buf: b"abc".to_vec(),
        size: 3,
    }];
    s.draw_rows(1, &mut erows);
    assert_eq!(s.buf, b"\x1b[K".to_vec());

    // only the visible length counts, not the bytes stored beyond it
    let i = DummyInputSequences(vec![]);
    let mut s = Screen::new(Some((5, 1)), i, vec![]).unwrap();
    s.col_off = 1;
    let mut erows = vec![EditorRow {
        buf: b"abcdef".to_vec(),
        size: 2,
    }];
    s.draw_rows(1, &mut erows);
    assert_eq!(s.buf, b"b\x1b[K".to_vec());
}

#[test]
fn test_refresh() {
    let i = DummyInputSequences(vec![]);
    let o: Vec<u8> = vec![];
    let mut s = Screen::new(Some((50, 100)), i, o).unwrap();

    let mut erows = vec![EditorRow {
        buf: b"hello".to_vec(),
        size: 5,
    }];

    s.refresh(1, &mut erows).unwrap();

    let mut buf = b"\x1b[?25l\x1b[H".to_vec();
    buf.extend(editor_rows_to_buf(erows, 100));
    buf.extend(b"\x1b[1;1H\x1b[?25h");

    // output
    assert_eq!(String::from_utf8(s.output), String::from_utf8(buf));

    // refresh
    assert_eq!(s.buf, vec![]);
}

#[test]
fn test_error_messages() {
    assert_eq!(
        Error::UnknownWindowSize.message(),
        "Could not detect terminal window size"
    );
    assert_eq!(Error::InputReadByteError.message(), "input read byte error");
    assert_eq!(
        Error::InputNotFoundEscapeError.message(),
        "input not found escape error"
    );
}
