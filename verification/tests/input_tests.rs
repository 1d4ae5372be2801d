use kirocode::InputSeq;
use kirocode::InputSequences;
use kirocode::KeySeq;
use kirocode::parse_bytes_as_usize;

use KeySeq::{Cursor, Del, Down, End, Home, Key, Left, PageDown, PageUp, Right, Unidentified, Up};

fn seqs(bytes: &[u8]) -> InputSequences {
    InputSequences::new(bytes.iter().map(|b| Some(*b)).collect())
}

#[test]
fn test_read_byte() {
    let mut i = InputSequences::new(vec![]);
    assert_eq!(i.read_byte().unwrap(), None);

    let mut i = seqs(b"a");
    assert_eq!(i.read_byte().unwrap(), Some(b'a'));

    let mut i = InputSequences::new(vec![None, Some(b'b')]);
    assert_eq!(i.read_byte().unwrap(), None);
    assert_eq!(i.read_byte().unwrap(), Some(b'b'));
}

#[test]
fn test_input_sequences_decode() {
    let mut i = InputSequences::new(vec![]);
    assert_eq!(i.decode(0x80).unwrap().key, Unidentified);
    assert_eq!(i.decode(0x20).unwrap().key, Key(0x20));
    assert_eq!(i.decode(0x7e).unwrap().key, Key(0x7e));
}

#[test]
fn test_input_seq() {
    let i1 = InputSeq::new(Key(b'a'));
    assert_eq!(i1.key, Key(b'a'));
    assert_eq!(i1.ctrl, false);
    assert_eq!(i1.alt, false);

    let i2 = InputSeq::ctrl(Key(b'a'));
    assert_eq!(i2.key, Key(b'a'));
    assert_eq!(i2.ctrl, true);
    assert_eq!(i2.alt, false);

    let i3 = InputSeq::alt(Key(b'a'));
    assert_eq!(i3.key, Key(b'a'));
    assert_eq!(i3.ctrl, false);
    assert_eq!(i3.alt, true);
}

#[test]
fn test_parse_bytes_as_usize() {
    assert_eq!(parse_bytes_as_usize(b""), None);
    assert_eq!(parse_bytes_as_usize(b" "), None);
    assert_eq!(parse_bytes_as_usize(b"hogehoge"), None);
    assert_eq!(parse_bytes_as_usize(b"0"), Some(0));
    assert_eq!(parse_bytes_as_usize(b"1"), Some(1));
    assert_eq!(parse_bytes_as_usize(b"10"), Some(10));
}

#[test]
fn test_parse_bytes_edge_cases() {
    assert_eq!(parse_bytes_as_usize(b"+10"), Some(10));
    assert_eq!(parse_bytes_as_usize(b"+"), None);
    assert_eq!(parse_bytes_as_usize(b"007"), Some(7));
    assert_eq!(parse_bytes_as_usize(b"1 0"), None);
    assert_eq!(parse_bytes_as_usize(b"-1"), None);
    // far beyond the largest usize
    assert_eq!(parse_bytes_as_usize(b"99999999999999999999999999"), None);
    assert_eq!(parse_bytes_as_usize(&usize::MAX.to_string().into_bytes()), Some(usize::MAX));
}

#[test]
fn test_decode_printable_bytes() {
    for b in 0x20..=0x7eu8 {
        let mut i = InputSequences::new(vec![]);
        let seq = i.decode(b).unwrap();
        assert_eq!(seq.key, Key(b));
        assert_eq!(seq.ctrl, false);
        assert_eq!(seq.alt, false);
    }
}

#[test]
fn test_decode_control_bytes() {
    for b in 0x00..=0x1fu8 {
        if b == 0x1b {
            continue;
        }
        let mut i = InputSequences::new(vec![]);
        let seq = i.decode(b).unwrap();
        assert_eq!(seq.key, Key(b & 0x1f));
        assert_eq!(seq.ctrl, true);
        // the byte is recovered from the letter it was built from
        assert_eq!((b | 0x60) & 0x1f, b);
    }
    let mut i = InputSequences::new(vec![]);
    let del = i.decode(0x7f).unwrap();
    assert_eq!(del.key, Key(0x1f));
    assert_eq!(del.ctrl, true);
}

#[test]
fn test_decode_escape_arrows() {
    let mut i = seqs(b"[A");
    assert_eq!(i.decode_escape_sequence().unwrap().key, Up);
    let mut i = seqs(b"[B");
    assert_eq!(i.decode_escape_sequence().unwrap().key, Down);
    let mut i = seqs(b"[C");
    assert_eq!(i.decode_escape_sequence().unwrap().key, Right);
    let mut i = seqs(b"[D");
    assert_eq!(i.decode_escape_sequence().unwrap().key, Left);
}

#[test]
fn test_decode_escape_tilde_keys() {
    let mut i = seqs(b"[3~");
    assert_eq!(i.decode_escape_sequence().unwrap().key, Del);
    let mut i = seqs(b"[5~");
    assert_eq!(i.decode_escape_sequence().unwrap().key, PageUp);
    let mut i = seqs(b"[6~");
    assert_eq!(i.decode_escape_sequence().unwrap().key, PageDown);
    let mut i = seqs(b"[1~");
    assert_eq!(i.decode_escape_sequence().unwrap().key, Home);
    let mut i = seqs(b"[7~");
    assert_eq!(i.decode_escape_sequence().unwrap().key, Home);
    let mut i = seqs(b"[4~");
    assert_eq!(i.decode_escape_sequence().unwrap().key, End);
    let mut i = seqs(b"[8~");
    assert_eq!(i.decode_escape_sequence().unwrap().key, End);
    // a field that is not a bare digit is not a recognised key
    let mut i = seqs(b"[01~");
    assert_eq!(i.decode_escape_sequence().unwrap().key, Unidentified);
}

#[test]
fn test_decode_escape_home_end_letters() {
    let mut i = seqs(b"[H");
    assert_eq!(i.decode_escape_sequence().unwrap().key, Home);
    let mut i = seqs(b"[F");
    assert_eq!(i.decode_escape_sequence().unwrap().key, End);
    let mut i = seqs(b"OH");
    assert_eq!(i.decode_escape_sequence().unwrap().key, Home);
    let mut i = seqs(b"OF");
    assert_eq!(i.decode_escape_sequence().unwrap().key, End);
}

#[test]
fn test_decode_escape_timeouts() {
    // nothing after the escape byte: a lone escape key
    let mut i = InputSequences::new(vec![Some(0x1b)]);
    assert_eq!(i.read_seq().unwrap().key, Key(0x1b));
    let mut i = InputSequences::new(vec![Some(0x1b), None]);
    assert_eq!(i.read_seq().unwrap().key, Key(0x1b));
    // a timeout in the middle of a sequence is not a key
    let mut i = InputSequences::new(vec![Some(0x1b), Some(b'['), None]);
    assert_eq!(i.read_seq().unwrap().key, Unidentified);
    // a control byte right after the escape: a lone escape key
    let mut i = InputSequences::new(vec![Some(0x1b), Some(0x01)]);
    assert_eq!(i.read_seq().unwrap().key, Key(0x1b));
}

#[test]
fn test_read_seq_full_sequences() {
    let mut i = InputSequences::new(vec![]);
    assert_eq!(i.read_seq().unwrap().key, Unidentified);

    let mut i = seqs(b"\x1b[A");
    assert_eq!(i.read_seq().unwrap().key, Up);

    let mut i = seqs(b"x\x1b[B\x1b[5~");
    assert_eq!(i.read_seq().unwrap().key, Key(b'x'));
    assert_eq!(i.read_seq().unwrap().key, Down);
    assert_eq!(i.read_seq().unwrap().key, PageUp);
    assert_eq!(i.read_seq().unwrap().key, Unidentified);
}

#[test]
fn test_decode_cursor_report() {
    let mut i = seqs(b"\x1b[50;100R");
    assert_eq!(i.read_seq().unwrap().key, Cursor(50, 100));

    // fields that do not parse are skipped
    let mut i = seqs(b"[a;50;100R");
    assert_eq!(i.decode_escape_sequence().unwrap().key, Cursor(50, 100));

    // fewer than two numeric fields is not a report
    let mut i = seqs(b"[50R");
    assert_eq!(i.decode_escape_sequence().unwrap().key, Unidentified);
    let mut i = seqs(b"[R");
    assert_eq!(i.decode_escape_sequence().unwrap().key, Unidentified);
}
