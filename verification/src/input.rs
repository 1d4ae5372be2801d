//! Decoding of raw terminal bytes into semantic key events.
//!
//! The decoder consumes a finite sequence of read results. Each slot is
//! `Some(byte)` for a byte that arrived, or `None` for a read that timed out
//! with nothing available; the terminal's raw mode is configured by the
//! embedding program so that every read returns quickly either way. The
//! decoder itself is pure: `spec_read_seq` states exactly which event a
//! sequence of read results denotes and how many slots it occupies, and the
//! executable functions are proved to follow it.

use vstd::prelude::*;
use vstd::slice::slice_index_get;
use vstd::slice::slice_subrange;

use crate::error::Error;

verus! {

/// The escape byte that introduces a control sequence.
pub const ESC: u8 = 0x1b;

/// One semantic key event.
#[derive(Clone, Copy, Debug, PartialEq, Eq, Structural)]
pub enum KeySeq {
    Left,
    Right,
    Up,
    Down,
    Del,
    Home,
    End,
    PageUp,
    PageDown,
    /// A literal key, by its byte value.
    Key(u8),
    /// A cursor position report `(x, y)`; produced only while resolving the
    /// window size, never by ordinary key dispatch.
    Cursor(usize, usize),
    Unidentified,
}

/// A key event together with its modifier flags.
#[derive(Clone, Copy, Debug, PartialEq, Eq, Structural)]
pub struct InputSeq {
    pub key: KeySeq,
    pub ctrl: bool,
    pub alt: bool,
}

impl InputSeq {
    /// The event `key` with no modifiers.
    pub fn new(key: KeySeq) -> (r: Self)
        ensures
            r == (InputSeq { key, ctrl: false, alt: false }),
    {
        Self { key, ctrl: false, alt: false }
    }

    /// The event `key` with the control modifier set.
    pub fn ctrl(key: KeySeq) -> (r: Self)
        ensures
            r == (InputSeq { key, ctrl: true, alt: false }),
    {
        Self { key, ctrl: true, alt: false }
    }

    /// The event `key` with the alt modifier set.
    pub fn alt(key: KeySeq) -> (r: Self)
        ensures
            r == (InputSeq { key, ctrl: false, alt: true }),
    {
        Self { key, ctrl: false, alt: true }
    }
}

/// The event `key` with no modifiers, at the specification level.
pub open spec fn plain_seq(key: KeySeq) -> InputSeq {
    InputSeq { key, ctrl: false, alt: false }
}

/// The event `key` with the control modifier, at the specification level.
pub open spec fn ctrl_seq(key: KeySeq) -> InputSeq {
    InputSeq { key, ctrl: true, alt: false }
}

// ---------------------------------------------------------------------------
// Numeric fields
// ---------------------------------------------------------------------------

/// Whether `b` is an ASCII decimal digit.
pub open spec fn is_digit(b: u8) -> bool {
    0x30 <= b <= 0x39
}

/// The value of a digit string read in base ten.
pub open spec fn digits_value(s: Seq<u8>) -> int
    decreases s.len(),
{
    if s.len() == 0 {
        0
    } else {
        digits_value(s.drop_last()) * 10 + (s.last() - 0x30)
    }
}

/// The digits of a numeric field: an optional leading `+` sign is skipped.
pub open spec fn digit_body(s: Seq<u8>) -> Seq<u8> {
    if s.len() > 0 && s[0] == 0x2b {
        s.skip(1)
    } else {
        s
    }
}

/// Whether `s` is a well-formed numeric field whose value fits in `usize`:
/// after an optional `+`, one or more decimal digits.
pub open spec fn parses_as_usize(s: Seq<u8>) -> bool {
    let d = digit_body(s);
    &&& d.len() > 0
    &&& forall|i: int| 0 <= i < d.len() ==> is_digit(#[trigger] d[i])
    &&& digits_value(d) <= usize::MAX
}

/// The value of a well-formed numeric field.
pub open spec fn field_value(s: Seq<u8>) -> int {
    digits_value(digit_body(s))
}

proof fn lemma_digits_value_nonneg(s: Seq<u8>)
    requires
        forall|i: int| 0 <= i < s.len() ==> is_digit(#[trigger] s[i]),
    ensures
        digits_value(s) >= 0,
    decreases s.len(),
{
    if s.len() > 0 {
        lemma_digits_value_nonneg(s.drop_last());
    }
}

proof fn lemma_digits_value_mono(s: Seq<u8>, k: int)
    requires
        0 <= k <= s.len(),
        forall|i: int| 0 <= i < s.len() ==> is_digit(#[trigger] s[i]),
    ensures
        digits_value(s.take(k)) <= digits_value(s),
    decreases s.len() - k,
{
    if k < s.len() {
        lemma_digits_value_mono(s, k + 1);
        assert(s.take(k + 1).drop_last() =~= s.take(k));
        assert(digits_value(s.take(k + 1)) == digits_value(s.take(k)) * 10 + (s[k] - 0x30));
        lemma_digits_value_nonneg(s.take(k));
    } else {
        assert(s.take(k) =~= s);
    }
}

/// Reads a byte string as a `usize`, as a decimal numeric field: an optional
/// leading `+`, then one or more digits. Returns `None` on any other shape,
/// and on a value that does not fit.
pub fn parse_bytes_as_usize(b: &[u8]) -> (r: Option<usize>)
    ensures
        parses_as_usize(b@) ==> r == Some(field_value(b@) as usize),
        !parses_as_usize(b@) ==> r is None,
{
    let n = b.len();
    let start: usize = if n > 0 && *slice_index_get(b, 0) == 0x2b {
        1
    } else {
        0
    };
    if start >= n {
        return None;
    }
    let ghost d = digit_body(b@);
    proof {
        assert(d =~= b@.skip(start as int));
    }
    let mut acc: usize = 0;
    let mut i: usize = start;
    while i < n
        invariant
            start <= i <= n,
            n == b@.len(),
            start < n,
            d == digit_body(b@),
            d == b@.skip(start as int),
            d.len() == n - start,
            forall|j: int| 0 <= j < i - start ==> is_digit(#[trigger] d[j]),
            acc == digits_value(d.take(i - start)),
        decreases n - i,
    {
        let c = *slice_index_get(b, i);
        if c < 0x30 || c > 0x39 {
            assert(!is_digit(d[i - start]));
            return None;
        }
        let dig: usize = (c - 0x30) as usize;
        proof {
            assert(d.take(i - start + 1).drop_last() =~= d.take(i - start));
            assert(digits_value(d.take(i - start + 1)) == acc * 10 + dig);
        }
        if acc > usize::MAX / 10 || (acc == usize::MAX / 10 && dig > usize::MAX % 10) {
            proof {
                assert(acc * 10 + dig > usize::MAX) by (nonlinear_arith)
                    requires
                        acc > usize::MAX / 10 || (acc == usize::MAX / 10 && dig > usize::MAX % 10),
                        usize::MAX == (usize::MAX / 10) * 10 + usize::MAX % 10,
                ;
                if parses_as_usize(b@) {
                    assert forall|j: int| 0 <= j < d.len() implies is_digit(#[trigger] d[j]) by {
                        assert(is_digit(digit_body(b@)[j]));
                    }
                    lemma_digits_value_mono(d, i - start + 1);
                }
            }
            return None;
        }
        acc = acc * 10 + dig;
        i = i + 1;
    }
    proof {
        assert(d.take(i - start) =~= d);
    }
    Some(acc)
}

// ---------------------------------------------------------------------------
// Escape-sequence structure
// ---------------------------------------------------------------------------

/// Whether `b` ends an escape sequence and names its command.
pub open spec fn is_cmd_byte(b: u8) -> bool {
    ||| b == 0x41  // A
    ||| b == 0x42  // B
    ||| b == 0x43  // C
    ||| b == 0x44  // D
    ||| b == 0x48  // H
    ||| b == 0x46  // F
    ||| b == 0x52  // R
    ||| b == 0x7e  // ~
}

/// Whether `b` is an ASCII control byte (C0 range or DEL).
pub open spec fn is_control_byte(b: u8) -> bool {
    b < 0x20 || b == 0x7f
}

/// Whether `b` ends an escape sequence, for gathering reads ahead of the
/// decoder.
pub fn is_escape_terminator(b: u8) -> (r: bool)
    ensures
        r == is_cmd_byte(b),
{
    b == 0x41 || b == 0x42 || b == 0x43 || b == 0x44 || b == 0x48 || b == 0x46 || b == 0x52
        || b == 0x7e
}

/// How many argument slots precede the command byte: the length of the
/// longest prefix of `s` made of bytes that arrived and are not command
/// bytes.
pub open spec fn args_len(s: Seq<Option<u8>>) -> int
    decreases s.len(),
{
    if s.len() == 0 {
        0
    } else if s[0] is None {
        0
    } else if is_cmd_byte(s[0]->0) {
        0
    } else {
        1 + args_len(s.skip(1))
    }
}

/// The first `n` slots of `s`, as the bytes they carry.
pub open spec fn arg_bytes(s: Seq<Option<u8>>, n: int) -> Seq<u8> {
    Seq::new(n as nat, |k: int| s[k]->0)
}

pub proof fn lemma_args_len_bounds(s: Seq<Option<u8>>)
    ensures
        0 <= args_len(s) <= s.len(),
        forall|j: int|
            0 <= j < args_len(s) ==> (#[trigger] s[j]) is Some && !is_cmd_byte(s[j]->0),
        args_len(s) < s.len() ==> (s[args_len(s)] is None || is_cmd_byte(s[args_len(s)]->0)),
    decreases s.len(),
{
    if s.len() > 0 && s[0] is Some && !is_cmd_byte(s[0]->0) {
        lemma_args_len_bounds(s.skip(1));
        assert forall|j: int|
            0 <= j < args_len(s) implies (#[trigger] s[j]) is Some && !is_cmd_byte(s[j]->0) by {
            if j > 0 {
                assert(s.skip(1)[j - 1] == s[j]);
            }
        }
        if args_len(s) < s.len() {
            assert(s.skip(1)[args_len(s) - 1] == s[args_len(s)]);
        }
    }
}

/// How many slots the front event of `s` occupies lies within `s`.
pub proof fn lemma_read_len_bounds(s: Seq<Option<u8>>)
    ensures
        0 <= spec_read_seq(s).1 <= s.len(),
        s.len() > 0 && s[0] == Some(ESC) ==> 0 <= spec_escape(s.skip(1)).1 <= s.len() - 1,
{
    if s.len() > 0 && s[0] == Some(ESC) {
        lemma_args_len_bounds(s.skip(1).skip(1));
    }
}

/// The index of the first `;` in `s`, or `s.len()` if there is none.
pub open spec fn first_semi(s: Seq<u8>) -> int
    decreases s.len(),
{
    if s.len() == 0 {
        0
    } else if s[0] == 0x3b {
        0
    } else {
        1 + first_semi(s.skip(1))
    }
}

pub proof fn lemma_first_semi_bounds(s: Seq<u8>)
    ensures
        0 <= first_semi(s) <= s.len(),
        forall|j: int| 0 <= j < first_semi(s) ==> #[trigger] s[j] != 0x3b,
        first_semi(s) < s.len() ==> s[first_semi(s)] == 0x3b,
    decreases s.len(),
{
    if s.len() > 0 && s[0] != 0x3b {
        lemma_first_semi_bounds(s.skip(1));
        assert forall|j: int| 0 <= j < first_semi(s) implies #[trigger] s[j] != 0x3b by {
            if j > 0 {
                assert(s.skip(1)[j - 1] == s[j]);
            }
        }
        if first_semi(s) < s.len() {
            assert(s.skip(1)[first_semi(s) - 1] == s[first_semi(s)]);
        }
    }
}

/// The value of the first `;`-separated field of `s` that is a well-formed
/// number, if any; the reply parser skips fields that do not parse.
pub open spec fn first_num_field(s: Seq<u8>) -> Option<usize>
    decreases s.len(),
    via first_num_field_decreases
{
    let i = first_semi(s);
    if parses_as_usize(s.take(i)) {
        Some(field_value(s.take(i)) as usize)
    } else if i >= s.len() {
        None
    } else {
        first_num_field(s.skip(i + 1))
    }
}

#[via_fn]
proof fn first_num_field_decreases(s: Seq<u8>) {
    lemma_first_semi_bounds(s);
}

/// The values of the first two `;`-separated fields of `s` that are
/// well-formed numbers, if there are two.
pub open spec fn two_num_fields(s: Seq<u8>) -> Option<(usize, usize)>
    decreases s.len(),
    via two_num_fields_decreases
{
    let i = first_semi(s);
    if parses_as_usize(s.take(i)) {
        if i < s.len() {
            match first_num_field(s.skip(i + 1)) {
                Some(y) => Some((field_value(s.take(i)) as usize, y)),
                None => None,
            }
        } else {
            None
        }
    } else if i >= s.len() {
        None
    } else {
        two_num_fields(s.skip(i + 1))
    }
}

#[via_fn]
proof fn two_num_fields_decreases(s: Seq<u8>) {
    lemma_first_semi_bounds(s);
}

/// Whether `s` is exactly the one byte `b`.
pub open spec fn is_single(s: Seq<u8>, b: u8) -> bool {
    s.len() == 1 && s[0] == b
}

/// The event denoted by a completed escape sequence: the command byte `cmd`
/// and the argument bytes that preceded it.
pub open spec fn classify_escape(cmd: u8, args: Seq<u8>) -> InputSeq {
    if cmd == 0x52 {
        match two_num_fields(args) {
            Some(p) => plain_seq(KeySeq::Cursor(p.0, p.1)),
            None => plain_seq(KeySeq::Unidentified),
        }
    } else if cmd == 0x7e {
        let f = args.take(first_semi(args));
        if is_single(f, 0x31) || is_single(f, 0x37) {
            plain_seq(KeySeq::Home)
        } else if is_single(f, 0x34) || is_single(f, 0x38) {
            plain_seq(KeySeq::End)
        } else if is_single(f, 0x33) {
            plain_seq(KeySeq::Del)
        } else if is_single(f, 0x35) {
            plain_seq(KeySeq::PageUp)
        } else if is_single(f, 0x36) {
            plain_seq(KeySeq::PageDown)
        } else {
            plain_seq(KeySeq::Unidentified)
        }
    } else if cmd == 0x41 {
        plain_seq(KeySeq::Up)
    } else if cmd == 0x42 {
        plain_seq(KeySeq::Down)
    } else if cmd == 0x43 {
        plain_seq(KeySeq::Right)
    } else if cmd == 0x44 {
        plain_seq(KeySeq::Left)
    } else if cmd == 0x48 {
        plain_seq(KeySeq::Home)
    } else if cmd == 0x46 {
        plain_seq(KeySeq::End)
    } else {
        plain_seq(KeySeq::Unidentified)
    }
}

/// The event denoted by the slots that follow an escape byte, and the number
/// of those slots it occupies. A timeout right after the escape stands for a
/// lone escape key; the byte after the escape (conventionally `[` or `O`) is
/// consumed without being inspected further unless it is a control byte.
pub open spec fn spec_escape(s: Seq<Option<u8>>) -> (InputSeq, int) {
    if s.len() == 0 {
        (plain_seq(KeySeq::Key(ESC)), 0)
    } else if s[0] is None {
        (plain_seq(KeySeq::Key(ESC)), 1)
    } else if is_control_byte(s[0]->0) {
        (plain_seq(KeySeq::Key(ESC)), 1)
    } else {
        let t = s.skip(1);
        let n = args_len(t);
        if n >= t.len() {
            (plain_seq(KeySeq::Unidentified), 1 + t.len() as int)
        } else if t[n] is None {
            (plain_seq(KeySeq::Unidentified), 1 + n + 1)
        } else {
            (classify_escape(t[n]->0, arg_bytes(t, n)), 1 + n + 1)
        }
    }
}

/// The event denoted by the byte `b` when it does not introduce an escape
/// sequence: control bytes carry the control modifier and are unmasked to
/// the low five bits; printable ASCII is a literal key; anything else is
/// unidentified.
pub open spec fn spec_decode_byte(b: u8) -> InputSeq {
    if b <= 0x1f || b == 0x7f {
        ctrl_seq(KeySeq::Key(b & 0x1f))
    } else if 0x20 <= b <= 0x7e {
        plain_seq(KeySeq::Key(b))
    } else {
        plain_seq(KeySeq::Unidentified)
    }
}

/// The event denoted by the byte `b` read in front of the slots `s`, and how
/// many of those slots it occupies beyond `b` itself.
pub open spec fn spec_decode(s: Seq<Option<u8>>, b: u8) -> (InputSeq, int) {
    if b == ESC {
        spec_escape(s)
    } else {
        (spec_decode_byte(b), 0)
    }
}

/// The event denoted by the front of the slots `s`, and the number of slots
/// it occupies: a missing or timed-out first read is an unidentified event.
pub open spec fn spec_read_seq(s: Seq<Option<u8>>) -> (InputSeq, int) {
    if s.len() == 0 {
        (plain_seq(KeySeq::Unidentified), 0)
    } else if s[0] is None {
        (plain_seq(KeySeq::Unidentified), 1)
    } else {
        let (r, c) = spec_decode(s.skip(1), s[0]->0);
        (r, 1 + c)
    }
}

// ---------------------------------------------------------------------------
// Laws of the byte classifier
// ---------------------------------------------------------------------------

/// Law: every printable ASCII byte decodes to itself as a literal key with
/// no modifiers, consuming nothing further.
pub proof fn lemma_decode_printable(s: Seq<Option<u8>>, b: u8)
    requires
        0x20 <= b <= 0x7e,
    ensures
        spec_decode(s, b) == (plain_seq(KeySeq::Key(b)), 0int),
{
}

/// Law: every control byte other than the escape byte decodes with the
/// control modifier to its low five bits, consuming nothing further; masking
/// recovers the byte from the letter it was built from (`b | 0x60`).
pub proof fn lemma_decode_control(s: Seq<Option<u8>>, b: u8)
    requires
        b <= 0x1f || b == 0x7f,
        b != ESC,
    ensures
        spec_decode(s, b) == (ctrl_seq(KeySeq::Key(b & 0x1f)), 0int),
        b <= 0x1f ==> ((b | 0x60) & 0x1f) == b,
{
    assert(b <= 0x1f ==> ((b | 0x60) & 0x1f) == b) by (bit_vector);
}

// ---------------------------------------------------------------------------
// The executable decoder
// ---------------------------------------------------------------------------

/// A decoder over a finite sequence of read results. `Some(b)` is a byte
/// that arrived; `None` is a read that returned with nothing.
pub struct InputSequences {
    slots: Vec<Option<u8>>,
}

impl View for InputSequences {
    type V = Seq<Option<u8>>;

    closed spec fn view(&self) -> Seq<Option<u8>> {
        self.slots@
    }
}

impl InputSequences {
    /// A decoder over the given read results.
    pub fn new(slots: Vec<Option<u8>>) -> (r: Self)
        ensures
            r@ == slots@,
    {
        InputSequences { slots }
    }

    /// Takes the front read result; a missing slot reads as a timeout.
    pub fn read_byte(&mut self) -> (r: Result<Option<u8>, Error>)
        ensures
            old(self)@.len() == 0 ==> r == Ok::<Option<u8>, Error>(None) && final(self)@
                == old(self)@,
            old(self)@.len() > 0 ==> r == Ok::<Option<u8>, Error>(old(self)@[0]) && final(self)@
                == old(self)@.skip(1),
    {
        if self.slots.len() == 0 {
            Ok(None)
        } else {
            let b = self.slots.remove(0);
            proof {
                assert(self@ =~= old(self)@.skip(1));
            }
            Ok(b)
        }
    }

    /// Reads one event: takes the front read result and decodes it.
    pub fn read_seq(&mut self) -> (r: Result<InputSeq, Error>)
        ensures
            r == Ok::<InputSeq, Error>(spec_read_seq(old(self)@).0),
            final(self)@ == old(self)@.skip(spec_read_seq(old(self)@).1),
    {
        let front = self.read_byte()?;
        match front {
            Some(b) => {
                let r = self.decode(b)?;
                proof {
                    lemma_read_len_bounds(old(self)@);
                    if b == ESC {
                        lemma_args_len_bounds(old(self)@.skip(1).skip(1));
                    }
                    assert(old(self)@.skip(1).skip(spec_decode(old(self)@.skip(1), b).1) =~= old(
                        self,
                    )@.skip(spec_read_seq(old(self)@).1));
                }
                Ok(r)
            },
            None => {
                proof {
                    assert(old(self)@.skip(spec_read_seq(old(self)@).1) =~= self@);
                }
                Ok(InputSeq::new(KeySeq::Unidentified))
            },
        }
    }

    /// Decodes the byte `b`, reading further slots only when `b` introduces
    /// an escape sequence.
    pub fn decode(&mut self, b: u8) -> (r: Result<InputSeq, Error>)
        ensures
            r == Ok::<InputSeq, Error>(spec_decode(old(self)@, b).0),
            final(self)@ == old(self)@.skip(spec_decode(old(self)@, b).1),
    {
        if b == ESC {
            self.decode_escape_sequence()
        } else {
            proof {
                assert(old(self)@.skip(0) =~= old(self)@);
            }
            if b <= 0x1f || b == 0x7f {
                Ok(InputSeq::ctrl(KeySeq::Key(b & 0x1f)))
            } else if b <= 0x7e {
                Ok(InputSeq::new(KeySeq::Key(b)))
            } else {
                Ok(InputSeq::new(KeySeq::Unidentified))
            }
        }
    }

    /// Decodes the remainder of an escape sequence, the escape byte itself
    /// having been read already.
    pub fn decode_escape_sequence(&mut self) -> (r: Result<InputSeq, Error>)
        ensures
            r == Ok::<InputSeq, Error>(spec_escape(old(self)@).0),
            final(self)@ == old(self)@.skip(spec_escape(old(self)@).1),
    {
        let intro = self.read_byte()?;
        let intro_byte = match intro {
            Some(c) => c,
            None => {
                proof {
                    assert(old(self)@.skip(spec_escape(old(self)@).1) =~= self@);
                }
                return Ok(InputSeq::new(KeySeq::Key(ESC)));
            },
        };
        if intro_byte < 0x20 || intro_byte == 0x7f {
            return Ok(InputSeq::new(KeySeq::Key(ESC)));
        }
        // The byte after the escape, conventionally `[` or `O`, has been
        // consumed; the command byte ends the sequence.
        let ghost s = old(self)@;
        let ghost t = s.skip(1);
        proof {
            lemma_args_len_bounds(t);
        }
        let mut buf: Vec<u8> = Vec::new();
        let mut cmd: u8 = 0;
        let mut found = false;
        while !found
            invariant
                s == old(self)@,
                t == s.skip(1),
                s.len() > 0,
                s[0] is Some,
                !is_control_byte(s[0]->0),
                buf@.len() <= t.len(),
                forall|j: int|
                    0 <= j < buf@.len() ==> (#[trigger] t[j]) is Some && !is_cmd_byte(t[j]->0),
                buf@ == arg_bytes(t, buf@.len() as int),
                !found ==> self@ == t.skip(buf@.len() as int),
                found ==> buf@.len() < t.len() && t[buf@.len() as int] == Some(cmd) && is_cmd_byte(
                    cmd,
                ) && self@ == t.skip(buf@.len() as int + 1),
            decreases t.len() - buf@.len() + (if found { 0int } else { 1int }),
        {
            let next = self.read_byte()?;
            match next {
                Some(c) => {
                    if is_escape_terminator(c) {
                        cmd = c;
                        found = true;
                        proof {
                            assert(t.skip(buf@.len() as int)[0] == t[buf@.len() as int]);
                            assert(t.skip(buf@.len() as int).skip(1) =~= t.skip(buf@.len() as int + 1));
                        }
                    } else {
                        let ghost k = buf@.len() as int;
                        buf.push(c);
                        proof {
                            assert(t.skip(k)[0] == t[k]);
                            assert(buf@ =~= arg_bytes(t, k + 1));
                            assert(t.skip(k).skip(1) =~= t.skip(k + 1));
                        }
                    }
                },
                None => {
                    proof {
                        let k = buf@.len() as int;
                        if k < t.len() {
                            assert(t.skip(k)[0] == t[k]);
                            lemma_args_len_eq(t, k);
                            assert(t.skip(k).skip(1) =~= t.skip(k + 1));
                            assert(s.skip(spec_escape(s).1) =~= t.skip(k + 1));
                        } else {
                            lemma_args_len_eq(t, k);
                            assert(t.skip(k).len() == 0);
                            assert(s.skip(spec_escape(s).1) =~= t.skip(k));
                        }
                    }
                    return Ok(InputSeq::new(KeySeq::Unidentified));
                },
            }
        }
        proof {
            lemma_args_len_eq(t, buf@.len() as int);
            assert(spec_escape(s).1 == 1 + buf@.len() + 1);
            assert(s.skip(1 + buf@.len() as int + 1) =~= t.skip(buf@.len() as int + 1));
        }
        Ok(self.classify(cmd, &buf))
    }

    /// Maps a completed escape sequence to its event.
    fn classify(&self, cmd: u8, buf: &Vec<u8>) -> (r: InputSeq)
        ensures
            r == classify_escape(cmd, buf@),
    {
        if cmd == 0x52 {
            match cursor_fields(buf) {
                Some(p) => InputSeq::new(KeySeq::Cursor(p.0, p.1)),
                None => InputSeq::new(KeySeq::Unidentified),
            }
        } else if cmd == 0x7e {
            let i = find_semi(buf.as_slice());
            proof {
                lemma_first_semi_bounds(buf@);
            }
            if i == 1 && buf[0] == 0x31 {
                InputSeq::new(KeySeq::Home)
            } else if i == 1 && buf[0] == 0x37 {
                InputSeq::new(KeySeq::Home)
            } else if i == 1 && buf[0] == 0x34 {
                InputSeq::new(KeySeq::End)
            } else if i == 1 && buf[0] == 0x38 {
                InputSeq::new(KeySeq::End)
            } else if i == 1 && buf[0] == 0x33 {
                InputSeq::new(KeySeq::Del)
            } else if i == 1 && buf[0] == 0x35 {
                InputSeq::new(KeySeq::PageUp)
            } else if i == 1 && buf[0] == 0x36 {
                InputSeq::new(KeySeq::PageDown)
            } else {
                InputSeq::new(KeySeq::Unidentified)
            }
        } else if cmd == 0x41 {
            InputSeq::new(KeySeq::Up)
        } else if cmd == 0x42 {
            InputSeq::new(KeySeq::Down)
        } else if cmd == 0x43 {
            InputSeq::new(KeySeq::Right)
        } else if cmd == 0x44 {
            InputSeq::new(KeySeq::Left)
        } else if cmd == 0x48 {
            InputSeq::new(KeySeq::Home)
        } else if cmd == 0x46 {
            InputSeq::new(KeySeq::End)
        } else {
            InputSeq::new(KeySeq::Unidentified)
        }
    }
}

proof fn lemma_args_len_eq(t: Seq<Option<u8>>, k: int)
    requires
        0 <= k <= t.len(),
        forall|j: int| 0 <= j < k ==> (#[trigger] t[j]) is Some && !is_cmd_byte(t[j]->0),
        k < t.len() ==> (t[k] is None || is_cmd_byte(t[k]->0)),
    ensures
        args_len(t) == k,
    decreases k,
{
    if k > 0 {
        lemma_args_len_eq(t.skip(1), k - 1);
    }
}

/// The index of the first `;` in `b`, or its length if there is none.
fn find_semi(b: &[u8]) -> (i: usize)
    ensures
        i == first_semi(b@),
    decreases b@.len(),
{
    if b.len() == 0 {
        0
    } else if *slice_index_get(b, 0) == 0x3b {
        0
    } else {
        proof {
            lemma_first_semi_bounds(b@.skip(1));
        }
        let rest = slice_subrange(b, 1, b.len());
        1 + find_semi(rest)
    }
}

/// The value of the first `;`-separated field of `b` that is a well-formed
/// number, if any.
fn first_field(b: &[u8]) -> (r: Option<usize>)
    ensures
        r == first_num_field(b@),
    decreases b@.len(),
{
    proof {
        lemma_first_semi_bounds(b@);
    }
    let i = find_semi(b);
    let head = slice_subrange(b, 0, i);
    proof {
        assert(head@ =~= b@.take(i as int));
    }
    match parse_bytes_as_usize(head) {
        Some(v) => Some(v),
        None => {
            if i >= b.len() {
                None
            } else {
                let rest = slice_subrange(b, i + 1, b.len());
                proof {
                    assert(rest@ =~= b@.skip(i + 1));
                }
                first_field(rest)
            }
        },
    }
}

/// The values of the first two `;`-separated fields of `buf` that are
/// well-formed numbers, if there are two.
fn cursor_fields(buf: &Vec<u8>) -> (r: Option<(usize, usize)>)
    ensures
        r == two_num_fields(buf@),
{
    two_fields(buf.as_slice())
}

fn two_fields(b: &[u8]) -> (r: Option<(usize, usize)>)
    ensures
        r == two_num_fields(b@),
    decreases b@.len(),
{
    proof {
        lemma_first_semi_bounds(b@);
    }
    let i = find_semi(b);
    let head = slice_subrange(b, 0, i);
    proof {
        assert(head@ =~= b@.take(i as int));
    }
    match parse_bytes_as_usize(head) {
        Some(x) => {
            if i < b.len() {
                let rest = slice_subrange(b, i + 1, b.len());
                proof {
                    assert(rest@ =~= b@.skip(i + 1));
                }
                match first_field(rest) {
                    Some(y) => Some((x, y)),
                    None => None,
                }
            } else {
                None
            }
        },
        None => {
            if i >= b.len() {
                None
            } else {
                let rest = slice_subrange(b, i + 1, b.len());
                proof {
                    assert(rest@ =~= b@.skip(i + 1));
                }
                two_fields(rest)
            }
        },
    }
}

// ---------------------------------------------------------------------------
// A pre-decoded event source
// ---------------------------------------------------------------------------

/// A finite queue of already-decoded events, handed out front to back.
pub struct DummyInputSequences(pub Vec<InputSeq>);

impl DummyInputSequences {
    /// Takes the front event, if one is left.
    pub fn next_event(&mut self) -> (r: Option<InputSeq>)
        ensures
            old(self).0@.len() == 0 ==> r is None && final(self).0@ == old(self).0@,
            old(self).0@.len() > 0 ==> r == Some(old(self).0@[0]) && final(self).0@ == old(
                self,
            ).0@.skip(1),
    {
        if self.0.len() == 0 {
            None
        } else {
            let e = self.0.remove(0);
            proof {
                assert(self.0@ =~= old(self).0@.skip(1));
            }
            Some(e)
        }
    }
}

} // verus!
