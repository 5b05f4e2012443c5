//! Key events from raw terminal input, and the restore-once bookkeeping of the
//! terminal session.

use vstd::prelude::*;
use vstd::utf8::{
    decode_first_scalar, decode_utf8, encode_utf8, length_of_first_scalar,
    valid_first_scalar, valid_utf8,
};
use crate::text::chars_of;

verus! {

/// Terminal key event.
#[derive(Debug, Clone, Copy, PartialEq, Eq, Structural)]
pub enum Key {
    Char(char),
    Up,
    Down,
    Left,
    Right,
    Enter,
    Backspace,
    Esc,
    Tab,
}

/// The arrow key of an `ESC [ A..D` sequence.
pub open spec fn arrow_key(b: u8) -> Key {
    if b == 0x41 {
        Key::Up
    } else if b == 0x42 {
        Key::Down
    } else if b == 0x43 {
        Key::Right
    } else {
        Key::Left
    }
}

/// The key that the bytes at `i` start, and how many bytes it takes: an arrow
/// sequence `ESC [ A..D`; a lone ESC at the very end; Enter for CR or LF; Tab;
/// Backspace for DEL or BS; Ctrl-C; else the character whose UTF-8 encoding starts
/// there when those bytes are a valid encoding, or else the byte read as a Latin-1
/// character.
pub open spec fn key_at(buf: Seq<u8>, i: int) -> (Key, int) {
    if buf[i] == 0x1b && i + 2 < buf.len() && buf[i + 1] == 0x5b && 0x41 <= buf[i + 2] <= 0x44 {
        (arrow_key(buf[i + 2]), 3)
    } else if buf[i] == 0x1b && i + 1 == buf.len() {
        (Key::Esc, 1)
    } else if buf[i] == 0x0d || buf[i] == 0x0a {
        (Key::Enter, 1)
    } else if buf[i] == 0x09 {
        (Key::Tab, 1)
    } else if buf[i] == 0x7f || buf[i] == 0x08 {
        (Key::Backspace, 1)
    } else if buf[i] == 0x03 {
        (Key::Char('\x03'), 1)
    } else if valid_first_scalar(buf.skip(i)) {
        (Key::Char(decode_first_scalar(buf.skip(i)) as char), length_of_first_scalar(buf.skip(i)))
    } else {
        (Key::Char((buf[i] as u32) as char), 1)
    }
}

/// The keys in `buf` from position `i` on.
pub open spec fn keys_from(buf: Seq<u8>, i: int) -> Seq<Key>
    decreases buf.len() - i,
{
    if i < 0 || i >= buf.len() {
        Seq::<Key>::empty()
    } else {
        let (k, n) = key_at(buf, i);
        proof {
            lemma_key_at_len(buf, i);
        }
        seq![k] + keys_from(buf, i + n)
    }
}

/// std's `str::from_utf8`: accepts the bytes exactly when they are valid UTF-8, and
/// then gives the text whose UTF-8 encoding they are.
#[verifier::external_body]
fn str_from_utf8(v: &[u8]) -> (r: Option<&str>)
    ensures
        r is Some <==> valid_utf8(v@),
        r matches Some(s) ==> encode_utf8(s@) == v@,
{
    std::str::from_utf8(v).ok()
}

fn key_at_exec(buf: &[u8], i: usize) -> (r: (Key, usize))
    requires
        i < buf@.len(),
    ensures
        r.0 == key_at(buf@, i as int).0,
        r.1 == key_at(buf@, i as int).1,
{
    let b = buf[i];
    if b == 0x1b && buf.len() - i > 2 && buf[i + 1] == 0x5b && 0x41 <= buf[i + 2] && buf[i + 2]
        <= 0x44 {
        let k = buf[i + 2];
        let key = if k == 0x41 {
            Key::Up
        } else if k == 0x42 {
            Key::Down
        } else if k == 0x43 {
            Key::Right
        } else {
            Key::Left
        };
        return (key, 3);
    }
    if b == 0x1b && buf.len() - i == 1 {
        return (Key::Esc, 1);
    }
    if b == 0x0d || b == 0x0a {
        return (Key::Enter, 1);
    }
    if b == 0x09 {
        return (Key::Tab, 1);
    }
    if b == 0x7f || b == 0x08 {
        return (Key::Backspace, 1);
    }
    if b == 0x03 {
        return (Key::Char('\x03'), 1);
    }
    let n: usize = if b <= 0x7f {
        1
    } else if 0xc0 <= b && b <= 0xdf {
        2
    } else if 0xe0 <= b && b <= 0xef {
        3
    } else if 0xf0 <= b && b <= 0xf7 {
        4
    } else {
        0
    };
    proof {
        lemma_first_scalar_width(buf@.skip(i as int), n as int);
    }
    if n > 0 && buf.len() - i >= n {
        let piece = &buf[i..i + n];
        assert(piece@ == buf@.skip(i as int).take(n as int));
        match str_from_utf8(piece) {
            Some(s) => {
                proof {
                    vstd::utf8::encode_utf8_decode_utf8(s@);
                    lemma_first_scalar_piece(buf@.skip(i as int), n as int);
                    assert(decode_utf8(piece@) == s@);
                }
                let cs = chars_of(s);
                let c = cs[0];
                return (Key::Char(c), n);
            },
            None => {
                proof {
                    lemma_first_scalar_piece(buf@.skip(i as int), n as int);
                }
            },
        }
    }
    (Key::Char(b as char), 1)
}

/// The leading byte fixes how many bytes a valid first scalar takes; without a leading
/// byte (n == 0) or with too few bytes there is none.
proof fn lemma_first_scalar_width(tail: Seq<u8>, n: int)
    requires
        tail.len() > 0,
        n == if tail[0] <= 0x7f {
            1int
        } else if 0xc0 <= tail[0] <= 0xdf {
            2int
        } else if 0xe0 <= tail[0] <= 0xef {
            3int
        } else if 0xf0 <= tail[0] <= 0xf7 {
            4int
        } else {
            0int
        },
    ensures
        valid_first_scalar(tail) ==> n > 0 && n <= tail.len() && length_of_first_scalar(tail) == n,
{
}

/// The first `n` bytes (the width the leading byte gives) are valid UTF-8 exactly when
/// the sequence starts with a valid scalar, and then they decode to that one scalar.
proof fn lemma_first_scalar_piece(tail: Seq<u8>, n: int)
    requires
        1 <= n <= 4,
        n <= tail.len(),
        n == if tail[0] <= 0x7f {
            1int
        } else if 0xc0 <= tail[0] <= 0xdf {
            2int
        } else if 0xe0 <= tail[0] <= 0xef {
            3int
        } else {
            4int
        },
        tail[0] <= 0x7f || 0xc0 <= tail[0] <= 0xf7,
    ensures
        valid_utf8(tail.take(n)) <==> valid_first_scalar(tail),
        valid_first_scalar(tail) ==> decode_utf8(tail.take(n)).len() >= 1 && decode_utf8(tail.take(n))[0]
            == decode_first_scalar(tail) as char && length_of_first_scalar(tail) == n,
{
    let piece = tail.take(n);
    assert(piece.len() == n);
    assert(forall|k: int| 0 <= k < n ==> piece[k] == tail[k]);
    assert(valid_first_scalar(piece) == valid_first_scalar(tail));
    if valid_first_scalar(piece) {
        assert(vstd::utf8::pop_first_scalar(piece) =~= Seq::<u8>::empty());
        assert(valid_utf8(Seq::<u8>::empty()));
        assert(valid_utf8(piece));
        assert(decode_utf8(Seq::<u8>::empty()) =~= Seq::<char>::empty());
        assert(decode_utf8(piece) == seq![decode_first_scalar(piece) as char] + decode_utf8(
            vstd::utf8::pop_first_scalar(piece),
        ));
    }
}

/// Parse raw terminal bytes with UTF-8 decoding into structured `Key` events.
pub fn parse_key_buffer(buf: &[u8]) -> (r: Vec<Key>)
    ensures
        r@ == keys_from(buf@, 0),
{
    let mut keys: Vec<Key> = Vec::new();
    let mut i: usize = 0;
    while i < buf.len()
        invariant
            i <= buf@.len(),
            keys@ + keys_from(buf@, i as int) == keys_from(buf@, 0),
        decreases buf.len() - i,
    {
        let (k, n) = key_at_exec(buf, i);
        proof {
            lemma_key_at_len(buf@, i as int);
            assert(keys_from(buf@, i as int) == seq![k] + keys_from(buf@, i + n));
            assert(keys@.push(k) + keys_from(buf@, i + n) =~= keys@ + keys_from(buf@, i as int));
        }
        keys.push(k);
        i = i + n;
    }
    assert(keys_from(buf@, i as int) =~= Seq::<Key>::empty());
    assert(keys@ + Seq::<Key>::empty() =~= keys@);
    keys
}

pub proof fn lemma_key_at_len(buf: Seq<u8>, i: int)
    requires
        0 <= i < buf.len(),
    ensures
        1 <= key_at(buf, i).1,
        i + key_at(buf, i).1 <= buf.len(),
{
    if valid_first_scalar(buf.skip(i)) {
        lemma_first_scalar_bounds(buf.skip(i));
    }
}

proof fn lemma_first_scalar_bounds(tail: Seq<u8>)
    requires
        valid_first_scalar(tail),
    ensures
        1 <= length_of_first_scalar(tail) <= tail.len(),
{
}

/// Typing printable ASCII gives one character key per byte, the same characters.
pub proof fn law_printable_ascii_keys(buf: Seq<u8>)
    requires
        forall|k: int| 0 <= k < buf.len() ==> 0x20 <= #[trigger] buf[k] <= 0x7e,
    ensures
        keys_from(buf, 0) == buf.map_values(|b: u8| Key::Char((b as u32) as char)),
{
    lemma_ascii_keys_from(buf, 0);
    assert(buf.skip(0) =~= buf);
}

proof fn lemma_ascii_keys_from(buf: Seq<u8>, i: int)
    requires
        0 <= i <= buf.len(),
        forall|k: int| 0 <= k < buf.len() ==> 0x20 <= #[trigger] buf[k] <= 0x7e,
    ensures
        keys_from(buf, i) == buf.skip(i).map_values(|b: u8| Key::Char((b as u32) as char)),
    decreases buf.len() - i,
{
    if i < buf.len() {
        lemma_ascii_keys_from(buf, i + 1);
        lemma_ascii_prefix_key(buf, i);
        assert(buf.skip(i).map_values(|b: u8| Key::Char((b as u32) as char)) =~= seq![
            Key::Char((buf[i] as u32) as char),
        ] + buf.skip(i + 1).map_values(|b: u8| Key::Char((b as u32) as char)));
    } else {
        assert(buf.skip(i).map_values(|b: u8| Key::Char((b as u32) as char)) =~= Seq::<Key>::empty());
    }
}

proof fn lemma_ascii_prefix_key(buf: Seq<u8>, i: int)
    requires
        0 <= i < buf.len(),
        forall|k: int| 0 <= k < buf.len() ==> 0x20 <= #[trigger] buf[k] <= 0x7e,
    ensures
        key_at(buf, i) == (Key::Char((buf[i] as u32) as char), 1int),
{
    let rest = buf.skip(i);
    assert(rest[0] == buf[i]);
    let b0 = rest[0];
    assert(vstd::utf8::is_leading_byte_width_1(b0));
    assert(valid_first_scalar(rest));
    assert(length_of_first_scalar(rest) == 1);
    let d = decode_first_scalar(rest);
    assert(d == (b0 & 0x7F) as u32);
    assert(d == b0 as u32) by (bit_vector)
        requires
            d == (b0 & 0x7F) as u32,
            b0 <= 0x7e,
    ;
}

// ---------------------------------------------------------------------------
// The terminal session
// ---------------------------------------------------------------------------

/// Manages raw terminal state, alternate screen buffer, and cursor visibility.
pub struct TerminalManager {
    pub is_tty: bool,
    pub fd: i32,
    restored: bool,
}

impl View for TerminalManager {
    /// (interactive, input descriptor, already restored)
    type V = (bool, i32, bool);

    closed spec fn view(&self) -> (bool, i32, bool) {
        (self.is_tty, self.fd, self.restored)
    }
}

impl TerminalManager {
    /// A session on the terminal probed to be (or not be) interactive, reading from `fd`.
    pub fn with_terminal(is_tty: bool, fd: i32) -> (r: Self)
        ensures
            r@ == (is_tty, fd, false),
    {
        TerminalManager { is_tty, fd, restored: false }
    }

    /// Raw mode was entered: the terminal will need restoring again.
    pub fn mark_raw(&mut self)
        ensures
            final(self)@ == (old(self)@.0, old(self)@.1, false),
    {
        self.restored = false;
    }

    /// Restore terminal to original state: true when this call is the one that must
    /// undo raw mode and the alternate screen (the first since raw mode was entered).
    pub fn restore(&mut self) -> (r: bool)
        ensures
            r == !old(self)@.2,
            final(self)@ == (old(self)@.0, old(self)@.1, true),
    {
        if self.restored {
            return false;
        }
        self.restored = true;
        true
    }
}

/// Colour is used when `NO_COLOR` is unset, `TERM` is not "dumb" (in any case), standard
/// output is a terminal and the output is interactive.
pub fn color_wanted(no_color_set: bool, term: Option<&str>, stdout_is_tty: bool, interactive: bool) -> (r: bool)
    ensures
        r == (!no_color_set && !(term matches Some(t) && crate::themes::lowercase(t@) == "dumb"@)
            && stdout_is_tty && interactive),
{
    if no_color_set {
        return false;
    }
    match term {
        Some(t) => {
            let lower = crate::themes::to_lowercase(t);
            let l = chars_of(lower.as_str());
            let dumb = chars_of("dumb");
            if crate::text::chars_eq(l.as_slice(), dumb.as_slice()) {
                return false;
            }
        },
        None => {},
    }
    stdout_is_tty && interactive
}

/// The terminal's size as the kernel reports it, or 80 x 24 when it reports none.
pub fn size_or_default(cols: u16, rows: u16) -> (r: (usize, usize))
    ensures
        r == if cols > 0 && rows > 0 {
            (cols as usize, rows as usize)
        } else {
            (80usize, 24usize)
        },
{
    if cols > 0 && rows > 0 {
        (cols as usize, rows as usize)
    } else {
        (80, 24)
    }
}

} // verus!
