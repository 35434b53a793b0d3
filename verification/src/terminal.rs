//! Terminal input state machine: a pure per-byte transducer that turns a raw
//! byte stream into completed input lines, echo instructions, erase
//! instructions, and a close-connection instruction.

use vstd::prelude::*;

use crate::text::trim_spec;

verus! {

/// Carriage return or line feed completes the pending line.
pub open spec fn is_terminator(b: u8) -> bool {
    b == 13 || b == 10
}

/// Delete or backspace erases the last buffered character.
pub open spec fn is_backspace(b: u8) -> bool {
    b == 127 || b == 8
}

/// Printable ASCII is buffered and echoed.
pub open spec fn is_printable(b: u8) -> bool {
    0x20 <= b <= 0x7e
}

/// The interrupt byte (ETX / Ctrl-C).
pub open spec fn is_interrupt(b: u8) -> bool {
    b == 3
}

/// The line buffer after consuming one byte.
pub open spec fn next_buffer(buf: Seq<u8>, b: u8) -> Seq<u8> {
    if is_terminator(b) {
        Seq::empty()
    } else if is_backspace(b) {
        if buf.len() > 0 {
            buf.drop_last()
        } else {
            buf
        }
    } else if is_printable(b) {
        buf.push(b)
    } else {
        buf
    }
}

/// The line buffer after consuming a whole byte sequence.
pub open spec fn run_buffer(buf: Seq<u8>, bytes: Seq<u8>) -> Seq<u8>
    decreases bytes.len(),
{
    if bytes.len() == 0 {
        buf
    } else {
        run_buffer(next_buffer(buf, bytes.first()), bytes.drop_first())
    }
}

/// Number of erase instructions emitted while consuming `bytes`.
pub open spec fn count_erases(buf: Seq<u8>, bytes: Seq<u8>) -> nat
    decreases bytes.len(),
{
    if bytes.len() == 0 {
        0
    } else {
        let here: nat = if is_backspace(bytes.first()) && buf.len() > 0 {
            1
        } else {
            0
        };
        here + count_erases(next_buffer(buf, bytes.first()), bytes.drop_first())
    }
}

/// Number of printable-character echoes emitted while consuming `bytes`.
pub open spec fn count_echoes(buf: Seq<u8>, bytes: Seq<u8>) -> nat
    decreases bytes.len(),
{
    if bytes.len() == 0 {
        0
    } else {
        let here: nat = if is_printable(bytes.first()) {
            1
        } else {
            0
        };
        here + count_echoes(next_buffer(buf, bytes.first()), bytes.drop_first())
    }
}

proof fn lemma_erase_bound_rec(buf: Seq<u8>, bytes: Seq<u8>)
    ensures
        count_erases(buf, bytes) <= buf.len() + count_echoes(buf, bytes),
    decreases bytes.len(),
{
    if bytes.len() > 0 {
        lemma_erase_bound_rec(next_buffer(buf, bytes.first()), bytes.drop_first());
    }
}

/// Over any byte stream fed to an initially empty terminal, the number of
/// erase instructions never exceeds the number of printable characters
/// echoed: the buffer length cannot go negative.
pub proof fn lemma_erase_bound(bytes: Seq<u8>)
    ensures
        count_erases(Seq::empty(), bytes) <= count_echoes(Seq::empty(), bytes),
{
    lemma_erase_bound_rec(Seq::empty(), bytes);
}

/// What the terminal hands downstream for one consumed byte.
#[derive(Debug)]
pub enum InputEvent {
    /// A completed line: the trimmed, nonempty buffer contents.
    Line(String),
    /// A line terminator arrived while the buffer trimmed to empty.
    Blank,
    /// One buffered character was erased; echo an erase instruction.
    Erase,
    /// A printable byte was buffered; echo it.
    Echo(u8),
    /// The interrupt byte arrived: close the connection.
    Interrupt,
    /// Any other byte: no effect.
    Ignored,
}

/// The event that consuming `b` with buffer `buf` must produce.
pub open spec fn event_matches(buf: Seq<u8>, b: u8, ev: InputEvent) -> bool {
    if is_interrupt(b) {
        ev == InputEvent::Interrupt
    } else if is_terminator(b) {
        if trim_spec(buf.map_values(|x: u8| x as char)).len() == 0 {
            ev == InputEvent::Blank
        } else {
            ev matches InputEvent::Line(s) && s@ == trim_spec(buf.map_values(|x: u8| x as char))
        }
    } else if is_backspace(b) {
        if buf.len() > 0 {
            ev == InputEvent::Erase
        } else {
            ev == InputEvent::Ignored
        }
    } else if is_printable(b) {
        ev == InputEvent::Echo(b)
    } else {
        ev == InputEvent::Ignored
    }
}

/// Per-connection line buffer with edit semantics.
pub struct TerminalInput {
    buf: Vec<u8>,
}

impl TerminalInput {
    /// The buffered bytes of the line being edited.
    pub closed spec fn buffer(&self) -> Seq<u8> {
        self.buf@
    }

    /// Every buffered byte is printable ASCII.
    pub open spec fn wf(&self) -> bool {
        forall|i: int| 0 <= i < self.buffer().len() ==> is_printable(#[trigger] self.buffer()[i])
    }

    pub fn new() -> (t: Self)
        ensures
            t.buffer() == Seq::<u8>::empty(),
            t.wf(),
    {
        TerminalInput { buf: Vec::new() }
    }

    /// Consumes one byte: updates the buffer and reports the resulting event.
    pub fn handle_byte(&mut self, b: u8) -> (ev: InputEvent)
        requires
            old(self).wf(),
        ensures
            final(self).wf(),
            final(self).buffer() == next_buffer(old(self).buffer(), b),
            event_matches(old(self).buffer(), b, ev),
    {
        if b == 3 {
            InputEvent::Interrupt
        } else if b == 13 || b == 10 {
            let line = self.take_trimmed_line();
            if line.unicode_len() == 0 {
                InputEvent::Blank
            } else {
                InputEvent::Line(line)
            }
        } else if b == 127 || b == 8 {
            if self.buf.len() > 0 {
                let n = self.buf.len();
                self.buf.truncate(n - 1);
                proof {
                    assert(self.buf@ =~= old(self).buffer().drop_last());
                }
                InputEvent::Erase
            } else {
                InputEvent::Ignored
            }
        } else if b >= 0x20 && b <= 0x7e {
            self.buf.push(b);
            InputEvent::Echo(b)
        } else {
            InputEvent::Ignored
        }
    }

    /// Empties the buffer and returns its contents trimmed of spaces.
    fn take_trimmed_line(&mut self) -> (r: String)
        requires
            old(self).wf(),
        ensures
            final(self).buffer() == Seq::<u8>::empty(),
            final(self).wf(),
            r@ == trim_spec(old(self).buffer().map_values(|x: u8| x as char)),
    {
        let ghost chars = old(self).buffer().map_values(|x: u8| x as char);
        let mut lo: usize = 0;
        let n = self.buf.len();
        while lo < n && self.buf[lo] == 0x20
            invariant
                0 <= lo <= n,
                n == self.buf@.len(),
                self.buf@ == old(self).buffer(),
                chars == old(self).buffer().map_values(|x: u8| x as char),
                forall|i: int| 0 <= i < lo ==> self.buf@[i] == 0x20,
            decreases n - lo,
        {
            lo = lo + 1;
        }
        let mut hi: usize = n;
        while hi > lo && self.buf[hi - 1] == 0x20
            invariant
                lo <= hi <= n,
                n == self.buf@.len(),
                self.buf@ == old(self).buffer(),
                chars == old(self).buffer().map_values(|x: u8| x as char),
                forall|i: int| 0 <= i < lo ==> self.buf@[i] == 0x20,
                forall|i: int| hi <= i < n ==> self.buf@[i] == 0x20,
            decreases hi,
        {
            hi = hi - 1;
        }
        proof {
            assert(chars.len() == n);
            assert forall|i: int| 0 <= i < lo implies crate::text::is_ws_char(chars[i]) by {
                assert(chars[i] == (self.buf@[i] as char));
            }
            assert forall|i: int| hi <= i < n implies crate::text::is_ws_char(chars[i]) by {
                assert(chars[i] == (self.buf@[i] as char));
            }
            if lo < n {
                assert(chars[lo as int] == (self.buf@[lo as int] as char));
                assert(!crate::text::is_ws_char(chars[lo as int])) by {
                    assert(is_printable(self.buf@[lo as int]));
                    assert(self.buf@[lo as int] != 0x20);
                }
            }
            crate::text::lemma_first_non_ws_is(chars, lo as int);
            if hi > lo {
                assert(chars[hi - 1] == (self.buf@[hi - 1] as char));
                assert(!crate::text::is_ws_char(chars[hi - 1])) by {
                    assert(is_printable(self.buf@[hi - 1]));
                    assert(self.buf@[hi - 1] != 0x20);
                }
                crate::text::lemma_end_non_ws_is(chars, hi as int);
            } else {
                assert(lo == n) by {
                    if lo < n {
                        assert(self.buf@[lo as int] != 0x20);
                        assert(self.buf@[lo as int] == 0x20);
                    }
                }
                crate::text::lemma_end_non_ws(chars);
            }
        }
        let mut piece: Vec<u8> = Vec::new();
        let mut i: usize = lo;
        while i < hi
            invariant
                lo <= i <= hi <= n,
                n == self.buf@.len(),
                self.buf@ == old(self).buffer(),
                old(self).wf(),
                piece@ == self.buf@.subrange(lo as int, i as int),
            decreases hi - i,
        {
            let b = self.buf[i];
            piece.push(b);
            proof {
                assert(piece@ =~= self.buf@.subrange(lo as int, i + 1));
            }
            i = i + 1;
        }
        proof {
            assert forall|j: int| 0 <= j < piece@.len() implies piece@[j] < 0x80 by {
                assert(piece@[j] == self.buf@[lo + j]);
                assert(is_printable(self.buf@[lo + j]));
            }
        }
        let line = crate::text::ascii_to_string(piece);
        self.buf.clear();
        proof {
            if lo < hi {
                assert(line@ =~= trim_spec(chars)) by {
                    assert(line@ =~= chars.subrange(lo as int, hi as int));
                }
            } else {
                assert(line@ =~= trim_spec(chars));
            }
        }
        line
    }

    /// Consumes a chunk of bytes, stopping just after an interrupt byte, and
    /// returns the event for each byte consumed.
    pub fn feed_bytes(&mut self, data: &[u8]) -> (evs: Vec<InputEvent>)
        requires
            old(self).wf(),
        ensures
            final(self).wf(),
            evs@.len() <= data@.len(),
            final(self).buffer() == run_buffer(old(self).buffer(), data@.take(evs@.len() as int)),
            forall|i: int|
                0 <= i < evs@.len() ==> event_matches(
                    run_buffer(old(self).buffer(), data@.take(i)),
                    data@[i],
                    #[trigger] evs@[i],
                ),
            forall|i: int| 0 <= i < evs@.len() - 1 ==> !(#[trigger] evs@[i] matches InputEvent::Interrupt),
            evs@.len() < data@.len() ==> evs@.len() > 0 && evs@.last() matches InputEvent::Interrupt,
    {
        let mut evs: Vec<InputEvent> = Vec::new();
        let mut i: usize = 0;
        let n = data.len();
        while i < n
            invariant
                0 <= i <= n,
                n == data@.len(),
                evs@.len() == i,
                old(self).wf(),
                self.wf(),
                self.buffer() == run_buffer(old(self).buffer(), data@.take(i as int)),
                forall|j: int|
                    0 <= j < i ==> event_matches(
                        run_buffer(old(self).buffer(), data@.take(j)),
                        data@[j],
                        #[trigger] evs@[j],
                    ),
                forall|j: int| 0 <= j < i ==> !(#[trigger] evs@[j] matches InputEvent::Interrupt),
            decreases n - i,
        {
            let b = data[i];
            let ghost pre = self.buffer();
            let ev = self.handle_byte(b);
            let stop = match ev {
                InputEvent::Interrupt => true,
                _ => false,
            };
            evs.push(ev);
            proof {
                assert(data@.take(i + 1).drop_last() =~= data@.take(i as int));
                assert(data@.take(i + 1).last() == data@[i as int]);
                lemma_run_buffer_snoc(old(self).buffer(), data@.take(i + 1));
            }
            i = i + 1;
            if stop {
                return evs;
            }
        }
        evs
    }
}

/// Unfolds one step of `run_buffer` from the back.
proof fn lemma_run_buffer_snoc(buf: Seq<u8>, bytes: Seq<u8>)
    requires
        bytes.len() > 0,
    ensures
        run_buffer(buf, bytes) == next_buffer(run_buffer(buf, bytes.drop_last()), bytes.last()),
    decreases bytes.len(),
{
    if bytes.len() == 1 {
        assert(bytes.drop_last() =~= Seq::<u8>::empty());
        assert(bytes.drop_first() =~= Seq::<u8>::empty());
        assert(bytes.first() == bytes.last());
        assert(run_buffer(buf, bytes) == run_buffer(next_buffer(buf, bytes.first()),
            bytes.drop_first()));
        assert(run_buffer(next_buffer(buf, bytes.first()), Seq::<u8>::empty()) == next_buffer(
            buf,
            bytes.first(),
        ));
        assert(run_buffer(buf, Seq::<u8>::empty()) == buf);
    } else {
        lemma_run_buffer_snoc(next_buffer(buf, bytes.first()), bytes.drop_first());
        assert(bytes.drop_first().drop_last() =~= bytes.drop_last().drop_first());
        assert(bytes.drop_first().last() == bytes.last());
        assert(bytes.drop_last().first() == bytes.first());
        assert(run_buffer(buf, bytes) == run_buffer(next_buffer(buf, bytes.first()),
            bytes.drop_first()));
        assert(run_buffer(buf, bytes.drop_last()) == run_buffer(next_buffer(buf, bytes.first()),
            bytes.drop_last().drop_first()));
    }
}

} // verus!
