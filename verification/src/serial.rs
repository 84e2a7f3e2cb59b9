//! The serial console: line set-up and line endings.

use vstd::prelude::*;

verus! {

/// Base port of the first serial line.
pub const COM1: u16 = 0x3F8;

/// Line-status bit: the transmitter can take a byte.
pub const TX_READY: u8 = 0x20;

/// Port writes that set the line up, in order: interrupts off, 115200 baud, eight
/// bits without parity, queues on, modem lines up.
pub fn init() -> (writes: [(u16, u8); 7])
    ensures
        writes@ == seq![
            (0x3F9u16, 0x00u8),
            (0x3FBu16, 0x80u8),
            (0x3F8u16, 0x01u8),
            (0x3F9u16, 0x00u8),
            (0x3FBu16, 0x03u8),
            (0x3FAu16, 0xC7u8),
            (0x3FCu16, 0x0Bu8),
        ],
{
    let writes: [(u16, u8); 7] = [
        (COM1 + 1, 0x00),
        (COM1 + 3, 0x80),
        (COM1, 0x01),
        (COM1 + 1, 0x00),
        (COM1 + 3, 0x03),
        (COM1 + 2, 0xC7),
        (COM1 + 4, 0x0B),
    ];
    assert(writes@ =~= seq![
        (0x3F9u16, 0x00u8),
        (0x3FBu16, 0x80u8),
        (0x3F8u16, 0x01u8),
        (0x3F9u16, 0x00u8),
        (0x3FBu16, 0x03u8),
        (0x3FAu16, 0xC7u8),
        (0x3FCu16, 0x0Bu8),
    ]);
    writes
}

/// Whether a byte may be sent, given the line-status register.
pub fn tx_ready(line_status: u8) -> (ready: bool)
    ensures
        ready == (line_status & TX_READY != 0),
{
    line_status & TX_READY != 0
}

/// What goes over the line for a text: a carriage return in front of every line
/// feed, every other byte as it is.
pub open spec fn on_the_line(text: Seq<u8>) -> Seq<u8>
    decreases text.len(),
{
    if text.len() == 0 {
        Seq::empty()
    } else {
        let before = on_the_line(text.drop_last());
        if text.last() == 0x0A {
            before.push(0x0D).push(0x0A)
        } else {
            before.push(text.last())
        }
    }
}

/// A text on its way over the line.
pub struct Line<'a> {
    text: &'a [u8],
    /// Bytes of the text that are through.
    pos: usize,
    /// The carriage return in front of the next byte is through.
    returned: bool,
}

impl<'a> Line<'a> {
    pub closed spec fn well_formed(&self) -> bool {
        &&& self.pos <= self.text@.len()
        &&& self.returned ==> self.pos < self.text@.len() && self.text@[self.pos as int] == 0x0A
    }

    /// What is still to be sent.
    pub closed spec fn remaining(&self) -> Seq<u8> {
        let rest = on_the_line(self.text@.skip(self.pos as int));
        if self.returned {
            rest.skip(1)
        } else {
            rest
        }
    }

    /// Begin to send the bytes of a text.
    pub fn write_str(text: &'a [u8]) -> (line: Self)
        ensures
            line.well_formed(),
            line.remaining() == on_the_line(text@),
    {
        assert(text@.skip(0) =~= text@);
        Line { text, pos: 0, returned: false }
    }

    /// The next byte to be sent.
    pub fn next_byte(&mut self) -> (b: Option<u8>)
        requires
            old(self).well_formed(),
        ensures
            final(self).well_formed(),
            match b {
                Some(b) => {
                    &&& old(self).remaining().len() > 0
                    &&& b == old(self).remaining()[0]
                    &&& final(self).remaining() == old(self).remaining().skip(1)
                },
                None => {
                    &&& old(self).remaining().len() == 0
                    &&& final(self).remaining() == old(self).remaining()
                },
            },
    {
        let ghost rest = self.text@.skip(self.pos as int);
        if self.pos >= self.text.len() {
            assert(rest.len() == 0);
            return None;
        }
        let b: u8 = self.text[self.pos];
        proof {
            let one = seq![b];
            assert(rest =~= one + rest.skip(1));
            assert(rest.skip(1) =~= self.text@.skip(self.pos + 1));
            law_pieces(one, rest.skip(1));
            assert(one.drop_last() =~= Seq::<u8>::empty());
            reveal_with_fuel(on_the_line, 2);
            let tail = on_the_line(rest.skip(1));
            if b == 0x0A {
                assert(on_the_line(one) =~= seq![0x0Du8, 0x0Au8]);
                assert((on_the_line(one) + tail).skip(1).skip(1) =~= tail);
            } else {
                assert(on_the_line(one) =~= one);
                assert((one + tail).skip(1) =~= tail);
            }
        }
        if b == 0x0A && !self.returned {
            self.returned = true;
            return Some(0x0D);
        }
        self.pos = self.pos + 1;
        self.returned = false;
        Some(b)
    }
}

/// Law: a text may be printed in pieces.
pub proof fn law_pieces(a: Seq<u8>, b: Seq<u8>)
    ensures
        on_the_line(a + b) == on_the_line(a) + on_the_line(b),
    decreases b.len(),
{
    if b.len() == 0 {
        assert(a + b =~= a);
    } else {
        law_pieces(a, b.drop_last());
        assert((a + b).drop_last() =~= a + b.drop_last());
    }
    assert(on_the_line(a + b) =~= on_the_line(a) + on_the_line(b));
}

/// The line controller: its registers, as far as the set-up writes them.
pub ghost struct Uart {
    /// Interrupt enable.
    pub interrupts: u8,
    /// Divisor of the baud rate, low and high byte.
    pub divisor: (u8, u8),
    /// Line control. While its top bit is set, the first two ports reach the
    /// divisor.
    pub line: u8,
    pub fifo: u8,
    pub modem: u8,
}

/// The controller at base port 0x3F8 after one port write.
pub open spec fn uart_after(u: Uart, write: (u16, u8)) -> Uart {
    let (port, value) = write;
    if port == 0x3F8 && u.line >= 0x80 {
        Uart { divisor: (value, u.divisor.1), ..u }
    } else if port == 0x3F9 && u.line >= 0x80 {
        Uart { divisor: (u.divisor.0, value), ..u }
    } else if port == 0x3F9 {
        Uart { interrupts: value, ..u }
    } else if port == 0x3FA {
        Uart { fifo: value, ..u }
    } else if port == 0x3FB {
        Uart { line: value, ..u }
    } else if port == 0x3FC {
        Uart { modem: value, ..u }
    } else {
        u
    }
}

/// The controller after some port writes, one after the other.
pub open spec fn uart_after_all(u: Uart, writes: Seq<(u16, u8)>) -> Uart
    decreases writes.len(),
{
    if writes.len() == 0 {
        u
    } else {
        uart_after(uart_after_all(u, writes.drop_last()), writes.last())
    }
}

/// Law: whatever state the line controller was left in, provided that its first
/// ports reach the data, the set-up leaves it polled, with no interrupt enabled, at
/// the full rate of 115200 baud, with eight bits, no parity and one stop bit, its
/// queues on and the modem lines up.
pub proof fn law_line_is_set_up(writes: [(u16, u8); 7], u: Uart)
    requires
        call_ensures(init, (), writes),
        u.line < 0x80,
    ensures
        uart_after_all(u, writes@) == (Uart {
            interrupts: 0,
            divisor: (1, 0),
            line: 0b0000_0011,
            fifo: 0b1100_0111,
            modem: 0b0000_1011,
        }),
{
    reveal_with_fuel(uart_after_all, 8);
    let w = writes@;
    assert(w.drop_last().drop_last().drop_last().drop_last().drop_last().drop_last().drop_last()
        =~= Seq::<(u16, u8)>::empty());
}

/// Law: a byte may be sent exactly while bit 5 of the line status is set.
pub proof fn law_ready_bit(line_status: u8, ready: bool)
    requires
        call_ensures(tx_ready, (line_status,), ready),
    ensures
        ready <==> (line_status >> 5) & 1 == 1,
{
    assert(line_status & 0x20 != 0 <==> (line_status >> 5) & 1 == 1) by (bit_vector);
}

/// Law: a line feed goes out behind a carriage return, every other byte alone.
/// Together with the law on pieces this says what goes out for any text.
pub proof fn law_one_byte(b: u8)
    ensures
        b == 0x0A ==> on_the_line(seq![b]) == seq![0x0Du8, 0x0Au8],
        b != 0x0A ==> on_the_line(seq![b]) == seq![b],
        on_the_line(Seq::<u8>::empty()) == Seq::<u8>::empty(),
{
    reveal_with_fuel(on_the_line, 2);
    assert(seq![b].drop_last() =~= Seq::<u8>::empty());
    assert(on_the_line(seq![b]) =~= if b == 0x0A {
        seq![0x0Du8, 0x0Au8]
    } else {
        seq![b]
    });
}

/// Law: a text is sent from its first byte to its last. Asking a fresh line for
/// bytes gives what goes out for the text, in order, and nothing more.
pub proof fn law_line_sends_the_text<'a>(
    text: &'a [u8],
    fresh: Line<'a>,
    line: &mut Line<'a>,
    b: Option<u8>,
)
    requires
        call_ensures(Line::<'a>::write_str, (text,), fresh),
        old(line).well_formed(),
        call_ensures(Line::<'a>::next_byte, (line,), b),
    ensures
        fresh.remaining() == on_the_line(text@),
        b is None <==> old(line).remaining().len() == 0,
        b matches Some(b) ==> old(line).remaining() == seq![b] + final(line).remaining(),
{
    if let Some(b) = b {
        assert(old(line).remaining() =~= seq![b] + final(line).remaining());
    }
}

} // verus!
