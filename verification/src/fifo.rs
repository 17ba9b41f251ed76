//! Bit operations, and the words of the two FIFOs that carry one out.
use crate::bits::bit;
use vstd::prelude::*;

verus! {

/// The top bit of a header word, which marks a write.
pub const DIRECTION_WRITE: u32 = 0x8000_0000;

/// The number of bits that a header carries: the top bit is the direction, so counts are taken
/// modulo 2^31.
pub open spec fn header_count(bits: u32) -> u32 {
    bits % DIRECTION_WRITE
}

/// What the PIO program is asked to do with the line.
#[derive(Clone, Copy, Debug, PartialEq, Eq, Structural)]
pub enum BitOp {
    /// Clock out `bits` bits of `value`, least significant first. Past 32 bits the value is
    /// extended with zeros. With no bits, SWDIO takes the level of bit 0 and SWCLK stays. The
    /// header carries 31 bits of the count; the top bit of a larger one is lost.
    Write { bits: u32, value: u32 },
    /// Clock in `bits` bits, least significant first. Past 32 bits the result means nothing.
    /// With no bits, SWDIO is sampled and SWCLK stays. The header carries 31 bits of the count;
    /// with the top bit set, the program takes it for that of a write.
    Read { bits: u32 },
}

impl BitOp {
    /// The words that go to the TX FIFO.
    pub open spec fn words(self) -> Seq<u32> {
        match self {
            BitOp::Write { bits, value } => seq![bits | DIRECTION_WRITE, value],
            BitOp::Read { bits } => seq![bits],
        }
    }

    /// The bits that the other end of the line sees.
    pub open spec fn line_bits(self) -> Seq<bool> {
        match self {
            BitOp::Write { bits, value } => Seq::new(
                header_count(bits) as nat,
                |i: int| bit(value, i),
            ),
            BitOp::Read { bits: _ } => seq![],
        }
    }
}

/// The bits that the other end of the line sees of some operations, one after the other.
pub open spec fn line_out(ops: Seq<BitOp>) -> Seq<bool>
    decreases ops.len(),
{
    if ops.len() == 0 {
        seq![]
    } else {
        ops[0].line_bits() + line_out(ops.skip(1))
    }
}

/// How far a reply of `bits` bits is from the low end of the word that carries it: the input
/// shift register fills from the top. A full word, and the sample of a read without bits, are
/// in place.
pub open spec fn reply_shift(bits: u32) -> u32 {
    if bits % 32 == 0 {
        0
    } else {
        (32 - bits % 32) as u32
    }
}

/// What a read of `bits` bits returns for the word that came from the RX FIFO.
pub open spec fn reply_value(bits: u32, word: u32) -> u32 {
    word >> reply_shift(bits)
}

/// What the exchange needs next.
#[derive(Clone, Copy, Debug, PartialEq, Eq, Structural)]
pub enum FifoStep {
    /// Offer this word to the TX FIFO, and report whether it was accepted.
    Push(u32),
    /// Poll the RX FIFO, and report what it held.
    Pop,
    /// Nothing: the operation has returned this value, which is zero after a write.
    Finish(u32),
}

/// A bit operation on its way through the FIFOs.
#[derive(Clone, Copy, Debug)]
pub struct Exchange {
    op: BitOp,
    sent: u8,
    received: Option<u32>,
}

impl Exchange {
    /// The operation.
    pub closed spec fn op(self) -> BitOp {
        self.op
    }

    /// How many of its words the TX FIFO has accepted.
    pub closed spec fn sent(self) -> int {
        self.sent as int
    }

    /// The word that came from the RX FIFO.
    pub closed spec fn received(self) -> Option<u32> {
        self.received
    }

    /// No more words were sent than there are, and a word came only to a read whose header was
    /// sent.
    pub open spec fn wf(self) -> bool {
        &&& 0 <= self.sent() <= self.op().words().len()
        &&& self.received() is Some ==> self.op() is Read && self.sent() == 1
    }

    /// What the exchange needs next: first all words go out, then the reply to a read comes in.
    pub open spec fn next_step(self) -> FifoStep {
        if self.sent() < self.op().words().len() {
            FifoStep::Push(self.op().words()[self.sent()])
        } else {
            match (self.op(), self.received()) {
                (BitOp::Write { bits: _, value: _ }, _) => FifoStep::Finish(0),
                (BitOp::Read { bits: _ }, None) => FifoStep::Pop,
                (BitOp::Read { bits }, Some(word)) => FifoStep::Finish(reply_value(bits, word)),
            }
        }
    }

    /// An exchange of which nothing has happened.
    pub fn new(op: BitOp) -> (exchange: Exchange)
        ensures
            exchange.wf(),
            exchange.op() == op,
            exchange.sent() == 0,
            exchange.received() == None::<u32>,
    {
        Exchange { op, sent: 0, received: None }
    }

    /// What the exchange needs next.
    pub fn step(&self) -> (step: FifoStep)
        requires
            self.wf(),
        ensures
            step == self.next_step(),
    {
        match self.op {
            BitOp::Write { bits, value } => {
                if self.sent == 0 {
                    FifoStep::Push(bits | DIRECTION_WRITE)
                } else if self.sent == 1 {
                    FifoStep::Push(value)
                } else {
                    FifoStep::Finish(0)
                }
            },
            BitOp::Read { bits } => {
                if self.sent == 0 {
                    FifoStep::Push(bits)
                } else {
                    match self.received {
                        None => FifoStep::Pop,
                        Some(word) => FifoStep::Finish(decode_reply(bits, word)),
                    }
                }
            },
        }
    }

    /// Reports whether the TX FIFO accepted the word: a word that was refused is offered again.
    pub fn pushed(&mut self, accepted: bool)
        requires
            old(self).wf(),
            old(self).next_step() is Push,
        ensures
            final(self).wf(),
            final(self).op() == old(self).op(),
            final(self).sent() == old(self).sent() + if accepted { 1int } else { 0 },
            final(self).received() == old(self).received(),
    {
        if accepted {
            self.sent = self.sent + 1;
        }
    }

    /// Reports what the RX FIFO held: an empty FIFO is polled again.
    pub fn popped(&mut self, word: Option<u32>)
        requires
            old(self).wf(),
            old(self).next_step() is Pop,
        ensures
            final(self).wf(),
            final(self).op() == old(self).op(),
            final(self).sent() == old(self).sent(),
            final(self).received() == word,
    {
        self.received = word;
    }
}

/// The value of a read of `bits` bits, from the word that came from the RX FIFO.
pub fn decode_reply(bits: u32, word: u32) -> (value: u32)
    ensures
        value == reply_value(bits, word),
{
    let below: u32 = bits & 31;
    assert(below == bits % 32) by (bit_vector)
        requires
            below == bits & 31,
    ;
    let shift: u32 = (32 - below) & 31;
    assert(shift == if below == 0 { 0u32 } else { (32 - below) as u32 }) by (bit_vector)
        requires
            below < 32,
            shift == ((32 - below) as u32) & 31,
    ;
    word >> shift
}

} // verus!
