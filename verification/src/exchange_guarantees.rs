//! What an exchange does with the FIFOs, whatever they refuse, and what that comes to on the
//! line.
use crate::bits::bit;
use crate::fifo::{decode_reply, reply_shift, reply_value, BitOp, Exchange, FifoStep};
use crate::machine::{
    law_read_on_machine, law_write_on_machine, read_steps, write_steps, Machine,
};
use crate::swd_io_set::SwdIoSet;
use crate::wire::waiting;
use vstd::prelude::*;

verus! {

/// What a driver reports to an exchange.
pub enum FifoEvent {
    /// The TX FIFO accepted the word, or refused it.
    Pushed(bool),
    /// The RX FIFO held a word, or nothing.
    Popped(Option<u32>),
}

/// Whether `event` answers what `before` needs, and takes it to `after`.
pub open spec fn moves(before: Exchange, event: FifoEvent, after: Exchange) -> bool {
    &&& after.op() == before.op()
    &&& match event {
        FifoEvent::Pushed(accepted) => {
            &&& before.next_step() is Push
            &&& after.sent() == before.sent() + if accepted {
                1int
            } else {
                0
            }
            &&& after.received() == before.received()
        },
        FifoEvent::Popped(word) => {
            &&& before.next_step() is Pop
            &&& after.sent() == before.sent()
            &&& after.received() == word
        },
    }
}

/// Whether an exchange that starts in `states[0]` goes through `states` as a driver reports
/// `events`.
pub open spec fn is_run(states: Seq<Exchange>, events: Seq<FifoEvent>) -> bool {
    &&& states.len() == events.len() + 1
    &&& states[0].wf()
    &&& states[0].sent() == 0
    &&& states[0].received() == None::<u32>
    &&& forall|i: int|
        0 <= i < events.len() ==> moves(#[trigger] states[i], events[i], states[i + 1])
}

/// The words that the TX FIFO accepted in a run, in order.
pub open spec fn accepted_words(states: Seq<Exchange>, events: Seq<FifoEvent>) -> Seq<u32>
    decreases events.len(),
{
    if events.len() == 0 {
        seq![]
    } else {
        let before = accepted_words(states.drop_last(), events.drop_last());
        match (events.last(), states[events.len() - 1].next_step()) {
            (FifoEvent::Pushed(true), FifoStep::Push(word)) => before.push(word),
            _ => before,
        }
    }
}

/// The words that came from the RX FIFO in a run, in order.
pub open spec fn arrived_words(events: Seq<FifoEvent>) -> Seq<u32>
    decreases events.len(),
{
    if events.len() == 0 {
        seq![]
    } else {
        let before = arrived_words(events.drop_last());
        match events.last() {
            FifoEvent::Popped(Some(word)) => before.push(word),
            _ => before,
        }
    }
}

/// A new exchange has its operation and nothing behind it, whichever way it was started.
pub proof fn law_exchange_starts(
    bits: u32,
    value: u32,
    op: BitOp,
    written: Exchange,
    read: Exchange,
    made: Exchange,
)
    requires
        call_ensures(Exchange::new, (op,), made),
        call_ensures(SwdIoSet::write_bits, (bits, value), written),
        call_ensures(SwdIoSet::read_bits, (bits,), read),
    ensures
        written.wf() && written.sent() == 0 && written.received() == None::<u32>,
        written.op() == (BitOp::Write { bits, value }),
        read.wf() && read.sent() == 0 && read.received() == None::<u32>,
        read.op() == (BitOp::Read { bits }),
        made.wf() && made.sent() == 0 && made.received() == None::<u32>,
        made.op() == op,
{
}

/// The steps of a write: a word whose top bit is set and whose other bits are those of the
/// count, then the value as it is, then nothing.
pub proof fn law_write_steps_of_exchange(
    exchange: Exchange,
    step: FifoStep,
    bits: u32,
    value: u32,
)
    requires
        exchange.wf(),
        exchange.op() == (BitOp::Write { bits, value }),
        call_ensures(Exchange::step, (&exchange,), step),
    ensures
        0 <= exchange.sent() <= 2,
        exchange.sent() == 0 ==> (step matches FifoStep::Push(word) && word >= 0x8000_0000 && word
            % 0x8000_0000 == bits % 0x8000_0000),
        exchange.sent() == 1 ==> step == FifoStep::Push(value),
        exchange.sent() == 2 ==> step == FifoStep::Finish(0),
{
    lemma_header(bits);
}

/// The steps of a read: the count, then polls until a word has come, then the value of that
/// word.
pub proof fn law_read_steps_of_exchange(
    exchange: Exchange,
    step: FifoStep,
    bits: u32,
    word: u32,
    value: u32,
)
    requires
        exchange.wf(),
        exchange.op() == (BitOp::Read { bits }),
        call_ensures(Exchange::step, (&exchange,), step),
        call_ensures(decode_reply, (bits, word), value),
    ensures
        0 <= exchange.sent() <= 1,
        exchange.sent() == 0 ==> step == FifoStep::Push(bits),
        exchange.sent() == 1 && exchange.received() == None::<u32> ==> step == FifoStep::Pop,
        exchange.sent() == 1 && exchange.received() == Some(word) ==> step == FifoStep::Finish(
            value,
        ),
{
}

/// A reply of up to 32 bits is the top of the word, moved to the low end, with zeros above; the
/// sample of a read without bits is the word itself. In general the word moves down by what is
/// missing to a multiple of 32 bits.
pub proof fn law_reply(bits: u32, word: u32, value: u32)
    requires
        call_ensures(decode_reply, (bits, word), value),
    ensures
        bits % 32 == 0 ==> value == word,
        bits % 32 != 0 ==> value == word >> ((32 - bits % 32) as u32),
        1 <= bits <= 32 ==> forall|i: u32|
            i < 32 ==> (#[trigger] (value >> i) & 1 == 1) == (i < bits && (word >> ((i + 32
                - bits) as u32)) & 1 == 1),
{
    lemma_reply(bits, word);
}

proof fn lemma_reply(bits: u32, word: u32)
    ensures
        1 <= bits <= 32 ==> forall|i: u32|
            i < 32 ==> (#[trigger] ((word >> reply_shift(bits)) >> i) & 1 == 1) == (i
                < bits && (word >> ((i + 32 - bits) as u32)) & 1 == 1),
        bits % 32 == 0 ==> word >> reply_shift(bits) == word,
{
    let shift = reply_shift(bits);
    assert(word >> 0u32 == word) by (bit_vector);
    if 1 <= bits <= 32 {
        assert(shift == 32 - bits);
        assert forall|i: u32| i < 32 implies (#[trigger] ((word >> shift) >> i) & 1 == 1) == (i
            < bits && (word >> ((i + 32 - bits) as u32)) & 1 == 1) by {
            assert((((word >> shift) >> i) & 1 == 1) == (i < bits && (word >> ((i + 32
                - bits) as u32)) & 1 == 1)) by (bit_vector)
                requires
                    1 <= bits <= 32,
                    shift == 32 - bits,
                    i < 32,
            ;
        }
    }
}

proof fn lemma_header(bits: u32)
    ensures
        bits | 0x8000_0000 >= 0x8000_0000,
        (bits | 0x8000_0000) % 0x8000_0000 == bits % 0x8000_0000,
{
    assert(bits | 0x8000_0000 >= 0x8000_0000 && (bits | 0x8000_0000) % 0x8000_0000 == bits
        % 0x8000_0000) by (bit_vector);
}

/// A word counts as sent if and only if the TX FIFO accepted it, and nothing else changes.
pub proof fn law_pushed_moves(exchange: &mut Exchange, accepted: bool)
    requires
        old(exchange).wf(),
        old(exchange).next_step() is Push,
        call_ensures(Exchange::pushed, (exchange, accepted), ()),
    ensures
        final(exchange).wf(),
        final(exchange).op() == old(exchange).op(),
        final(exchange).received() == old(exchange).received(),
        accepted ==> final(exchange).sent() == old(exchange).sent() + 1,
        !accepted ==> final(exchange).sent() == old(exchange).sent(),
        moves(*old(exchange), FifoEvent::Pushed(accepted), *final(exchange)),
{
}

/// What the RX FIFO held is what was received, and nothing else changes.
pub proof fn law_popped_moves(exchange: &mut Exchange, word: Option<u32>)
    requires
        old(exchange).wf(),
        old(exchange).next_step() is Pop,
        call_ensures(Exchange::popped, (exchange, word), ()),
    ensures
        final(exchange).wf(),
        final(exchange).op() == old(exchange).op(),
        final(exchange).sent() == old(exchange).sent(),
        final(exchange).received() == word,
        moves(*old(exchange), FifoEvent::Popped(word), *final(exchange)),
{
}

/// However often the TX FIFO refuses a word, the words that it accepts from a write are, in
/// order, the header with the count below the direction bit, and the value unchanged; there is
/// no third word, nothing is read, and the exchange is over when both were accepted.
pub proof fn law_write_run(
    states: Seq<Exchange>,
    events: Seq<FifoEvent>,
    bits: u32,
    value: u32,
)
    requires
        is_run(states, events),
        states[0].op() == (BitOp::Write { bits, value }),
    ensures
        ({
            let words = accepted_words(states, events);
            &&& words.len() <= 2
            &&& words.len() >= 1 ==> words[0] >= 0x8000_0000 && words[0] % 0x8000_0000 == bits
                % 0x8000_0000
            &&& words.len() == 2 ==> words[1] == value
            &&& arrived_words(events).len() == 0
            &&& words.len() == 2 <==> states.last().next_step() == FifoStep::Finish(0)
            &&& words.len() < 2 <==> states.last().next_step() is Push
        }),
    decreases events.len(),
{
    lemma_header(bits);
    lemma_run_state(states, events);
    if events.len() > 0 {
        lemma_run_prefix(states, events);
        lemma_run_state(states.drop_last(), events.drop_last());
        law_write_run(states.drop_last(), events.drop_last(), bits, value);
        let k = events.len() - 1;
        assert(moves(states[k], events[k], states[k + 1]));
    }
}

/// However often the FIFOs refuse, a read sends its count as the one word, takes one word, and
/// finishes with the value of that word: for up to 32 bits, the top bits of the word at the low
/// end with zeros above, and without bits the word itself.
pub proof fn law_read_run(states: Seq<Exchange>, events: Seq<FifoEvent>, bits: u32, value: u32)
    requires
        is_run(states, events),
        states[0].op() == (BitOp::Read { bits }),
        states.last().next_step() == FifoStep::Finish(value),
    ensures
        accepted_words(states, events) == seq![bits],
        arrived_words(events).len() == 1,
        bits % 32 == 0 ==> value == arrived_words(events)[0],
        1 <= bits <= 32 ==> forall|i: u32|
            i < 32 ==> (#[trigger] (value >> i) & 1 == 1) == (i < bits && (arrived_words(events)[0]
                >> ((i + 32 - bits) as u32)) & 1 == 1),
{
    lemma_run_state(states, events);
    lemma_read_words(states, events, bits);
    lemma_reply(bits, arrived_words(events)[0]);
    assert(accepted_words(states, events) =~= seq![bits]);
}

proof fn lemma_run_prefix(states: Seq<Exchange>, events: Seq<FifoEvent>)
    requires
        is_run(states, events),
        events.len() > 0,
    ensures
        is_run(states.drop_last(), events.drop_last()),
        states.drop_last().last() == states[events.len() - 1],
{
    let s = states.drop_last();
    let e = events.drop_last();
    assert forall|i: int| 0 <= i < e.len() implies moves(#[trigger] s[i], e[i], s[i + 1]) by {
        assert(moves(states[i], events[i], states[i + 1]));
    }
}

proof fn lemma_run_state(states: Seq<Exchange>, events: Seq<FifoEvent>)
    requires
        is_run(states, events),
    ensures
        states.last().op() == states[0].op(),
        states.last().wf(),
        states.last().sent() == accepted_words(states, events).len(),
    decreases events.len(),
{
    if events.len() > 0 {
        lemma_run_prefix(states, events);
        lemma_run_state(states.drop_last(), events.drop_last());
        let k = events.len() - 1;
        assert(moves(states[k], events[k], states[k + 1]));
    }
}

proof fn lemma_read_words(states: Seq<Exchange>, events: Seq<FifoEvent>, bits: u32)
    requires
        is_run(states, events),
        states[0].op() == (BitOp::Read { bits }),
    ensures
        forall|i: int|
            0 <= i < accepted_words(states, events).len() ==> accepted_words(states, events)[i]
                == bits,
        match states.last().received() {
            Some(word) => arrived_words(events) == seq![word],
            None => arrived_words(events).len() == 0,
        },
    decreases events.len(),
{
    lemma_run_state(states, events);
    if events.len() > 0 {
        lemma_run_prefix(states, events);
        lemma_run_state(states.drop_last(), events.drop_last());
        lemma_read_words(states.drop_last(), events.drop_last(), bits);
        let k = events.len() - 1;
        assert(moves(states[k], events[k], states[k + 1]));
        if let Some(word) = states.last().received() {
            assert(arrived_words(events) =~= seq![word]);
        }
    }
}

/// A write that ran to its end puts the low bits of its value on the line: the words that the
/// TX FIFO accepted make the machine give SWCLK one pulse for each bit of the count, modulo
/// 2^31, and drive SWDIO at each rising edge with the next bit of the value, least significant
/// first, extended with zeros.
pub proof fn law_write_run_on_line(
    m: Machine,
    states: Seq<Exchange>,
    events: Seq<FifoEvent>,
    bits: u32,
    value: u32,
)
    requires
        waiting(m),
        is_run(states, events),
        states[0].op() == (BitOp::Write { bits, value }),
        states.last().next_step() is Finish,
    ensures
        ({
            let fed = Machine { tx: m.tx + accepted_words(states, events), ..m };
            let end = fed.run(write_steps(bits));
            &&& waiting(end)
            &&& end.dat_driven
            &&& end.edges.len() == m.edges.len() + bits % 0x8000_0000
            &&& forall|i: int|
                0 <= i < bits % 0x8000_0000 ==> {
                    let edge = #[trigger] end.edges[m.edges.len() + i];
                    &&& edge.driven
                    &&& edge.level == (i < 32 && (value >> (i as u32)) & 1 == 1)
                }
            &&& bits % 0x8000_0000 == 0 ==> end.dat == (value & 1 == 1)
        }),
{
    law_write_run(states, events, bits, value);
    let words = accepted_words(states, events);
    let fed = Machine { tx: m.tx + words, ..m };
    lemma_header_unique(bits, words[0]);
    assert(fed.tx.take(2) =~= (BitOp::Write { bits, value }).words());
    law_write_on_machine(fed, bits, value);
    assert((value >> 0u32) & 1 == value & 1) by (bit_vector);
}

proof fn lemma_header_unique(bits: u32, word: u32)
    requires
        word >= 0x8000_0000,
        word % 0x8000_0000 == bits % 0x8000_0000,
    ensures
        word == bits | 0x8000_0000,
{
    assert(word == bits | 0x8000_0000) by (bit_vector)
        requires
            word >= 0x8000_0000,
            word % 0x8000_0000 == bits % 0x8000_0000,
    ;
}

/// A read of up to 32 bits that ran to its end returns the levels of the line: where the word
/// that came from the RX FIFO is the one that the machine put there for the words that were
/// accepted, the value has the levels as its low bits, least significant first, and zeros above.
pub proof fn law_read_run_off_line(
    m: Machine,
    states: Seq<Exchange>,
    events: Seq<FifoEvent>,
    bits: u32,
    value: u32,
)
    requires
        waiting(m),
        is_run(states, events),
        bits <= 32,
        states[0].op() == (BitOp::Read { bits }),
        states.last().next_step() == FifoStep::Finish(value),
        m.line.len() >= bits && m.line.len() >= 1,
        ({
            let fed = Machine { tx: m.tx + accepted_words(states, events), ..m };
            arrived_words(events).last() == fed.run(read_steps(bits)).rx.last()
        }),
    ensures
        forall|i: u32|
            i < 32 ==> (#[trigger] (value >> i) & 1 == 1) == ((i < bits || i == 0)
                && m.line[i as int]),
{
    law_read_run(states, events, bits, value);
    lemma_run_state(states, events);
    lemma_read_words(states, events, bits);
    let words = accepted_words(states, events);
    let fed = Machine { tx: m.tx + words, ..m };
    assert(fed.tx.take(1) =~= (BitOp::Read { bits }).words());
    law_read_on_machine(fed, bits);
    let word = arrived_words(events)[0];
    assert forall|i: u32| i < 32 implies (#[trigger] (value >> i) & 1 == 1) == ((i < bits || i == 0)
        && m.line[i as int]) by {
        assert(bit(reply_value(bits, word), i as int) == bit(value, i as int));
    }
}

} // verus!
