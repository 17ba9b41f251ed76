//! What a transfer comes to on the line, when the state machine carries it out.
use crate::bits::{
    bit, byte_bit, law_ones_are_set_bits, lemma_low_bit, lemma_tally_bound, lemma_tally_same,
    lemma_zero_bit, ones, tally,
};
use crate::fifo::{header_count, reply_value, BitOp};
use crate::machine::{
    law_read_on_machine, law_write_on_machine, read_edges, samples, write_edges, Machine,
};
use crate::swd::{
    DapError, SwdIoConfig, SwdRequest, DAP_TRANSFER_MISMATCH, DAP_TRANSFER_OK,
};
use crate::transfer::{
    ack_bits, acknowledgement, drive, idle, law_transfer_ends_high, opening, outcome, response,
    transaction,
};
use crate::wire::{
    law_drive, law_machine_waits_again, law_operations_on_machine, performed, performed_all,
    pulses_all, reads_in, returned, returned_all, samples_all, waiting,
};
use vstd::prelude::*;

verus! {

pub(crate) proof fn lemma_performed_write(m: Machine, bits: u32, value: u32)
    requires
        waiting(m),
    ensures
        ({
            let end = performed(m, BitOp::Write { bits, value });
            &&& waiting(end)
            &&& end.line == m.line
            &&& end.rx == m.rx
            &&& end.dat_driven
            &&& end.edges == m.edges + write_edges(m.cycle + 15, bits, value)
        }),
{
    let op = BitOp::Write { bits, value };
    let fed = Machine { tx: m.tx + op.words(), ..m };
    law_machine_waits_again(m, op);
    assert(fed.tx.take(2) =~= op.words());
    law_write_on_machine(fed, bits, value);
    assert(performed(m, op).edges =~= m.edges + write_edges(m.cycle + 15, bits, value));
}

pub(crate) proof fn lemma_performed_read(m: Machine, bits: u32)
    requires
        waiting(m),
        bits < 0x8000_0000,
        m.line.len() >= samples(bits),
    ensures
        ({
            let op = BitOp::Read { bits };
            let end = performed(m, op);
            &&& waiting(end)
            &&& end.line == m.line.skip(samples(bits) as int)
            &&& !end.dat_driven
            &&& end.edges == m.edges + read_edges(m.cycle + 12, bits, m.dat)
            &&& bits <= 32 ==> forall|i: int|
                0 <= i < 32 ==> #[trigger] bit(returned(m, op), i) == (i < samples(bits)
                    && m.line[i])
        }),
{
    let op = BitOp::Read { bits };
    let fed = Machine { tx: m.tx + op.words(), ..m };
    law_machine_waits_again(m, op);
    assert(fed.tx.take(1) =~= op.words());
    law_read_on_machine(fed, bits);
    assert(performed(m, op).edges =~= m.edges + read_edges(m.cycle + 12, bits, m.dat));
    if bits <= 32 {
        assert forall|i: int| 0 <= i < 32 implies #[trigger] bit(returned(m, op), i) == (i
            < samples(bits) && m.line[i]) by {
            assert(bit(reply_value(bits, performed(m, op).rx.last()), i) == (i < samples(bits)
                && m.line[i]));
        }
    }
}

proof fn lemma_one_more(m: Machine, ops: Seq<BitOp>, k: int)
    requires
        0 <= k < ops.len(),
    ensures
        performed_all(m, ops.take(k + 1)) == performed(performed_all(m, ops.take(k)), ops[k]),
        returned_all(m, ops).len() == ops.len(),
        returned_all(m, ops)[k] == returned(performed_all(m, ops.take(k)), ops[k]),
    decreases ops.len(),
{
    let next = performed(m, ops[0]);
    let rest = ops.skip(1);
    assert(ops.take(k + 1).skip(1) =~= rest.take(k));
    if rest.len() > 0 {
        lemma_one_more(next, rest, if k > 0 {
            k - 1
        } else {
            0
        });
    }
    if k > 0 {
        assert(ops.take(k).skip(1) =~= rest.take(k - 1));
    } else {
        reveal_with_fuel(performed_all, 2);
    }
    reveal_with_fuel(returned_all, 2);
}

/// Whether `replies` are what the machine returns for the operations of the transfer that these
/// replies decide.
pub open spec fn carried_out(
    m: Machine,
    config: SwdIoConfig,
    request: SwdRequest,
    data: u32,
    replies: Seq<u32>,
) -> bool {
    &&& replies.len() >= 2
    &&& replies == returned_all(m, transaction(config, request, data, replies))
}

/// Whatever the line does, the machine carries the transfer out: there are such replies.
pub proof fn law_transfer_is_carried_out(
    m: Machine,
    config: SwdIoConfig,
    request: SwdRequest,
    data: u32,
) -> (replies: Seq<u32>)
    ensures
        carried_out(m, config, request, data, replies),
{
    let first = opening(config, request);
    let reply = returned(performed(m, first[0]), first[1]);
    let ops = first + response(config, request, data, acknowledgement(config, reply));
    let replies = returned_all(m, ops);
    lemma_one_more(m, ops, 1);
    lemma_one_more(m, ops, 0);
    assert(ops.take(0) =~= seq![]);
    assert(replies[1] == reply);
    replies
}

/// Whether the line, after the turnaround, acknowledges the request: a one and two zeros.
pub open spec fn accepts(line: Seq<bool>, turn_around: int) -> bool {
    line[turn_around] && !line[turn_around + 1] && !line[turn_around + 2]
}

proof fn lemma_acknowledged(config: SwdIoConfig, reply: u32)
    requires
        config.turn_around_cycles < 8,
        bit(reply, config.turn_around_cycles as int),
        !bit(reply, config.turn_around_cycles + 1),
        !bit(reply, config.turn_around_cycles + 2),
    ensures
        acknowledgement(config, reply) == DAP_TRANSFER_OK,
{
    let t = config.turn_around_cycles;
    assert(((reply as u8) >> t) & 0b111 == 1) by (bit_vector)
        requires
            t < 8,
            (reply >> t) & 1 == 1,
            (reply >> ((t + 1) as u32)) & 1 != 1,
            (reply >> ((t + 2) as u32)) & 1 != 1,
    ;
}

pub(crate) proof fn lemma_opening(
    m: Machine,
    config: SwdIoConfig,
    request: SwdRequest,
    data: u32,
    replies: Seq<u32>,
)
    requires
        waiting(m),
        config.turn_around_cycles < 8,
        carried_out(m, config, request, data, replies),
        m.line.len() >= ack_bits(config, request),
    ensures
        ({
            let ops = transaction(config, request, data, replies);
            let asked = performed_all(m, ops.take(1));
            let acked = performed_all(m, ops.take(2));
            let bits = ack_bits(config, request);
            let t = config.turn_around_cycles as int;
            &&& accepts(m.line, t) ==> acknowledgement(config, replies[1]) == DAP_TRANSFER_OK
            &&& forall|i: int| t <= i < t + 3 ==> #[trigger] bit(replies[1], i) == m.line[i]
            &&& waiting(acked)
            &&& acked.line == m.line.skip(bits as int)
            &&& acked.edges == m.edges + write_edges(m.cycle + 15, 8, request.packet() as u32)
                + read_edges(asked.cycle + 12, bits, asked.dat)
        }),
{
    let ops = transaction(config, request, data, replies);
    let bits = ack_bits(config, request);
    lemma_one_more(m, ops, 0);
    lemma_one_more(m, ops, 1);
    assert(ops.take(0) =~= seq![]);
    lemma_performed_write(m, 8, request.packet() as u32);
    let asked = performed_all(m, ops.take(1));
    lemma_performed_read(asked, bits);
    let t = config.turn_around_cycles as int;
    assert(bit(replies[1], t) == m.line[t]);
    if accepts(m.line, t) {
        assert(!bit(replies[1], t + 1) && !bit(replies[1], t + 2));
        lemma_acknowledged(config, replies[1]);
    }
}

/// Whether the machine waits with SWDIO driven high.
pub open spec fn rests_high(m: Machine) -> bool {
    waiting(m) && m.dat_driven && m.dat
}

pub(crate) proof fn lemma_samples_of_prefix(ops: Seq<BitOp>, k: int)
    requires
        0 <= k <= ops.len(),
    ensures
        samples_all(ops.take(k)) <= samples_all(ops),
    decreases ops.len(),
{
    if k > 0 {
        assert(ops.take(k).skip(1) =~= ops.skip(1).take(k - 1));
        lemma_samples_of_prefix(ops.skip(1), k - 1);
    }
}

/// Whatever the target replies, a transfer leaves the machine waiting with SWDIO driven high. It
/// takes the samples of its operations from the line, gives SWCLK their pulses, and returns
/// exactly one word for each of its reads.
pub proof fn law_transfer_rests_high(
    m: Machine,
    config: SwdIoConfig,
    request: SwdRequest,
    data: u32,
    replies: Seq<u32>,
)
    requires
        waiting(m),
        config.turn_around_cycles < 8,
        carried_out(m, config, request, data, replies),
        m.line.len() >= samples_all(transaction(config, request, data, replies)),
    ensures
        ({
            let ops = transaction(config, request, data, replies);
            let end = performed_all(m, ops);
            &&& rests_high(end)
            &&& end.clk_driven == m.clk_driven
            &&& end.line == m.line.skip(samples_all(ops) as int)
            &&& end.edges.len() == m.edges.len() + pulses_all(ops)
            &&& end.edges.take(m.edges.len() as int) == m.edges
            &&& end.rx.len() == m.rx.len() + reads_in(ops)
            &&& end.rx.take(m.rx.len() as int) == m.rx
        }),
{
    let ops = transaction(config, request, data, replies);
    let last = ops.len() - 1;
    let before = performed_all(m, ops.take(last));
    law_transfer_ends_high(config, request, data, replies);
    law_operations_on_machine(m, ops);
    lemma_samples_of_prefix(ops, last);
    law_operations_on_machine(m, ops.take(last));
    lemma_one_more(m, ops, last);
    assert(ops.take(last + 1) =~= ops);
    law_drive(before, true);
}

/// The acknowledgement of a transfer is what the line carried in the three bits after the
/// turnaround, as long as these lie in the low byte of what is read; anything but an acceptance
/// is the error that the transfer returns.
pub proof fn law_acknowledgement_on_machine(
    m: Machine,
    config: SwdIoConfig,
    request: SwdRequest,
    data: u32,
    replies: Seq<u32>,
)
    requires
        waiting(m),
        config.turn_around_cycles <= 5,
        carried_out(m, config, request, data, replies),
        m.line.len() >= ack_bits(config, request),
    ensures
        ({
            let t = config.turn_around_cycles as int;
            let ack = acknowledgement(config, replies[1]);
            &&& ack < 8
            &&& forall|i: int| 0 <= i < 3 ==> #[trigger] byte_bit(ack, i) == m.line[t + i]
            &&& !accepts(m.line, t) ==> outcome(config, request, replies) == Err::<u32, DapError>(
                DapError::SwdError(ack),
            )
        }),
{
    lemma_opening(m, config, request, data, replies);
    let t = config.turn_around_cycles as int;
    let ack = acknowledgement(config, replies[1]);
    law_acknowledgement_bits(config, replies[1], 0);
    assert forall|i: int| 0 <= i < 3 implies #[trigger] byte_bit(ack, i) == m.line[t + i] by {
        law_acknowledgement_bits(config, replies[1], i);
        assert(bit(replies[1], t + i) == m.line[t + i]);
    }
    if ack == DAP_TRANSFER_OK {
        assert((1u32 >> 0u32) & 1 == 1 && (1u32 >> 1u32) & 1 == 0 && (1u32 >> 2u32) & 1 == 0)
            by (bit_vector);
        assert(byte_bit(ack, 0) && !byte_bit(ack, 1) && !byte_bit(ack, 2));
    }
}

/// A read that the target accepts returns what the line carried: after the request, the
/// turnaround and the acknowledgement come 32 bits of data, least significant first, and a
/// parity bit. The data are returned if the 33 bits have an even number of ones, and a mismatch
/// is reported otherwise. Either way the transfer takes these bits and the turnarounds from the
/// line and no more, returns three words, and leaves the machine waiting with SWDIO driven high.
pub proof fn law_read_transfer_on_machine(
    m: Machine,
    config: SwdIoConfig,
    request: SwdRequest,
    data: u32,
    replies: Seq<u32>,
)
    requires
        waiting(m),
        request.reads(),
        config.turn_around_cycles < 8,
        carried_out(m, config, request, data, replies),
        m.line.len() >= 36 + 2 * config.turn_around_cycles,
        accepts(m.line, config.turn_around_cycles as int),
    ensures
        ({
            let end = performed_all(m, transaction(config, request, data, replies));
            let at = 3 + config.turn_around_cycles;
            let even = tally(|i: int| m.line[at + i], 33) % 2 == 0;
            &&& outcome(config, request, replies) is Ok <==> even
            &&& even ==> forall|i: int|
                0 <= i < 32 ==> #[trigger] bit(outcome(config, request, replies)->Ok_0, i)
                    == m.line[at + i]
            &&& !even ==> outcome(config, request, replies) == Err::<u32, DapError>(
                DapError::SwdError(DAP_TRANSFER_MISMATCH),
            )
            &&& rests_high(end)
            &&& end.line == m.line.skip(36 + 2 * config.turn_around_cycles)
            &&& end.rx.len() == m.rx.len() + 3
        }),
{
    lemma_opening(m, config, request, data, replies);
    lemma_read_outcome(m, config, request, data, replies);
    lemma_accepted_totals(config, request, data, replies);
    law_transfer_rests_high(m, config, request, data, replies);
}

pub(crate) proof fn lemma_read_outcome(
    m: Machine,
    config: SwdIoConfig,
    request: SwdRequest,
    data: u32,
    replies: Seq<u32>,
)
    requires
        waiting(m),
        request.reads(),
        config.turn_around_cycles < 8,
        carried_out(m, config, request, data, replies),
        m.line.len() >= 36 + 2 * config.turn_around_cycles,
        acknowledgement(config, replies[1]) == DAP_TRANSFER_OK,
    ensures
        ({
            let at = 3 + config.turn_around_cycles;
            let even = tally(|i: int| m.line[at + i], 33) % 2 == 0;
            &&& outcome(config, request, replies) is Ok <==> even
            &&& even ==> forall|i: int|
                0 <= i < 32 ==> #[trigger] bit(outcome(config, request, replies)->Ok_0, i)
                    == m.line[at + i]
            &&& !even ==> outcome(config, request, replies) == Err::<u32, DapError>(
                DapError::SwdError(DAP_TRANSFER_MISMATCH),
            )
        }),
{
    let ops = transaction(config, request, data, replies);
    let at = 3 + config.turn_around_cycles;
    lemma_opening(m, config, request, data, replies);
    lemma_one_more(m, ops, 2);
    lemma_one_more(m, ops, 3);
    let acked = performed_all(m, ops.take(2));
    assert(ops[2] == BitOp::Read { bits: 32 });
    lemma_performed_read(acked, 32);
    let read = performed_all(m, ops.take(3));
    let parity_bits = (1 + config.turn_around_cycles) as u32;
    assert(ops[3] == BitOp::Read { bits: parity_bits });
    lemma_performed_read(read, parity_bits);
    let value = replies[2];
    let parity = replies[3];
    assert forall|i: int| 0 <= i < 32 implies #[trigger] bit(value, i) == m.line[at + i] by {
        assert(bit(returned(acked, ops[2]), i) == acked.line[i]);
    }
    assert(bit(returned(read, ops[3]), 0) == read.line[0]);
    assert(bit(parity, 0) == m.line[at + 32]);
    lemma_low_bit(parity);
    law_ones_are_set_bits(value);
    lemma_tally_same(|i: int| m.line[at + i], |i: int| bit(value, i), 32);
}

pub(crate) proof fn lemma_accepted_totals(
    config: SwdIoConfig,
    request: SwdRequest,
    data: u32,
    replies: Seq<u32>,
)
    requires
        config.turn_around_cycles < 8,
        replies.len() >= 2,
        acknowledgement(config, replies[1]) == DAP_TRANSFER_OK,
    ensures
        request.reads() ==> samples_all(transaction(config, request, data, replies)) == 36 + 2
            * config.turn_around_cycles && reads_in(transaction(config, request, data, replies))
            == 3,
        !request.reads() ==> samples_all(transaction(config, request, data, replies)) == 3 + 2
            * config.turn_around_cycles && reads_in(transaction(config, request, data, replies))
            == 1,
{
    let ops = transaction(config, request, data, replies);
    let tail = ops.skip(1).skip(1).skip(1).skip(1);
    assert(tail =~= ops.skip(4));
    assert(tail =~= idle(config).push(drive(true)));
    assert(tail.len() <= 2);
    reveal_with_fuel(samples_all, 7);
    reveal_with_fuel(reads_in, 7);
}

/// A write that the target accepts gives SWCLK the edges of the request, of the turnarounds and
/// the acknowledgement, of the data with their parity, and of the idle cycles. The machine
/// drives SWDIO at those of the request, from the lowest bit of the packet up, and at those of
/// the data, which come least significant first and end with the parity, and it keeps SWDIO low
/// in the idle cycles. It returns zero, takes the turnarounds and the acknowledgement from the
/// line and no more, and leaves the machine waiting with SWDIO driven high.
pub proof fn law_write_transfer_on_machine(
    m: Machine,
    config: SwdIoConfig,
    request: SwdRequest,
    data: u32,
    replies: Seq<u32>,
)
    requires
        waiting(m),
        !request.reads(),
        config.turn_around_cycles < 8,
        carried_out(m, config, request, data, replies),
        m.line.len() >= 3 + 2 * config.turn_around_cycles,
        accepts(m.line, config.turn_around_cycles as int),
    ensures
        ({
            let end = performed_all(m, transaction(config, request, data, replies));
            let edges = end.edges.skip(m.edges.len() as int);
            let at = 11 + 2 * config.turn_around_cycles;
            &&& outcome(config, request, replies) == Ok::<u32, DapError>(0)
            &&& end.edges.take(m.edges.len() as int) == m.edges
            &&& edges.len() == at + 33 + header_count(config.idle_cycles)
            &&& forall|i: int|
                0 <= i < edges.len() ==> (#[trigger] edges[i]).driven == (i < 8 || i >= at)
            &&& forall|i: int|
                0 <= i < 8 ==> (#[trigger] edges[i]).level == byte_bit(request.packet(), i)
            &&& forall|i: int|
                at <= i < at + 32 ==> (#[trigger] edges[i]).level == bit(data, i - at)
            &&& edges[at + 32].level == (ones(data as nat) % 2 == 1)
            &&& forall|i: int| at + 33 <= i < edges.len() ==> !(#[trigger] edges[i]).level
            &&& rests_high(end)
            &&& end.line == m.line.skip(3 + 2 * config.turn_around_cycles)
            &&& end.rx.len() == m.rx.len() + 1
        }),
{
    let ops = transaction(config, request, data, replies);
    lemma_opening(m, config, request, data, replies);
    lemma_accepted_totals(config, request, data, replies);
    law_transfer_rests_high(m, config, request, data, replies);
    lemma_one_more(m, ops, 2);
    lemma_one_more(m, ops, 3);
    lemma_one_more(m, ops, 4);
    let count = ones(data as nat) as u32;
    let acked = performed_all(m, ops.take(2));
    lemma_performed_write(acked, 32, data);
    let sent = performed_all(m, ops.take(3));
    lemma_performed_write(sent, 1, count);
    let closed = performed_all(m, ops.take(4));
    let idle_edges = if config.idle_cycles != 0 {
        lemma_performed_write(closed, config.idle_cycles, 0);
        lemma_one_more(m, ops, 5);
        let idled = performed_all(m, ops.take(5));
        lemma_performed_write(idled, 0, 1);
        assert(ops.take(6) =~= ops);
        write_edges(closed.cycle + 15, config.idle_cycles, 0)
    } else {
        lemma_performed_write(closed, 0, 1);
        assert(ops.take(5) =~= ops);
        seq![]
    };
    let end = performed_all(m, ops);
    let asked = performed_all(m, ops.take(1));
    let bits = ack_bits(config, request);
    let request_edges = write_edges(m.cycle + 15, 8, request.packet() as u32);
    let ack_edges = read_edges(asked.cycle + 12, bits, asked.dat);
    let data_edges = write_edges(acked.cycle + 15, 32, data);
    let parity_edges = write_edges(sent.cycle + 15, 1, count);
    assert(end.edges =~= m.edges + (request_edges + ack_edges + data_edges + parity_edges
        + idle_edges));
    assert(end.edges.skip(m.edges.len() as int) =~= request_edges + ack_edges + data_edges
        + parity_edges + idle_edges);
    law_ones_are_set_bits(data);
    lemma_tally_bound(|i: int| bit(data, i), 32);
    lemma_low_bit(count);
    assert forall|i: int| !bit(0, i) by {
        lemma_zero_bit(i);
    }
}

/// The acknowledgement is the three bits after the turnaround, as long as these lie in the low
/// byte.
pub proof fn law_acknowledgement_bits(config: SwdIoConfig, reply: u32, i: int)
    requires
        config.turn_around_cycles <= 5,
        0 <= i < 3,
    ensures
        byte_bit(acknowledgement(config, reply), i) == bit(reply, config.turn_around_cycles + i),
        acknowledgement(config, reply) < 8,
{
    let t = config.turn_around_cycles;
    let k = i as u32;
    let ack = ((reply as u8) >> t) & 0b111;
    assert(((ack as u32) >> k) & 1 == (reply >> ((t + k) as u32)) & 1 && ack < 8) by (bit_vector)
        requires
            t <= 5,
            k < 3,
            ack == ((reply as u8) >> t) & 0b111,
    ;
}

} // verus!
