//! What a transfer does on the line and returns, from the call that starts it to its end.
use crate::bits::{
    bit, law_ones_are_set_bits, lemma_low_bit, lemma_tally_bound, lemma_tally_same,
    lemma_zero_bit, ones, tally,
};
use crate::fifo::{header_count, BitOp};
use crate::machine::{Edge, Machine};
use crate::swd::{law_packet_layout, DapError, SwdIoConfig, SwdRequest};
use crate::swd_io_set::SwdIoSet;
use crate::transfer::{
    acknowledgement, drive, idle, law_transfer_ends_high, outcome, transaction, Transfer,
    TransferStep,
};
use crate::wire::{
    fits_header, law_operation_on_machine, performed, performed_all, returned_all, samples_all,
    waiting,
};
use crate::wire_transfer::{
    carried_out, law_transfer_rests_high, lemma_accepted_totals, lemma_opening,
    lemma_performed_read, lemma_performed_write, lemma_read_outcome, lemma_samples_of_prefix,
    rests_high,
};
use vstd::prelude::*;

verus! {

/// A transfer starts with its arguments, and with no reply, whichever way it was started.
pub proof fn law_transfer_starts(
    config: SwdIoConfig,
    request: SwdRequest,
    data: u32,
    transfer: Transfer,
)
    requires
        config.turn_around_cycles < 8,
        call_ensures(SwdIoSet::swd_transfer, (&config, request, data), transfer) || call_ensures(
            Transfer::new,
            (&config, request, data),
            transfer,
        ),
    ensures
        transfer.wf(),
        transfer.config() == config,
        transfer.request() == request,
        transfer.data() == data,
        transfer.replies().len() == 0,
{
}

/// A transfer that goes on keeps its arguments, and has one reply more.
pub proof fn law_transfer_resumes(transfer: &mut Transfer, reply: u32)
    requires
        old(transfer).wf(),
        old(transfer).next_step() is Perform,
        call_ensures(Transfer::resume, (transfer, reply), ()),
    ensures
        final(transfer).wf(),
        final(transfer).config() == old(transfer).config(),
        final(transfer).request() == old(transfer).request(),
        final(transfer).data() == old(transfer).data(),
        final(transfer).replies() == old(transfer).replies().push(reply),
{
}

/// A transfer that the machine carries out to its end: `states` are what it goes through, `ops`
/// are the operations that it asks for, `replies` what the machine returns for them, and `result`
/// what it returns.
pub struct TransferRun {
    pub config: SwdIoConfig,
    pub request: SwdRequest,
    pub data: u32,
    pub states: Seq<Transfer>,
    pub ops: Seq<BitOp>,
    pub replies: Seq<u32>,
    pub result: Result<u32, DapError>,
}

impl TransferRun {
    /// Whether this is a run on `m`: every state has the arguments and the replies so far, asks
    /// for the next operation, and the last one returns the result.
    pub open spec fn on(self, m: Machine) -> bool {
        &&& self.config.turn_around_cycles < 8
        &&& self.states.len() == self.ops.len() + 1
        &&& self.replies == returned_all(m, self.ops)
        &&& self.replies.len() == self.ops.len()
        &&& forall|k: int|
            0 <= k < self.states.len() ==> {
                let state = #[trigger] self.states[k];
                &&& state.wf()
                &&& state.config() == self.config
                &&& state.request() == self.request
                &&& state.data() == self.data
                &&& state.replies() == self.replies.take(k)
                &&& call_ensures(
                    Transfer::step,
                    (&state,),
                    if k < self.ops.len() {
                        TransferStep::Perform(self.ops[k])
                    } else {
                        TransferStep::Finish(self.result)
                    },
                )
            }
    }

    /// The cycles in which the line changes hands.
    pub open spec fn turn(self) -> int {
        self.config.turn_around_cycles as int
    }

    /// Whether the request reads.
    pub open spec fn reads(self) -> bool {
        self.request.bits & 2 == 2
    }

    /// The operations behind the acknowledgement.
    pub open spec fn answer(self) -> Seq<BitOp> {
        self.ops.skip(2)
    }

    /// The rising edges that `m` gets.
    pub open spec fn edges(self, m: Machine) -> Seq<Edge> {
        performed_all(m, self.ops).edges.skip(m.edges.len() as int)
    }
}

proof fn lemma_run(m: Machine, run: TransferRun)
    requires
        run.on(m),
    ensures
        carried_out(m, run.config, run.request, run.data, run.replies),
        run.ops == transaction(run.config, run.request, run.data, run.replies),
        run.result == outcome(run.config, run.request, run.replies),
        run.reads() == run.request.reads(),
{
    let n = run.ops.len() as int;
    let full = transaction(run.config, run.request, run.data, run.replies);
    assert(run.replies.take(n) =~= run.replies);
    assert(run.states[n] == run.states.last());
    assert(run.states[n].replies() == run.replies);
    assert(n >= full.len());
    assert forall|k: int| 0 <= k < n implies run.ops[k] == full[k] && k < full.len() by {
        let part = run.replies.take(k);
        assert(run.states[k].replies() == part);
        if k >= 2 {
            assert(part[1] == run.replies[1]);
        }
    }
    if n > full.len() {
        assert(run.ops[n - 1] == full[n - 1]);
    }
    assert(run.ops =~= full);
}

/// The pulses of an operation: for each, the level of SWDIO where the machine drives it.
spec fn pulses(op: BitOp) -> Seq<Option<bool>> {
    match op {
        BitOp::Write { bits, value } => Seq::new(
            header_count(bits) as nat,
            |i: int| Some(bit(value, i)),
        ),
        BitOp::Read { bits } => Seq::new(bits as nat, |i: int| None::<bool>),
    }
}

spec fn all_pulses(ops: Seq<BitOp>) -> Seq<Option<bool>>
    decreases ops.len(),
{
    if ops.len() == 0 {
        seq![]
    } else {
        pulses(ops[0]) + all_pulses(ops.skip(1))
    }
}

spec fn shows(m: Machine, end: Machine, pulses: Seq<Option<bool>>) -> bool {
    &&& end.edges.len() == m.edges.len() + pulses.len()
    &&& end.edges.take(m.edges.len() as int) == m.edges
    &&& forall|i: int|
        0 <= i < pulses.len() ==> {
            let edge = #[trigger] end.edges[m.edges.len() + i];
            &&& edge.driven == (pulses[i] is Some)
            &&& pulses[i] matches Some(level) ==> edge.level == level
        }
}

proof fn lemma_pulses(m: Machine, ops: Seq<BitOp>)
    requires
        waiting(m),
        forall|i: int| 0 <= i < ops.len() ==> fits_header(#[trigger] ops[i]),
        m.line.len() >= samples_all(ops),
    ensures
        shows(m, performed_all(m, ops), all_pulses(ops)),
    decreases ops.len(),
{
    if ops.len() > 0 {
        let next = performed(m, ops[0]);
        let rest = ops.skip(1);
        law_operation_on_machine(m, ops[0]);
        match ops[0] {
            BitOp::Write { bits, value } => lemma_performed_write(m, bits, value),
            BitOp::Read { bits } => lemma_performed_read(m, bits),
        }
        lemma_pulses(next, rest);
        let end = performed_all(m, ops);
        let all = all_pulses(ops);
        let first = pulses(ops[0]);
        assert forall|i: int| 0 <= i < next.edges.len() implies end.edges[i] == next.edges[i] by {
            assert(end.edges.take(next.edges.len() as int)[i] == next.edges[i]);
        }
        assert(end.edges.take(m.edges.len() as int) =~= m.edges) by {
            assert forall|i: int| 0 <= i < m.edges.len() implies next.edges[i] == m.edges[i] by {
                assert(next.edges.take(m.edges.len() as int)[i] == m.edges[i]);
            }
        }
        assert forall|i: int| 0 <= i < all.len() implies {
            let edge = #[trigger] end.edges[m.edges.len() + i];
            &&& edge.driven == (all[i] is Some)
            &&& all[i] matches Some(level) ==> edge.level == level
        } by {
            if i >= first.len() {
                let j = i - first.len();
                assert(end.edges[next.edges.len() + j] == end.edges[m.edges.len() + i]);
                assert(all[i] == all_pulses(rest)[j]);
            } else {
                assert(all[i] == first[i]);
            }
        }
    } else {
        assert(m.edges.take(m.edges.len() as int) =~= m.edges);
    }
}

proof fn lemma_transfer_pulses(m: Machine, run: TransferRun)
    requires
        waiting(m),
        run.on(m),
        m.line.len() >= samples_all(run.ops),
    ensures
        run.edges(m).len() == all_pulses(run.ops).len(),
        forall|i: int|
            0 <= i < run.edges(m).len() ==> (#[trigger] run.edges(m)[i]).driven == (all_pulses(
                run.ops,
            )[i] is Some) && (all_pulses(run.ops)[i] matches Some(level) ==> run.edges(m)[i].level
                == level),
        rests_high(performed_all(m, run.ops)),
        performed_all(m, run.ops).clk_driven == m.clk_driven,
        performed_all(m, run.ops).edges.take(m.edges.len() as int) == m.edges,
{
    lemma_run(m, run);
    law_transfer_rests_high(m, run.config, run.request, run.data, run.replies);
    lemma_pulses(m, run.ops);
    let end = performed_all(m, run.ops);
    assert forall|i: int| 0 <= i < run.edges(m).len() implies run.edges(m)[i]
        == end.edges[m.edges.len() + i] by {}
}

/// Every transfer opens with the request, and then listens for the acknowledgement: at the first
/// eight edges the machine drives SWDIO with a one, the four flags from the lowest up, the bit
/// that makes their number even, a zero and a one, and at the next `3 + turn` edges, or
/// `3 + 2 * turn` before a write, it does not drive SWDIO. It ends with SWDIO driven high, and
/// changes nothing about SWCLK.
pub proof fn law_transfer_opens(m: Machine, run: TransferRun)
    requires
        waiting(m),
        run.on(m),
        m.line.len() >= samples_all(run.ops),
    ensures
        ({
            let edges = run.edges(m);
            let flags = run.request.bits;
            let listened = 3 + if run.reads() {
                run.turn()
            } else {
                2 * run.turn()
            };
            let end = performed_all(m, run.ops);
            &&& edges.len() >= 8 + listened
            &&& forall|i: int| 0 <= i < 8 ==> (#[trigger] edges[i]).driven
            &&& edges[0].level && !edges[6].level && edges[7].level
            &&& edges[1].level == (flags & 1 == 1)
            &&& edges[2].level == (flags & 2 == 2)
            &&& edges[3].level == (flags & 4 == 4)
            &&& edges[4].level == (flags & 8 == 8)
            &&& edges[5].level == (edges[1].level != (edges[2].level != (edges[3].level
                != edges[4].level)))
            &&& forall|i: int| 8 <= i < 8 + listened ==> !(#[trigger] edges[i]).driven
            &&& waiting(end) && end.dat_driven && end.dat
            &&& end.clk_driven == m.clk_driven
            &&& end.edges.take(m.edges.len() as int) == m.edges
        }),
{
    lemma_run(m, run);
    lemma_transfer_pulses(m, run);
    let packet = run.request.packet();
    lemma_packet_levels(run.request);
    let all = all_pulses(run.ops);
    assert(run.ops.skip(1)[0] == run.ops[1]);
    reveal_with_fuel(all_pulses, 3);
    let head = pulses(run.ops[0]);
    let ack = pulses(run.ops[1]);
    let rest = all_pulses(run.ops.skip(1).skip(1));
    assert(all == head + (ack + rest));
    assert forall|i: int| 0 <= i < 8 implies #[trigger] all[i] == Some(bit(packet as u32, i)) by {
        assert(all[i] == head[i]);
    }
    assert forall|i: int| 8 <= i < 8 + ack.len() implies #[trigger] all[i] is None by {
        assert(all[i] == ack[i - 8]);
    }
}

proof fn lemma_packet_levels(request: SwdRequest)
    ensures
        ({
            let level = |i: int| bit(request.packet() as u32, i);
            let flags = request.bits;
            &&& level(0) && !level(6) && level(7)
            &&& level(1) == (flags & 1 == 1)
            &&& level(2) == (flags & 2 == 2)
            &&& level(3) == (flags & 4 == 4)
            &&& level(4) == (flags & 8 == 8)
            &&& level(5) == (level(1) != (level(2) != (level(3) != level(4))))
        }),
{
    law_packet_layout(request);
    reveal_with_fuel(tally, 6);
}

/// What the acknowledgement is, from the line: the three levels after the turnaround, from the
/// lowest up, as far as they lie in the low byte of what is read.
proof fn lemma_answer(m: Machine, run: TransferRun)
    requires
        waiting(m),
        run.on(m),
        m.line.len() >= samples_all(run.ops),
    ensures
        ({
            let t = run.turn();
            let ack = acknowledgement(run.config, run.replies[1]);
            &&& run.replies.len() >= 2
            &&& ack == (if m.line[t] {
                1int
            } else {
                0
            }) + (if t + 1 < 8 && m.line[t + 1] {
                2int
            } else {
                0
            }) + (if t + 2 < 8 && m.line[t + 2] {
                4int
            } else {
                0
            })
        }),
{
    lemma_run(m, run);
    lemma_samples_of_prefix(run.ops, 2);
    assert(run.ops.take(2).skip(1)[0] == run.ops[1]);
    reveal_with_fuel(samples_all, 3);
    lemma_opening(m, run.config, run.request, run.data, run.replies);
    let t = run.config.turn_around_cycles;
    let reply = run.replies[1];
    let b0 = (reply >> t) & 1;
    let b1 = (reply >> ((t + 1) as u32)) & 1;
    let b2 = (reply >> ((t + 2) as u32)) & 1;
    let ack = ((reply as u8) >> t) & 0b111;
    assert(bit(reply, t as int) == m.line[t as int]);
    assert(bit(reply, t + 1) == m.line[t + 1]);
    assert(bit(reply, t + 2) == m.line[t + 2]);
    assert(ack == b0 + (if t < 7 {
        2 * b1
    } else {
        0
    }) + (if t < 6 {
        4 * b2
    } else {
        0
    }) && b0 <= 1 && b1 <= 1 && b2 <= 1) by (bit_vector)
        requires
            t < 8,
            b0 == (reply >> t) & 1,
            b1 == (reply >> ((t + 1) as u32)) & 1,
            b2 == (reply >> ((t + 2) as u32)) & 1,
            ack == ((reply as u8) >> t) & 0b111,
    ;
}

proof fn lemma_fold_is_parity(s: Seq<bool>, f: spec_fn(bool, bool) -> bool)
    requires
        forall|a: bool, b: bool| #[trigger] f(a, b) == (a != b),
    ensures
        s.fold_left(false, f) == (tally(|i: int| s[i], s.len()) % 2 == 1),
    decreases s.len(),
{
    if s.len() > 0 {
        lemma_fold_is_parity(s.drop_last(), f);
        lemma_tally_same(
            |i: int| s[i],
            |i: int| s.drop_last()[i],
            (s.len() - 1) as nat,
        );
    }
}

/// A read that the target accepts takes 32 levels of data and a parity level from the line,
/// behind the acknowledgement: it returns the data, least significant first, if the 33 levels
/// have an even number of ones, and a mismatch otherwise. Whatever it reads, SWCLK gets exactly
/// `8 + 36 + 2 * turn` pulses and then the configured idle cycles; SWDIO is not driven from the
/// request to the idle cycles, and driven low in these.
pub proof fn law_accepted_read(m: Machine, run: TransferRun)
    requires
        waiting(m),
        run.on(m),
        run.reads(),
        m.line.len() >= samples_all(run.ops),
        m.line[run.turn()],
        run.turn() + 1 < 8 ==> !m.line[run.turn() + 1],
        run.turn() + 2 < 8 ==> !m.line[run.turn() + 2],
    ensures
        ({
            let edges = run.edges(m);
            let at = 3 + run.turn();
            let odd = m.line.subrange(at, at + 33).fold_left(false, |a: bool, b: bool| a != b);
            let idle = if run.config.idle_cycles == 0 {
                seq![]
            } else {
                seq![BitOp::Write { bits: run.config.idle_cycles, value: 0 }]
            };
            &&& run.answer() == seq![
                BitOp::Read { bits: 32 },
                BitOp::Read { bits: (1 + run.turn()) as u32 },
            ] + idle + seq![BitOp::Write { bits: 0, value: 1 }]
            &&& !odd ==> (run.result matches Ok(value) && forall|i: u32|
                i < 32 ==> (#[trigger] (value >> i) & 1 == 1) == m.line[at + i])
            &&& odd ==> run.result == Err::<u32, DapError>(DapError::SwdError(16))
            &&& edges.len() == 8 + 36 + 2 * run.turn() + run.config.idle_cycles % 0x8000_0000
            &&& forall|i: int|
                8 <= i < 44 + 2 * run.turn() ==> !(#[trigger] edges[i]).driven
            &&& forall|i: int|
                44 + 2 * run.turn() <= i < edges.len() ==> (#[trigger] edges[i]).driven
                    && !edges[i].level
            &&& performed_all(m, run.ops).line == m.line.skip(36 + 2 * run.turn())
        }),
{
    lemma_run(m, run);
    lemma_answer(m, run);
    lemma_transfer_pulses(m, run);
    lemma_accepted_totals(run.config, run.request, run.data, run.replies);
    lemma_read_outcome(m, run.config, run.request, run.data, run.replies);
    law_transfer_rests_high(m, run.config, run.request, run.data, run.replies);
    let at = 3 + run.turn();
    let s = m.line.subrange(at, at + 33);
    lemma_fold_is_parity(s, |a: bool, b: bool| a != b);
    lemma_tally_same(|i: int| s[i], |i: int| m.line[at + i], 33);
    if let Ok(value) = run.result {
        assert forall|i: u32| i < 32 implies (#[trigger] (value >> i) & 1 == 1) == m.line[at
            + i] by {
            assert(bit(value, i as int) == m.line[at + i as int]);
        }
    }
    lemma_tail(run);
    let ops = run.ops;
    let closing = all_pulses(ops.skip(4));
    lemma_four(ops);
    lemma_idle_pulses(run.config, ops.skip(4));
    assert(all_pulses(ops) == pulses(ops[0]) + (pulses(ops[1]) + (pulses(ops[2]) + (pulses(ops[3])
        + closing))));
    assert forall|i: int| 8 <= i < 44 + 2 * run.turn() implies #[trigger] all_pulses(ops)[i]
        is None by {}
    assert forall|i: int| 44 + 2 * run.turn() <= i < all_pulses(ops).len() implies #[trigger] all_pulses(
        ops,
    )[i] == Some(false) by {
        assert(all_pulses(ops)[i] == closing[i - 44 - 2 * run.turn()]);
    }
}

proof fn lemma_tail(run: TransferRun)
    requires
        run.ops == transaction(run.config, run.request, run.data, run.replies),
        run.replies.len() >= 2,
        acknowledgement(run.config, run.replies[1]) == 1,
    ensures
        run.ops.skip(4) == idle(run.config).push(drive(true)),
        run.ops.len() >= 5,
{
    assert(run.ops.skip(4) =~= idle(run.config).push(drive(true)));
}

proof fn lemma_four(ops: Seq<BitOp>)
    requires
        ops.len() >= 4,
    ensures
        all_pulses(ops) == pulses(ops[0]) + (pulses(ops[1]) + (pulses(ops[2]) + (pulses(ops[3])
            + all_pulses(ops.skip(4))))),
{
    assert(ops.skip(1).skip(1).skip(1).skip(1) =~= ops.skip(4));
    assert(ops.skip(1)[0] == ops[1]);
    assert(ops.skip(1).skip(1)[0] == ops[2]);
    assert(ops.skip(1).skip(1).skip(1)[0] == ops[3]);
    reveal_with_fuel(all_pulses, 5);
}

proof fn lemma_idle_pulses(config: SwdIoConfig, ops: Seq<BitOp>)
    requires
        ops == idle(config).push(drive(true)),
    ensures
        all_pulses(ops).len() == config.idle_cycles % 0x8000_0000,
        forall|i: int| 0 <= i < all_pulses(ops).len() ==> #[trigger] all_pulses(ops)[i] == Some(
            false,
        ),
{
    assert forall|i: int| !bit(0, i) by {
        lemma_zero_bit(i);
    }
    reveal_with_fuel(all_pulses, 4);
    if config.idle_cycles != 0 {
        assert(ops.skip(1)[0] == drive(true));
        assert(ops.skip(1).skip(1) =~= seq![]);
        assert(all_pulses(ops) =~= pulses(ops[0]));
    } else {
        assert(ops.skip(1) =~= seq![]);
        assert(all_pulses(ops) =~= seq![]);
    }
}

/// A write that the target accepts sends its data: after the acknowledgement and the second
/// turnaround the machine drives SWDIO at 32 edges with the bits of the data, least significant
/// first, and at one more with the bit that makes the number of ones even. Then come the
/// configured idle cycles, with SWDIO low, and no other pulse. It returns zero.
pub proof fn law_accepted_write(m: Machine, run: TransferRun)
    requires
        waiting(m),
        run.on(m),
        !run.reads(),
        m.line.len() >= samples_all(run.ops),
        m.line[run.turn()],
        run.turn() + 1 < 8 ==> !m.line[run.turn() + 1],
        run.turn() + 2 < 8 ==> !m.line[run.turn() + 2],
    ensures
        ({
            let edges = run.edges(m);
            let at = 11 + 2 * run.turn();
            let bits = Seq::new(32, |i: int| (run.data >> (i as u32)) & 1 == 1);
            let idle = if run.config.idle_cycles == 0 {
                seq![]
            } else {
                seq![BitOp::Write { bits: run.config.idle_cycles, value: 0 }]
            };
            &&& run.answer().len() == 3 + idle.len()
            &&& run.answer()[0] == (BitOp::Write { bits: 32, value: run.data })
            &&& run.answer()[1] matches BitOp::Write { bits, value } && bits == 1
            &&& run.answer().skip(2) == idle + seq![BitOp::Write { bits: 0, value: 1 }]
            &&& run.result == Ok::<u32, DapError>(0)
            &&& edges.len() == at + 33 + run.config.idle_cycles % 0x8000_0000
            &&& forall|i: int| at <= i < edges.len() ==> (#[trigger] edges[i]).driven
            &&& forall|i: int| 0 <= i < 32 ==> (#[trigger] edges[at + i]).level == bits[i]
            &&& edges[at + 32].level == bits.fold_left(false, |a: bool, b: bool| a != b)
            &&& forall|i: int| at + 33 <= i < edges.len() ==> !(#[trigger] edges[i]).level
            &&& performed_all(m, run.ops).line == m.line.skip(3 + 2 * run.turn())
        }),
{
    lemma_run(m, run);
    lemma_answer(m, run);
    lemma_transfer_pulses(m, run);
    lemma_accepted_totals(run.config, run.request, run.data, run.replies);
    law_transfer_rests_high(m, run.config, run.request, run.data, run.replies);
    lemma_tail(run);
    let ops = run.ops;
    let at = 11 + 2 * run.turn();
    let data = run.data;
    let closing = all_pulses(ops.skip(4));
    lemma_four(ops);
    lemma_idle_pulses(run.config, ops.skip(4));
    let bits = Seq::new(32, |i: int| (data >> (i as u32)) & 1 == 1);
    lemma_fold_is_parity(bits, |a: bool, b: bool| a != b);
    lemma_tally_same(|i: int| bits[i], |i: int| bit(data, i), 32);
    law_ones_are_set_bits(data);
    lemma_tally_bound(|i: int| bit(data, i), 32);
    let count = ones(data as nat) as u32;
    lemma_low_bit(count);
    let all = all_pulses(ops);
    assert(ops[2] == BitOp::Write { bits: 32, value: data });
    assert(ops[3] == BitOp::Write { bits: 1, value: count });
    assert forall|i: int| 0 <= i < 32 implies #[trigger] all[at + i] == Some(bits[i]) by {
        assert(all[at + i] == pulses(ops[2])[i]);
    }
    assert(all[at + 32] == pulses(ops[3])[0]);
    assert forall|i: int| at + 33 <= i < all.len() implies #[trigger] all[i] == Some(false) by {
        assert(all[i] == closing[i - at - 33]);
    }
    let edges = run.edges(m);
    assert forall|i: int| at <= i < edges.len() implies (#[trigger] edges[i]).driven by {
        if i < at + 32 {
            assert(all[at + (i - at)] == Some(bits[i - at]));
        }
    }
}

proof fn lemma_short(ops: Seq<BitOp>)
    requires
        3 <= ops.len() <= 5,
        ops.last() == drive(true),
    ensures
        ops.len() == 3 ==> all_pulses(ops) == pulses(ops[0]) + pulses(ops[1]),
        ops.len() == 4 ==> all_pulses(ops) == pulses(ops[0]) + (pulses(ops[1]) + pulses(ops[2])),
        ops.len() == 5 ==> all_pulses(ops) == pulses(ops[0]) + (pulses(ops[1]) + (pulses(ops[2])
            + pulses(ops[3]))),
{
    assert(ops.skip(1)[0] == ops[1]);
    assert(ops.skip(1).skip(1)[0] == ops[2]);
    assert(pulses(drive(true)) =~= seq![]);
    reveal_with_fuel(all_pulses, 6);
    if ops.len() == 3 {
        assert(ops.skip(1).skip(1).skip(1) =~= seq![]);
        assert(all_pulses(ops) =~= pulses(ops[0]) + pulses(ops[1]));
    } else if ops.len() == 4 {
        assert(ops.skip(1).skip(1).skip(1)[0] == ops[3]);
        assert(ops.skip(1).skip(1).skip(1).skip(1) =~= seq![]);
        assert(all_pulses(ops) =~= pulses(ops[0]) + (pulses(ops[1]) + pulses(ops[2])));
    } else {
        assert(ops.skip(1).skip(1).skip(1)[0] == ops[3]);
        assert(ops.skip(1).skip(1).skip(1).skip(1)[0] == ops[4]);
        assert(ops.skip(1).skip(1).skip(1).skip(1).skip(1) =~= seq![]);
        assert(all_pulses(ops) =~= pulses(ops[0]) + (pulses(ops[1]) + (pulses(ops[2]) + pulses(
            ops[3],
        ))));
    }
}

/// After a WAIT or a FAULT, whichever of the two and whatever is asked, a transfer gives SWCLK,
/// besides the pulses of the request and the acknowledgement, the turnaround cycles of a read and
/// no other pulse; where a data phase is always generated, it gives 33 pulses more. SWDIO is not
/// driven in those of a read, and driven low in those of a write. The idle cycles are left out,
/// and the acknowledgement is reported.
pub proof fn law_refused_transfer(m: Machine, run: TransferRun, fault: bool)
    requires
        waiting(m),
        run.on(m),
        m.line.len() >= samples_all(run.ops),
        !m.line[run.turn()],
        (run.turn() + 1 < 8 && m.line[run.turn() + 1]) == !fault,
        (run.turn() + 2 < 8 && m.line[run.turn() + 2]) == fault,
    ensures
        ({
            let edges = run.edges(m);
            let phase = if run.config.always_generate_data_phase {
                33int
            } else {
                0
            };
            let listened = 8 + 3 + if run.reads() {
                run.turn()
            } else {
                2 * run.turn()
            };
            let data = if !run.config.always_generate_data_phase {
                seq![]
            } else if run.reads() {
                seq![BitOp::Read { bits: 33 }]
            } else {
                seq![BitOp::Write { bits: 33, value: 0 }]
            };
            let turn = if run.reads() {
                seq![BitOp::Read { bits: run.config.turn_around_cycles }]
            } else {
                seq![]
            };
            &&& run.answer() == data + turn + seq![BitOp::Write { bits: 0, value: 1 }]
            &&& run.result == Err::<u32, DapError>(
                DapError::SwdError(
                    if fault {
                        4
                    } else {
                        2
                    },
                ),
            )
            &&& edges.len() == listened + phase + if run.reads() {
                run.turn()
            } else {
                0
            }
            &&& forall|i: int|
                listened <= i < edges.len() ==> (#[trigger] edges[i]).driven == !run.reads() && (
                !run.reads() ==> !edges[i].level)
        }),
{
    lemma_run(m, run);
    lemma_answer(m, run);
    lemma_transfer_pulses(m, run);
    law_transfer_ends_high(run.config, run.request, run.data, run.replies);
    let ops = run.ops;
    lemma_short(ops);
    assert forall|i: int| !bit(0, i) by {
        lemma_zero_bit(i);
    }
}

/// After anything that is neither an acceptance nor a WAIT nor a FAULT, a transfer gives SWCLK
/// 33 pulses and the turnaround cycles of a read, with SWDIO not driven, and no other pulse
/// besides those of the request and the acknowledgement. It reports the three levels that it
/// found.
pub proof fn law_unanswered_transfer(m: Machine, run: TransferRun)
    requires
        waiting(m),
        run.on(m),
        m.line.len() >= samples_all(run.ops),
        ({
            let b0 = m.line[run.turn()];
            let b1 = run.turn() + 1 < 8 && m.line[run.turn() + 1];
            let b2 = run.turn() + 2 < 8 && m.line[run.turn() + 2];
            // None of the three, or more than one of them.
            !(b0 && !b1 && !b2) && !(!b0 && b1 && !b2) && !(!b0 && !b1 && b2)
        }),
    ensures
        ({
            let edges = run.edges(m);
            let listened = 8 + 3 + if run.reads() {
                run.turn()
            } else {
                2 * run.turn()
            };
            let found = (if m.line[run.turn()] {
                1int
            } else {
                0
            }) + (if run.turn() + 1 < 8 && m.line[run.turn() + 1] {
                2int
            } else {
                0
            }) + (if run.turn() + 2 < 8 && m.line[run.turn() + 2] {
                4int
            } else {
                0
            });
            let turn = if run.reads() {
                seq![BitOp::Read { bits: run.config.turn_around_cycles }]
            } else {
                seq![]
            };
            &&& run.answer() == seq![BitOp::Read { bits: 33 }] + turn + seq![BitOp::Write { bits: 0, value: 1 }]
            &&& run.result == Err::<u32, DapError>(DapError::SwdError(found as u8))
            &&& edges.len() == listened + 33 + if run.reads() {
                run.turn()
            } else {
                0
            }
            &&& forall|i: int| listened <= i < edges.len() ==> !(#[trigger] edges[i]).driven
        }),
{
    lemma_run(m, run);
    lemma_answer(m, run);
    lemma_transfer_pulses(m, run);
    law_transfer_ends_high(run.config, run.request, run.data, run.replies);
    lemma_short(run.ops);
}

} // verus!
