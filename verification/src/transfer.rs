//! One SWD transfer: a request, its acknowledgement, and what the acknowledgement calls for.
use crate::bits::{
    bit, law_ones_are_set_bits, law_parity_of_one_flip, lemma_low_bit, lemma_tally_bound,
    lemma_tally_same, ones, tally,
};
use crate::fifo::{line_out, BitOp};
use crate::swd::{
    DapError, SwdIoConfig, SwdRequest, DAP_TRANSFER_FAULT, DAP_TRANSFER_MISMATCH, DAP_TRANSFER_OK,
    DAP_TRANSFER_WAIT, SWD_REQUEST_RNW,
};
use crate::swd_io_set::SwdIoSet;
use vstd::prelude::*;

verus! {

/// The operation that drives SWDIO, and sets its level.
pub open spec fn drive(output: bool) -> BitOp {
    BitOp::Write {
        bits: 0,
        value: if output {
            1
        } else {
            0
        },
    }
}

/// The idle cycles after a transfer that succeeded, if any are configured.
pub open spec fn idle(config: SwdIoConfig) -> Seq<BitOp> {
    if config.idle_cycles != 0 {
        seq![BitOp::Write { bits: config.idle_cycles, value: 0 }]
    } else {
        seq![]
    }
}

/// The bits from the end of the request to the end of the acknowledgement. Before a write, the
/// line changes hands once more.
pub open spec fn ack_bits(config: SwdIoConfig, request: SwdRequest) -> u32 {
    if request.reads() {
        (3 + config.turn_around_cycles) as u32
    } else {
        (3 + config.turn_around_cycles * 2) as u32
    }
}

/// The acknowledgement in those bits: the three that follow the turnaround.
pub open spec fn acknowledgement(config: SwdIoConfig, reply: u32) -> u8 {
    ((reply as u8) >> config.turn_around_cycles) & 0b111
}

/// Whether the target asks to wait or reports a fault.
pub open spec fn waits_or_faults(ack: u8) -> bool {
    ack == DAP_TRANSFER_WAIT || ack == DAP_TRANSFER_FAULT
}

/// The operations of every transfer: the request, and the read of the acknowledgement.
pub open spec fn opening(config: SwdIoConfig, request: SwdRequest) -> Seq<BitOp> {
    seq![
        BitOp::Write { bits: 8, value: request.packet() as u32 },
        BitOp::Read { bits: ack_bits(config, request) },
    ]
}

/// The operations of the data phase after the target accepted the request: 32 bits of data and
/// their parity, then the idle cycles.
pub open spec fn data_phase(config: SwdIoConfig, request: SwdRequest, data: u32) -> Seq<BitOp> {
    if request.reads() {
        seq![
            BitOp::Read { bits: 32 },
            BitOp::Read { bits: (1 + config.turn_around_cycles) as u32 },
        ] + idle(config)
    } else {
        seq![
            BitOp::Write { bits: 32, value: data },
            BitOp::Write { bits: 1, value: ones(data as nat) as u32 },
        ] + idle(config)
    }
}

/// The operations after the target asked to wait or reported a fault: a data phase without
/// data, where it is configured, around the turnaround of a read.
pub open spec fn refused_phase(config: SwdIoConfig, request: SwdRequest) -> Seq<BitOp> {
    let phase = config.always_generate_data_phase;
    if request.reads() {
        (if phase {
            seq![BitOp::Read { bits: 33 }]
        } else {
            seq![]
        }) + seq![BitOp::Read { bits: config.turn_around_cycles }]
    } else {
        if phase {
            seq![BitOp::Write { bits: 33, value: 0 }]
        } else {
            seq![]
        }
    }
}

/// The operations after anything else: the data phase is clocked through in case the target
/// takes part in it, then the line changes hands after a read.
pub open spec fn protocol_error_phase(config: SwdIoConfig, request: SwdRequest) -> Seq<BitOp> {
    seq![BitOp::Read { bits: 33 }] + if request.reads() {
        seq![BitOp::Read { bits: config.turn_around_cycles }]
    } else {
        seq![]
    }
}

/// The operations that an acknowledgement calls for. All end with SWDIO driven high.
pub open spec fn response(config: SwdIoConfig, request: SwdRequest, data: u32, ack: u8) -> Seq<
    BitOp,
> {
    (if ack == DAP_TRANSFER_OK {
        data_phase(config, request, data)
    } else if waits_or_faults(ack) {
        refused_phase(config, request)
    } else {
        protocol_error_phase(config, request)
    }).push(drive(true))
}

/// The operations of a transfer, as far as `replies` decide them: one reply for each operation
/// that was carried out.
pub open spec fn transaction(
    config: SwdIoConfig,
    request: SwdRequest,
    data: u32,
    replies: Seq<u32>,
) -> Seq<BitOp> {
    if replies.len() < 2 {
        opening(config, request)
    } else {
        opening(config, request) + response(
            config,
            request,
            data,
            acknowledgement(config, replies[1]),
        )
    }
}

/// What a transfer returns: after a read that the target accepted, the data if their parity
/// matches; after such a write, zero; and otherwise the acknowledgement as an error.
pub open spec fn outcome(config: SwdIoConfig, request: SwdRequest, replies: Seq<u32>) -> Result<
    u32,
    DapError,
> {
    let ack = acknowledgement(config, replies[1]);
    if ack != DAP_TRANSFER_OK {
        Err(DapError::SwdError(ack))
    } else if !request.reads() {
        Ok(0)
    } else if ones(replies[2] as nat) % 2 == replies[3] % 2 {
        Ok(replies[2])
    } else {
        Err(DapError::SwdError(DAP_TRANSFER_MISMATCH))
    }
}

/// What a transfer needs next.
#[derive(Clone, Copy, Debug)]
pub enum TransferStep {
    /// Carry out this operation, and report what it returned.
    Perform(BitOp),
    /// Nothing: the transfer has returned this.
    Finish(Result<u32, DapError>),
}

/// What a transfer needs after these replies.
pub open spec fn step_after(
    config: SwdIoConfig,
    request: SwdRequest,
    data: u32,
    replies: Seq<u32>,
) -> TransferStep {
    let ops = transaction(config, request, data, replies);
    if replies.len() < ops.len() {
        TransferStep::Perform(ops[replies.len() as int])
    } else {
        TransferStep::Finish(outcome(config, request, replies))
    }
}

/// Where a transfer stands.
#[derive(Clone, Copy, Debug)]
enum Phase {
    Request,
    Acknowledge,
    ReadData,
    ReadParity { value: u32 },
    WriteData,
    WriteParity,
    Idle { op: BitOp, result: Result<u32, DapError> },
    DummyRead { ack: u8 },
    Turnaround { ack: u8 },
    DummyWrite { ack: u8 },
    Drive { result: Result<u32, DapError> },
    Done { result: Result<u32, DapError> },
}

/// A transfer on its way.
pub struct Transfer {
    config: SwdIoConfig,
    request: SwdRequest,
    data: u32,
    phase: Phase,
    replies: Ghost<Seq<u32>>,
}

impl Transfer {
    /// Its configuration.
    pub closed spec fn config(self) -> SwdIoConfig {
        self.config
    }

    /// Its request.
    pub closed spec fn request(self) -> SwdRequest {
        self.request
    }

    /// The data of a write.
    pub closed spec fn data(self) -> u32 {
        self.data
    }

    /// What the operations that were carried out returned.
    pub closed spec fn replies(self) -> Seq<u32> {
        self.replies@
    }

    /// The operations, as far as they are decided.
    pub open spec fn ops(self) -> Seq<BitOp> {
        transaction(self.config(), self.request(), self.data(), self.replies())
    }

    /// The phase is the one that the replies lead to.
    pub closed spec fn wf(self) -> bool {
        let n = self.replies@.len();
        let ack = acknowledgement(self.config, self.replies@[1]);
        let reads = self.request.reads();
        let dummy = self.config.always_generate_data_phase || !waits_or_faults(ack);
        let result = outcome(self.config, self.request, self.replies@);
        &&& self.config.turn_around_cycles < 8
        &&& match self.phase {
            Phase::Request => n == 0,
            Phase::Acknowledge => n == 1,
            Phase::ReadData => n == 2 && reads && ack == DAP_TRANSFER_OK,
            Phase::ReadParity { value } => n == 3 && reads && ack == DAP_TRANSFER_OK && value
                == self.replies@[2],
            Phase::WriteData => n == 2 && !reads && ack == DAP_TRANSFER_OK,
            Phase::WriteParity => n == 3 && !reads && ack == DAP_TRANSFER_OK,
            Phase::Idle { op, result: r } => n == 4 && ack == DAP_TRANSFER_OK && idle(self.config)
                == seq![op] && r == result,
            Phase::DummyRead { ack: a } => n == 2 && a == ack && ack != DAP_TRANSFER_OK && dummy
                && (waits_or_faults(ack) ==> reads),
            Phase::Turnaround { ack: a } => n == 2 + (if dummy {
                1int
            } else {
                0
            }) && a == ack && ack != DAP_TRANSFER_OK && reads,
            Phase::DummyWrite { ack: a } => n == 2 && a == ack && waits_or_faults(ack) && dummy
                && !reads,
            Phase::Drive { result: r } => 2 <= n == self.ops().len() - 1 && r == result,
            Phase::Done { result: r } => 3 <= n == self.ops().len() && r == result,
        }
    }

    /// What the transfer needs next.
    pub open spec fn next_step(self) -> TransferStep {
        step_after(self.config(), self.request(), self.data(), self.replies())
    }

    /// Starts a transfer. The acknowledgement is looked for in the low byte of what is read, so
    /// the turnaround ends within it.
    pub fn new(config: &SwdIoConfig, request: SwdRequest, data: u32) -> (transfer: Transfer)
        requires
            config.turn_around_cycles < 8,
        ensures
            transfer.wf(),
            transfer.config() == *config,
            transfer.request() == request,
            transfer.data() == data,
            transfer.replies() == Seq::<u32>::empty(),
    {
        Transfer {
            config: *config,
            request,
            data,
            phase: Phase::Request,
            replies: Ghost(Seq::empty()),
        }
    }

    /// What the transfer needs next.
    pub fn step(&self) -> (step: TransferStep)
        requires
            self.wf(),
        ensures
            step == self.next_step(),
    {
        let turn_around: u32 = self.config.turn_around_cycles;
        match self.phase {
            Phase::Request => {
                TransferStep::Perform(BitOp::Write { bits: 8, value: self.request.encode() as u32 })
            },
            Phase::Acknowledge => {
                if self.request.contains(SWD_REQUEST_RNW) {
                    // Turnaround, acknowledgement.
                    TransferStep::Perform(BitOp::Read { bits: 3 + turn_around })
                } else {
                    // Turnaround, acknowledgement, turnaround.
                    TransferStep::Perform(BitOp::Read { bits: 3 + turn_around * 2 })
                }
            },
            Phase::ReadData => TransferStep::Perform(BitOp::Read { bits: 32 }),
            // Parity, turnaround.
            Phase::ReadParity { value: _ } => TransferStep::Perform(
                BitOp::Read { bits: 1 + turn_around },
            ),
            Phase::WriteData => TransferStep::Perform(BitOp::Write { bits: 32, value: self.data }),
            Phase::WriteParity => TransferStep::Perform(
                BitOp::Write { bits: 1, value: self.data.count_ones() },
            ),
            Phase::Idle { op, result: _ } => TransferStep::Perform(op),
            Phase::DummyRead { ack: _ } => TransferStep::Perform(BitOp::Read { bits: 33 }),
            Phase::Turnaround { ack: _ } => TransferStep::Perform(
                BitOp::Read { bits: turn_around },
            ),
            Phase::DummyWrite { ack: _ } => TransferStep::Perform(
                BitOp::Write { bits: 33, value: 0 },
            ),
            Phase::Drive { result: _ } => TransferStep::Perform(SwdIoSet::to_swdio_out(true)),
            Phase::Done { result } => TransferStep::Finish(result),
        }
    }

    /// Reports what the operation returned. The value counts where the operation read the
    /// acknowledgement, the data or their parity.
    pub fn resume(&mut self, reply: u32)
        requires
            old(self).wf(),
            old(self).next_step() is Perform,
        ensures
            final(self).wf(),
            final(self).config() == old(self).config(),
            final(self).request() == old(self).request(),
            final(self).data() == old(self).data(),
            final(self).replies() == old(self).replies().push(reply),
    {
        let phase = match self.phase {
            Phase::Request => Phase::Acknowledge,
            Phase::Acknowledge => self.acknowledged(reply),
            Phase::ReadData => Phase::ReadParity { value: reply },
            Phase::ReadParity { value } => {
                let parity: u32 = value.count_ones() & 1;
                let parity_expected: u32 = reply & 1;
                let result = if parity == parity_expected {
                    Ok(value)
                } else {
                    Err(DapError::SwdError(DAP_TRANSFER_MISMATCH))
                };
                proof {
                    lemma_low_bit(reply);
                    lemma_low_bit(ones(value as nat) as u32);
                }
                self.transferred(result)
            },
            Phase::WriteData => Phase::WriteParity,
            Phase::WriteParity => self.transferred(Ok(0)),
            Phase::Idle { op: _, result } => Phase::Drive { result },
            Phase::DummyRead { ack } => {
                if self.request.contains(SWD_REQUEST_RNW) {
                    Phase::Turnaround { ack }
                } else {
                    Phase::Drive { result: Err(DapError::SwdError(ack)) }
                }
            },
            Phase::Turnaround { ack } => Phase::Drive { result: Err(DapError::SwdError(ack)) },
            Phase::DummyWrite { ack } => Phase::Drive { result: Err(DapError::SwdError(ack)) },
            Phase::Drive { result } => Phase::Done { result },
            Phase::Done { result } => Phase::Done { result },
        };
        self.phase = phase;
        self.replies = Ghost(self.replies@.push(reply));
    }

    /// The phase that the acknowledgement leads to.
    fn acknowledged(&self, reply: u32) -> (phase: Phase)
        requires
            self.wf(),
            self.replies@.len() == 1,
        ensures
            (Transfer { phase, replies: Ghost(self.replies@.push(reply)), ..*self }).wf(),
    {
        let ack: u8 = (reply as u8 >> self.config.turn_around_cycles) & 0b111;
        let reads = self.request.contains(SWD_REQUEST_RNW);
        if ack == DAP_TRANSFER_OK {
            if reads {
                Phase::ReadData
            } else {
                Phase::WriteData
            }
        } else if ack == DAP_TRANSFER_WAIT || ack == DAP_TRANSFER_FAULT {
            if reads {
                if self.config.always_generate_data_phase {
                    Phase::DummyRead { ack }
                } else {
                    Phase::Turnaround { ack }
                }
            } else if self.config.always_generate_data_phase {
                Phase::DummyWrite { ack }
            } else {
                Phase::Drive { result: Err(DapError::SwdError(ack)) }
            }
        } else {
            Phase::DummyRead { ack }
        }
    }

    /// The phase after the data phase: the idle cycles are skipped where there are none.
    fn transferred(&self, result: Result<u32, DapError>) -> (phase: Phase)
        ensures
            match phase {
                Phase::Idle { op, result: r } => r == result && idle(self.config) == seq![op],
                Phase::Drive { result: r } => r == result && idle(self.config).len() == 0,
                _ => false,
            },
    {
        match SwdIoSet::idle_cycle(&self.config) {
            Some(op) => Phase::Idle { op, result },
            None => Phase::Drive { result },
        }
    }
}

/// Whatever the target replies, a transfer carries out its transaction in order, one operation
/// after the other, and then finishes with its outcome: what it needs after the first `k`
/// replies never depends on a reply that is still to come.
pub proof fn law_transfer_runs(
    config: SwdIoConfig,
    request: SwdRequest,
    data: u32,
    replies: Seq<u32>,
    k: nat,
)
    requires
        replies.len() >= 2,
        replies.len() == transaction(config, request, data, replies).len(),
        k <= replies.len(),
    ensures
        k < replies.len() ==> step_after(config, request, data, replies.take(k as int))
            == TransferStep::Perform(transaction(config, request, data, replies)[k as int]),
        k == replies.len() ==> step_after(config, request, data, replies.take(k as int))
            == TransferStep::Finish(outcome(config, request, replies)),
{
    if k == replies.len() {
        assert(replies.take(k as int) =~= replies);
    }
}

/// A transfer takes at most six operations, and always leaves SWDIO driven high.
pub proof fn law_transfer_ends_high(
    config: SwdIoConfig,
    request: SwdRequest,
    data: u32,
    replies: Seq<u32>,
)
    requires
        replies.len() >= 2,
    ensures
        transaction(config, request, data, replies).last() == drive(true),
        3 <= transaction(config, request, data, replies).len() <= 6,
{
}

/// The data of a write go out, whole and with their parity, if and only if the target accepted
/// the request; a request that was refused, or not understood, sends no data.
pub proof fn law_data_only_when_accepted(
    config: SwdIoConfig,
    request: SwdRequest,
    data: u32,
    replies: Seq<u32>,
)
    requires
        replies.len() >= 2,
        !request.reads(),
    ensures
        acknowledgement(config, replies[1]) == DAP_TRANSFER_OK ==> transaction(
            config,
            request,
            data,
            replies,
        ).subrange(2, 4) == seq![
            BitOp::Write { bits: 32, value: data },
            BitOp::Write { bits: 1, value: ones(data as nat) as u32 },
        ],
        acknowledgement(config, replies[1]) != DAP_TRANSFER_OK ==> forall|other: u32|
            transaction(config, request, data, replies) == #[trigger] transaction(
                config,
                request,
                other,
                replies,
            ),
{
    if acknowledgement(config, replies[1]) == DAP_TRANSFER_OK {
        assert(transaction(config, request, data, replies).subrange(2, 4) =~= seq![
            BitOp::Write { bits: 32, value: data },
            BitOp::Write { bits: 1, value: ones(data as nat) as u32 },
        ]);
    }
}

/// A refused request is answered with the acknowledgement of the target, and a transfer fails
/// with an acknowledgement only where the target gave that one.
pub proof fn law_refusal_is_reported(
    config: SwdIoConfig,
    request: SwdRequest,
    replies: Seq<u32>,
    ack: u8,
)
    requires
        replies.len() >= 2,
    ensures
        ack != DAP_TRANSFER_OK && ack != DAP_TRANSFER_MISMATCH ==> (outcome(
            config,
            request,
            replies,
        ) == Err::<u32, DapError>(DapError::SwdError(ack)) <==> acknowledgement(config, replies[1])
            == ack),
        outcome(config, request, replies) is Ok ==> acknowledgement(config, replies[1])
            == DAP_TRANSFER_OK,
        outcome(config, request, replies) == Err::<u32, DapError>(
            DapError::SwdError(DAP_TRANSFER_MISMATCH),
        ) <==> acknowledgement(config, replies[1]) == DAP_TRANSFER_OK && request.reads() && ones(
            replies[2] as nat,
        ) % 2 != replies[3] % 2,
{
    let low = replies[1] as u8;
    let t = config.turn_around_cycles;
    assert((low >> t) & 0b111 <= 7) by (bit_vector);
}

/// The 33 bits of the data phase of a write are the data, least significant bit first, and the
/// bit that makes the number of ones even.
pub proof fn law_written_parity(data: u32)
    ensures
        ({
            let line = line_out(
                seq![
                    BitOp::Write { bits: 32, value: data },
                    BitOp::Write { bits: 1, value: ones(data as nat) as u32 },
                ],
            );
            &&& line.len() == 33
            &&& forall|i: int| 0 <= i < 32 ==> line[i] == bit(data, i)
            &&& tally(|i: int| line[i], 33) % 2 == 0
        }),
{
    let value = BitOp::Write { bits: 32, value: data };
    let parity = BitOp::Write { bits: 1, value: ones(data as nat) as u32 };
    let ops = seq![value, parity];
    assert(ops.skip(1) =~= seq![parity]);
    assert(seq![parity].skip(1) =~= seq![]);
    reveal_with_fuel(line_out, 3);
    let line = line_out(ops);
    assert(line =~= value.line_bits() + parity.line_bits());
    law_ones_are_set_bits(data);
    lemma_tally_same(|i: int| line[i], |i: int| bit(data, i), 32);
    lemma_tally_bound(|i: int| bit(data, i), 32);
    let count = ones(data as nat) as u32;
    lemma_low_bit(count);
    assert(line[32] == bit(count, 0));
}

/// A read returns what a write sent: where the target replies with the data and the parity bit
/// that a write of the same data puts on the line, the read succeeds with that data.
pub proof fn law_read_back(
    config: SwdIoConfig,
    request: SwdRequest,
    data: u32,
    replies: Seq<u32>,
)
    requires
        request.reads(),
        replies.len() >= 4,
        acknowledgement(config, replies[1]) == DAP_TRANSFER_OK,
        replies[2] == data,
        bit(replies[3], 0) == (BitOp::Write {
            bits: 1,
            value: ones(data as nat) as u32,
        }).line_bits()[0],
    ensures
        outcome(config, request, replies) == Ok::<u32, DapError>(data),
{
    law_ones_are_set_bits(data);
    lemma_tally_bound(|i: int| bit(data, i), 32);
    let count = ones(data as nat) as u32;
    let reply = replies[3];
    lemma_low_bit(count);
    lemma_low_bit(reply);
}

/// A read in which one data bit was changed on the line fails with a mismatch.
pub proof fn law_one_flip_is_detected(
    config: SwdIoConfig,
    request: SwdRequest,
    replies: Seq<u32>,
    data: u32,
    at: int,
)
    requires
        request.reads(),
        replies.len() >= 4,
        acknowledgement(config, replies[1]) == DAP_TRANSFER_OK,
        0 <= at < 32,
        forall|i: int| 0 <= i < 32 ==> (#[trigger] bit(data, i) == bit(replies[2], i) <==> i != at),
        replies[3] % 2 == ones(data as nat) % 2,
    ensures
        outcome(config, request, replies) == Err::<u32, DapError>(
            DapError::SwdError(DAP_TRANSFER_MISMATCH),
        ),
{
    law_parity_of_one_flip(data, replies[2], at);
}

} // verus!
