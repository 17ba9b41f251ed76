//! The SWD interface: how its state machine is set up, and what each call asks of it.
use crate::assembler::{encode_set, PROGRAM_SIZE};
use crate::fifo::{BitOp, Exchange};
use crate::instruction::{encode_operands, Operands, SetDestination};
use crate::program::{is_swd_program, swd_program};
use crate::sequence::{
    bit_count, read_script, write_script, ReadSequence, WriteSequence,
};
use crate::swd::{SwdIoConfig, SwdRequest};
use crate::transfer::{drive, idle, Transfer};
use vstd::prelude::*;

verus! {

/// Which way a shift register moves.
#[derive(Clone, Copy, Debug, PartialEq, Eq, Structural)]
pub enum ShiftDirection {
    /// Towards the high end.
    Left,
    /// Towards the low end.
    Right,
}

/// How the state machine is set up.
#[derive(Clone, Copy, Debug, PartialEq, Eq, Structural)]
pub struct Wiring {
    /// The first pin of `set`.
    pub set_base: u8,
    /// The number of pins of `set`.
    pub set_count: u8,
    /// The first pin of side-set.
    pub side_set_base: u8,
    /// The first pin of `out`.
    pub out_base: u8,
    /// The number of pins of `out`.
    pub out_count: u8,
    /// The first pin of `in`.
    pub in_base: u8,
    /// Which way the output shift register moves.
    pub out_shift_direction: ShiftDirection,
    /// Which way the input shift register moves.
    pub in_shift_direction: ShiftDirection,
    /// The system clock cycles that one cycle of the state machine takes.
    pub clock_divisor: u16,
}

/// The setup with SWCLK on `clk_pin_id` and SWDIO on `dat_pin_id`, at the system clock.
pub open spec fn swd_wiring(clk_pin_id: u8, dat_pin_id: u8) -> Wiring {
    Wiring {
        set_base: clk_pin_id,
        set_count: 1,
        side_set_base: clk_pin_id,
        out_base: dat_pin_id,
        out_count: 1,
        in_base: dat_pin_id,
        out_shift_direction: ShiftDirection::Right,
        in_shift_direction: ShiftDirection::Right,
        clock_divisor: 1,
    }
}

/// What a driver has to do.
#[derive(Clone, Copy, Debug, PartialEq, Eq, Structural)]
pub enum Command {
    /// Have the state machine execute this instruction at once.
    Execute(u16),
    /// Carry out this operation.
    Perform(BitOp),
}

/// The instruction that makes SWCLK an output or an input.
pub open spec fn clk_pindir(oe: bool) -> Operands {
    Operands::SetData {
        destination: SetDestination::PinDirs,
        data: if oe {
            1
        } else {
            0
        },
    }
}

pub(crate) proof fn lemma_clk_pindir_words()
    ensures
        encode_operands(clk_pindir(true)) == 0xe081,
        encode_operands(clk_pindir(false)) == 0xe080,
{
    assert((7u16 << 13) | (4u16 << 5) | 1u16 == 0xe081u16 && (7u16 << 13) | (4u16 << 5) | 0u16
        == 0xe080u16) by (bit_vector);
}

/// The operation that makes SWDIO an input.
pub open spec fn release() -> BitOp {
    BitOp::Read { bits: 0 }
}

/// What it takes to connect: SWCLK is driven, then SWDIO is driven high.
pub open spec fn connect_commands() -> Seq<Command> {
    seq![Command::Execute(encode_operands(clk_pindir(true))), Command::Perform(drive(true))]
}

/// What it takes to disconnect: SWDIO is released, then SWCLK.
pub open spec fn disconnect_commands() -> Seq<Command> {
    seq![Command::Perform(release()), Command::Execute(encode_operands(clk_pindir(false)))]
}

/// An SWD interface on two pins of a PIO block.
pub struct SwdIoSet {
    program: pio::Program<PROGRAM_SIZE>,
    wiring: Wiring,
}

impl SwdIoSet {
    /// The program of its state machine.
    pub closed spec fn spec_program(self) -> pio::Program<PROGRAM_SIZE> {
        self.program
    }

    /// The setup of its state machine.
    pub closed spec fn spec_wiring(self) -> Wiring {
        self.wiring
    }

    /// The interface with SWCLK on `clk_pin_id` and SWDIO on `dat_pin_id`.
    pub fn new(clk_pin_id: u8, dat_pin_id: u8) -> (io: SwdIoSet)
        ensures
            is_swd_program(io.spec_program()),
            io.spec_wiring() == swd_wiring(clk_pin_id, dat_pin_id),
    {
        SwdIoSet {
            program: swd_program(),
            wiring: Wiring {
                set_base: clk_pin_id,
                set_count: 1,
                side_set_base: clk_pin_id,
                out_base: dat_pin_id,
                out_count: 1,
                in_base: dat_pin_id,
                out_shift_direction: ShiftDirection::Right,
                in_shift_direction: ShiftDirection::Right,
                clock_divisor: 1,
            },
        }
    }

    /// The program of its state machine.
    pub fn program(&self) -> (program: &pio::Program<PROGRAM_SIZE>)
        ensures
            *program == self.spec_program(),
    {
        &self.program
    }

    /// The setup of its state machine.
    pub fn wiring(&self) -> (wiring: Wiring)
        ensures
            wiring == self.spec_wiring(),
    {
        self.wiring
    }

    /// The instruction that makes SWCLK an output or an input. The state machine executes it in
    /// between.
    pub fn set_clk_pindir(oe: bool) -> (instruction: u16)
        ensures
            instruction == encode_operands(clk_pindir(oe)),
            instruction == if oe {
                0xe081u16
            } else {
                0xe080
            },
    {
        proof {
            lemma_clk_pindir_words();
        }
        encode_set(
            SetDestination::PinDirs,
            if oe {
                1
            } else {
                0
            },
        )
    }

    /// What it takes to connect.
    pub fn connect() -> (commands: [Command; 2])
        ensures
            commands@ == connect_commands(),
    {
        let commands = [
            Command::Execute(Self::set_clk_pindir(true)),
            Command::Perform(Self::to_swdio_out(true)),
        ];
        assert(commands@ =~= connect_commands());
        commands
    }

    /// What it takes to disconnect.
    pub fn disconnect() -> (commands: [Command; 2])
        ensures
            commands@ == disconnect_commands(),
    {
        let commands = [
            Command::Perform(Self::to_swdio_in()),
            Command::Execute(Self::set_clk_pindir(false)),
        ];
        assert(commands@ =~= disconnect_commands());
        commands
    }

    /// Starts to clock out `bits` bits of `value`. Past 32 bits, it behaves as if the value were
    /// extended with zeros. The count is taken modulo 2^31, which is what the header carries.
    pub fn write_bits(bits: u32, value: u32) -> (exchange: Exchange)
        ensures
            exchange.wf(),
            exchange.op() == (BitOp::Write { bits, value }),
            exchange.sent() == 0,
            exchange.received() == None::<u32>,
    {
        Exchange::new(BitOp::Write { bits, value })
    }

    /// Starts to clock in `bits` bits. Past 32 bits, the result means nothing; from 2^31 on, the
    /// program takes the header for that of a write.
    pub fn read_bits(bits: u32) -> (exchange: Exchange)
        ensures
            exchange.wf(),
            exchange.op() == (BitOp::Read { bits }),
            exchange.sent() == 0,
            exchange.received() == None::<u32>,
    {
        Exchange::new(BitOp::Read { bits })
    }

    /// The operation that makes SWDIO an input.
    pub fn to_swdio_in() -> (op: BitOp)
        ensures
            op == release(),
    {
        BitOp::Read { bits: 0 }
    }

    /// The operation that makes SWDIO an output, and sets its level.
    pub fn to_swdio_out(output: bool) -> (op: BitOp)
        ensures
            op == drive(output),
    {
        BitOp::Write {
            bits: 0,
            value: if output {
                1
            } else {
                0
            },
        }
    }

    /// The idle cycles of a transfer, if any are configured.
    pub fn idle_cycle(config: &SwdIoConfig) -> (op: Option<BitOp>)
        ensures
            op is Some <==> config.idle_cycles != 0,
            match op {
                Some(op) => idle(*config) == seq![op],
                None => idle(*config) == Seq::<BitOp>::empty(),
            },
    {
        if config.idle_cycles != 0 {
            Some(BitOp::Write { bits: config.idle_cycles, value: 0 })
        } else {
            None
        }
    }

    /// Starts to write the first `count` bits of `data`, in either protocol that shares the pins.
    pub fn swj_sequence<'a>(config: &SwdIoConfig, count: usize, data: &'a [u8]) -> (sequence:
        WriteSequence<'a>)
        ensures
            sequence.wf(),
            sequence.left() == bit_count(count),
            sequence.rest() == data@,
            sequence.script() == write_script(data@, bit_count(count)),
    {
        Self::swd_write_sequence(config, count, data)
    }

    /// Starts to read `count` bits.
    pub fn swd_read_sequence(_config: &SwdIoConfig, count: usize) -> (sequence: ReadSequence)
        ensures
            sequence.left() == bit_count(count),
            sequence.index() == 0,
            sequence.script() == read_script(bit_count(count)),
    {
        ReadSequence::new(count)
    }

    /// Starts to write the first `count` bits of `data`.
    pub fn swd_write_sequence<'a>(_config: &SwdIoConfig, count: usize, data: &'a [u8]) -> (sequence:
        WriteSequence<'a>)
        ensures
            sequence.wf(),
            sequence.left() == bit_count(count),
            sequence.rest() == data@,
            sequence.script() == write_script(data@, bit_count(count)),
    {
        WriteSequence::new(count, data)
    }

    /// Starts a transfer.
    pub fn swd_transfer(config: &SwdIoConfig, request: SwdRequest, data: u32) -> (transfer:
        Transfer)
        requires
            config.turn_around_cycles < 8,
        ensures
            transfer.wf(),
            transfer.config() == *config,
            transfer.request() == request,
            transfer.data() == data,
            transfer.replies() == Seq::<u32>::empty(),
    {
        Transfer::new(config, request, data)
    }
}

} // verus!
