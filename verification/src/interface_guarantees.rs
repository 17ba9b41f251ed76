//! What the calls of the interface that need no reply promise, in terms of their arguments.
use crate::assembler::{
    program_code, program_origin, program_setting, program_wrap, PROGRAM_SIZE,
};
use crate::bits::{bit, lemma_zero_bit, ones};
use crate::fifo::BitOp;
use crate::machine::{law_write_on_machine, Machine};
use crate::program::law_program_words;
use crate::swd::{lemma_few_ones, SwdIoConfig, SwdRequest};
use crate::swd_io_set::{lemma_clk_pindir_words, Command, SwdIoSet, Wiring};
use crate::wire::{commanded, law_connect, law_disconnect, performed, waiting};
use vstd::prelude::*;

verus! {

/// Whichever pins are given, and in whichever order their numbers are, the one pin that `set`
/// and side-set drive is the one given as SWCLK, and the one pin that `out` drives and `in`
/// samples is the one given as SWDIO. Both shift registers move towards the low end, at the
/// system clock.
pub proof fn law_pins_keep_their_roles(clk: u8, dat: u8, io: SwdIoSet, wiring: Wiring)
    requires
        call_ensures(SwdIoSet::new, (clk, dat), io),
        call_ensures(SwdIoSet::wiring, (&io,), wiring),
    ensures
        wiring.set_base == clk && wiring.set_count == 1,
        wiring.side_set_base == clk,
        wiring.out_base == dat && wiring.out_count == 1,
        wiring.in_base == dat,
        wiring.out_shift_direction is Right && wiring.in_shift_direction is Right,
        wiring.clock_divisor == 1,
{
}

/// To exchange the pins exchanges the roles, and nothing else.
pub proof fn law_exchanged_pins(
    a: u8,
    b: u8,
    one: SwdIoSet,
    other: SwdIoSet,
    one_wiring: Wiring,
    other_wiring: Wiring,
)
    requires
        call_ensures(SwdIoSet::new, (a, b), one),
        call_ensures(SwdIoSet::new, (b, a), other),
        call_ensures(SwdIoSet::wiring, (&one,), one_wiring),
        call_ensures(SwdIoSet::wiring, (&other,), other_wiring),
    ensures
        one_wiring.set_base == other_wiring.out_base,
        one_wiring.side_set_base == other_wiring.in_base,
        one_wiring.out_base == other_wiring.set_base,
        one_wiring.in_base == other_wiring.side_set_base,
        a != b ==> one_wiring.set_base != one_wiring.out_base,
{
}

/// Whichever pins are given, the program is the same: its words, where it wraps, and that
/// side-set is one optional level.
pub proof fn law_interface_program(
    clk: u8,
    dat: u8,
    io: SwdIoSet,
    program: &pio::Program<PROGRAM_SIZE>,
)
    requires
        call_ensures(SwdIoSet::new, (clk, dat), io),
        call_ensures(SwdIoSet::program, (&io,), program),
    ensures
        program_code(*program) == seq![
            0x80a0u16, 0x603f, 0xa047, 0x0071, 0x80a0, 0x6001, 0xa0c7,
            0xa0e2, 0x6081, 0xa0e6, 0x004e, 0x0000, 0xe001, 0x6201,
            0x134c, 0xe001, 0x0000, 0x6281, 0x0059, 0xa342, 0x4001,
            0x407f, 0x8020, 0x0000, 0x5b01, 0x1358, 0x5801, 0x8020,
        ],
        program_wrap(*program) == (27u8, 0u8),
        program_origin(*program) == None::<u8>,
        program_setting(*program).opt,
        program_setting(*program).bits == 2,
        program_setting(*program).max == 1,
        !program_setting(*program).pindirs,
{
    law_program_words();
    assert((1u8 << 1u8) == 2) by (bit_vector);
}

/// The idle cycles are as many as configured, with SWDIO driven low in each; where none are
/// configured, there is no operation.
pub proof fn law_idle_cycles(m: Machine, config: SwdIoConfig, op: Option<BitOp>)
    requires
        waiting(m),
        call_ensures(SwdIoSet::idle_cycle, (&config,), op),
    ensures
        op is None <==> config.idle_cycles == 0,
        op matches Some(op) ==> op == (BitOp::Write { bits: config.idle_cycles, value: 0 }),
        op matches Some(op) ==> {
            let end = performed(m, op);
            &&& end.edges.len() == m.edges.len() + config.idle_cycles % 0x8000_0000
            &&& forall|i: int|
                m.edges.len() <= i < end.edges.len() ==> (#[trigger] end.edges[i]).driven
                    && !end.edges[i].level
        },
{
    let bits = config.idle_cycles;
    if bits != 0 {
        assert(op->0 == seq![op->0][0]);
        let fed = Machine { tx: m.tx + (BitOp::Write { bits, value: 0 }).words(), ..m };
        assert(fed.tx.take(2) =~= (BitOp::Write { bits, value: 0 }).words());
        law_write_on_machine(fed, bits, 0);
        assert forall|i: int| !bit(0, i) by {
            lemma_zero_bit(i);
        }
    }
}

/// The direction instruction of SWCLK says which way it goes, and the level operation of SWDIO
/// which level it takes, in words that differ in their lowest bit only.
pub proof fn law_pin_words(on: bool, word: u16, op: BitOp, release: BitOp)
    requires
        call_ensures(SwdIoSet::set_clk_pindir, (on,), word),
        call_ensures(SwdIoSet::to_swdio_out, (on,), op),
        call_ensures(SwdIoSet::to_swdio_in, (), release),
    ensures
        word == 0xe080 + if on {
            1int
        } else {
            0
        },
        op == (BitOp::Write {
            bits: 0,
            value: if on {
                1
            } else {
                0
            },
        }),
        release == (BitOp::Read { bits: 0 }),
{
    lemma_clk_pindir_words();
}

/// Connecting leaves the machine driving SWCLK, and SWDIO high; disconnecting leaves it driving
/// neither. Neither gives SWCLK an edge.
pub proof fn law_connect_and_disconnect(
    m: Machine,
    connect: [Command; 2],
    disconnect: [Command; 2],
)
    requires
        waiting(m),
        m.line.len() >= 1,
        call_ensures(SwdIoSet::connect, (), connect),
        call_ensures(SwdIoSet::disconnect, (), disconnect),
    ensures
        connect@ == seq![
            Command::Execute(0xe081),
            Command::Perform(BitOp::Write { bits: 0, value: 1 }),
        ],
        disconnect@ == seq![
            Command::Perform(BitOp::Read { bits: 0 }),
            Command::Execute(0xe080),
        ],
        ({
            let end = commanded(commanded(m, connect@[0]), connect@[1]);
            end.clk_driven && end.dat_driven && end.dat && end.edges == m.edges
        }),
        ({
            let end = commanded(commanded(m, disconnect@[0]), disconnect@[1]);
            !end.clk_driven && !end.dat_driven && end.edges == m.edges
        }),
{
    lemma_clk_pindir_words();
    law_connect(m);
    law_disconnect(m);
    assert(connect@ =~= seq![
        Command::Execute(0xe081),
        Command::Perform(BitOp::Write { bits: 0, value: 1 }),
    ]);
    assert(disconnect@ =~= seq![
        Command::Perform(BitOp::Read { bits: 0 }),
        Command::Execute(0xe080),
    ]);
}

/// A request contains flags if and only if it has every bit of them.
pub proof fn law_request_flags(request: SwdRequest, flags: u8, bits: u8, all: bool)
    requires
        call_ensures(SwdRequest::bits, (&request,), bits),
        call_ensures(SwdRequest::contains, (&request, flags), all),
    ensures
        bits == request.bits,
        all <==> request.bits & flags == flags,
{
}

/// The packet of a request: a one, the four flags from the lowest up, the bit that makes the
/// ones from the first flag on even, a zero and a one. Bits of the request above its flags do
/// not matter.
pub proof fn law_request_packet(request: SwdRequest, packet: u8)
    requires
        call_ensures(SwdRequest::encode, (&request,), packet),
    ensures
        packet & 1 == 1,
        (packet >> 1) & 0b1111 == request.bits & 0b1111,
        ((packet >> 1) ^ (packet >> 2) ^ (packet >> 3) ^ (packet >> 4) ^ (packet >> 5)) & 1 == 0,
        (packet >> 6) & 1 == 0,
        packet >> 7 == 1,
{
    let bits = request.bits;
    let flags: u8 = bits % 16;
    lemma_few_ones(flags as nat);
    let count = ones(flags as nat) as u8;
    lemma_parity_of_flags(flags);
    assert({
        &&& packet & 1 == 1
        &&& (packet >> 1) & 0b1111 == bits & 0b1111
        &&& ((packet >> 1) ^ (packet >> 2) ^ (packet >> 3) ^ (packet >> 4) ^ (packet >> 5)) & 1 == 0
        &&& (packet >> 6) & 1 == 0
        &&& packet >> 7 == 1
    }) by (bit_vector)
        requires
            flags == bits % 16,
            count % 2 == (flags ^ (flags >> 1) ^ (flags >> 2) ^ (flags >> 3)) & 1,
            packet == 0x81 + 2 * flags + 32 * (count % 2),
    ;
}

proof fn lemma_parity_of_flags(flags: u8)
    requires
        flags < 16,
    ensures
        ones(flags as nat) % 2 == (flags ^ (flags >> 1) ^ (flags >> 2) ^ (flags >> 3)) & 1,
{
    let b0 = flags & 1;
    let b1 = (flags >> 1) & 1;
    let b2 = (flags >> 2) & 1;
    let b3 = (flags >> 3) & 1;
    assert({
        &&& b0 <= 1 && b1 <= 1 && b2 <= 1 && b3 <= 1
        &&& flags == b0 + 2 * b1 + 4 * b2 + 8 * b3
        &&& (flags ^ (flags >> 1) ^ (flags >> 2) ^ (flags >> 3)) & 1 == (b0 + b1 + b2 + b3) % 2
    }) by (bit_vector)
        requires
            flags < 16,
            b0 == flags & 1,
            b1 == (flags >> 1) & 1,
            b2 == (flags >> 2) & 1,
            b3 == (flags >> 3) & 1,
    ;
    reveal_with_fuel(ones, 6);
}

} // verus!
