//! The PIO program that clocks bits over the SWD line.
//!
//! Each turn of the program takes a header word from the TX FIFO: a number of bits in the low
//! 31 bits, and a direction in the top bit. To write, the program takes a second word and
//! clocks its bits out, least significant first. To read, it clocks bits in and leaves the
//! input shift register in the RX FIFO. A count of zero moves the direction of SWDIO, and its
//! level, without touching SWCLK.
use crate::assembler::{
    assemble_with_wrap, bind, in_with_delay, in_with_delay_and_side_set, in_with_side_set, jmp,
    jmp_with_delay_and_side_set, label, mov, new_with_side_set, nop_with_delay, out,
    out_with_delay, pull, push, set_data, PROGRAM_SIZE,
};
use crate::assembler::{
    jump_address, listing, plain, program_code, program_origin, program_setting, program_wrap,
};
use crate::instruction::{
    encode, side_setting, InSource, Instruction, JmpCondition, MovDestination,
    MovOperation, MovSource, Operands, OutDestination, SetDestination, SideSetting,
};
use vstd::prelude::*;

verus! {

/// SWCLK high.
pub const HI: u8 = 1;

/// SWCLK low.
pub const LO: u8 = 0;

/// The delay of half a clock period: one cycle for the instruction and these after it. Side-set
/// is optional in this program, so no delay can be larger than 7.
pub const Q: u8 = 3;

/// The delay of half a clock period that a cycle before it has already started.
pub const Q_LESS_ONE: u8 = Q - 1;

/// The address to which the program wraps.
pub const WRAP_TARGET: u8 = 0;

/// The address of the loop that clocks bits out.
pub const WRITE_LOOP: u8 = 12;

/// The address at which that loop is entered.
pub const WRITE_LOOP_ENTER: u8 = 14;

/// The address at which a read starts.
pub const READ_START: u8 = 17;

/// The address of the loop that clocks bits in.
pub const READ_LOOP: u8 = 24;

/// The address at which that loop is entered.
pub const READ_LOOP_ENTER: u8 = 25;

/// The address of the last instruction, after which the program wraps.
pub const WRAP_SOURCE: u8 = 27;

/// A jump without delay and side-set.
pub open spec fn jump(condition: JmpCondition, address: u8) -> Instruction {
    plain(Operands::Jmp { condition, address })
}

/// A blocking `pull`.
pub open spec fn pull_word() -> Instruction {
    plain(Operands::Pull { if_empty: false, block: true })
}

/// A blocking `push`.
pub open spec fn push_word() -> Instruction {
    plain(Operands::Push { if_full: false, block: true })
}

/// A copy of a register.
pub open spec fn copy(destination: MovDestination, source: MovSource) -> Instruction {
    plain(Operands::Mov { destination, operation: MovOperation::Plain, source })
}

/// The side-set setting of the program: SWCLK, optional, a level.
pub open spec fn swd_setting() -> SideSetting {
    side_setting(true, 1, false)
}

/// The part of the program that takes the header: the count goes to X, the direction to Y.
pub open spec fn header_part() -> Seq<Instruction> {
    seq![
        pull_word(),
        plain(Operands::Out { destination: OutDestination::X, bit_count: 31 }),
        copy(MovDestination::Y, MovSource::Osr),
        jump(JmpCondition::YIsZero, READ_START),
    ]
}

/// The part of the program that writes.
pub open spec fn write_part() -> Seq<Instruction> {
    seq![
        pull_word(),
        plain(Operands::Out { destination: OutDestination::Pins, bit_count: 1 }),
        copy(MovDestination::Isr, MovSource::Osr),
        copy(MovDestination::Osr, MovSource::Y),
        plain(Operands::Out { destination: OutDestination::PinDirs, bit_count: 1 }),
        copy(MovDestination::Osr, MovSource::Isr),
        jump(JmpCondition::XDecNonZero, WRITE_LOOP_ENTER),
        jump(JmpCondition::Always, WRAP_TARGET),
        plain(Operands::SetData { destination: SetDestination::Pins, data: HI }),
        Instruction {
            operands: Operands::Out { destination: OutDestination::Pins, bit_count: 1 },
            delay: Q_LESS_ONE,
            side_set: None,
        },
        Instruction {
            operands: Operands::Jmp { condition: JmpCondition::XDecNonZero, address: WRITE_LOOP },
            delay: Q,
            side_set: Some(LO),
        },
        plain(Operands::SetData { destination: SetDestination::Pins, data: HI }),
        jump(JmpCondition::Always, WRAP_TARGET),
    ]
}

/// The part of the program that reads.
pub open spec fn read_part() -> Seq<Instruction> {
    seq![
        Instruction {
            operands: Operands::Out { destination: OutDestination::PinDirs, bit_count: 1 },
            delay: Q_LESS_ONE,
            side_set: None,
        },
        jump(JmpCondition::XDecNonZero, READ_LOOP_ENTER),
        Instruction { delay: Q, ..copy(MovDestination::Y, MovSource::Y) },
        plain(Operands::In { source: InSource::Pins, bit_count: 1 }),
        plain(Operands::In { source: InSource::Null, bit_count: 31 }),
        push_word(),
        jump(JmpCondition::Always, WRAP_TARGET),
        Instruction {
            operands: Operands::In { source: InSource::Pins, bit_count: 1 },
            delay: Q,
            side_set: Some(HI),
        },
        Instruction {
            operands: Operands::Jmp { condition: JmpCondition::XDecNonZero, address: READ_LOOP },
            delay: Q,
            side_set: Some(LO),
        },
        Instruction {
            operands: Operands::In { source: InSource::Pins, bit_count: 1 },
            delay: 0,
            side_set: Some(HI),
        },
        push_word(),
    ]
}

/// The instructions of the program.
pub open spec fn swd_listing() -> Seq<Instruction> {
    header_part() + write_part() + read_part()
}

/// The words of the program.
pub open spec fn swd_code() -> Seq<u16> {
    Seq::new(swd_listing().len(), |i: int| encode(swd_listing()[i], swd_setting()))
}

/// Whether `program` is the SWD program: its words, where it wraps, how it divides the delay
/// field, and that it may be loaded anywhere.
pub open spec fn is_swd_program(program: pio::Program<PROGRAM_SIZE>) -> bool {
    &&& program_code(program) == swd_code()
    &&& program_wrap(program) == (WRAP_SOURCE, WRAP_TARGET)
    &&& program_setting(program) == swd_setting()
    &&& program_origin(program) == None::<u8>
}

/// Assembles the program.
pub fn swd_program() -> (program: pio::Program<PROGRAM_SIZE>)
    ensures
        is_swd_program(program),
{
    let mut a = new_with_side_set(pio::SideSet::new(true, 1, false));
    let mut write_loop = label(&mut a);
    let mut write_loop_enter = label(&mut a);
    let mut read_start = label(&mut a);
    let mut read_loop = label(&mut a);
    let mut read_loop_enter = label(&mut a);
    let mut wrap_target = label(&mut a);
    let mut wrap_source = label(&mut a);
    proof {
        reveal_with_fuel(crate::assembler::chained, 3);
        reveal_with_fuel(crate::assembler::on_chain, 3);
    }

    bind(&mut a, &mut wrap_target);
    // Get number of bits and direction bit from FIFO to OSR.
    pull(&mut a, false, true);
    // Move number of bits to X register.
    out(&mut a, OutDestination::X, 31);
    // Copy direction bit to Y register.
    mov(&mut a, MovDestination::Y, MovOperation::Plain, MovSource::Osr);
    // Y == 0 means read, Y != 0 means write.
    jmp(&mut a, JmpCondition::YIsZero, &mut read_start);

    // Write bits.
    // Get data from FIFO to OSR.
    pull(&mut a, false, true);
    // The output level is prepared before the pin direction is set.
    out(&mut a, OutDestination::Pins, 1);
    // ISR is a temporary store.
    mov(&mut a, MovDestination::Isr, MovOperation::Plain, MovSource::Osr);
    // Y holds 1. Copy that 1 to OSR.
    mov(&mut a, MovDestination::Osr, MovOperation::Plain, MovSource::Y);
    // Set the direction of the SWDIO pin to output.
    out(&mut a, OutDestination::PinDirs, 1);
    // Restore the rest of the data from ISR to OSR.
    mov(&mut a, MovDestination::Osr, MovOperation::Plain, MovSource::Isr);
    // Jump if X is not 0, with post decrement.
    jmp(&mut a, JmpCondition::XDecNonZero, &mut write_loop_enter);
    // The state of SWDIO is updated with SWCLK left alone. Start over.
    jmp(&mut a, JmpCondition::Always, &mut wrap_target);

    bind(&mut a, &mut write_loop);
    // Set SWCLK to high, then output one bit.
    set_data(&mut a, SetDestination::Pins, HI);
    out_with_delay(&mut a, OutDestination::Pins, 1, Q_LESS_ONE);
    bind(&mut a, &mut write_loop_enter);
    // Set SWCLK to low, and keep looping unless X is 0.
    jmp_with_delay_and_side_set(&mut a, JmpCondition::XDecNonZero, &mut write_loop, Q, LO);
    // Set SWCLK to high. Start over.
    set_data(&mut a, SetDestination::Pins, HI);
    jmp(&mut a, JmpCondition::Always, &mut wrap_target);

    // Read bits.
    bind(&mut a, &mut read_start);
    // Set the direction of the SWDIO pin to input.
    out_with_delay(&mut a, OutDestination::PinDirs, 1, Q_LESS_ONE);
    // Jump if X is not 0, with post decrement.
    jmp(&mut a, JmpCondition::XDecNonZero, &mut read_loop_enter);
    // Wait before reading the SWDIO pin.
    nop_with_delay(&mut a, Q);
    // Read the state of the SWDIO pin without clocking SWCLK.
    in_with_delay(&mut a, InSource::Pins, 1, 0);
    // Shift 31 zeros into ISR.
    in_with_delay(&mut a, InSource::Null, 31, 0);
    // Put the result from ISR to FIFO. Start over.
    push(&mut a, false, true);
    jmp(&mut a, JmpCondition::Always, &mut wrap_target);

    bind(&mut a, &mut read_loop);
    // Shift one bit into ISR, and set SWCLK to high.
    in_with_delay_and_side_set(&mut a, InSource::Pins, 1, Q, HI);
    bind(&mut a, &mut read_loop_enter);
    // Set SWCLK to low, and keep looping unless X is 0.
    jmp_with_delay_and_side_set(&mut a, JmpCondition::XDecNonZero, &mut read_loop, Q, LO);
    in_with_side_set(&mut a, InSource::Pins, 1, HI);
    // Put the result from ISR to FIFO. Start over by the wrap.
    push(&mut a, false, true);
    bind(&mut a, &mut wrap_source);

    proof {
        assert(listing(a) =~= swd_listing());
        assert((1u8 << 1u8) == 2 && (1u8 << 3u8) == 8) by (bit_vector);
    }
    assemble_with_wrap(a, wrap_source, wrap_target)
}

/// The program fits the memory of a PIO block, and no jump leaves it.
pub proof fn law_program_fits()
    ensures
        swd_code().len() == 28,
        swd_code().len() <= PROGRAM_SIZE,
        WRAP_SOURCE == swd_code().len() - 1,
        forall|i: int|
            #![trigger swd_listing()[i]]
            0 <= i < swd_listing().len() && swd_listing()[i].operands is Jmp ==> jump_address(
                swd_listing()[i],
            ) < swd_code().len(),
{
}

/// The words of the program.
pub proof fn law_program_words()
    ensures
        swd_code() == seq![
            0x80a0u16, 0x603f, 0xa047, 0x0071, 0x80a0, 0x6001, 0xa0c7,
            0xa0e2, 0x6081, 0xa0e6, 0x004e, 0x0000, 0xe001, 0x6201,
            0x134c, 0xe001, 0x0000, 0x6281, 0x0059, 0xa342, 0x4001,
            0x407f, 0x8020, 0x0000, 0x5b01, 0x1358, 0x5801, 0x8020,
        ],
{
    assert({
        &&& (4u16 << 13) | ((4u16 | (0u16 << 1) | 1u16) << 5) | 0u16 == 0x80a0
        &&& (4u16 << 13) | (((0u16 << 1) | 1u16) << 5) | 0u16 == 0x8020
        &&& (3u16 << 13) | (1u16 << 5) | (31u16 & 0x1f) == 0x603f
        &&& (3u16 << 13) | (0u16 << 5) | (1u16 & 0x1f) == 0x6001
        &&& (3u16 << 13) | (4u16 << 5) | (1u16 & 0x1f) == 0x6081
        &&& (5u16 << 13) | (2u16 << 5) | ((0u16 << 3) | 7u16) == 0xa047
        &&& (5u16 << 13) | (6u16 << 5) | ((0u16 << 3) | 7u16) == 0xa0c7
        &&& (5u16 << 13) | (7u16 << 5) | ((0u16 << 3) | 2u16) == 0xa0e2
        &&& (5u16 << 13) | (7u16 << 5) | ((0u16 << 3) | 6u16) == 0xa0e6
        &&& (5u16 << 13) | (2u16 << 5) | ((0u16 << 3) | 2u16) == 0xa042
        &&& (0u16 << 13) | (3u16 << 5) | 17u16 == 0x0071
        &&& (0u16 << 13) | (2u16 << 5) | 14u16 == 0x004e
        &&& (0u16 << 13) | (2u16 << 5) | 12u16 == 0x004c
        &&& (0u16 << 13) | (2u16 << 5) | 25u16 == 0x0059
        &&& (0u16 << 13) | (2u16 << 5) | 24u16 == 0x0058
        &&& (0u16 << 13) | (0u16 << 5) | 0u16 == 0x0000
        &&& (7u16 << 13) | (0u16 << 5) | 1u16 == 0xe001
        &&& (2u16 << 13) | (0u16 << 5) | 1u16 == 0x4001
        &&& (2u16 << 13) | (3u16 << 5) | 31u16 == 0x407f
    }) by (bit_vector);
    assert({
        &&& forall|word: u16| #[trigger] (word | ((0u16 | 0u16) << 8)) == word
        &&& 0x6001u16 | ((2u16 | 0u16) << 8) == 0x6201
        &&& 0x6081u16 | ((2u16 | 0u16) << 8) == 0x6281
        &&& 0xa042u16 | ((3u16 | 0u16) << 8) == 0xa342
        &&& 0x004cu16 | ((3u16 | ((0u16 << 3u16) | 0x10u16)) << 8) == 0x134c
        &&& 0x0058u16 | ((3u16 | ((0u16 << 3u16) | 0x10u16)) << 8) == 0x1358
        &&& 0x4001u16 | ((3u16 | ((1u16 << 3u16) | 0x10u16)) << 8) == 0x5b01
        &&& 0x4001u16 | ((0u16 | ((1u16 << 3u16) | 0x10u16)) << 8) == 0x5801
    }) by (bit_vector);
    assert(swd_code() =~= seq![
            0x80a0u16, 0x603f, 0xa047, 0x0071, 0x80a0, 0x6001, 0xa0c7,
            0xa0e2, 0x6081, 0xa0e6, 0x004e, 0x0000, 0xe001, 0x6201,
            0x134c, 0xe001, 0x0000, 0x6281, 0x0059, 0xa342, 0x4001,
            0x407f, 0x8020, 0x0000, 0x5b01, 0x1358, 0x5801, 0x8020,
    ]);
}

} // verus!
