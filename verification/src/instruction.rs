//! PIO instructions as plain values, and the sixteen-bit words that encode them.
use vstd::prelude::*;

verus! {

/// When a `jmp` is taken.
#[derive(Clone, Copy, Debug, PartialEq, Eq, Structural)]
pub enum JmpCondition {
    /// Always.
    Always,
    /// `X--`: while scratch X is not zero; X is decremented either way.
    XDecNonZero,
    /// `!Y`: when scratch Y is zero.
    YIsZero,
}

/// Where `in` takes its bits from.
#[derive(Clone, Copy, Debug, PartialEq, Eq, Structural)]
pub enum InSource {
    /// The input pins.
    Pins,
    /// Zeros.
    Null,
}

/// Where `out` puts its bits.
#[derive(Clone, Copy, Debug, PartialEq, Eq, Structural)]
pub enum OutDestination {
    /// The output levels of the `out` pins.
    Pins,
    /// Scratch X.
    X,
    /// The directions of the `out` pins.
    PinDirs,
}

/// What `mov` overwrites.
#[derive(Clone, Copy, Debug, PartialEq, Eq, Structural)]
pub enum MovDestination {
    /// Scratch Y.
    Y,
    /// The input shift register.
    Isr,
    /// The output shift register.
    Osr,
}

/// What `mov` does to the value on its way.
#[derive(Clone, Copy, Debug, PartialEq, Eq, Structural)]
pub enum MovOperation {
    /// Nothing.
    Plain,
    /// Bitwise complement.
    Invert,
}

/// What `mov` reads.
#[derive(Clone, Copy, Debug, PartialEq, Eq, Structural)]
pub enum MovSource {
    /// Scratch Y.
    Y,
    /// The input shift register.
    Isr,
    /// The output shift register.
    Osr,
}

/// What `set` writes its immediate to.
#[derive(Clone, Copy, Debug, PartialEq, Eq, Structural)]
pub enum SetDestination {
    /// The output levels of the `set` pins.
    Pins,
    /// The directions of the `set` pins.
    PinDirs,
}

/// An instruction without its delay and side-set.
#[allow(inconsistent_fields)]
#[derive(Clone, Copy, Debug, PartialEq, Eq, Structural)]
pub enum Operands {
    /// Jump to `address` when `condition` holds.
    Jmp { condition: JmpCondition, address: u8 },
    /// Shift `bit_count` bits of `source` into the input shift register.
    In { source: InSource, bit_count: u8 },
    /// Shift `bit_count` bits out of the output shift register.
    Out { destination: OutDestination, bit_count: u8 },
    /// Move the input shift register to the RX FIFO.
    Push { if_full: bool, block: bool },
    /// Move a word of the TX FIFO to the output shift register.
    Pull { if_empty: bool, block: bool },
    /// Copy a register.
    Mov { destination: MovDestination, operation: MovOperation, source: MovSource },
    /// Write an immediate.
    SetData { destination: SetDestination, data: u8 },
}

/// An instruction of a program.
#[derive(Clone, Copy, Debug, PartialEq, Eq)]
pub struct Instruction {
    /// What it does.
    pub operands: Operands,
    /// The cycles it waits after that.
    pub delay: u8,
    /// What it drives on the side-set pins, if anything.
    pub side_set: Option<u8>,
}

/// How a program divides the delay field of its instructions.
pub struct SideSetting {
    /// Whether an instruction may leave the side-set pins alone.
    pub opt: bool,
    /// The bits of the field that side-set takes, the enable bit of `opt` among them.
    pub bits: u8,
    /// The largest value an instruction can drive.
    pub max: u8,
    /// Whether side-set drives pin directions in place of levels.
    pub pindirs: bool,
}

/// The setting for `bits` side-set pins.
pub open spec fn side_setting(opt: bool, bits: u8, pindirs: bool) -> SideSetting {
    SideSetting {
        opt,
        bits: (bits + if opt { 1int } else { 0 }) as u8,
        max: ((1u8 << bits) - 1) as u8,
        pindirs,
    }
}

/// The number of a jump condition.
pub open spec fn jmp_condition_number(condition: JmpCondition) -> u16 {
    match condition {
        JmpCondition::Always => 0,
        JmpCondition::XDecNonZero => 2,
        JmpCondition::YIsZero => 3,
    }
}

/// The number of a source of `in`.
pub open spec fn in_source_number(source: InSource) -> u16 {
    match source {
        InSource::Pins => 0,
        InSource::Null => 3,
    }
}

/// The number of a destination of `out`.
pub open spec fn out_destination_number(destination: OutDestination) -> u16 {
    match destination {
        OutDestination::Pins => 0,
        OutDestination::X => 1,
        OutDestination::PinDirs => 4,
    }
}

/// The number of a destination of `mov`.
pub open spec fn mov_destination_number(destination: MovDestination) -> u16 {
    match destination {
        MovDestination::Y => 2,
        MovDestination::Isr => 6,
        MovDestination::Osr => 7,
    }
}

/// The number of an operation of `mov`.
pub open spec fn mov_operation_number(operation: MovOperation) -> u16 {
    match operation {
        MovOperation::Plain => 0,
        MovOperation::Invert => 1,
    }
}

/// The number of a source of `mov`.
pub open spec fn mov_source_number(source: MovSource) -> u16 {
    match source {
        MovSource::Y => 2,
        MovSource::Isr => 6,
        MovSource::Osr => 7,
    }
}

/// The number of a destination of `set`.
pub open spec fn set_destination_number(destination: SetDestination) -> u16 {
    match destination {
        SetDestination::Pins => 0,
        SetDestination::PinDirs => 4,
    }
}

/// One where `flag` holds, zero where it does not.
pub open spec fn flag_number(flag: bool) -> u16 {
    if flag {
        1
    } else {
        0
    }
}

/// The opcode of an instruction and its two operand fields.
pub open spec fn fields(operands: Operands) -> (u16, u16, u16) {
    match operands {
        Operands::Jmp { condition, address } => (0, jmp_condition_number(condition), address as u16),
        Operands::In { source, bit_count } => (2, in_source_number(source), bit_count as u16),
        Operands::Out { destination, bit_count } => (
            3,
            out_destination_number(destination),
            bit_count as u16 & 0x1f,
        ),
        Operands::Push { if_full, block } => (
            4,
            (flag_number(if_full) << 1) | flag_number(block),
            0,
        ),
        Operands::Pull { if_empty, block } => (
            4,
            4 | (flag_number(if_empty) << 1) | flag_number(block),
            0,
        ),
        Operands::Mov { destination, operation, source } => (
            5,
            mov_destination_number(destination),
            (mov_operation_number(operation) << 3) | mov_source_number(source),
        ),
        Operands::SetData { destination, data } => (
            7,
            set_destination_number(destination),
            data as u16,
        ),
    }
}

/// The word of an instruction that has neither delay nor side-set.
pub open spec fn encode_operands(operands: Operands) -> u16 {
    let (opcode, o0, o1) = fields(operands);
    (opcode << 13) | (o0 << 5) | o1
}

/// Whether the delay and the side-set of an instruction fit the delay field.
pub open spec fn encodable(instruction: Instruction, setting: SideSetting) -> bool {
    &&& setting.bits <= 5
    &&& instruction.delay < (1u8 << ((5 - setting.bits) as u8))
    &&& match instruction.side_set {
        Some(side) => side <= setting.max,
        None => setting.bits == 0 || setting.opt,
    }
}

/// The delay field of an instruction: its delay, the side-set value above it, and above that
/// the enable bit.
pub open spec fn delay_field(instruction: Instruction, setting: SideSetting) -> u16 {
    let side = match instruction.side_set {
        Some(side) => ((side as u16) << ((5 - setting.bits) as u16)) | if setting.opt {
            0x10u16
        } else {
            0
        },
        None => 0,
    };
    instruction.delay as u16 | side
}

/// The word of an instruction.
pub open spec fn encode(instruction: Instruction, setting: SideSetting) -> u16 {
    encode_operands(instruction.operands) | (delay_field(instruction, setting) << 8)
}

} // verus!
