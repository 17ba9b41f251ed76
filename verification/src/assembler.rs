//! The outside assembler: what each of its calls does to the listing that it collects.
use crate::instruction::{
    encodable, encode, encode_operands, side_setting, InSource, Instruction, JmpCondition,
    MovDestination, MovOperation, MovSource, Operands, OutDestination, SetDestination, SideSetting,
};
use vstd::prelude::*;

verus! {

/// The instructions that fit the memory of a PIO block.
pub const PROGRAM_SIZE: usize = 32;

/// `pio::Assembler`, an opaque value here; [`listing`] and [`setting`] say what it holds.
#[verifier::external_type_specification]
#[verifier::external_body]
pub struct ExAssembler<const N: usize>(pio::Assembler<N>);

/// `pio::Label`, an opaque value here; [`label_state`] says where it stands.
#[verifier::external_type_specification]
#[verifier::external_body]
pub struct ExLabel(pio::Label);

/// `pio::SideSet`, an opaque value here; [`side_set_setting`] says what it holds.
#[verifier::external_type_specification]
#[verifier::external_body]
pub struct ExSideSet(pio::SideSet);

/// `pio::Program`, an opaque value here; [`program_code`], [`program_wrap`],
/// [`program_setting`] and [`program_origin`] say what it holds.
#[verifier::external_type_specification]
#[verifier::external_body]
pub struct ExProgram<const N: usize>(pio::Program<N>);

/// The instructions collected so far, in order.
pub uninterp spec fn listing(a: pio::Assembler<PROGRAM_SIZE>) -> Seq<Instruction>;

/// The side-set setting that the assembler was made with.
pub uninterp spec fn setting(a: pio::Assembler<PROGRAM_SIZE>) -> SideSetting;

/// Where the label stands.
pub uninterp spec fn label_state(label: pio::Label) -> LabelState;

/// The setting that the value holds.
pub uninterp spec fn side_set_setting(side_set: pio::SideSet) -> SideSetting;

/// The words of the program, in order.
pub uninterp spec fn program_code(program: pio::Program<PROGRAM_SIZE>) -> Seq<u16>;

/// The address after which the program wraps, and the one it wraps to.
pub uninterp spec fn program_wrap(program: pio::Program<PROGRAM_SIZE>) -> (u8, u8);

/// The side-set setting of the program.
pub uninterp spec fn program_setting(program: pio::Program<PROGRAM_SIZE>) -> SideSetting;

/// The address at which the program has to be loaded, if it has to be at one.
pub uninterp spec fn program_origin(program: pio::Program<PROGRAM_SIZE>) -> Option<u8>;

/// Where a label stands.
pub enum LabelState {
    /// Not bound yet. The value is the address of the latest jump to the label, whose own
    /// address field holds the address of the jump before it, and so on; [`CHAIN_END`] ends
    /// the chain.
    Unbound(u8),
    /// Bound to an address.
    Bound(u8),
}

/// What ends the chain of jumps to a label that is not bound yet.
pub const CHAIN_END: u8 = 255;

/// The address field of a jump.
pub open spec fn jump_address(instruction: Instruction) -> u8 {
    match instruction.operands {
        Operands::Jmp { condition: _, address } => address,
        _ => CHAIN_END,
    }
}

/// The jump `instruction` with `address` in its address field.
pub open spec fn redirected(instruction: Instruction, address: u8) -> Instruction {
    match instruction.operands {
        Operands::Jmp { condition, address: _ } => Instruction {
            operands: Operands::Jmp { condition, address },
            ..instruction
        },
        _ => instruction,
    }
}

/// Whether the chain that starts at `at` runs over jumps of `code` alone, each at a lower
/// address than the one before it, and ends.
pub open spec fn chained(code: Seq<Instruction>, at: u8) -> bool
    decreases (if at == CHAIN_END { 0int } else { at + 1 }),
{
    at == CHAIN_END || {
        &&& at < code.len()
        &&& code[at as int].operands is Jmp
        &&& jump_address(code[at as int]) == CHAIN_END || jump_address(code[at as int]) < at
        &&& chained(code, jump_address(code[at as int]))
    }
}

/// Whether the instruction at `i` is on the chain that starts at `at`.
pub open spec fn on_chain(code: Seq<Instruction>, at: u8, i: int) -> bool
    decreases (if at == CHAIN_END { 0int } else { at + 1 }),
{
    &&& at != CHAIN_END
    &&& jump_address(code[at as int]) == CHAIN_END || jump_address(code[at as int]) < at
    &&& i == at || on_chain(code, jump_address(code[at as int]), i)
}

/// `code` with `address` in the address field of every jump on the chain that starts at `at`.
pub open spec fn resolved(code: Seq<Instruction>, at: u8, address: u8) -> Seq<Instruction> {
    Seq::new(
        code.len(),
        |i: int|
            if on_chain(code, at, i) {
                redirected(code[i], address)
            } else {
                code[i]
            },
    )
}

/// An instruction without delay and side-set.
pub open spec fn plain(operands: Operands) -> Instruction {
    Instruction { operands, delay: 0, side_set: None }
}

/// `a` has `instruction` after what `before` has, and is otherwise as `before` is.
pub open spec fn emitted(
    before: pio::Assembler<PROGRAM_SIZE>,
    a: pio::Assembler<PROGRAM_SIZE>,
    instruction: Instruction,
) -> bool {
    &&& listing(a) == listing(before).push(instruction)
    &&& setting(a) == setting(before)
}

/// The address field of a jump that is emitted for a label in this state.
pub open spec fn label_address(state: LabelState) -> u8 {
    match state {
        LabelState::Unbound(at) => at,
        LabelState::Bound(at) => at,
    }
}

/// The state of a label after a jump to it was emitted at `at`.
pub open spec fn label_after_jump(state: LabelState, at: int) -> LabelState {
    match state {
        LabelState::Unbound(_) => LabelState::Unbound(at as u8),
        LabelState::Bound(address) => LabelState::Bound(address),
    }
}

/// `pio::SideSet::new`: the setting for `bits` side-set pins, and one bit more where side-set
/// is optional. From eight bits on, the largest value would not fit a byte.
pub assume_specification[ pio::SideSet::new ](opt: bool, bits: u8, pindirs: bool) -> (side_set:
    pio::SideSet)
    requires
        bits < 8,
    ensures
        side_set_setting(side_set) == side_setting(opt, bits, pindirs),
;

/// `pio::Assembler::new_with_side_set`: an assembler that has collected nothing.
#[verifier::external_body]
pub(crate) fn new_with_side_set(side_set: pio::SideSet) -> (a: pio::Assembler<PROGRAM_SIZE>)
    ensures
        listing(a) == Seq::<Instruction>::empty(),
        setting(a) == side_set_setting(side_set),
{
    pio::Assembler::new_with_side_set(side_set)
}

/// `pio::Assembler::label`: a label that is not bound and that no jump goes to.
#[verifier::external_body]
pub(crate) fn label(a: &mut pio::Assembler<PROGRAM_SIZE>) -> (label: pio::Label)
    ensures
        listing(*final(a)) == listing(*old(a)),
        setting(*final(a)) == setting(*old(a)),
        label_state(label) == LabelState::Unbound(CHAIN_END),
{
    a.label()
}

/// `pio::Assembler::bind`: binds the label to the address of the next instruction, and writes
/// that address into every jump on the label's chain. It panics on a label that is bound.
#[verifier::external_body]
pub(crate) fn bind(a: &mut pio::Assembler<PROGRAM_SIZE>, label: &mut pio::Label)
    requires
        label_state(*old(label)) is Unbound,
        chained(listing(*old(a)), label_address(label_state(*old(label)))),
        listing(*old(a)).len() <= PROGRAM_SIZE,
    ensures
        listing(*final(a)) == resolved(
            listing(*old(a)),
            label_address(label_state(*old(label))),
            listing(*old(a)).len() as u8,
        ),
        setting(*final(a)) == setting(*old(a)),
        label_state(*final(label)) == LabelState::Bound(listing(*old(a)).len() as u8),
{
    a.bind(label)
}

/// `pio::Assembler::pull`: emits a `pull` with neither delay nor side-set. Like every call that
/// emits an instruction, it puts it behind the others, leaves these and the setting alone, and
/// panics when the program is full.
#[verifier::external_body]
pub(crate) fn pull(a: &mut pio::Assembler<PROGRAM_SIZE>, if_empty: bool, block: bool)
    requires
        listing(*old(a)).len() < PROGRAM_SIZE,
    ensures
        emitted(*old(a), *final(a), plain(Operands::Pull { if_empty, block })),
{
    a.pull(if_empty, block)
}

/// `pio::Assembler::push`: emits a `push` with neither delay nor side-set.
#[verifier::external_body]
pub(crate) fn push(a: &mut pio::Assembler<PROGRAM_SIZE>, if_full: bool, block: bool)
    requires
        listing(*old(a)).len() < PROGRAM_SIZE,
    ensures
        emitted(*old(a), *final(a), plain(Operands::Push { if_full, block })),
{
    a.push(if_full, block)
}

/// `pio::Assembler::out`: emits an `out` with neither delay nor side-set.
#[verifier::external_body]
pub(crate) fn out(
    a: &mut pio::Assembler<PROGRAM_SIZE>,
    destination: OutDestination,
    bit_count: u8,
)
    requires
        listing(*old(a)).len() < PROGRAM_SIZE,
    ensures
        emitted(*old(a), *final(a), plain(Operands::Out { destination, bit_count })),
{
    let destination = match destination {
        OutDestination::Pins => pio::OutDestination::PINS,
        OutDestination::X => pio::OutDestination::X,
        OutDestination::PinDirs => pio::OutDestination::PINDIRS,
    };
    a.out(destination, bit_count)
}

/// `pio::Assembler::out_with_delay`: emits an `out` with a delay and no side-set.
#[verifier::external_body]
pub(crate) fn out_with_delay(
    a: &mut pio::Assembler<PROGRAM_SIZE>,
    destination: OutDestination,
    bit_count: u8,
    delay: u8,
)
    requires
        listing(*old(a)).len() < PROGRAM_SIZE,
    ensures
        emitted(
            *old(a),
            *final(a),
            Instruction {
                operands: Operands::Out { destination, bit_count },
                delay,
                side_set: None,
            },
        ),
{
    let destination = match destination {
        OutDestination::Pins => pio::OutDestination::PINS,
        OutDestination::X => pio::OutDestination::X,
        OutDestination::PinDirs => pio::OutDestination::PINDIRS,
    };
    a.out_with_delay(destination, bit_count, delay)
}

/// `pio::Assembler::mov`: emits a `mov` with neither delay nor side-set.
#[verifier::external_body]
pub(crate) fn mov(
    a: &mut pio::Assembler<PROGRAM_SIZE>,
    destination: MovDestination,
    operation: MovOperation,
    source: MovSource,
)
    requires
        listing(*old(a)).len() < PROGRAM_SIZE,
    ensures
        emitted(*old(a), *final(a), plain(Operands::Mov { destination, operation, source })),
{
    let destination = match destination {
        MovDestination::Y => pio::MovDestination::Y,
        MovDestination::Isr => pio::MovDestination::ISR,
        MovDestination::Osr => pio::MovDestination::OSR,
    };
    let operation = match operation {
        MovOperation::Plain => pio::MovOperation::None,
        MovOperation::Invert => pio::MovOperation::Invert,
    };
    let source = match source {
        MovSource::Y => pio::MovSource::Y,
        MovSource::Isr => pio::MovSource::ISR,
        MovSource::Osr => pio::MovSource::OSR,
    };
    a.mov(destination, operation, source)
}

/// `pio::Assembler::nop_with_delay`: emits a `mov` of Y to Y with a delay and no side-set.
#[verifier::external_body]
pub(crate) fn nop_with_delay(a: &mut pio::Assembler<PROGRAM_SIZE>, delay: u8)
    requires
        listing(*old(a)).len() < PROGRAM_SIZE,
    ensures
        emitted(
            *old(a),
            *final(a),
            Instruction {
                operands: Operands::Mov {
                    destination: MovDestination::Y,
                    operation: MovOperation::Plain,
                    source: MovSource::Y,
                },
                delay,
                side_set: None,
            },
        ),
{
    a.nop_with_delay(delay)
}

/// `pio::Assembler::set`: emits a `set` with neither delay nor side-set.
#[verifier::external_body]
pub(crate) fn set_data(a: &mut pio::Assembler<PROGRAM_SIZE>, destination: SetDestination, data: u8)
    requires
        listing(*old(a)).len() < PROGRAM_SIZE,
    ensures
        emitted(*old(a), *final(a), plain(Operands::SetData { destination, data })),
{
    let destination = match destination {
        SetDestination::Pins => pio::SetDestination::PINS,
        SetDestination::PinDirs => pio::SetDestination::PINDIRS,
    };
    a.set(destination, data)
}

/// `pio::Assembler::in_with_delay`: emits an `in` with a delay and no side-set.
#[verifier::external_body]
pub(crate) fn in_with_delay(
    a: &mut pio::Assembler<PROGRAM_SIZE>,
    source: InSource,
    bit_count: u8,
    delay: u8,
)
    requires
        listing(*old(a)).len() < PROGRAM_SIZE,
    ensures
        emitted(
            *old(a),
            *final(a),
            Instruction {
                operands: Operands::In { source, bit_count },
                delay,
                side_set: None,
            },
        ),
{
    let source = match source {
        InSource::Pins => pio::InSource::PINS,
        InSource::Null => pio::InSource::NULL,
    };
    a.in_with_delay(source, bit_count, delay)
}

/// `pio::Assembler::in_with_side_set`: emits an `in` with a side-set and no delay.
#[verifier::external_body]
pub(crate) fn in_with_side_set(
    a: &mut pio::Assembler<PROGRAM_SIZE>,
    source: InSource,
    bit_count: u8,
    side_set: u8,
)
    requires
        listing(*old(a)).len() < PROGRAM_SIZE,
    ensures
        emitted(
            *old(a),
            *final(a),
            Instruction {
                operands: Operands::In { source, bit_count },
                delay: 0,
                side_set: Some(side_set),
            },
        ),
{
    let source = match source {
        InSource::Pins => pio::InSource::PINS,
        InSource::Null => pio::InSource::NULL,
    };
    a.in_with_side_set(source, bit_count, side_set)
}

/// `pio::Assembler::in_with_delay_and_side_set`: emits an `in` with a delay and a side-set.
#[verifier::external_body]
pub(crate) fn in_with_delay_and_side_set(
    a: &mut pio::Assembler<PROGRAM_SIZE>,
    source: InSource,
    bit_count: u8,
    delay: u8,
    side_set: u8,
)
    requires
        listing(*old(a)).len() < PROGRAM_SIZE,
    ensures
        emitted(
            *old(a),
            *final(a),
            Instruction {
                operands: Operands::In { source, bit_count },
                delay,
                side_set: Some(side_set),
            },
        ),
{
    let source = match source {
        InSource::Pins => pio::InSource::PINS,
        InSource::Null => pio::InSource::NULL,
    };
    a.in_with_delay_and_side_set(source, bit_count, delay, side_set)
}

/// `pio::Assembler::jmp`: emits a jump to the address of a bound label. A label that is not bound
/// gets the jump as the new start of its chain, and the jump's address field holds the old one.
#[verifier::external_body]
pub(crate) fn jmp(
    a: &mut pio::Assembler<PROGRAM_SIZE>,
    condition: JmpCondition,
    label: &mut pio::Label,
)
    requires
        listing(*old(a)).len() < PROGRAM_SIZE,
    ensures
        emitted(
            *old(a),
            *final(a),
            plain(
                Operands::Jmp { condition, address: label_address(label_state(*old(label))) },
            ),
        ),
        label_state(*final(label)) == label_after_jump(
            label_state(*old(label)),
            listing(*old(a)).len() as int,
        ),
{
    let condition = match condition {
        JmpCondition::Always => pio::JmpCondition::Always,
        JmpCondition::XDecNonZero => pio::JmpCondition::XDecNonZero,
        JmpCondition::YIsZero => pio::JmpCondition::YIsZero,
    };
    a.jmp(condition, label)
}

/// `pio::Assembler::jmp_with_delay_and_side_set`: as [`jmp`], with a delay and a side-set.
#[verifier::external_body]
pub(crate) fn jmp_with_delay_and_side_set(
    a: &mut pio::Assembler<PROGRAM_SIZE>,
    condition: JmpCondition,
    label: &mut pio::Label,
    delay: u8,
    side_set: u8,
)
    requires
        listing(*old(a)).len() < PROGRAM_SIZE,
    ensures
        emitted(
            *old(a),
            *final(a),
            Instruction {
                operands: Operands::Jmp {
                    condition,
                    address: label_address(label_state(*old(label))),
                },
                delay,
                side_set: Some(side_set),
            },
        ),
        label_state(*final(label)) == label_after_jump(
            label_state(*old(label)),
            listing(*old(a)).len() as int,
        ),
{
    let condition = match condition {
        JmpCondition::Always => pio::JmpCondition::Always,
        JmpCondition::XDecNonZero => pio::JmpCondition::XDecNonZero,
        JmpCondition::YIsZero => pio::JmpCondition::YIsZero,
    };
    a.jmp_with_delay_and_side_set(condition, label, delay, side_set)
}

/// `pio::Assembler::assemble_with_wrap`: the words of the collected instructions, in order, in
/// a program that wraps from the instruction before `source` to `target` and may be loaded
/// anywhere. It panics on a label that is not bound, on a wrap that lies outside the program,
/// and on an instruction whose delay and side-set do not fit.
#[verifier::external_body]
pub(crate) fn assemble_with_wrap(
    a: pio::Assembler<PROGRAM_SIZE>,
    source: pio::Label,
    target: pio::Label,
) -> (program: pio::Program<PROGRAM_SIZE>)
    requires
        label_state(source) is Bound,
        label_state(target) is Bound,
        1 <= label_address(label_state(source)) <= listing(a).len(),
        label_address(label_state(target)) < listing(a).len(),
        forall|i: int|
            0 <= i < listing(a).len() ==> encodable(#[trigger] listing(a)[i], setting(a)),
    ensures
        program_code(program) == Seq::new(
            listing(a).len(),
            |i: int| encode(listing(a)[i], setting(a)),
        ),
        program_wrap(program) == (
            (label_address(label_state(source)) - 1) as u8,
            label_address(label_state(target)),
        ),
        program_setting(program) == setting(a),
        program_origin(program) == None::<u8>,
{
    a.assemble_with_wrap(source, target)
}

/// `pio::InstructionOperands::encode` of a `set`: its word, without delay and side-set.
#[verifier::external_body]
pub(crate) fn encode_set(destination: SetDestination, data: u8) -> (word: u16)
    ensures
        word == encode_operands(Operands::SetData { destination, data }),
{
    let destination = match destination {
        SetDestination::Pins => pio::SetDestination::PINS,
        SetDestination::PinDirs => pio::SetDestination::PINDIRS,
    };
    pio::InstructionOperands::SET { destination, data }.encode()
}

} // verus!
