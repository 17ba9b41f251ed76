use pio::{
    InSource, Instruction, InstructionOperands, JmpCondition, MovDestination, MovSource,
    OutDestination, SetDestination,
};
use rust_dap_rp2040::fifo::{BitOp, Exchange, FifoStep};
use rust_dap_rp2040::swd::{DapError, SwdIoConfig, SwdRequest};
use rust_dap_rp2040::swd_io_set::{Command, SwdIoSet};
use rust_dap_rp2040::transfer::TransferStep;
use std::collections::VecDeque;

/// A state machine that executes the assembled words.
struct Emulator {
    code: Vec<u16>,
    side_set: pio::SideSet,
    wrap: (u8, u8),
    pc: u8,
    x: u32,
    y: u32,
    osr: u32,
    isr: u32,
    clk: bool,
    clk_driven: bool,
    dat: bool,
    dat_driven: bool,
    tx: VecDeque<u32>,
    rx: VecDeque<u32>,
    line: VecDeque<bool>,
    cycle: u64,
    edges: Vec<(u64, bool, bool)>,
    low_since: u64,
    low_phases: Vec<u64>,
}

impl Emulator {
    fn new(line: &[bool]) -> Emulator {
        let io = SwdIoSet::new(2, 3);
        let program = io.program();
        Emulator {
            code: program.code.as_slice().to_vec(),
            side_set: program.side_set,
            wrap: (program.wrap.source, program.wrap.target),
            pc: 0,
            x: 0,
            y: 0,
            osr: 0,
            isr: 0x5555_aaaa,
            clk: false,
            clk_driven: false,
            dat: false,
            dat_driven: false,
            tx: VecDeque::new(),
            rx: VecDeque::new(),
            line: line.iter().copied().collect(),
            cycle: 0,
            edges: Vec::new(),
            low_since: 0,
            low_phases: Vec::new(),
        }
    }

    fn set_clk(&mut self, level: bool) {
        if level && !self.clk {
            self.edges.push((self.cycle, self.dat_driven, self.dat));
            self.low_phases.push(self.cycle - self.low_since);
        }
        if !level {
            self.low_since = self.cycle;
        }
        self.clk = level;
    }

    fn advance(&mut self) {
        self.pc = if self.pc == self.wrap.0 { self.wrap.1 } else { self.pc + 1 };
    }

    fn operate(&mut self, operands: InstructionOperands) {
        match operands {
            InstructionOperands::JMP { condition, address } => {
                let taken = match condition {
                    JmpCondition::Always => true,
                    JmpCondition::YIsZero => self.y == 0,
                    JmpCondition::XDecNonZero => {
                        let taken = self.x != 0;
                        self.x = self.x.wrapping_sub(1);
                        taken
                    }
                    _ => unreachable!(),
                };
                if taken {
                    self.pc = address;
                } else {
                    self.advance();
                }
            }
            InstructionOperands::IN { source, bit_count } => {
                let value = match source {
                    InSource::PINS => {
                        let line = self.line.pop_front().unwrap();
                        u32::from(if self.dat_driven { self.dat } else { line })
                    }
                    InSource::NULL => 0,
                    _ => unreachable!(),
                };
                self.isr = (self.isr >> bit_count) | (value << (32 - bit_count));
                self.advance();
            }
            InstructionOperands::OUT { destination, bit_count } => {
                let value = self.osr & ((1 << bit_count) - 1);
                self.osr >>= bit_count;
                match destination {
                    OutDestination::PINS => self.dat = value == 1,
                    OutDestination::X => self.x = value,
                    OutDestination::PINDIRS => self.dat_driven = value == 1,
                    _ => unreachable!(),
                }
                self.advance();
            }
            InstructionOperands::PUSH { .. } => {
                self.rx.push_back(self.isr);
                self.isr = 0;
                self.advance();
            }
            InstructionOperands::PULL { .. } => {
                if let Some(word) = self.tx.pop_front() {
                    self.osr = word;
                    self.advance();
                }
            }
            InstructionOperands::MOV { destination, source, .. } => {
                let value = match source {
                    MovSource::Y => self.y,
                    MovSource::ISR => self.isr,
                    MovSource::OSR => self.osr,
                    _ => unreachable!(),
                };
                match destination {
                    MovDestination::Y => self.y = value,
                    MovDestination::ISR => self.isr = value,
                    MovDestination::OSR => self.osr = value,
                    _ => unreachable!(),
                }
                self.advance();
            }
            InstructionOperands::SET { destination, data } => {
                match destination {
                    SetDestination::PINS => self.set_clk(data == 1),
                    SetDestination::PINDIRS => self.clk_driven = data == 1,
                    _ => unreachable!(),
                }
                self.advance();
            }
            _ => unreachable!(),
        }
    }

    fn step(&mut self) {
        let word = self.code[self.pc as usize];
        let instruction = Instruction::decode(word, self.side_set).unwrap();
        if let Some(side) = instruction.side_set {
            self.set_clk(side == 1);
        }
        self.operate(instruction.operands);
        self.cycle += 1 + u64::from(instruction.delay);
    }

    fn execute(&mut self, word: u16) {
        let pc = self.pc;
        let instruction = Instruction::decode(word, self.side_set).unwrap();
        self.operate(instruction.operands);
        self.pc = pc;
    }

    fn exchange(&mut self, mut exchange: Exchange) -> u32 {
        loop {
            match exchange.step() {
                FifoStep::Push(word) => {
                    // A FIFO of one word, so that words are refused now and then.
                    let accepted = self.tx.is_empty();
                    if accepted {
                        self.tx.push_back(word);
                    }
                    exchange.pushed(accepted);
                }
                FifoStep::Pop => exchange.popped(self.rx.pop_front()),
                FifoStep::Finish(value) => {
                    while !(self.pc == 0 && self.tx.is_empty()) {
                        self.step();
                    }
                    return value;
                }
            }
            self.step();
        }
    }

    fn perform(&mut self, op: BitOp) -> u32 {
        match op {
            BitOp::Write { bits, value } => self.exchange(SwdIoSet::write_bits(bits, value)),
            BitOp::Read { bits } => self.exchange(SwdIoSet::read_bits(bits)),
        }
    }

    fn command(&mut self, command: Command) {
        match command {
            Command::Execute(word) => self.execute(word),
            Command::Perform(op) => {
                self.perform(op);
            }
        }
    }

    fn transfer(
        &mut self,
        config: &SwdIoConfig,
        request: SwdRequest,
        data: u32,
    ) -> Result<u32, DapError> {
        let mut transfer = SwdIoSet::swd_transfer(config, request, data);
        loop {
            match transfer.step() {
                TransferStep::Perform(op) => {
                    let reply = self.perform(op);
                    transfer.resume(reply);
                }
                TransferStep::Finish(result) => return result,
            }
        }
    }

    fn driven_levels(&self) -> Vec<bool> {
        self.edges.iter().filter(|edge| edge.1).map(|edge| edge.2).collect()
    }
}

fn bits_of(value: u64, n: u32) -> Vec<bool> {
    (0..n).map(|i| i < 64 && (value >> i) & 1 == 1).collect()
}

const CONFIG: SwdIoConfig = SwdIoConfig {
    idle_cycles: 2,
    turn_around_cycles: 1,
    always_generate_data_phase: false,
};

#[test]
fn written_bits_are_on_the_line_at_rising_edges() {
    for bits in [1, 2, 8, 31, 32] {
        let mut m = Emulator::new(&[]);
        m.perform(BitOp::Write { bits, value: 0x9669_c35a });
        assert_eq!(m.driven_levels(), bits_of(0x9669_c35a, bits));
        assert_eq!(m.edges.len(), bits as usize);
        assert!(m.clk);
        for pair in m.edges.windows(2) {
            assert_eq!(pair[1].0 - pair[0].0, 8);
        }
    }
}

#[test]
fn values_are_extended_with_zeros() {
    let mut m = Emulator::new(&[]);
    m.perform(BitOp::Write { bits: 40, value: 0xffff_ffff });
    assert_eq!(m.driven_levels(), bits_of(0xffff_ffff, 40));
}

#[test]
fn writes_without_bits_leave_the_clock_alone() {
    let mut m = Emulator::new(&[]);
    m.perform(SwdIoSet::to_swdio_out(true));
    assert!(m.dat && m.dat_driven && !m.clk && m.edges.is_empty());
    m.perform(SwdIoSet::to_swdio_out(false));
    assert!(!m.dat && m.dat_driven && !m.clk && m.edges.is_empty());
}

#[test]
fn read_bits_come_off_the_line() {
    for bits in [1, 3, 31, 32] {
        let mut m = Emulator::new(&bits_of(0x9669_c35b, 40));
        let value = m.perform(BitOp::Read { bits });
        let mask = ((1u64 << bits) - 1) as u32;
        assert_eq!(value, 0x9669_c35b & mask);
        assert_eq!(m.edges.len(), bits as usize);
        assert!(!m.dat_driven);
        assert_eq!(m.line.len(), 40 - bits as usize);
        for pair in m.edges.windows(2) {
            assert_eq!(pair[1].0 - pair[0].0, 8);
        }
    }
}

#[test]
fn reads_without_bits_sample_the_line() {
    for level in [false, true] {
        let mut m = Emulator::new(&[level]);
        m.perform(SwdIoSet::to_swdio_out(true));
        let value = m.perform(SwdIoSet::to_swdio_in());
        assert_eq!(value, u32::from(level));
        assert!(!m.dat_driven && m.edges.is_empty());
    }
}

#[test]
fn connecting_and_disconnecting_move_the_pins() {
    let mut m = Emulator::new(&[true]);
    for command in SwdIoSet::connect() {
        m.command(command);
    }
    assert!(m.clk_driven && m.dat_driven && m.dat && m.edges.is_empty());
    for command in SwdIoSet::disconnect() {
        m.command(command);
    }
    assert!(!m.clk_driven && !m.dat_driven && m.edges.is_empty());
}

#[test]
fn write_sequences_reach_the_line() {
    let data = [0x9e, 0xe7, 0x12, 0x34, 0x56, 0x78];
    let mut m = Emulator::new(&[]);
    let mut sequence = SwdIoSet::swd_write_sequence(&CONFIG, 45, &data);
    while let Some(op) = sequence.next_op() {
        m.perform(op);
    }
    assert_eq!(m.driven_levels(), bits_of(0x7856_3412_e79e, 45));
}

#[test]
fn read_sequences_come_off_the_line() {
    let mut data = [0xee; 7];
    let mut m = Emulator::new(&bits_of(0x7856_3412_e79e, 48));
    let mut sequence = SwdIoSet::swd_read_sequence(&CONFIG, 45);
    while let Some(op) = sequence.next_op() {
        let value = m.perform(op);
        sequence.accept(value, &mut data);
    }
    assert_eq!(data, [0x9e, 0xe7, 0x12, 0x34, 0x56, 0x18, 0xee]);
}

#[test]
fn read_transfer_on_the_line() {
    // Turnaround, acknowledgement, data, parity, turnaround.
    let mut line = vec![false, true, false, false];
    line.extend(bits_of(0x2ba0_1477, 32));
    line.extend([false, true]);
    let mut m = Emulator::new(&line);
    let result = m.transfer(&CONFIG, SwdRequest { bits: 2 }, 0);
    assert_eq!(result, Ok(0x2ba0_1477));
    let mut expected = bits_of(0xa5, 8);
    expected.extend([false, false]);
    assert_eq!(m.driven_levels(), expected);
    assert!(m.line.is_empty() && m.dat && m.dat_driven);
}

#[test]
fn write_transfer_on_the_line() {
    let mut m = Emulator::new(&[true, true, false, false, true]);
    let result = m.transfer(&CONFIG, SwdRequest { bits: 4 }, 0x5000_0001);
    assert_eq!(result, Ok(0));
    let mut expected = bits_of(0xa9, 8);
    expected.extend(bits_of(0x5000_0001, 32));
    expected.extend([true, false, false]);
    assert_eq!(m.driven_levels(), expected);
    assert_eq!(m.edges.len(), 8 + 5 + 33 + 2);
    assert!(m.line.is_empty() && m.dat && m.dat_driven);
}

#[test]
fn refused_transfers_leave_the_line_high() {
    for ack in [[false, true, false], [false, false, true], [true, true, true]] {
        for bits in [2, 4] {
            let mut line = vec![true];
            line.extend(ack);
            line.extend([true; 40]);
            let mut m = Emulator::new(&line);
            let result = m.transfer(&CONFIG, SwdRequest { bits }, 0xffff_ffff);
            let number = ack.iter().rev().fold(0, |n, level| 2 * n + u8::from(*level));
            assert_eq!(result, Err(DapError::SwdError(number)));
            assert_eq!(m.driven_levels().len(), 8);
            assert!(m.dat && m.dat_driven && m.pc == 0 && m.tx.is_empty());
        }
    }
}

#[test]
fn a_session_releases_both_pins() {
    let mut m = Emulator::new(&bits_of(0x0a5f, 16));
    for command in SwdIoSet::connect() {
        m.command(command);
    }
    assert!(m.clk_driven);
    m.perform(BitOp::Write { bits: 8, value: 0x9e });
    assert_eq!(m.perform(BitOp::Read { bits: 4 }), 0xf);
    m.perform(BitOp::Write { bits: 2, value: 0 });
    assert_eq!(m.perform(BitOp::Read { bits: 8 }), 0xa5);
    assert!(m.clk_driven);
    for command in SwdIoSet::disconnect() {
        m.command(command);
    }
    assert!(!m.clk_driven && !m.dat_driven);
    assert!(m.pc == 0 && m.tx.is_empty() && m.rx.is_empty());
    assert_eq!(m.edges.len(), 8 + 4 + 2 + 8);
    assert_eq!(m.line.len(), 16 - 4 - 8 - 1);
}

#[test]
fn write_sequences_are_driven_throughout() {
    let mut m = Emulator::new(&[]);
    let mut sequence = SwdIoSet::swj_sequence(&CONFIG, 51, &[0xff; 7]);
    while let Some(op) = sequence.next_op() {
        m.perform(op);
    }
    assert!(m.edges.iter().all(|edge| edge.1 && edge.2));
    assert_eq!(m.edges.len(), 51);
    assert!(m.pc == 0 && m.tx.is_empty());
}

#[test]
fn counts_are_taken_modulo_the_header() {
    let mut m = Emulator::new(&[]);
    m.perform(BitOp::Write { bits: 0x8000_0003, value: 0b101 });
    assert_eq!(m.driven_levels(), vec![true, false, true]);
    m.perform(BitOp::Write { bits: 0x8000_0000, value: 0 });
    assert_eq!(m.edges.len(), 3);
    assert!(!m.dat && m.dat_driven);
}

#[test]
fn idle_counts_with_the_top_bit_still_end_high() {
    let config = SwdIoConfig { idle_cycles: 0x8000_0002, ..CONFIG };
    let mut m = Emulator::new(&[true, true, false, false, true]);
    let result = m.transfer(&config, SwdRequest { bits: 4 }, 0);
    assert_eq!(result, Ok(0));
    assert_eq!(m.edges.len(), 8 + 5 + 33 + 2);
    assert!(m.dat && m.dat_driven && m.pc == 0 && m.tx.is_empty());
}

#[test]
fn the_clock_is_low_for_half_a_period() {
    let mut m = Emulator::new(&[true; 5]);
    m.perform(BitOp::Write { bits: 6, value: 0x2a });
    m.perform(BitOp::Read { bits: 5 });
    assert_eq!(m.low_phases, vec![4; 11]);
}

#[test]
fn the_level_is_there_before_the_pin_is_driven() {
    for value in [0, 1] {
        let mut m = Emulator::new(&[]);
        m.dat = value == 0;
        m.tx.extend([0x8000_0004, value]);
        while !m.dat_driven {
            m.step();
        }
        assert_eq!(m.dat, value == 1);
    }
}
