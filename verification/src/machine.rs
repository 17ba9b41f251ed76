//! A model of the PIO state machine, and what the SWD program does on it.
//!
//! The model covers what the program uses: a state machine whose `set` and side-set pin is
//! SWCLK and whose `out` and `in` pin is SWDIO, with both shift registers moving right and
//! neither autopush nor autopull. A `pull` waits for a word; a `push` always finds room, since
//! the driver takes the reply to a read before it asks for anything else. Pins other than these
//! two read as zero.
use crate::bits::{bit, lemma_half_bit, lemma_low_bit};
use crate::fifo::{header_count, reply_shift, reply_value, BitOp};
use crate::instruction::{
    InSource, Instruction, JmpCondition, MovDestination, MovOperation, MovSource, Operands,
    OutDestination, SetDestination,
};
use crate::program::{swd_listing, WRAP_SOURCE, WRAP_TARGET};
use vstd::prelude::*;

verus! {

/// The cycles between two rising edges of SWCLK.
pub const PERIOD: u32 = 8;

/// The cycles of such a period in which SWCLK is low.
pub const HALF_PERIOD: u32 = 4;

/// A rising edge of SWCLK.
pub struct Edge {
    /// The cycle in which it comes.
    pub cycle: nat,
    /// For how many cycles before it SWCLK was driven low.
    pub low_cycles: nat,
    /// Whether the state machine drives SWDIO.
    pub driven: bool,
    /// The output level of SWDIO.
    pub level: bool,
}

/// A state machine that runs the SWD program.
#[verifier::ext_equal]
pub struct Machine {
    /// The address of the next instruction.
    pub pc: int,
    /// Scratch X.
    pub x: u32,
    /// Scratch Y.
    pub y: u32,
    /// The output shift register.
    pub osr: u32,
    /// The input shift register.
    pub isr: u32,
    /// The output level of SWCLK.
    pub clk: bool,
    /// Whether SWCLK is an output.
    pub clk_driven: bool,
    /// The output level of SWDIO.
    pub dat: bool,
    /// Whether SWDIO is an output.
    pub dat_driven: bool,
    /// The words that wait in the TX FIFO.
    pub tx: Seq<u32>,
    /// The words that went to the RX FIFO.
    pub rx: Seq<u32>,
    /// The levels that the other end gives SWDIO, one for each time it is sampled.
    pub line: Seq<bool>,
    /// The cycle in which SWCLK was last driven low.
    pub low_since: nat,
    /// The cycles that have passed.
    pub cycle: nat,
    /// The rising edges of SWCLK.
    pub edges: Seq<Edge>,
}

/// The low `n` bits of a word.
pub open spec fn low_bits(word: u32, n: u8) -> u32 {
    if n >= 32 {
        word
    } else {
        word & (((1u32 << n) - 1) as u32)
    }
}

/// A word after `n` bits left it at the low end.
pub open spec fn shifted(word: u32, n: u8) -> u32 {
    if n >= 32 {
        0
    } else {
        word >> n
    }
}

/// A word after the low `n` bits of `value` entered it at the high end.
pub open spec fn shifted_in(word: u32, value: u32, n: u8) -> u32 {
    if n == 0 {
        word
    } else if n >= 32 {
        value
    } else {
        (word >> n) | (value << ((32 - n) as u8))
    }
}

/// A level as a word.
pub open spec fn level_word(level: bool) -> u32 {
    if level {
        1
    } else {
        0
    }
}

impl Machine {
    /// The machine with SWCLK at `level`.
    pub open spec fn with_clk(self, level: bool) -> Machine {
        Machine {
            clk: level,
            low_since: if level {
                self.low_since
            } else {
                self.cycle
            },
            edges: if level && !self.clk {
                self.edges.push(
                    Edge {
                        cycle: self.cycle,
                        low_cycles: (self.cycle - self.low_since) as nat,
                        driven: self.dat_driven,
                        level: self.dat,
                    },
                )
            } else {
                self.edges
            },
            ..self
        }
    }

    /// The machine with what an instruction drives on the side-set pin.
    pub open spec fn with_side_set(self, side_set: Option<u8>) -> Machine {
        match side_set {
            Some(side) => self.with_clk(side % 2 == 1),
            None => self,
        }
    }

    /// The machine at the address after the current one.
    pub open spec fn advanced(self) -> Machine {
        Machine {
            pc: if self.pc == WRAP_SOURCE {
                WRAP_TARGET as int
            } else {
                self.pc + 1
            },
            ..self
        }
    }

    /// The level of SWDIO.
    pub open spec fn dat_level(self) -> bool {
        if self.dat_driven {
            self.dat
        } else {
            self.line[0]
        }
    }

    /// What a source of `mov` holds.
    pub open spec fn register(self, source: MovSource) -> u32 {
        match source {
            MovSource::Y => self.y,
            MovSource::Isr => self.isr,
            MovSource::Osr => self.osr,
        }
    }

    /// The machine after an instruction took effect, apart from its side-set and its cycles.
    pub open spec fn after_operands(self, operands: Operands) -> Machine {
        match operands {
            Operands::Jmp { condition, address } => {
                let taken = match condition {
                    JmpCondition::Always => true,
                    JmpCondition::XDecNonZero => self.x != 0,
                    JmpCondition::YIsZero => self.y == 0,
                };
                let x = if condition == JmpCondition::XDecNonZero {
                    if self.x == 0 {
                        u32::MAX
                    } else {
                        (self.x - 1) as u32
                    }
                } else {
                    self.x
                };
                if taken {
                    Machine { x, pc: address as int, ..self }
                } else {
                    Machine { x, ..self.advanced() }
                }
            },
            Operands::In { source, bit_count } => match source {
                InSource::Pins => Machine {
                    isr: shifted_in(self.isr, level_word(self.dat_level()), bit_count),
                    line: self.line.skip(1),
                    ..self.advanced()
                },
                InSource::Null => Machine {
                    isr: shifted_in(self.isr, 0, bit_count),
                    ..self.advanced()
                },
            },
            Operands::Out { destination, bit_count } => {
                let value = low_bits(self.osr, bit_count);
                let rest = Machine { osr: shifted(self.osr, bit_count), ..self.advanced() };
                match destination {
                    OutDestination::Pins => Machine { dat: value % 2 == 1, ..rest },
                    OutDestination::X => Machine { x: value, ..rest },
                    OutDestination::PinDirs => Machine { dat_driven: value % 2 == 1, ..rest },
                }
            },
            Operands::Push { if_full: _, block: _ } => Machine {
                rx: self.rx.push(self.isr),
                isr: 0,
                ..self.advanced()
            },
            Operands::Pull { if_empty: _, block: _ } => if self.tx.len() == 0 {
                self
            } else {
                Machine { osr: self.tx[0], tx: self.tx.skip(1), ..self.advanced() }
            },
            Operands::Mov { destination, operation, source } => {
                let value = match operation {
                    MovOperation::Plain => self.register(source),
                    MovOperation::Invert => !self.register(source),
                };
                match destination {
                    MovDestination::Y => Machine { y: value, ..self.advanced() },
                    MovDestination::Isr => Machine { isr: value, ..self.advanced() },
                    MovDestination::Osr => Machine { osr: value, ..self.advanced() },
                }
            },
            Operands::SetData { destination, data } => match destination {
                SetDestination::Pins => self.with_clk(data % 2 == 1).advanced(),
                SetDestination::PinDirs => Machine {
                    clk_driven: data % 2 == 1,
                    ..self.advanced()
                },
            },
        }
    }

    /// The machine after an instruction.
    pub open spec fn after(self, instruction: Instruction) -> Machine {
        let m = self.with_side_set(instruction.side_set).after_operands(instruction.operands);
        Machine { cycle: m.cycle + 1 + instruction.delay as nat, ..m }
    }

    /// The machine after its next instruction.
    pub open spec fn step(self) -> Machine {
        self.after(swd_listing()[self.pc])
    }

    /// The machine after an instruction that was executed in between: the program goes on where
    /// it was.
    pub open spec fn between(self, operands: Operands) -> Machine {
        Machine { pc: self.pc, ..self.after_operands(operands) }
    }

    /// The machine after `k` instructions.
    pub open spec fn run(self, k: nat) -> Machine
        decreases k,
    {
        if k == 0 {
            self
        } else {
            self.step().run((k - 1) as nat)
        }
    }
}

proof fn lemma_run_on(m: Machine, j: nat, k: nat)
    ensures
        m.run(j + k) == m.run(j).run(k),
    decreases j,
{
    if j > 0 {
        lemma_run_on(m.step(), (j - 1) as nat, k);
    }
}

proof fn lemma_small_words()
    ensures
        forall|w: u32| #[trigger] low_bits(w, 1) % 2 == w % 2,
        forall|w: u32| #[trigger] shifted(w, 1) == w >> 1u32,
        forall|w: u32| #[trigger] low_bits(w, 31) == w & 0x7fff_ffff,
        forall|w: u32| #[trigger] shifted(w, 31) == w >> 31u32,
        forall|w: u32| (#[trigger] bit(w, 0)) == (w % 2 == 1),
{
    assert((1u32 << 1u8) == 2 && (1u32 << 31u8) == 0x8000_0000) by (bit_vector);
    assert forall|w: u32| #[trigger] low_bits(w, 1) % 2 == w % 2 by {
        lemma_low_bit(w);
    }
    assert forall|w: u32| (#[trigger] bit(w, 0)) == (w % 2 == 1) by {
        lemma_low_bit(w);
    }
}

/// The machine after the header of a write, with the first bit on SWDIO.
spec fn write_ready(m: Machine, bits: u32, value: u32) -> Machine {
    let n = header_count(bits);
    Machine {
        pc: if n == 0 {
            11
        } else {
            14
        },
        x: if n == 0 {
            u32::MAX
        } else {
            (n - 1) as u32
        },
        y: 1,
        osr: value >> 1u32,
        isr: value >> 1u32,
        dat: bit(value, 0),
        dat_driven: true,
        tx: m.tx.skip(2),
        cycle: m.cycle + 11,
        ..m
    }
}

proof fn lemma_write_header(m: Machine, bits: u32, value: u32)
    requires
        m.pc == WRAP_TARGET,
        m.tx.len() >= 2,
        m.tx.take(2) == (BitOp::Write { bits, value }).words(),
    ensures
        m.run(11) == write_ready(m, bits, value),
        forall|k: nat|
            k <= 11 ==> (#[trigger] m.run(k)).dat_driven == (k >= 9 || m.dat_driven) && (k >= 6
                ==> m.run(k).dat == bit(value, 0)),
{
    lemma_small_words();
    let header = bits | 0x8000_0000;
    assert(m.tx[0] == m.tx.take(2)[0] && m.tx[1] == m.tx.take(2)[1]);
    assert(header & 0x7fff_ffff == bits % 0x8000_0000 && header >> 31u32 == 1) by (bit_vector)
        requires
            header == bits | 0x8000_0000,
    ;
    let m1 = m.step();
    let m2 = m1.step();
    let m3 = m2.step();
    let m4 = m3.step();
    assert(m4 == Machine {
        pc: 4,
        x: header_count(bits),
        y: 1,
        osr: 1,
        tx: m.tx.skip(1),
        cycle: m.cycle + 4,
        ..m
    });
    let m5 = m4.step();
    let m6 = m5.step();
    let m7 = m6.step();
    assert(m.tx.skip(1).skip(1) =~= m.tx.skip(2));
    assert(m7 == Machine {
        pc: 7,
        osr: value >> 1u32,
        isr: value >> 1u32,
        dat: bit(value, 0),
        tx: m.tx.skip(2),
        cycle: m.cycle + 7,
        ..m4
    });
    let m8 = m7.step();
    let m9 = m8.step();
    let m10 = m9.step();
    let m11 = m10.step();
    assert(m11 == write_ready(m, bits, value));
    reveal_with_fuel(Machine::run, 12);
    assert(m.run(0) == m && m.run(1) == m1 && m.run(2) == m2 && m.run(3) == m3);
    assert(m.run(4) == m4 && m.run(5) == m5 && m.run(6) == m6 && m.run(7) == m7);
    assert(m.run(8) == m8 && m.run(9) == m9 && m.run(10) == m10 && m.run(11) == m11);
}

/// Bit `i` of what a write clocks out when `level` is on SWDIO and `osr` holds the rest.
spec fn queued(level: bool, osr: u32, i: int) -> bool {
    if i == 0 {
        level
    } else {
        bit(osr, i - 1)
    }
}

proof fn lemma_queued(level: bool, osr: u32, i: int)
    requires
        i >= 0,
    ensures
        queued(bit(osr, 0), osr >> 1u32, i) == queued(level, osr, i + 1),
{
    if i > 0 {
        lemma_half_bit(osr, i - 1);
    }
}

/// The machine after the rest of a write: `x` more bits after the one on SWDIO.
spec fn written(m: Machine) -> Machine {
    let n = m.x as nat + 1;
    Machine {
        pc: 0,
        x: u32::MAX,
        osr: m.run((3 * m.x + 3) as nat).osr,
        clk: true,
        low_since: (m.cycle + PERIOD * m.x) as nat,
        dat: queued(m.dat, m.osr, m.x as int),
        cycle: (m.cycle + PERIOD * m.x + 6) as nat,
        edges: m.edges + Seq::new(
            n,
            |i: int|
                Edge {
                    cycle: (m.cycle + 4 + PERIOD * i) as nat,
                    low_cycles: HALF_PERIOD as nat,
                    driven: m.dat_driven,
                    level: queued(m.dat, m.osr, i),
                },
        ),
        ..m
    }
}

proof fn lemma_write_loop(m: Machine)
    requires
        m.pc == 14,
    ensures
        m.run((3 * m.x + 3) as nat) == written(m),
    decreases m.x,
{
    lemma_small_words();
    let m1 = m.step();
    let m2 = m1.step();
    let m3 = m2.step();
    if m.x == 0 {
        reveal_with_fuel(Machine::run, 4);
        assert(m.run(3) == m3);
        assert(m3.edges =~= written(m).edges);
    } else {
        assert(m3.pc == 14 && m3.x == m.x - 1);
        reveal_with_fuel(Machine::run, 4);
        assert(m.run(3) == m3);
        lemma_run_on(m, 3, (3 * m3.x + 3) as nat);
        lemma_write_loop(m3);
        assert(m3.dat == bit(m.osr, 0) && m3.osr == m.osr >> 1u32);
        lemma_queued(m.dat, m.osr, m3.x as int);
        assert forall|i: int| 0 <= i < written(m).edges.len() implies written(m3).edges[i]
            == written(m).edges[i] by {
            let j = i - m.edges.len();
            if j >= 1 {
                lemma_queued(m.dat, m.osr, j - 1);
            }
        }
        assert(written(m3).edges =~= written(m).edges);
    }
}

/// How many instructions a write of `bits` bits takes.
pub open spec fn write_steps(bits: u32) -> nat {
    if header_count(bits) == 0 {
        12
    } else {
        (3 * header_count(bits) + 11) as nat
    }
}

/// The edges of a write of `bits` bits of `value`, the first of them in cycle `start`.
pub open spec fn write_edges(start: nat, bits: u32, value: u32) -> Seq<Edge> {
    Seq::new(
        header_count(bits) as nat,
        |i: int|
            Edge {
                cycle: (start + PERIOD * i) as nat,
                low_cycles: HALF_PERIOD as nat,
                driven: true,
                level: bit(value, i),
            },
    )
}

/// The edges of a read of `bits` bits, the first of them in cycle `start`.
pub open spec fn read_edges(start: nat, bits: u32, level: bool) -> Seq<Edge> {
    Seq::new(
        bits as nat,
        |i: int|
            Edge {
                cycle: (start + PERIOD * i) as nat,
                low_cycles: HALF_PERIOD as nat,
                driven: false,
                level,
            },
    )
}

/// Where SWDIO was an input, a write makes it an output only when it has the level of the first
/// bit already, and keeps that level while the rest of the header is taken.
pub proof fn law_level_before_direction(m: Machine, bits: u32, value: u32, k: nat)
    requires
        m.pc == WRAP_TARGET,
        m.tx.len() >= 2,
        m.tx.take(2) == (BitOp::Write { bits, value }).words(),
        !m.dat_driven,
        k <= 11,
        m.run(k).dat_driven,
    ensures
        m.run(k).dat == bit(value, 0),
{
    lemma_write_header(m, bits, value);
}

/// A write of `bits` bits, modulo 2^31, takes its two words, and gives SWCLK one pulse for each
/// bit. At the rising edges, which are a period apart and come after half a period in which
/// SWCLK is low, the machine drives SWDIO with the bits of the value, least significant first,
/// extended with zeros. Without bits, SWDIO takes the level of bit 0 and SWCLK stays as it is.
/// SWDIO is an output from then on, and the program waits for the next header.
pub proof fn law_write_on_machine(m: Machine, bits: u32, value: u32)
    requires
        m.pc == WRAP_TARGET,
        m.tx.len() >= 2,
        m.tx.take(2) == (BitOp::Write { bits, value }).words(),
    ensures
        ({
            let end = m.run(write_steps(bits));
            let n = header_count(bits);
            &&& end.pc == WRAP_TARGET
            &&& end.tx == m.tx.skip(2)
            &&& end.rx == m.rx
            &&& end.line == m.line
            &&& end.clk_driven == m.clk_driven
            &&& end.dat_driven
            &&& end.dat == bit(value, if n == 0 { 0 } else { n - 1 })
            &&& end.clk == (n > 0 || m.clk)
            &&& end.edges == m.edges + write_edges(m.cycle + 15, bits, value)
        }),
{
    lemma_small_words();
    lemma_write_header(m, bits, value);
    let ready = write_ready(m, bits, value);
    let n = header_count(bits);
    if n == 0 {
        lemma_run_on(m, 11, 1);
        reveal_with_fuel(Machine::run, 2);
        assert(m.run(12) == ready.step());
        assert(ready.step().edges =~= m.edges + write_edges(m.cycle + 15, bits, value));
    } else {
        lemma_run_on(m, 11, (3 * ready.x + 3) as nat);
        lemma_write_loop(ready);
        let end = written(ready);
        assert forall|i: int| 0 <= i < n implies queued(ready.dat, ready.osr, i) == bit(
            value,
            i,
        ) by {
            lemma_first_queued(value, i);
        }
        assert(end.edges =~= m.edges + write_edges(m.cycle + 15, bits, value));
    }
}

proof fn lemma_first_queued(value: u32, i: int)
    requires
        i >= 0,
    ensures
        queued(bit(value, 0), value >> 1u32, i) == bit(value, i),
{
    lemma_queued(false, value, i);
}

/// The machine after the header of a read.
spec fn read_ready(m: Machine, bits: u32) -> Machine {
    Machine {
        pc: if bits == 0 {
            19
        } else {
            25
        },
        x: if bits == 0 {
            u32::MAX
        } else {
            (bits - 1) as u32
        },
        y: 0,
        osr: 0,
        dat_driven: false,
        tx: m.tx.skip(1),
        cycle: m.cycle + 8,
        ..m
    }
}

proof fn lemma_read_header(m: Machine, bits: u32)
    requires
        m.pc == WRAP_TARGET,
        bits < 0x8000_0000,
        m.tx.len() >= 1,
        m.tx.take(1) == (BitOp::Read { bits }).words(),
    ensures
        m.run(6) == read_ready(m, bits),
{
    lemma_small_words();
    assert(m.tx[0] == m.tx.take(1)[0]);
    assert(bits & 0x7fff_ffff == bits && bits >> 31u32 == 0 && 0u32 >> 1u32 == 0) by (bit_vector)
        requires
            bits < 0x8000_0000,
    ;
    let m1 = m.step();
    let m2 = m1.step();
    let m3 = m2.step();
    let m4 = m3.step();
    assert(m4 == Machine {
        pc: 17,
        x: bits,
        y: 0,
        osr: 0,
        tx: m.tx.skip(1),
        cycle: m.cycle + 4,
        ..m
    });
    let m5 = m4.step();
    let m6 = m5.step();
    assert(m6 == read_ready(m, bits));
    reveal_with_fuel(Machine::run, 7);
}

/// A shift register after the first `k` levels of `line` entered it, one after the other.
spec fn sampled(isr: u32, line: Seq<bool>, k: nat) -> u32
    decreases k,
{
    if k == 0 {
        isr
    } else {
        sampled(shifted_in(isr, level_word(line[0]), 1), line.skip(1), (k - 1) as nat)
    }
}

proof fn lemma_sampled_bit(isr: u32, line: Seq<bool>, k: nat, i: int)
    requires
        0 <= i < 32,
        k <= line.len(),
    ensures
        bit(sampled(isr, line, k), i) == if i + k < 32 {
            bit(isr, i + k)
        } else {
            line[i + k - 32]
        },
    decreases k,
{
    if k > 0 {
        let level = level_word(line[0]);
        let next = shifted_in(isr, level, 1);
        lemma_sampled_bit(next, line.skip(1), (k - 1) as nat, i);
        let j = i + k - 1;
        if j < 31 {
            let s = j as u32;
            assert((next >> s) & 1 == (isr >> ((s + 1) as u32)) & 1) by (bit_vector)
                requires
                    s < 31,
                    level <= 1,
                    next == (isr >> 1u8) | (level << 31u8),
            ;
        } else if j == 31 {
            assert((next >> 31u32) & 1 == level) by (bit_vector)
                requires
                    level <= 1,
                    next == (isr >> 1u8) | (level << 31u8),
            ;
        }
    }
}

/// The machine after the rest of a read: `x` more bits after the next one.
spec fn read_out(m: Machine) -> Machine {
    let n = m.x as nat + 1;
    Machine {
        pc: 0,
        x: u32::MAX,
        isr: 0,
        clk: true,
        low_since: (m.cycle + PERIOD * m.x) as nat,
        rx: m.rx.push(sampled(m.isr, m.line, n)),
        line: m.line.skip(n as int),
        cycle: (m.cycle + PERIOD * m.x + 6) as nat,
        edges: m.edges + Seq::new(
            n,
            |i: int|
                Edge {
                    cycle: (m.cycle + 4 + PERIOD * i) as nat,
                    low_cycles: HALF_PERIOD as nat,
                    driven: false,
                    level: m.dat,
                },
        ),
        ..m
    }
}

proof fn lemma_read_loop(m: Machine)
    requires
        m.pc == 25,
        !m.dat_driven,
        m.line.len() > m.x,
    ensures
        m.run((2 * m.x + 3) as nat) == read_out(m),
    decreases m.x,
{
    let m1 = m.step();
    let m2 = m1.step();
    let m3 = m2.step();
    reveal_with_fuel(sampled, 2);
    if m.x == 0 {
        reveal_with_fuel(Machine::run, 4);
        assert(m.run(3) == m3);
        assert(m3.edges =~= read_out(m).edges);
        assert(m3.rx == read_out(m).rx);
    } else {
        assert(m2.pc == 25 && m2.x == m.x - 1);
        reveal_with_fuel(Machine::run, 3);
        assert(m.run(2) == m2);
        lemma_run_on(m, 2, (2 * m2.x + 3) as nat);
        lemma_read_loop(m2);
        assert(m2.line.skip(m2.x as int + 1) =~= m.line.skip(m.x as int + 1));
        assert(read_out(m2).edges =~= read_out(m).edges);
        assert(read_out(m2) == read_out(m));
    }
}

/// How many instructions a read of `bits` bits takes.
pub open spec fn read_steps(bits: u32) -> nat {
    if bits == 0 {
        11
    } else {
        (2 * bits + 7) as nat
    }
}

/// How many times a read of `bits` bits samples SWDIO.
pub open spec fn samples(bits: u32) -> nat {
    if bits == 0 {
        1
    } else {
        bits as nat
    }
}

/// A read of `bits` bits takes its word, makes SWDIO an input, and gives SWCLK one pulse for
/// each bit, with the rising edges a period apart, after half a period in which SWCLK is low. It
/// leaves one word in the RX FIFO, from
/// which the reply has the levels of the line, least significant bit first and zeros above, as
/// long as they fit the word. Without bits, SWDIO is sampled once and SWCLK stays as it is.
pub proof fn law_read_on_machine(m: Machine, bits: u32)
    requires
        m.pc == WRAP_TARGET,
        bits < 0x8000_0000,
        m.tx.len() >= 1,
        m.tx.take(1) == (BitOp::Read { bits }).words(),
        m.line.len() >= samples(bits),
    ensures
        ({
            let end = m.run(read_steps(bits));
            &&& end.pc == WRAP_TARGET
            &&& end.tx == m.tx.skip(1)
            &&& end.line == m.line.skip(samples(bits) as int)
            &&& end.clk_driven == m.clk_driven
            &&& !end.dat_driven
            &&& end.dat == m.dat
            &&& end.clk == (bits > 0 || m.clk)
            &&& end.edges == m.edges + read_edges(m.cycle + 12, bits, m.dat)
            &&& end.rx.len() == m.rx.len() + 1
            &&& end.rx.drop_last() == m.rx
            &&& bits <= 32 ==> forall|i: int|
                0 <= i < 32 ==> #[trigger] bit(reply_value(bits, end.rx.last()), i) == (i < samples(
                    bits,
                ) && m.line[i])
        }),
{
    lemma_small_words();
    lemma_read_header(m, bits);
    let ready = read_ready(m, bits);
    let end = m.run(read_steps(bits));
    if bits == 0 {
        lemma_run_on(m, 6, 5);
        let m1 = ready.step();
        let m2 = m1.step();
        let m3 = m2.step();
        let m4 = m3.step();
        let m5 = m4.step();
        reveal_with_fuel(Machine::run, 6);
        assert(end == m5);
        let level = level_word(m.line[0]);
        let isr = m.isr;
        let one = (isr >> 1u8) | (level << 31u8);
        let word = (one >> 31u8) | (0u32 << 1u8);
        assert(m3.isr == word);
        assert(word == level) by (bit_vector)
            requires
                level <= 1,
                one == (isr >> 1u8) | (level << 31u8),
                word == (one >> 31u8) | (0u32 << 1u8),
        ;
        assert(end.rx =~= m.rx.push(word));
        assert(end.rx.drop_last() =~= m.rx);
        lemma_low_bit(word);
        assert forall|i: int| 0 <= i < 32 implies #[trigger] bit(
            reply_value(bits, end.rx.last()),
            i,
        ) == (i < samples(bits) && m.line[i]) by {
            let k = i as u32;
            assert((word >> k) & 1 == if k == 0 { word } else { 0 }) by (bit_vector)
                requires
                    word <= 1,
                    k < 32,
            ;
        }
        assert(end.edges =~= m.edges + read_edges(m.cycle + 12, bits, m.dat));
    } else {
        lemma_run_on(m, 6, (2 * ready.x + 3) as nat);
        lemma_read_loop(ready);
        assert(end == read_out(ready));
        let word = sampled(m.isr, m.line, bits as nat);
        assert(end.rx.drop_last() =~= m.rx);
        assert(end.rx.last() == word);
        if bits <= 32 {
            let shift = reply_shift(bits);
            assert forall|i: int| 0 <= i < 32 implies #[trigger] bit(
                reply_value(bits, end.rx.last()),
                i,
            ) == (i < samples(bits) && m.line[i]) by {
                let k = i as u32;
                if i < bits {
                    assert((word >> shift) >> k == word >> ((shift + k) as u32)) by (bit_vector)
                        requires
                            shift + k < 32,
                    ;
                    lemma_sampled_bit(m.isr, m.line, bits as nat, i + shift);
                } else {
                    assert(((word >> shift) >> k) & 1 == 0) by (bit_vector)
                        requires
                            shift < 32,
                            k < 32,
                            shift + k >= 32,
                    ;
                }
            }
        }
        assert(end.edges =~= m.edges + read_edges(m.cycle + 12, bits, m.dat));
    }
}

} // verus!
