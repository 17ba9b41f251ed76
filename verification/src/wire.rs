//! What the operations of the interface come to on the line, when the state machine carries
//! them out.
use crate::bits::{bit, lemma_low_bit};
use crate::fifo::{header_count, line_out, reply_value, BitOp, DIRECTION_WRITE};
use crate::instruction::encode_operands;
use crate::machine::{
    law_read_on_machine, law_write_on_machine, read_steps, samples, write_steps, Edge, Machine,
};
use crate::program::WRAP_TARGET;
use crate::sequence::{
    byte_len, carries, data_bit, data_bits, gathered, law_read_sequence_off_line,
    law_write_sequence_on_line, read_script, word_bits, write_script,
};
use crate::swd_io_set::{
    clk_pindir, connect_commands, disconnect_commands, lemma_clk_pindir_words, release, Command,
};
use crate::transfer::drive;
use vstd::prelude::*;

verus! {

/// Whether the machine waits for a header.
pub open spec fn waiting(m: Machine) -> bool {
    m.pc == WRAP_TARGET && m.tx.len() == 0
}

/// The machine after the words of an operation went to the TX FIFO and the program took them.
pub open spec fn performed(m: Machine, op: BitOp) -> Machine {
    let fed = Machine { tx: m.tx + op.words(), ..m };
    match op {
        BitOp::Write { bits, value: _ } => fed.run(write_steps(bits)),
        BitOp::Read { bits } => fed.run(read_steps(bits)),
    }
}

/// The machine after some operations, one after the other.
pub open spec fn performed_all(m: Machine, ops: Seq<BitOp>) -> Machine
    decreases ops.len(),
{
    if ops.len() == 0 {
        m
    } else {
        performed_all(performed(m, ops[0]), ops.skip(1))
    }
}

/// What an operation returns: the reply to a read, and zero for a write.
pub open spec fn returned(m: Machine, op: BitOp) -> u32 {
    match op {
        BitOp::Write { bits: _, value: _ } => 0,
        BitOp::Read { bits } => reply_value(bits, performed(m, op).rx.last()),
    }
}

/// What some operations return, one after the other.
pub open spec fn returned_all(m: Machine, ops: Seq<BitOp>) -> Seq<u32>
    decreases ops.len(),
{
    if ops.len() == 0 {
        seq![]
    } else {
        seq![returned(m, ops[0])] + returned_all(performed(m, ops[0]), ops.skip(1))
    }
}

/// The machine after a command. The only instructions that the interface has executed in between
/// are the two that set the direction of SWCLK.
pub open spec fn commanded(m: Machine, command: Command) -> Machine
    recommends
        command matches Command::Execute(word) ==> word == encode_operands(clk_pindir(true)) || word
            == encode_operands(clk_pindir(false)),
{
    match command {
        Command::Execute(word) => if word == encode_operands(clk_pindir(true)) {
            m.between(clk_pindir(true))
        } else if word == encode_operands(clk_pindir(false)) {
            m.between(clk_pindir(false))
        } else {
            m
        },
        Command::Perform(op) => performed(m, op),
    }
}

/// The levels of SWDIO at some edges.
pub open spec fn levels(edges: Seq<Edge>) -> Seq<bool> {
    Seq::new(edges.len(), |i: int| edges[i].level)
}

/// Whether the header of an operation says what the operation is: the count of a read must leave
/// the direction alone, while that of a write cannot touch it.
pub open spec fn fits_header(op: BitOp) -> bool {
    op matches BitOp::Read { bits } ==> bits < DIRECTION_WRITE
}

/// How often an operation samples SWDIO.
pub open spec fn op_samples(op: BitOp) -> nat {
    match op {
        BitOp::Write { bits: _, value: _ } => 0,
        BitOp::Read { bits } => samples(bits),
    }
}

/// How many pulses an operation gives SWCLK.
pub open spec fn op_pulses(op: BitOp) -> nat {
    match op {
        BitOp::Write { bits, value: _ } => header_count(bits) as nat,
        BitOp::Read { bits } => bits as nat,
    }
}

/// How often some operations sample SWDIO.
pub open spec fn samples_all(ops: Seq<BitOp>) -> nat
    decreases ops.len(),
{
    if ops.len() == 0 {
        0
    } else {
        op_samples(ops[0]) + samples_all(ops.skip(1))
    }
}

/// How many pulses some operations give SWCLK.
pub open spec fn pulses_all(ops: Seq<BitOp>) -> nat
    decreases ops.len(),
{
    if ops.len() == 0 {
        0
    } else {
        op_pulses(ops[0]) + pulses_all(ops.skip(1))
    }
}

/// How many of some operations are reads.
pub open spec fn reads_in(ops: Seq<BitOp>) -> nat
    decreases ops.len(),
{
    if ops.len() == 0 {
        0
    } else {
        (if ops[0] is Read {
            1nat
        } else {
            0
        }) + reads_in(ops.skip(1))
    }
}

/// An operation leaves the machine waiting again.
pub proof fn law_machine_waits_again(m: Machine, op: BitOp)
    requires
        waiting(m),
        fits_header(op),
        m.line.len() >= op_samples(op),
    ensures
        waiting(performed(m, op)),
{
    let fed = Machine { tx: m.tx + op.words(), ..m };
    match op {
        BitOp::Write { bits, value } => {
            assert(fed.tx.take(2) =~= op.words());
            law_write_on_machine(fed, bits, value);
        },
        BitOp::Read { bits } => {
            assert(fed.tx.take(1) =~= op.words());
            law_read_on_machine(fed, bits);
        },
    }
}

/// What an operation does to the machine whatever its value: it gives SWCLK its pulses, takes
/// its samples from the line, returns a word if it is a read, leaves SWDIO driven if it is a
/// write, keeps what was there before, and leaves the machine waiting again.
pub proof fn law_operation_on_machine(m: Machine, op: BitOp)
    requires
        waiting(m),
        fits_header(op),
        m.line.len() >= op_samples(op),
    ensures
        ({
            let end = performed(m, op);
            &&& waiting(end)
            &&& end.clk_driven == m.clk_driven
            &&& end.dat_driven == (op is Write)
            &&& end.line == m.line.skip(op_samples(op) as int)
            &&& end.edges.len() == m.edges.len() + op_pulses(op)
            &&& end.edges.take(m.edges.len() as int) == m.edges
            &&& op is Write ==> end.rx == m.rx
            &&& op is Read ==> end.rx.len() == m.rx.len() + 1 && end.rx.drop_last() == m.rx
        }),
{
    let fed = Machine { tx: m.tx + op.words(), ..m };
    law_machine_waits_again(m, op);
    match op {
        BitOp::Write { bits, value } => {
            assert(fed.tx.take(2) =~= op.words());
            law_write_on_machine(fed, bits, value);
            assert(m.line.skip(0) =~= m.line);
        },
        BitOp::Read { bits } => {
            assert(fed.tx.take(1) =~= op.words());
            law_read_on_machine(fed, bits);
        },
    }
    assert(performed(m, op).edges.take(m.edges.len() as int) =~= m.edges);
}

/// What some operations do to the machine, one after the other: SWCLK gets the pulses of all of
/// them, the line gives the samples of all of them, each read returns exactly one word, in
/// order, from which its reply comes, SWDIO is left as the last of them leaves it, and the
/// machine waits again.
pub proof fn law_operations_on_machine(m: Machine, ops: Seq<BitOp>)
    requires
        waiting(m),
        forall|i: int| 0 <= i < ops.len() ==> fits_header(#[trigger] ops[i]),
        m.line.len() >= samples_all(ops),
    ensures
        ({
            let end = performed_all(m, ops);
            &&& waiting(end)
            &&& end.clk_driven == m.clk_driven
            &&& end.dat_driven == if ops.len() == 0 { m.dat_driven } else { ops.last() is Write }
            &&& end.line == m.line.skip(samples_all(ops) as int)
            &&& end.edges.len() == m.edges.len() + pulses_all(ops)
            &&& end.edges.take(m.edges.len() as int) == m.edges
            &&& end.rx.len() == m.rx.len() + reads_in(ops)
            &&& end.rx.take(m.rx.len() as int) == m.rx
            &&& returned_all(m, ops).len() == ops.len()
            &&& forall|i: int|
                #![trigger ops[i]]
                0 <= i < ops.len() && ops[i] is Read ==> reads_in(ops.take(i)) < reads_in(ops)
                    && returned_all(m, ops)[i] == reply_value(
                    ops[i]->Read_bits,
                    end.rx[(m.rx.len() + reads_in(ops.take(i))) as int],
                )
        }),
    decreases ops.len(),
{
    if ops.len() > 0 {
        let op = ops[0];
        let next = performed(m, op);
        let rest = ops.skip(1);
        law_operation_on_machine(m, op);
        law_operations_on_machine(next, rest);
        let end = performed_all(m, ops);
        assert(end.line =~= m.line.skip(samples_all(ops) as int));
        assert(end.edges.take(m.edges.len() as int) =~= m.edges) by {
            assert forall|i: int| 0 <= i < m.edges.len() implies end.edges[i] == m.edges[i] by {
                assert(end.edges.take(next.edges.len() as int)[i] == next.edges[i]);
                assert(next.edges.take(m.edges.len() as int)[i] == m.edges[i]);
            }
        }
        assert forall|i: int| 0 <= i < next.rx.len() implies end.rx[i] == next.rx[i] by {
            assert(end.rx.take(next.rx.len() as int)[i] == next.rx[i]);
        }
        assert(end.rx.take(m.rx.len() as int) =~= m.rx) by {
            if op is Read {
                assert forall|i: int| 0 <= i < m.rx.len() implies next.rx[i] == m.rx[i] by {
                    assert(next.rx.drop_last()[i] == m.rx[i]);
                }
            }
        }
        if rest.len() > 0 {
            assert(ops.last() == rest.last());
        }
        assert forall|i: int|
            #![trigger ops[i]]
            0 <= i < ops.len() && ops[i] is Read implies reads_in(ops.take(i)) < reads_in(ops)
            && returned_all(m, ops)[i] == reply_value(
            ops[i]->Read_bits,
            end.rx[(m.rx.len() + reads_in(ops.take(i))) as int],
        ) by {
            if i == 0 {
                assert(ops.take(0) =~= seq![]);
            } else {
                assert(ops[i] == rest[i - 1]);
                assert(ops.take(i).skip(1) =~= rest.take(i - 1));
                assert(returned_all(m, ops)[i] == returned_all(next, rest)[i - 1]);
            }
        }
    } else {
        assert(m.line.skip(0) =~= m.line);
        assert(m.edges.take(m.edges.len() as int) =~= m.edges);
        assert(m.rx.take(m.rx.len() as int) =~= m.rx);
    }
}

/// Writes put their bits on the line one after the other: at the rising edges of SWCLK the
/// machine drives SWDIO with them, and there are no other edges.
pub proof fn law_writes_on_machine(m: Machine, ops: Seq<BitOp>)
    requires
        waiting(m),
        forall|i: int| 0 <= i < ops.len() ==> #[trigger] ops[i] is Write,
    ensures
        waiting(performed_all(m, ops)),
        performed_all(m, ops).line == m.line,
        performed_all(m, ops).rx == m.rx,
        levels(performed_all(m, ops).edges) == levels(m.edges) + line_out(ops),
        forall|i: int|
            m.edges.len() <= i < performed_all(m, ops).edges.len()
                ==> (#[trigger] performed_all(m, ops).edges[i]).driven,
    decreases ops.len(),
{
    if ops.len() > 0 {
        let op = ops[0];
        let next = performed(m, op);
        let fed = Machine { tx: m.tx + op.words(), ..m };
        law_machine_waits_again(m, op);
        assert(fed.tx.take(2) =~= op.words());
        law_write_on_machine(fed, op->Write_bits, op->value);
        assert(levels(next.edges) =~= levels(m.edges) + op.line_bits());
        law_writes_on_machine(next, ops.skip(1));
        assert(levels(performed_all(m, ops).edges) =~= levels(m.edges) + line_out(ops));
        assert forall|i: int|
            m.edges.len() <= i < performed_all(m, ops).edges.len() implies (
        #[trigger] performed_all(m, ops).edges[i]).driven by {
            if i < next.edges.len() {
                lemma_edges_stay(next, ops.skip(1), i);
            }
        }
    } else {
        assert(levels(m.edges) =~= levels(m.edges) + line_out(ops));
    }
}

proof fn lemma_edges_stay(m: Machine, ops: Seq<BitOp>, i: int)
    requires
        waiting(m),
        forall|j: int| 0 <= j < ops.len() ==> #[trigger] ops[j] is Write,
        0 <= i < m.edges.len(),
    ensures
        performed_all(m, ops).edges.len() >= m.edges.len(),
        performed_all(m, ops).edges[i] == m.edges[i],
    decreases ops.len(),
{
    if ops.len() > 0 {
        let op = ops[0];
        let fed = Machine { tx: m.tx + op.words(), ..m };
        law_machine_waits_again(m, op);
        assert(fed.tx.take(2) =~= op.words());
        law_write_on_machine(fed, op->Write_bits, op->value);
        lemma_edges_stay(performed(m, op), ops.skip(1), i);
    }
}

/// A write sequence puts the first `count` bits of its data on the line, one at each rising
/// edge of SWCLK, the bits of each byte from the lowest up. The machine drives SWDIO at each of
/// these edges, takes nothing from the line, returns no word, and waits again.
pub proof fn law_write_sequence_on_machine(m: Machine, data: Seq<u8>, count: nat)
    requires
        waiting(m),
        byte_len(count) <= data.len(),
    ensures
        ({
            let end = performed_all(m, write_script(data, count));
            &&& levels(end.edges) == levels(m.edges) + data_bits(data, count)
            &&& forall|i: int|
                m.edges.len() <= i < end.edges.len() ==> (#[trigger] end.edges[i]).driven
            &&& waiting(end)
            &&& end.line == m.line
            &&& end.rx == m.rx
        }),
{
    lemma_script_writes(data, count);
    law_writes_on_machine(m, write_script(data, count));
    law_write_sequence_on_line(data, count);
}

proof fn lemma_script_writes(data: Seq<u8>, count: nat)
    ensures
        forall|i: int|
            0 <= i < write_script(data, count).len() ==> (#[trigger] write_script(data, count)[i])
                is Write,
    decreases count,
{
    if count > 0 {
        let n = word_bits(count);
        let rest = write_script(data.skip(byte_len(n) as int), (count - n) as nat);
        lemma_script_writes(data.skip(byte_len(n) as int), (count - n) as nat);
        assert forall|i: int|
            0 <= i < write_script(data, count).len() implies #[trigger] write_script(
            data,
            count,
        )[i] is Write by {
            if i > 0 {
                assert(write_script(data, count)[i] == rest[i - 1]);
            }
        }
    }
}

/// A read sequence leaves in its data the levels that the other end gave SWDIO, the bits of
/// each byte from the lowest up; the rest of the last byte is zero, and no byte behind it
/// changes. It takes one level of the line and one rising edge of SWCLK for each bit, returns
/// one word for each operation, and leaves the machine waiting again.
pub proof fn law_read_sequence_on_machine(m: Machine, data: Seq<u8>, count: nat)
    requires
        waiting(m),
        byte_len(count) <= data.len(),
        m.line.len() >= count,
    ensures
        ({
            let result = gathered(data, 0, count, returned_all(m, read_script(count)));
            let end = performed_all(m, read_script(count));
            &&& data_bits(result, count) == m.line.take(count as int)
            &&& forall|i: int|
                count <= i < 8 * byte_len(count) ==> !#[trigger] data_bit(result, i)
            &&& result.len() == data.len()
            &&& forall|i: int| byte_len(count) <= i < data.len() ==> result[i] == data[i]
            &&& waiting(end)
            &&& end.line == m.line.skip(count as int)
            &&& end.edges.len() == m.edges.len() + count
            &&& end.rx.len() == m.rx.len() + read_script(count).len()
            &&& count > 0 ==> !end.dat_driven
        }),
{
    let values = returned_all(m, read_script(count));
    lemma_read_script_totals(count);
    law_operations_on_machine(m, read_script(count));
    lemma_read_script_carries(m, count);
    law_read_sequence_off_line(data, 0, count, values, m.line.take(count as int));
    let result = gathered(data, 0, count, values);
    assert(result.skip(0) =~= result);
}

proof fn lemma_read_script_totals(count: nat)
    ensures
        forall|i: int|
            0 <= i < read_script(count).len() ==> fits_header(#[trigger] read_script(count)[i])
                && read_script(count)[i] is Read,
        samples_all(read_script(count)) == count,
        pulses_all(read_script(count)) == count,
        reads_in(read_script(count)) == read_script(count).len(),
        count > 0 ==> read_script(count).len() > 0,
    decreases count,
{
    if count > 0 {
        let n = word_bits(count);
        let rest = read_script((count - n) as nat);
        lemma_read_script_totals((count - n) as nat);
        assert(read_script(count).skip(1) =~= rest);
        assert forall|i: int| 0 <= i < read_script(count).len() implies fits_header(
            #[trigger] read_script(count)[i],
        ) && read_script(count)[i] is Read by {
            if i > 0 {
                assert(read_script(count)[i] == rest[i - 1]);
            }
        }
    }
}

proof fn lemma_read_script_carries(m: Machine, count: nat)
    requires
        waiting(m),
        m.line.len() >= count,
    ensures
        carries(returned_all(m, read_script(count)), m.line.take(count as int), count),
    decreases count,
{
    if count > 0 {
        let n = word_bits(count);
        let op = BitOp::Read { bits: n as u32 };
        let script = read_script(count);
        let fed = Machine { tx: m.tx + op.words(), ..m };
        let next = performed(m, op);
        let values = returned_all(m, script);
        let line = m.line.take(count as int);
        law_machine_waits_again(m, op);
        assert(fed.tx.take(1) =~= op.words());
        law_read_on_machine(fed, n as u32);
        lemma_read_script_carries(next, (count - n) as nat);
        assert(script.skip(1) =~= read_script((count - n) as nat));
        assert(values.skip(1) =~= returned_all(next, script.skip(1)));
        assert(next.line.take(count - n) =~= line.skip(n as int));
        assert forall|i: int| 0 <= i < 32 implies #[trigger] bit(values[0], i) == (i < n
            && line[i]) by {
            assert(bit(reply_value(n as u32, next.rx.last()), i) == (i < samples(n as u32)
                && m.line[i]));
        }
    }
}

/// The operation that drives SWDIO sets its level without a clock edge.
pub proof fn law_drive(m: Machine, output: bool)
    requires
        waiting(m),
    ensures
        performed(m, drive(output)).dat_driven,
        performed(m, drive(output)).dat == output,
        performed(m, drive(output)).clk == m.clk,
        performed(m, drive(output)).edges == m.edges,
        performed(m, drive(output)).clk_driven == m.clk_driven,
{
    let op = drive(output);
    let fed = Machine { tx: m.tx + op.words(), ..m };
    let value: u32 = if output {
        1
    } else {
        0
    };
    assert(fed.tx.take(2) =~= op.words());
    law_write_on_machine(fed, 0, value);
    lemma_low_bit(value);
    assert(performed(m, op).edges =~= m.edges);
}

/// The operation that releases SWDIO makes it an input without a clock edge.
pub proof fn law_release(m: Machine)
    requires
        waiting(m),
        m.line.len() >= 1,
    ensures
        !performed(m, release()).dat_driven,
        performed(m, release()).clk == m.clk,
        performed(m, release()).edges == m.edges,
        performed(m, release()).clk_driven == m.clk_driven,
{
    let op = release();
    let fed = Machine { tx: m.tx + op.words(), ..m };
    assert(fed.tx.take(1) =~= op.words());
    law_read_on_machine(fed, 0);
    assert(performed(m, op).edges =~= m.edges);
}

/// After connecting, the machine drives SWCLK, and SWDIO high. Connecting gives no clock edge.
pub proof fn law_connect(m: Machine)
    requires
        waiting(m),
    ensures
        ({
            let end = commanded(commanded(m, connect_commands()[0]), connect_commands()[1]);
            &&& waiting(end)
            &&& end.clk_driven
            &&& end.dat_driven
            &&& end.dat
            &&& end.clk == m.clk
            &&& end.edges == m.edges
            &&& end.line == m.line
            &&& end.rx == m.rx
        }),
{
    let next = commanded(m, connect_commands()[0]);
    law_drive(next, true);
    law_operation_on_machine(next, drive(true));
    assert(next.line.skip(0) =~= next.line);
}

/// After disconnecting, the machine drives neither pin. Disconnecting gives no clock edge; it
/// samples SWDIO once, and returns that as one word.
pub proof fn law_disconnect(m: Machine)
    requires
        waiting(m),
        m.line.len() >= 1,
    ensures
        ({
            let end = commanded(commanded(m, disconnect_commands()[0]), disconnect_commands()[1]);
            &&& waiting(end)
            &&& !end.clk_driven
            &&& !end.dat_driven
            &&& end.clk == m.clk
            &&& end.edges == m.edges
            &&& end.line == m.line.skip(1)
            &&& end.rx.len() == m.rx.len() + 1
            &&& end.rx.drop_last() == m.rx
        }),
{
    law_release(m);
    law_operation_on_machine(m, release());
    lemma_clk_pindir_words();
}

/// The machine after connecting.
pub open spec fn connected(m: Machine) -> Machine {
    commanded(commanded(m, connect_commands()[0]), connect_commands()[1])
}

/// The machine after disconnecting.
pub open spec fn disconnected(m: Machine) -> Machine {
    commanded(commanded(m, disconnect_commands()[0]), disconnect_commands()[1])
}

/// A session: connecting, any operations, and disconnecting. SWCLK is driven throughout the
/// operations, and afterwards both pins are inputs and the machine waits. SWCLK has got the
/// pulses of the operations and no others. Each read has given exactly one word, in the order of
/// the reads, and its reply comes from that word; disconnecting gives one word more.
pub proof fn law_session(m: Machine, ops: Seq<BitOp>)
    requires
        waiting(m),
        forall|i: int| 0 <= i < ops.len() ==> fits_header(#[trigger] ops[i]),
        m.line.len() >= samples_all(ops) + 1,
    ensures
        ({
            let start = connected(m);
            let worked = performed_all(start, ops);
            let end = disconnected(worked);
            &&& start.clk_driven && start.dat_driven && start.dat
            &&& worked.clk_driven
            &&& waiting(end)
            &&& !end.clk_driven
            &&& !end.dat_driven
            &&& end.line == m.line.skip(samples_all(ops) as int + 1)
            &&& end.edges.len() == m.edges.len() + pulses_all(ops)
            &&& end.edges.take(m.edges.len() as int) == m.edges
            &&& end.rx.len() == m.rx.len() + reads_in(ops) + 1
            &&& end.rx.take(m.rx.len() as int) == m.rx
            &&& returned_all(start, ops).len() == ops.len()
            &&& forall|i: int|
                #![trigger ops[i]]
                0 <= i < ops.len() && ops[i] is Read ==> reads_in(ops.take(i)) < reads_in(ops)
                    && returned_all(start, ops)[i] == reply_value(
                    ops[i]->Read_bits,
                    end.rx[(m.rx.len() + reads_in(ops.take(i))) as int],
                )
        }),
{
    let start = connected(m);
    let worked = performed_all(start, ops);
    let end = disconnected(worked);
    law_connect(m);
    law_operations_on_machine(start, ops);
    law_disconnect(worked);
    assert(end.line =~= m.line.skip(samples_all(ops) as int + 1));
    assert forall|i: int| 0 <= i < worked.rx.len() implies end.rx[i] == worked.rx[i] by {
        assert(end.rx.drop_last()[i] == worked.rx[i]);
    }
    assert(end.rx.take(m.rx.len() as int) =~= worked.rx.take(m.rx.len() as int));
}

} // verus!
