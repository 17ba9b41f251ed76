//! What a sequence does with its data and with the line, call by call and as a whole.
use crate::fifo::BitOp;
use crate::machine::Machine;
use crate::sequence::{
    byte_len, data_bit, data_bits, gathered, lane, packed, read_script, stored, word_bits,
    write_script, ReadSequence, WriteSequence,
};
use crate::swd::SwdIoConfig;
use crate::swd_io_set::SwdIoSet;
use crate::wire::{
    law_read_sequence_on_machine, law_write_sequence_on_machine, levels, performed_all,
    returned_all, waiting,
};
use vstd::prelude::*;

verus! {

/// Whichever way they are started, write sequences start at the front of their data, with the
/// count modulo the range of `u32`; so do read sequences.
pub proof fn law_sequences_start(
    config: SwdIoConfig,
    count: usize,
    data: &[u8],
    swd: WriteSequence,
    swj: WriteSequence,
    read: ReadSequence,
)
    requires
        call_ensures(SwdIoSet::swd_write_sequence, (&config, count, data), swd) || call_ensures(
            WriteSequence::new,
            (count, data),
            swd,
        ),
        call_ensures(SwdIoSet::swj_sequence, (&config, count, data), swj),
        call_ensures(SwdIoSet::swd_read_sequence, (&config, count), read) || call_ensures(
            ReadSequence::new,
            (count,),
            read,
        ),
    ensures
        swd.wf() && swj.wf(),
        swd.left() == count as nat % 0x1_0000_0000,
        swj.left() == count as nat % 0x1_0000_0000,
        swd.rest() == data@,
        swj.rest() == data@,
        read.left() == count as nat % 0x1_0000_0000,
        read.index() == 0,
{
}

/// The bits of the next operation of a sequence with `left` bits left: a full word while there
/// is one.
pub open spec fn at_most_a_word(left: nat) -> nat {
    if left > 32 {
        32
    } else {
        left
    }
}

/// Whether a write sequence takes one step: the operation has as many of the bits that are left
/// as a word holds, its value is the little-endian number that the bytes of these bits make, and
/// exactly these bytes and bits are gone afterwards.
pub open spec fn writes_on(before: WriteSequence, op: BitOp, after: WriteSequence) -> bool {
    let n = at_most_a_word(before.left());
    let byte = |j: int|
        if 8 * j < n {
            before.rest()[j] as int
        } else {
            0
        };
    &&& before.left() > 0
    &&& 8 * before.rest().len() >= n
    &&& op matches BitOp::Write { bits, value } && bits == n && value == byte(0) + 0x100 * byte(1)
        + 0x1_0000 * byte(2) + 0x100_0000 * byte(3)
    &&& after.left() == before.left() - n
    &&& after.rest() == before.rest().skip(((n + 7) / 8) as int)
}

/// What the next call of a write sequence returns and leaves: nothing, and itself, when no bits
/// are left, and otherwise one step.
pub proof fn law_next_write(sequence: &mut WriteSequence, op: Option<BitOp>)
    requires
        old(sequence).wf(),
        old(sequence).backed(),
        call_ensures(WriteSequence::next_op, (sequence,), op),
    ensures
        final(sequence).wf(),
        op is None <==> old(sequence).left() == 0,
        op is None ==> *final(sequence) == *old(sequence),
        op matches Some(op) ==> writes_on(*old(sequence), op, *final(sequence)),
{
    lemma_packed_sum(
        old(sequence).rest(),
        byte_len(word_bits(old(sequence).left())),
    );
}

/// A write sequence is backed if and only if its bytes hold the bits of the next operation.
pub proof fn law_backed(sequence: WriteSequence, backed: bool)
    requires
        sequence.wf(),
        call_ensures(WriteSequence::is_backed, (&sequence,), backed),
    ensures
        backed <==> 8 * sequence.rest().len() >= at_most_a_word(sequence.left()),
        backed == sequence.backed(),
{
}

proof fn lemma_packed_sum(data: Seq<u8>, n: nat)
    ensures
        packed(data, n) == lane(data, n, 0) + 0x100 * lane(data, n, 1) + 0x1_0000 * lane(data, n, 2)
            + 0x100_0000 * lane(data, n, 3),
{
    let a = lane(data, n, 0);
    let b = lane(data, n, 1);
    let c = lane(data, n, 2);
    let d = lane(data, n, 3);
    assert((a | (b << 8) | (c << 16) | (d << 24)) == a + 0x100 * b + 0x1_0000 * c + 0x100_0000 * d)
        by (bit_vector)
        requires
            a < 256,
            b < 256,
            c < 256,
            d < 256,
    ;
}

/// Whether a write sequence goes through `states`, returning `ops`, until no bits are left.
pub open spec fn is_write_run(states: Seq<WriteSequence>, ops: Seq<BitOp>) -> bool {
    &&& states.len() == ops.len() + 1
    &&& states.last().left() == 0
    &&& forall|k: int|
        0 <= k < ops.len() ==> writes_on(#[trigger] states[k], ops[k], states[k + 1])
}

proof fn lemma_write_run(states: Seq<WriteSequence>, ops: Seq<BitOp>)
    requires
        is_write_run(states, ops),
    ensures
        ops == write_script(states[0].rest(), states[0].left()),
        byte_len(states[0].left()) <= states[0].rest().len(),
    decreases ops.len(),
{
    let data = states[0].rest();
    let count = states[0].left();
    if ops.len() > 0 {
        assert(writes_on(states[0], ops[0], states[1]));
        let s = states.skip(1);
        let o = ops.skip(1);
        assert forall|k: int| 0 <= k < o.len() implies writes_on(#[trigger] s[k], o[k], s[k + 1]) by {
            assert(writes_on(states[k + 1], ops[k + 1], states[k + 2]));
        }
        lemma_write_run(s, o);
        lemma_packed_sum(data, byte_len(word_bits(count)));
        assert(ops =~= write_script(data, count));
    } else {
        assert(ops =~= write_script(data, count));
    }
}

/// A write sequence that ran to its end has put exactly its bits on the line: SWCLK gets one
/// pulse for each, and at pulse `i` the machine drives SWDIO with bit `i % 8` of byte `i / 8`,
/// counted from the lowest.
pub proof fn law_write_sequence_run(m: Machine, states: Seq<WriteSequence>, ops: Seq<BitOp>)
    requires
        waiting(m),
        is_write_run(states, ops),
    ensures
        ({
            let data = states[0].rest();
            let end = performed_all(m, ops);
            &&& waiting(end)
            &&& end.edges.len() == m.edges.len() + states[0].left()
            &&& forall|i: int|
                0 <= i < states[0].left() ==> {
                    let edge = #[trigger] end.edges[m.edges.len() + i];
                    &&& edge.driven
                    &&& edge.level == (((data[i / 8] as u32) >> ((i % 8) as u32)) & 1 == 1)
                }
        }),
{
    let data = states[0].rest();
    let count = states[0].left();
    lemma_write_run(states, ops);
    law_write_sequence_on_machine(m, data, count);
    let end = performed_all(m, ops);
    assert(levels(end.edges).len() == m.edges.len() + count);
    assert forall|i: int| 0 <= i < count implies {
        let edge = #[trigger] end.edges[m.edges.len() + i];
        &&& edge.driven
        &&& edge.level == (((data[i / 8] as u32) >> ((i % 8) as u32)) & 1 == 1)
    } by {
        assert(levels(end.edges)[m.edges.len() + i] == data_bits(data, count)[i]);
    }
}

/// What a read sequence asks for next: nothing when no bits are left, and otherwise as many of
/// them as a word holds.
pub proof fn law_next_read(sequence: ReadSequence, op: Option<BitOp>)
    requires
        call_ensures(ReadSequence::next_op, (&sequence,), op),
    ensures
        op is None <==> sequence.left() == 0,
        sequence.left() > 0 ==> op == Some(
            BitOp::Read { bits: at_most_a_word(sequence.left()) as u32 },
        ),
{
}

/// A reply fits a buffer if and only if its last byte lies in it.
pub proof fn law_fits(sequence: ReadSequence, len: usize, fits: bool)
    requires
        call_ensures(ReadSequence::fits, (&sequence, len), fits),
    ensures
        fits <==> 8 * (len - sequence.index()) >= at_most_a_word(sequence.left()) && len
            >= sequence.index(),
{
}

/// Whether a read sequence takes one step with the reply `value`: byte `j` of the value, from
/// the lowest, goes to byte `j` behind the index, as long as it holds bits that were asked for,
/// no other byte changes, and the index and the bits that are left move on.
pub open spec fn reads_on(
    before: ReadSequence,
    data: Seq<u8>,
    value: u32,
    after: ReadSequence,
    result: Seq<u8>,
) -> bool {
    let n = at_most_a_word(before.left());
    &&& before.left() > 0
    &&& 8 * (data.len() - before.index()) >= n
    &&& after.left() == before.left() - n
    &&& after.index() == before.index() + (n + 7) / 8
    &&& result.len() == data.len()
    &&& forall|i: int|
        0 <= i < data.len() ==> #[trigger] result[i] == if before.index() <= i && 8 * (i
            - before.index()) < n {
            ((value >> ((8 * (i - before.index())) as u32)) & 0xff) as u8
        } else {
            data[i]
        }
}

/// What accepting a reply leaves: one step.
pub proof fn law_accept(sequence: &mut ReadSequence, value: u32, data: &mut [u8])
    requires
        old(sequence).left() > 0,
        8 * (old(data)@.len() - old(sequence).index()) >= at_most_a_word(old(sequence).left()),
        call_ensures(ReadSequence::accept, (sequence, value, data), ()),
    ensures
        reads_on(*old(sequence), old(data)@, value, *final(sequence), final(data)@),
{
}

/// Whether a read sequence goes through `states`, and its data through `buffers`, with the
/// replies `values` to the operations `ops`, until no bits are left.
pub open spec fn is_read_run(
    states: Seq<ReadSequence>,
    buffers: Seq<Seq<u8>>,
    ops: Seq<BitOp>,
    values: Seq<u32>,
) -> bool {
    &&& states.len() == ops.len() + 1
    &&& buffers.len() == ops.len() + 1
    &&& values.len() == ops.len()
    &&& states.last().left() == 0
    &&& forall|k: int|
        0 <= k < ops.len() ==> {
            &&& ops[k] == BitOp::Read { bits: at_most_a_word((#[trigger] states[k]).left()) as u32 }
            &&& reads_on(states[k], buffers[k], values[k], states[k + 1], buffers[k + 1])
        }
}

proof fn lemma_read_run(
    states: Seq<ReadSequence>,
    buffers: Seq<Seq<u8>>,
    ops: Seq<BitOp>,
    values: Seq<u32>,
)
    requires
        is_read_run(states, buffers, ops, values),
    ensures
        ops == read_script(states[0].left()),
        buffers.last() == gathered(
            buffers[0],
            states[0].index() as int,
            states[0].left(),
            values,
        ),
        states[0].left() > 0 ==> states[0].index() + byte_len(states[0].left())
            <= buffers[0].len(),
    decreases ops.len(),
{
    let count = states[0].left();
    if ops.len() > 0 {
        assert(reads_on(states[0], buffers[0], values[0], states[1], buffers[1]));
        let s = states.skip(1);
        let b = buffers.skip(1);
        let o = ops.skip(1);
        let v = values.skip(1);
        assert forall|k: int| 0 <= k < o.len() implies {
            &&& o[k] == BitOp::Read { bits: at_most_a_word((#[trigger] s[k]).left()) as u32 }
            &&& reads_on(s[k], b[k], v[k], s[k + 1], b[k + 1])
        } by {
            assert(states[k + 1] == s[k]);
            assert(reads_on(
                states[k + 1],
                buffers[k + 1],
                values[k + 1],
                states[k + 2],
                buffers[k + 2],
            ));
        }
        lemma_read_run(s, b, o, v);
        let n = word_bits(count);
        assert(buffers[1] =~= stored(buffers[0], states[0].index() as int, n, values[0]));
        assert(ops =~= read_script(count));
    } else {
        assert(ops =~= read_script(count));
    }
}

/// A read sequence that ran to its end, from the front of its data, with what the machine
/// returned for its operations, has the line in its data: bit `i % 8` of byte `i / 8`, counted
/// from the lowest, is level `i` of the line, the rest of the last byte is zero, and no byte
/// behind it changed. SWCLK got one pulse for each bit.
pub proof fn law_read_sequence_run(
    m: Machine,
    states: Seq<ReadSequence>,
    buffers: Seq<Seq<u8>>,
    ops: Seq<BitOp>,
)
    requires
        waiting(m),
        states.len() > 0,
        states[0].index() == 0,
        m.line.len() >= states[0].left(),
        is_read_run(states, buffers, ops, returned_all(m, ops)),
    ensures
        ({
            let count = states[0].left();
            let data = buffers.last();
            let end = performed_all(m, ops);
            &&& waiting(end)
            &&& end.edges.len() == m.edges.len() + count
            &&& data.len() == buffers[0].len()
            &&& 8 * data.len() >= count
            &&& forall|i: int|
                0 <= i < 8 * data.len() && i / 8 < (count + 7) / 8 ==> (#[trigger] (data[i / 8]
                    as u32) >> ((i % 8) as u32)) & 1 == (if i < count && m.line[i] {
                    1u32
                } else {
                    0
                })
            &&& forall|j: int| (count + 7) / 8 <= j < data.len() ==> data[j] == buffers[0][j]
        }),
{
    let count = states[0].left();
    let values = returned_all(m, ops);
    let data = buffers.last();
    lemma_read_run(states, buffers, ops, values);
    law_read_sequence_on_machine(m, buffers[0], count);
    assert forall|i: int| 0 <= i < 8 * data.len() && i / 8 < (count + 7) / 8 implies (#[trigger] (
    data[i / 8] as u32) >> ((i % 8) as u32)) & 1 == (if i < count && m.line[i] {
        1u32
    } else {
        0
    }) by {
        let word = data[i / 8] as u32;
        let k = (i % 8) as u32;
        assert((word >> k) & 1 <= 1) by (bit_vector);
        if i < count {
            assert(data_bits(data, count)[i] == m.line.take(count as int)[i]);
        } else {
            assert(!data_bit(data, i));
        }
    }
}

} // verus!
