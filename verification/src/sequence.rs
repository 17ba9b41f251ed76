//! Raw bit sequences, cut into words that one bit operation can carry.
use crate::bits::{bit, byte_bit, lemma_low_bit, lemma_zero_bit};
use crate::fifo::{line_out, BitOp};
use vstd::prelude::*;

verus! {

/// The most bits that one word carries.
pub const WORD_BITS: u32 = 32;

/// The bits of a sequence of `count` bits: counts are taken modulo the range of `u32`.
pub open spec fn bit_count(count: usize) -> nat {
    (count as nat) % 0x1_0000_0000
}

/// The bits of the first word of a sequence of `count` bits.
pub open spec fn word_bits(count: nat) -> nat {
    if count <= 32 {
        count
    } else {
        32
    }
}

/// The bytes that hold `count` bits.
pub open spec fn byte_len(count: nat) -> nat {
    (count + 7) / 8
}

/// Byte `j` of the first `n` bytes of `data`, followed by zeros.
pub open spec fn lane(data: Seq<u8>, n: nat, j: int) -> u32 {
    if j < n {
        data[j] as u32
    } else {
        0
    }
}

/// The first `n` bytes of `data`, at most four, as a word: the first byte is the lowest.
pub open spec fn packed(data: Seq<u8>, n: nat) -> u32 {
    lane(data, n, 0) | (lane(data, n, 1) << 8) | (lane(data, n, 2) << 16) | (lane(data, n, 3)
        << 24)
}

/// Byte `j` of a word, counted from the lowest.
pub open spec fn word_byte(word: u32, j: int) -> u8 {
    ((word >> ((8 * j) as u32)) & 0xff) as u8
}

/// The operations that write the first `count` bits of `data`: full words, and the rest in a
/// last one, whose value holds the last byte whole.
pub open spec fn write_script(data: Seq<u8>, count: nat) -> Seq<BitOp>
    decreases count,
{
    if count == 0 {
        seq![]
    } else {
        let n = word_bits(count);
        seq![BitOp::Write { bits: n as u32, value: packed(data, byte_len(n)) }] + write_script(
            data.skip(byte_len(n) as int),
            (count - n) as nat,
        )
    }
}

/// The operations that read `count` bits: full words, and the rest in a last one.
pub open spec fn read_script(count: nat) -> Seq<BitOp>
    decreases count,
{
    if count == 0 {
        seq![]
    } else {
        let n = word_bits(count);
        seq![BitOp::Read { bits: n as u32 }] + read_script((count - n) as nat)
    }
}

/// `data` with the bytes of the reply to a read of `bits` bits from `index` on.
pub open spec fn stored(data: Seq<u8>, index: int, bits: nat, value: u32) -> Seq<u8> {
    Seq::new(
        data.len(),
        |i: int|
            if index <= i < index + byte_len(bits) {
                word_byte(value, i - index)
            } else {
                data[i]
            },
    )
}

/// A sequence on its way out.
#[derive(Clone, Copy, Debug)]
pub struct WriteSequence<'a> {
    data: &'a [u8],
    count: u32,
    index: usize,
}

impl<'a> WriteSequence<'a> {
    /// The bits that are left.
    pub closed spec fn left(self) -> nat {
        self.count as nat
    }

    /// The bytes that hold them.
    pub closed spec fn rest(self) -> Seq<u8> {
        self.data@.skip(self.index as int)
    }

    /// No more bytes were taken than there are.
    pub closed spec fn wf(self) -> bool {
        self.index <= self.data@.len()
    }

    /// Whether the bytes that are left hold the bits of the next operation.
    pub open spec fn backed(self) -> bool {
        byte_len(word_bits(self.left())) <= self.rest().len()
    }

    /// The operations that are left.
    pub open spec fn script(self) -> Seq<BitOp> {
        write_script(self.rest(), self.left())
    }

    /// Starts to write the first `count` bits of `data`.
    pub fn new(count: usize, data: &'a [u8]) -> (sequence: WriteSequence<'a>)
        ensures
            sequence.wf(),
            sequence.left() == bit_count(count),
            sequence.rest() == data@,
            sequence.script() == write_script(data@, bit_count(count)),
    {
        proof {
            lemma_count(count);
            assert(data@.skip(0) =~= data@);
        }
        WriteSequence { data, count: count as u32, index: 0 }
    }

    /// Whether the bytes that are left hold the bits of the next operation.
    pub fn is_backed(&self) -> (backed: bool)
        requires
            self.wf(),
        ensures
            backed == self.backed(),
    {
        let bits: u32 = if self.count <= WORD_BITS {
            self.count
        } else {
            WORD_BITS
        };
        (bits + 7) as usize / 8 <= self.data.len() - self.index
    }

    /// The next operation, if any is left.
    pub fn next_op(&mut self) -> (op: Option<BitOp>)
        requires
            old(self).wf(),
            old(self).backed(),
        ensures
            final(self).wf(),
            byte_len(old(self).left()) <= old(self).rest().len() ==> byte_len(final(self).left())
                <= final(self).rest().len(),
            op is None <==> old(self).left() == 0,
            match op {
                None => *final(self) == *old(self),
                Some(op) => {
                    let n = word_bits(old(self).left());
                    &&& op == BitOp::Write {
                        bits: n as u32,
                        value: packed(old(self).rest(), byte_len(n)),
                    }
                    &&& final(self).left() == old(self).left() - n
                    &&& final(self).rest() == old(self).rest().skip(byte_len(n) as int)
                    &&& old(self).script() == seq![op] + final(self).script()
                },
            },
    {
        if self.count == 0 {
            return None;
        }
        let ghost rest = self.rest();
        let ghost n = word_bits(self.count as nat);
        let ghost start = self.index as int;
        let mut bits: u32 = 0;
        let mut value: u32 = 0;
        let ghost mut taken: int = 0;
        assert(packed(rest, 0) == 0) by {
            assert(0u32 | (0u32 << 8) | (0u32 << 16) | (0u32 << 24) == 0u32) by (bit_vector);
        }
        while bits != self.count && bits != WORD_BITS
            invariant
                self.data == old(self).data,
                self.count == old(self).count,
                self.count > 0,
                old(self).wf(),
                byte_len(n) <= rest.len(),
                n == word_bits(self.count as nat),
                rest == old(self).rest(),
                start == old(self).index,
                self.index == start + taken,
                taken == byte_len(bits as nat),
                bits <= n,
                bits == n || bits == 8 * taken,
                value == packed(rest, taken as nat),
            decreases n - bits,
        {
            assert(taken < byte_len(n));
            proof {
                lemma_pack(rest, taken as nat);
            }
            assert(self.data@[self.index as int] == rest[taken as int]);
            value = value | ((self.data[self.index] as u32) << bits);
            self.index = self.index + 1;
            proof {
                taken = taken + 1;
            }
            bits = bits + 8;
            if self.count <= bits {
                bits = self.count;
            }
        }
        self.count = self.count - bits;
        assert(self.rest() =~= rest.skip(byte_len(n) as int));
        Some(BitOp::Write { bits, value })
    }
}

/// A sequence on its way in.
#[derive(Clone, Copy, Debug)]
pub struct ReadSequence {
    count: u32,
    index: usize,
}

impl ReadSequence {
    /// The bits that are left.
    pub closed spec fn left(self) -> nat {
        self.count as nat
    }

    /// The byte that the next bit goes to.
    pub closed spec fn index(self) -> nat {
        self.index as nat
    }

    /// The operations that are left.
    pub open spec fn script(self) -> Seq<BitOp> {
        read_script(self.left())
    }

    /// Starts to read `count` bits.
    pub fn new(count: usize) -> (sequence: ReadSequence)
        ensures
            sequence.left() == bit_count(count),
            sequence.index() == 0,
            sequence.script() == read_script(bit_count(count)),
    {
        proof {
            lemma_count(count);
        }
        ReadSequence { count: count as u32, index: 0 }
    }

    /// The next operation, if any is left.
    pub fn next_op(&self) -> (op: Option<BitOp>)
        ensures
            op is None <==> self.left() == 0,
            op matches Some(op) ==> op == (BitOp::Read { bits: word_bits(self.left()) as u32 }),
            op matches Some(op) ==> self.script()[0] == op,
    {
        if self.count == 0 {
            None
        } else if self.count <= WORD_BITS {
            Some(BitOp::Read { bits: self.count })
        } else {
            Some(BitOp::Read { bits: WORD_BITS })
        }
    }

    /// Whether the reply to that operation fits a buffer of `len` bytes.
    pub fn fits(&self, len: usize) -> (fits: bool)
        ensures
            fits == (self.index() + byte_len(word_bits(self.left())) <= len),
    {
        let bits: u32 = if self.count <= WORD_BITS {
            self.count
        } else {
            WORD_BITS
        };
        self.index <= len && (bits + 7) as usize / 8 <= len - self.index
    }

    /// Puts the reply to that operation into `data`, lowest byte first.
    pub fn accept(&mut self, value: u32, data: &mut [u8])
        requires
            old(self).left() > 0,
            old(self).index() + byte_len(word_bits(old(self).left())) <= old(data)@.len(),
        ensures
            final(data)@ == stored(
                old(data)@,
                old(self).index() as int,
                word_bits(old(self).left()),
                value,
            ),
            final(self).left() == old(self).left() - word_bits(old(self).left()),
            final(self).index() == old(self).index() + byte_len(word_bits(old(self).left())),
            old(self).script().skip(1) == final(self).script(),
    {
        let mut value = value;
        let mut bits: u32 = if self.count <= WORD_BITS {
            self.count
        } else {
            WORD_BITS
        };
        let ghost before = data@;
        let ghost word = value;
        let ghost n = bits as nat;
        let ghost start = self.index as int;
        let ghost mut taken: int = 0;
        self.count = self.count - bits;
        proof {
            lemma_low_bit(value);
        }
        while bits != 0
            invariant
                n == word_bits(old(self).left()),
                n <= 32,
                start == old(self).index(),
                start + byte_len(n) <= before.len(),
                data@.len() == before.len(),
                before == old(data)@,
                0 <= taken <= byte_len(n),
                self.index == start + taken,
                self.count == old(self).left() - n,
                bits == 0 ==> taken == byte_len(n),
                bits > 0 ==> bits == n - 8 * taken,
                taken < 4 ==> value == word >> ((8 * taken) as u32),
                forall|i: int|
                    0 <= i < data@.len() ==> #[trigger] data@[i] == if start <= i < start + taken {
                        word_byte(word, i - start)
                    } else {
                        before[i]
                    },
            decreases bits,
        {
            proof {
                lemma_next_byte(word, value, taken);
            }
            data[self.index] = value as u8;
            self.index = self.index + 1;
            value = value >> 8;
            proof {
                taken = taken + 1;
            }
            bits = bits - if bits <= 8 {
                bits
            } else {
                8
            };
        }
        assert(data@ =~= stored(before, start, n, word));
        assert(old(self).script().skip(1) =~= self.script());
    }
}

proof fn lemma_next_byte(word: u32, value: u32, j: int)
    requires
        0 <= j < 4,
        value == word >> ((8 * j) as u32),
    ensures
        value as u8 == word_byte(word, j),
        j < 3 ==> value >> 8 == word >> ((8 * (j + 1)) as u32),
{
    assert(value as u8 == (value & 0xff) as u8) by (bit_vector);
    assert((word >> 0u32) >> 8 == word >> 8u32 && (word >> 8u32) >> 8 == word >> 16u32 && (word
        >> 16u32) >> 8 == word >> 24u32) by (bit_vector);
}

proof fn lemma_count(count: usize)
    ensures
        count as u32 as nat == bit_count(count),
{
    assert(count as u32 == count as u64 % 0x1_0000_0000) by (bit_vector);
}

proof fn lemma_pack(data: Seq<u8>, n: nat)
    requires
        n < 4,
    ensures
        packed(data, n + 1) == packed(data, n) | ((data[n as int] as u32) << ((8 * n) as u32)),
{
    let a = lane(data, n, 0);
    let b = lane(data, n, 1);
    let c = lane(data, n, 2);
    let d = data[n as int] as u32;
    assert({
        &&& (d | (0u32 << 8) | (0u32 << 16) | (0u32 << 24)) == (0u32 | (0u32 << 8) | (0u32 << 16) | (
        0u32 << 24)) | (d << 0u32)
        &&& (a | (d << 8) | (0u32 << 16) | (0u32 << 24)) == (a | (0u32 << 8) | (0u32 << 16) | (0u32
            << 24)) | (d << 8u32)
        &&& (a | (b << 8) | (d << 16) | (0u32 << 24)) == (a | (b << 8) | (0u32 << 16) | (0u32
            << 24)) | (d << 16u32)
        &&& (a | (b << 8) | (c << 16) | (d << 24)) == (a | (b << 8) | (c << 16) | (0u32 << 24)) | (d
            << 24u32)
    }) by (bit_vector);
}

proof fn lemma_packed_bit(data: Seq<u8>, n: nat, i: int)
    requires
        n <= 4,
        0 <= i < 32,
    ensures
        bit(packed(data, n), i) == (i < 8 * n && data_bit(data, i)),
{
    let a = lane(data, n, 0);
    let b = lane(data, n, 1);
    let c = lane(data, n, 2);
    let d = lane(data, n, 3);
    let k = i as u32;
    let w = a | (b << 8) | (c << 16) | (d << 24);
    assert({
        &&& k < 8 ==> (w >> k) & 1 == (a >> k) & 1
        &&& 8 <= k < 16 ==> (w >> k) & 1 == (b >> ((k - 8) as u32)) & 1
        &&& 16 <= k < 24 ==> (w >> k) & 1 == (c >> ((k - 16) as u32)) & 1
        &&& 24 <= k < 32 ==> (w >> k) & 1 == (d >> ((k - 24) as u32)) & 1
    }) by (bit_vector)
        requires
            a < 256,
            b < 256,
            c < 256,
            d < 256,
            k < 32,
            w == a | (b << 8) | (c << 16) | (d << 24),
    ;
    if i >= 8 * n {
        lemma_zero_bit(i % 8);
    }
}

proof fn lemma_word_byte_bit(word: u32, j: int, k: int)
    requires
        0 <= j < 4,
        0 <= k < 8,
    ensures
        byte_bit(word_byte(word, j), k) == bit(word, 8 * j + k),
{
    let s = (8 * j) as u32;
    let t = k as u32;
    assert((((((word >> s) & 0xff) as u8) as u32) >> t) & 1 == (word >> ((s + t) as u32)) & 1)
        by (bit_vector)
        requires
            s <= 24,
            t < 8,
    ;
}

/// Bit `i` of some bytes: the bits of a byte are counted from the lowest.
pub open spec fn data_bit(data: Seq<u8>, i: int) -> bool {
    byte_bit(data[i / 8], i % 8)
}

/// The first `count` bits of some bytes.
pub open spec fn data_bits(data: Seq<u8>, count: nat) -> Seq<bool> {
    Seq::new(count, |i: int| data_bit(data, i))
}

/// Whether `values` are the replies to the operations of [`read_script`] when the line carried
/// `line`: bit after bit, least significant first, and nothing above them.
pub open spec fn carries(values: Seq<u32>, line: Seq<bool>, count: nat) -> bool
    decreases count,
{
    count == 0 || {
        let n = word_bits(count);
        &&& values.len() > 0
        &&& forall|i: int| 0 <= i < 32 ==> #[trigger] bit(values[0], i) == (i < n && line[i])
        &&& carries(values.skip(1), line.skip(n as int), (count - n) as nat)
    }
}

/// What `data` holds from `index` on when the operations of [`read_script`] got the replies
/// `values`.
pub open spec fn gathered(data: Seq<u8>, index: int, count: nat, values: Seq<u32>) -> Seq<u8>
    decreases count,
{
    if count == 0 {
        data
    } else {
        let n = word_bits(count);
        gathered(
            stored(data, index, n, values[0]),
            index + byte_len(n),
            (count - n) as nat,
            values.skip(1),
        )
    }
}

/// What a write sequence puts on the line is the first `count` bits of its data, the bits of
/// each byte from the lowest up, whatever the cut into words.
pub proof fn law_write_sequence_on_line(data: Seq<u8>, count: nat)
    requires
        byte_len(count) <= data.len(),
    ensures
        line_out(write_script(data, count)) == data_bits(data, count),
    decreases count,
{
    if count > 0 {
        let n = word_bits(count);
        let rest = data.skip(byte_len(n) as int);
        let script = write_script(data, count);
        let tail = write_script(rest, (count - n) as nat);
        law_write_sequence_on_line(rest, (count - n) as nat);
        assert(script.skip(1) =~= tail);
        assert forall|i: int| 0 <= i < n implies script[0].line_bits()[i] == data_bit(data, i) by {
            lemma_packed_bit(data, byte_len(n), i);
        }
        assert forall|i: int| n <= i < count implies data_bits(rest, (count - n) as nat)[i - n]
            == data_bit(data, i) by {
            assert(n == 32);
            assert(rest[(i - n) / 8] == data[i / 8]);
        }
        assert(line_out(script) =~= data_bits(data, count));
    } else {
        assert(line_out(write_script(data, count)) =~= data_bits(data, count));
    }
}

/// A read sequence leaves the bits of the line in its data, the bits of each byte from the
/// lowest up; the rest of the last byte is zero, and no other byte changes.
pub proof fn law_read_sequence_off_line(
    data: Seq<u8>,
    index: nat,
    count: nat,
    values: Seq<u32>,
    line: Seq<bool>,
)
    requires
        index + byte_len(count) <= data.len(),
        line.len() == count,
        carries(values, line, count),
    ensures
        gathered(data, index as int, count, values).len() == data.len(),
        data_bits(
            gathered(data, index as int, count, values).skip(index as int),
            count,
        ) == line,
        forall|i: int|
            count <= i < 8 * byte_len(count) ==> !#[trigger] data_bit(
                gathered(data, index as int, count, values).skip(index as int),
                i,
            ),
        forall|i: int|
            0 <= i < data.len() && !(index <= i < index + byte_len(count))
                ==> #[trigger] gathered(data, index as int, count, values)[i] == data[i],
    decreases count,
{
    let result = gathered(data, index as int, count, values);
    if count > 0 {
        let n = word_bits(count);
        let step = stored(data, index as int, n, values[0]);
        let next = index + byte_len(n);
        law_read_sequence_off_line(
            step,
            next,
            (count - n) as nat,
            values.skip(1),
            line.skip(n as int),
        );
        assert forall|i: int| 0 <= i < 8 * byte_len(count) implies #[trigger] data_bit(
            result.skip(index as int),
            i,
        ) == (i < count && line[i]) by {
            if i < 8 * byte_len(n) {
                assert(result[index + i / 8] == step[index + i / 8]);
                lemma_word_byte_bit(values[0], i / 8, i % 8);
                assert(bit(values[0], i) == (i < n && line[i]));
            } else {
                assert(n == 32);
                assert(result.skip(next as int)[(i - 32) / 8] == result.skip(index as int)[i / 8]);
                assert(data_bit(result.skip(next as int), i - 32) == data_bit(
                    result.skip(index as int),
                    i,
                ));
                if i < count {
                    assert(data_bits(result.skip(next as int), (count - n) as nat)[i - 32]
                        == line.skip(32)[i - 32]);
                }
            }
        }
        assert forall|i: int|
            0 <= i < data.len() && !(index <= i < index + byte_len(
                count,
            )) implies #[trigger] result[i] == data[i] by {
            assert(step[i] == data[i]);
        }
    }
    assert(data_bits(result.skip(index as int), count) =~= line);
}

/// To write what a read sequence has read puts the same bits on the line again.
pub proof fn law_write_back(data: Seq<u8>, count: nat, values: Seq<u32>, line: Seq<bool>)
    requires
        byte_len(count) <= data.len(),
        line.len() == count,
        carries(values, line, count),
    ensures
        line_out(write_script(gathered(data, 0, count, values), count)) == line,
{
    law_read_sequence_off_line(data, 0, count, values, line);
    let result = gathered(data, 0, count, values);
    law_write_sequence_on_line(result, count);
    assert(result.skip(0) =~= result);
}

} // verus!
