//! The SWD request and its acknowledgement, and how a transfer is configured.
use crate::bits::{byte_bit, ones, tally};
use vstd::prelude::*;

verus! {

/// The target accepted the request.
pub const DAP_TRANSFER_OK: u8 = 1;

/// The target asks to be tried again.
pub const DAP_TRANSFER_WAIT: u8 = 2;

/// The target reports a fault.
pub const DAP_TRANSFER_FAULT: u8 = 4;

/// The parity of the data that was read does not match.
pub const DAP_TRANSFER_MISMATCH: u8 = 16;

/// The request goes to the access port, not to the debug port.
pub const SWD_REQUEST_APNDP: u8 = 1;

/// The request reads, and does not write.
pub const SWD_REQUEST_RNW: u8 = 2;

/// Bit 2 of the register address.
pub const SWD_REQUEST_A2: u8 = 4;

/// Bit 3 of the register address.
pub const SWD_REQUEST_A3: u8 = 8;

/// Why a transfer failed.
#[derive(Clone, Copy, Debug, PartialEq, Eq, Structural)]
pub enum DapError {
    /// The acknowledgement of the target, or [`DAP_TRANSFER_MISMATCH`].
    SwdError(u8),
}

/// How a transfer is configured.
#[derive(Clone, Copy, Debug, PartialEq, Eq, Structural)]
pub struct SwdIoConfig {
    /// The clock cycles that follow a transfer that succeeded.
    pub idle_cycles: u32,
    /// The clock cycles in which the line changes hands.
    pub turn_around_cycles: u32,
    /// Whether the data phase takes place even after the target asked to wait or reported a
    /// fault.
    pub always_generate_data_phase: bool,
}

/// The request of a transfer: the four flags in its low bits.
#[derive(Clone, Copy, Debug, PartialEq, Eq, Structural)]
pub struct SwdRequest {
    /// The flags.
    pub bits: u8,
}

impl SwdRequest {
    /// The flags of the request.
    pub fn bits(&self) -> (bits: u8)
        ensures
            bits == self.bits,
    {
        self.bits
    }

    /// Whether all of `flags` are set.
    pub open spec fn has(self, flags: u8) -> bool {
        self.bits & flags == flags
    }

    /// Whether all of `flags` are set.
    pub fn contains(&self, flags: u8) -> (all: bool)
        ensures
            all == self.has(flags),
    {
        self.bits & flags == flags
    }

    /// Whether the request reads.
    pub open spec fn reads(self) -> bool {
        self.has(SWD_REQUEST_RNW)
    }

    /// The packet that carries the request, least significant bit first: a one to start, the
    /// four flags, their parity, a zero to stop, and a one to park the line.
    pub open spec fn packet(self) -> u8 {
        let flags = self.bits % 16;
        (0x81 + 2 * flags + 32 * (ones(flags as nat) % 2)) as u8
    }

    /// The packet that carries the request.
    pub fn encode(&self) -> (packet: u8)
        ensures
            packet == self.packet(),
    {
        let flags: u8 = self.bits() & 0b1111;
        let own = self.bits;
        assert(flags == own % 16) by (bit_vector)
            requires
                flags == own & 0b1111,
        ;
        proof {
            lemma_few_ones(flags as nat);
        }
        let parity: u8 = flags.count_ones() as u8 & 1;
        let with_parity: u8 = flags | (parity << 4);
        let packet: u8 = (with_parity << 1) | 0x81;
        let ghost count = ones(flags as nat) as u8;
        assert(packet == 0x81 + 2 * flags + 32 * (count % 2)) by (bit_vector)
            requires
                flags < 16,
                parity == count & 1,
                with_parity == flags | (parity << 4),
                packet == (with_parity << 1) | 0x81,
        ;
        packet
    }
}

/// The packet of a request, bit by bit: start, the flags, parity, stop, park. The five bits
/// from the first flag to the parity have an even number of ones.
pub proof fn law_packet_layout(request: SwdRequest)
    ensures
        byte_bit(request.packet(), 0),
        byte_bit(request.packet(), 1) == request.has(SWD_REQUEST_APNDP),
        byte_bit(request.packet(), 2) == request.has(SWD_REQUEST_RNW),
        byte_bit(request.packet(), 3) == request.has(SWD_REQUEST_A2),
        byte_bit(request.packet(), 4) == request.has(SWD_REQUEST_A3),
        tally(|i: int| byte_bit(request.packet(), i + 1), 5) % 2 == 0,
        !byte_bit(request.packet(), 6),
        byte_bit(request.packet(), 7),
{
    let own = request.bits;
    let flags: u8 = own % 16;
    lemma_few_ones(flags as nat);
    let count = ones(flags as nat) as u8;
    let packet = request.packet();
    let word = packet as u32;
    assert({
        &&& (word >> 0u32) & 1 == 1
        &&& ((word >> 1u32) & 1 == 1) <==> (own & 1 == 1)
        &&& ((word >> 2u32) & 1 == 1) <==> (own & 2 == 2)
        &&& ((word >> 3u32) & 1 == 1) <==> (own & 4 == 4)
        &&& ((word >> 4u32) & 1 == 1) <==> (own & 8 == 8)
        &&& (word >> 5u32) & 1 == (count as u32) % 2
        &&& (word >> 6u32) & 1 == 0
        &&& (word >> 7u32) & 1 == 1
    }) by (bit_vector)
        requires
            flags == own % 16,
            count <= 4,
            packet == 0x81 + 2 * flags + 32 * (count % 2),
            word == packet as u32,
    ;
    let b1 = (word >> 1u32) & 1;
    let b2 = (word >> 2u32) & 1;
    let b3 = (word >> 3u32) & 1;
    let b4 = (word >> 4u32) & 1;
    assert(flags as u32 == b1 + 2 * b2 + 4 * b3 + 8 * b4 && b1 <= 1 && b2 <= 1 && b3 <= 1 && b4
        <= 1) by (bit_vector)
        requires
            flags < 16,
            packet == 0x81 + 2 * flags + 32 * (count % 2),
            word == packet as u32,
            b1 == (word >> 1u32) & 1,
            b2 == (word >> 2u32) & 1,
            b3 == (word >> 3u32) & 1,
            b4 == (word >> 4u32) & 1,
    ;
    reveal_with_fuel(ones, 6);
    reveal_with_fuel(tally, 6);
}

pub(crate) proof fn lemma_few_ones(n: nat)
    requires
        n < 16,
    ensures
        ones(n) <= 4,
{
    reveal_with_fuel(ones, 6);
}

} // verus!
