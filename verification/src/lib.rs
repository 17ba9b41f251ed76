//! Serial Wire Debug over a PIO state machine of the RP2040.
//!
//! [`swd_io_set::SwdIoSet`] is the interface. It assembles the program that clocks bits over the
//! line, says how the state machine is set up for it, and starts the operations of a debug probe.
//! An operation never touches hardware: it says what it needs next, a word for a FIFO or a bit
//! operation, and is told what came of it.

pub mod assembler;
pub mod bits;
pub mod exchange_guarantees;
pub mod fifo;
pub mod instruction;
pub mod interface_guarantees;
pub mod machine;
pub mod program;
pub mod sequence;
pub mod sequence_guarantees;
pub mod swd;
pub mod swd_io_set;
pub mod transfer;
pub mod transfer_guarantees;
pub mod wire;
pub mod wire_transfer;
