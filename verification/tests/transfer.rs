use rust_dap_rp2040::fifo::BitOp;
use rust_dap_rp2040::swd::{
    DapError, SwdIoConfig, SwdRequest, DAP_TRANSFER_FAULT, DAP_TRANSFER_MISMATCH,
    DAP_TRANSFER_WAIT, SWD_REQUEST_A2, SWD_REQUEST_A3, SWD_REQUEST_APNDP, SWD_REQUEST_RNW,
};
use rust_dap_rp2040::swd_io_set::SwdIoSet;
use rust_dap_rp2040::transfer::TransferStep;

fn config(idle_cycles: u32, turn_around_cycles: u32, data_phase: bool) -> SwdIoConfig {
    SwdIoConfig {
        idle_cycles,
        turn_around_cycles,
        always_generate_data_phase: data_phase,
    }
}

fn request(bits: u8) -> SwdRequest {
    SwdRequest { bits }
}

fn write(bits: u32, value: u32) -> BitOp {
    BitOp::Write { bits, value }
}

fn read(bits: u32) -> BitOp {
    BitOp::Read { bits }
}

/// Runs a transfer in which the reads get `replies` in turn.
fn run(
    config: &SwdIoConfig,
    request: SwdRequest,
    data: u32,
    replies: &[u32],
) -> (Vec<BitOp>, Result<u32, DapError>) {
    let mut transfer = SwdIoSet::swd_transfer(config, request, data);
    let mut ops = Vec::new();
    let mut taken = 0;
    loop {
        match transfer.step() {
            TransferStep::Perform(op) => {
                ops.push(op);
                let reply = match op {
                    BitOp::Write { .. } => 0,
                    BitOp::Read { .. } => {
                        taken += 1;
                        replies[taken - 1]
                    }
                };
                transfer.resume(reply);
            }
            TransferStep::Finish(result) => return (ops, result),
        }
    }
}

#[test]
fn packets_of_well_known_requests() {
    // Debug port: read DPIDR, write ABORT, read and write CTRL/STAT, write SELECT, read RDBUFF.
    assert_eq!(request(SWD_REQUEST_RNW).encode(), 0xa5);
    assert_eq!(request(0).encode(), 0x81);
    assert_eq!(request(SWD_REQUEST_RNW | SWD_REQUEST_A2).encode(), 0x8d);
    assert_eq!(request(SWD_REQUEST_A2).encode(), 0xa9);
    assert_eq!(request(SWD_REQUEST_A3).encode(), 0xb1);
    assert_eq!(request(SWD_REQUEST_RNW | SWD_REQUEST_A2 | SWD_REQUEST_A3).encode(), 0xbd);
    // Access port: write and read DRW.
    assert_eq!(request(SWD_REQUEST_APNDP | SWD_REQUEST_A2 | SWD_REQUEST_A3).encode(), 0xbb);
    assert_eq!(request(0b1111).encode(), 0x9f);
}

#[test]
fn flags_above_the_request_are_ignored() {
    assert_eq!(request(0xf2).encode(), 0xa5);
    assert_eq!(request(0xf2).bits(), 0xf2);
    assert!(request(0xf2).contains(SWD_REQUEST_RNW));
    assert!(!request(0xf0).contains(SWD_REQUEST_RNW));
}

#[test]
fn read_with_matching_parity() {
    let (ops, result) = run(&config(0, 1, false), request(2), 0, &[0b0010, 0x2ba0_1477, 0b10]);
    assert_eq!(ops, vec![write(8, 0xa5), read(4), read(32), read(2), write(0, 1)]);
    assert_eq!(result, Ok(0x2ba0_1477));
}

#[test]
fn read_with_odd_data() {
    let (ops, result) = run(&config(8, 1, false), request(2), 0, &[0b0010, 1, 0b11]);
    assert_eq!(
        ops,
        vec![write(8, 0xa5), read(4), read(32), read(2), write(8, 0), write(0, 1)]
    );
    assert_eq!(result, Ok(1));
}

#[test]
fn read_with_wrong_parity() {
    let (ops, result) = run(&config(0, 1, false), request(2), 0, &[0b0010, 0x2ba0_1477, 0b11]);
    assert_eq!(ops, vec![write(8, 0xa5), read(4), read(32), read(2), write(0, 1)]);
    assert_eq!(result, Err(DapError::SwdError(DAP_TRANSFER_MISMATCH)));
}

#[test]
fn one_flipped_bit_is_detected() {
    for at in 0..32 {
        let value = 0x2ba0_1477u32 ^ (1 << at);
        let (_, result) = run(&config(0, 1, false), request(2), 0, &[0b0010, value, 0]);
        assert_eq!(result, Err(DapError::SwdError(DAP_TRANSFER_MISMATCH)));
    }
}

#[test]
fn write_that_is_accepted() {
    let (ops, result) = run(&config(0, 1, false), request(4), 0x5000_0000, &[0b00010]);
    assert_eq!(
        ops,
        vec![write(8, 0xa9), read(5), write(32, 0x5000_0000), write(1, 2), write(0, 1)]
    );
    assert_eq!(result, Ok(0));
}

#[test]
fn write_with_idle_cycles_and_longer_turnaround() {
    let (ops, result) = run(&config(3, 2, true), request(4), 7, &[0b0000100]);
    assert_eq!(
        ops,
        vec![
            write(8, 0xa9),
            read(7),
            write(32, 7),
            write(1, 3),
            write(3, 0),
            write(0, 1)
        ]
    );
    assert_eq!(result, Ok(0));
}

#[test]
fn read_that_has_to_wait() {
    let (ops, result) = run(&config(8, 1, false), request(2), 0, &[0b0100, 0]);
    assert_eq!(ops, vec![write(8, 0xa5), read(4), read(1), write(0, 1)]);
    assert_eq!(result, Err(DapError::SwdError(DAP_TRANSFER_WAIT)));
}

#[test]
fn read_that_has_to_wait_with_data_phase() {
    let (ops, result) = run(&config(8, 1, true), request(2), 0, &[0b0100, 0, 0]);
    assert_eq!(ops, vec![write(8, 0xa5), read(4), read(33), read(1), write(0, 1)]);
    assert_eq!(result, Err(DapError::SwdError(DAP_TRANSFER_WAIT)));
}

#[test]
fn write_that_faults() {
    let (ops, result) = run(&config(8, 1, false), request(4), 9, &[0b01000]);
    assert_eq!(ops, vec![write(8, 0xa9), read(5), write(0, 1)]);
    assert_eq!(result, Err(DapError::SwdError(DAP_TRANSFER_FAULT)));
}

#[test]
fn write_that_faults_with_data_phase() {
    let (ops, result) = run(&config(8, 1, true), request(4), 9, &[0b01000]);
    assert_eq!(ops, vec![write(8, 0xa9), read(5), write(33, 0), write(0, 1)]);
    assert_eq!(result, Err(DapError::SwdError(DAP_TRANSFER_FAULT)));
}

#[test]
fn read_without_an_answer() {
    let (ops, result) = run(&config(8, 1, false), request(2), 0, &[0b1111, 0, 0]);
    assert_eq!(ops, vec![write(8, 0xa5), read(4), read(33), read(1), write(0, 1)]);
    assert_eq!(result, Err(DapError::SwdError(7)));
}

#[test]
fn write_without_an_answer() {
    let (ops, result) = run(&config(8, 1, true), request(4), 9, &[0, 0]);
    assert_eq!(ops, vec![write(8, 0xa9), read(5), read(33), write(0, 1)]);
    assert_eq!(result, Err(DapError::SwdError(0)));
}

#[test]
fn acknowledgement_follows_the_turnaround() {
    for turn_around in 0..6 {
        for ack in [DAP_TRANSFER_WAIT, DAP_TRANSFER_FAULT] {
            let reply = u32::from(ack) << turn_around;
            let (_, result) = run(&config(0, turn_around, false), request(0), 0, &[reply]);
            assert_eq!(result, Err(DapError::SwdError(ack)));
        }
    }
}

#[test]
fn acknowledgement_is_taken_from_the_low_byte() {
    let (_, result) = run(&config(0, 7, false), request(0), 0, &[0b010 << 7, 0]);
    assert_eq!(result, Err(DapError::SwdError(0)));
    let (_, result) = run(&config(0, 7, false), request(0), 0, &[1 << 7]);
    assert_eq!(result, Ok(0));
}

#[test]
fn idle_cycles_are_optional() {
    assert_eq!(SwdIoSet::idle_cycle(&config(0, 1, false)), None);
    assert_eq!(SwdIoSet::idle_cycle(&config(8, 1, false)), Some(write(8, 0)));
}
