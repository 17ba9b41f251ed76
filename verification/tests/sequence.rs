use rust_dap_rp2040::fifo::BitOp;
use rust_dap_rp2040::swd::SwdIoConfig;
use rust_dap_rp2040::swd_io_set::SwdIoSet;

const CONFIG: SwdIoConfig = SwdIoConfig {
    idle_cycles: 0,
    turn_around_cycles: 1,
    always_generate_data_phase: false,
};

fn writes(count: usize, data: &[u8]) -> Vec<(u32, u32)> {
    let mut sequence = SwdIoSet::swd_write_sequence(&CONFIG, count, data);
    let mut ops = Vec::new();
    while let Some(op) = sequence.next_op() {
        match op {
            BitOp::Write { bits, value } => ops.push((bits, value)),
            BitOp::Read { .. } => panic!("a write sequence reads"),
        }
    }
    ops
}

fn reads(count: usize, values: &[u32], data: &mut [u8]) -> Vec<u32> {
    let mut sequence = SwdIoSet::swd_read_sequence(&CONFIG, count);
    let mut ops = Vec::new();
    while let Some(op) = sequence.next_op() {
        match op {
            BitOp::Read { bits } => ops.push(bits),
            BitOp::Write { .. } => panic!("a read sequence writes"),
        }
        sequence.accept(values[ops.len() - 1], data);
    }
    ops
}

#[test]
fn nothing_to_write() {
    assert_eq!(writes(0, &[]), vec![]);
}

#[test]
fn a_few_bits_are_one_word() {
    assert_eq!(writes(1, &[0xff]), vec![(1, 0xff)]);
    assert_eq!(writes(8, &[0xa5]), vec![(8, 0xa5)]);
    assert_eq!(writes(9, &[0xa5, 0xff]), vec![(9, 0xffa5)]);
}

#[test]
fn words_are_little_endian() {
    assert_eq!(writes(32, &[0x78, 0x56, 0x34, 0x12]), vec![(32, 0x1234_5678)]);
}

#[test]
fn long_sequences_are_cut_into_words() {
    let data = [1, 2, 3, 4, 5, 6, 7, 8, 9];
    assert_eq!(
        writes(70, &data),
        vec![(32, 0x0403_0201), (32, 0x0807_0605), (6, 9)]
    );
    assert_eq!(writes(64, &data), vec![(32, 0x0403_0201), (32, 0x0807_0605)]);
    assert_eq!(writes(33, &data), vec![(32, 0x0403_0201), (1, 5)]);
}

#[test]
fn line_reset_is_all_ones() {
    assert_eq!(
        writes(51, &[0xff; 7]),
        vec![(32, 0xffff_ffff), (19, 0x00ff_ffff)]
    );
}

#[test]
fn short_data_back_the_leading_words() {
    let data = [1, 2, 3, 4, 5];
    let mut sequence = SwdIoSet::swd_write_sequence(&CONFIG, 48, &data);
    assert!(sequence.is_backed());
    assert_eq!(sequence.next_op(), Some(BitOp::Write { bits: 32, value: 0x0403_0201 }));
    assert!(!sequence.is_backed());
    let mut sequence = SwdIoSet::swd_write_sequence(&CONFIG, 40, &data);
    sequence.next_op();
    assert!(sequence.is_backed());
    assert_eq!(sequence.next_op(), Some(BitOp::Write { bits: 8, value: 5 }));
    assert!(sequence.is_backed());
    assert_eq!(sequence.next_op(), None);
}

#[test]
fn replies_need_room_for_their_bytes() {
    let mut data = [0; 5];
    let mut sequence = SwdIoSet::swd_read_sequence(&CONFIG, 41);
    assert!(sequence.fits(4));
    assert!(!sequence.fits(3));
    sequence.accept(0x0403_0201, &mut data);
    assert!(sequence.fits(6));
    assert!(!sequence.fits(5));
    assert!(!sequence.fits(0));
}

#[test]
fn swj_sequence_is_the_write_sequence() {
    let mut sequence = SwdIoSet::swj_sequence(&CONFIG, 16, &[0x9e, 0xe7]);
    assert_eq!(sequence.next_op(), Some(BitOp::Write { bits: 16, value: 0xe79e }));
    assert_eq!(sequence.next_op(), None);
    assert_eq!(sequence.next_op(), None);
}

#[test]
fn nothing_to_read() {
    let mut data = [7];
    assert_eq!(reads(0, &[], &mut data), vec![]);
    assert_eq!(data, [7]);
}

#[test]
fn replies_become_bytes() {
    let mut data = [0xee; 6];
    assert_eq!(reads(33, &[0x1234_5678, 1], &mut data), vec![32, 1]);
    assert_eq!(data, [0x78, 0x56, 0x34, 0x12, 1, 0xee]);
}

#[test]
fn short_reads_touch_the_bytes_they_need() {
    let mut data = [0xee; 4];
    assert_eq!(reads(9, &[0x1a5], &mut data), vec![9]);
    assert_eq!(data, [0xa5, 1, 0xee, 0xee]);
    let mut data = [0xee; 4];
    assert_eq!(reads(8, &[0x5a], &mut data), vec![8]);
    assert_eq!(data, [0x5a, 0xee, 0xee, 0xee]);
}

#[test]
fn what_was_read_can_be_written_back() {
    let mut data = [0; 9];
    reads(70, &[0xdead_beef, 0x0bad_cafe, 0x2a], &mut data);
    assert_eq!(
        writes(70, &data),
        vec![(32, 0xdead_beef), (32, 0x0bad_cafe), (6, 0x2a)]
    );
}
