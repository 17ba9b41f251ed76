use rust_dap_rp2040::swd_io_set::{Command, ShiftDirection, SwdIoSet};
use rust_dap_rp2040::fifo::BitOp;

#[test]
fn program_has_the_expected_words() {
    let io = SwdIoSet::new(2, 3);
    let expected: [u16; 28] = [
        0x80a0, 0x603f, 0xa047, 0x0071, 0x80a0, 0x6001, 0xa0c7, 0xa0e2, 0x6081, 0xa0e6, 0x004e,
        0x0000, 0xe001, 0x6201, 0x134c, 0xe001, 0x0000, 0x6281, 0x0059, 0xa342, 0x4001, 0x407f,
        0x8020, 0x0000, 0x5b01, 0x1358, 0x5801, 0x8020,
    ];
    assert_eq!(io.program().code.as_slice(), &expected[..]);
}

#[test]
fn program_wraps_from_the_last_word_to_the_first() {
    let io = SwdIoSet::new(2, 3);
    assert_eq!(io.program().wrap.source, 27);
    assert_eq!(io.program().wrap.target, 0);
    assert_eq!(io.program().origin, None);
}

#[test]
fn side_set_is_optional_and_drives_one_level() {
    let io = SwdIoSet::new(2, 3);
    assert!(io.program().side_set.optional());
    assert_eq!(io.program().side_set.bits(), 2);
    assert!(!io.program().side_set.pindirs());
}

#[test]
fn pins_are_wired_to_clock_and_data() {
    let wiring = SwdIoSet::new(17, 29).wiring();
    assert_eq!(wiring.set_base, 17);
    assert_eq!(wiring.set_count, 1);
    assert_eq!(wiring.side_set_base, 17);
    assert_eq!(wiring.out_base, 29);
    assert_eq!(wiring.out_count, 1);
    assert_eq!(wiring.in_base, 29);
    assert_eq!(wiring.out_shift_direction, ShiftDirection::Right);
    assert_eq!(wiring.in_shift_direction, ShiftDirection::Right);
    assert_eq!(wiring.clock_divisor, 1);
}

#[test]
fn clock_direction_words() {
    assert_eq!(SwdIoSet::set_clk_pindir(true), 0xe081);
    assert_eq!(SwdIoSet::set_clk_pindir(false), 0xe080);
}

#[test]
fn connect_drives_the_clock_then_the_data() {
    assert_eq!(
        SwdIoSet::connect(),
        [
            Command::Execute(0xe081),
            Command::Perform(BitOp::Write { bits: 0, value: 1 }),
        ]
    );
}

#[test]
fn disconnect_releases_the_data_then_the_clock() {
    assert_eq!(
        SwdIoSet::disconnect(),
        [
            Command::Perform(BitOp::Read { bits: 0 }),
            Command::Execute(0xe080),
        ]
    );
}

#[test]
fn data_can_be_driven_either_way() {
    assert_eq!(SwdIoSet::to_swdio_out(true), BitOp::Write { bits: 0, value: 1 });
    assert_eq!(SwdIoSet::to_swdio_out(false), BitOp::Write { bits: 0, value: 0 });
    assert_eq!(SwdIoSet::to_swdio_in(), BitOp::Read { bits: 0 });
}
