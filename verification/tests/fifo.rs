use rust_dap_rp2040::fifo::{decode_reply, FifoStep};
use rust_dap_rp2040::swd_io_set::SwdIoSet;

#[test]
fn write_sends_header_and_value() {
    let mut exchange = SwdIoSet::write_bits(8, 0xa5);
    assert_eq!(exchange.step(), FifoStep::Push(0x8000_0008));
    exchange.pushed(true);
    assert_eq!(exchange.step(), FifoStep::Push(0xa5));
    exchange.pushed(true);
    assert_eq!(exchange.step(), FifoStep::Finish(0));
}

#[test]
fn refused_words_are_offered_again() {
    let mut exchange = SwdIoSet::write_bits(33, 7);
    exchange.pushed(false);
    exchange.pushed(false);
    assert_eq!(exchange.step(), FifoStep::Push(0x8000_0021));
    exchange.pushed(true);
    exchange.pushed(false);
    assert_eq!(exchange.step(), FifoStep::Push(7));
    exchange.pushed(true);
    assert_eq!(exchange.step(), FifoStep::Finish(0));
}

#[test]
fn read_sends_header_and_waits_for_a_word() {
    let mut exchange = SwdIoSet::read_bits(4);
    exchange.pushed(false);
    assert_eq!(exchange.step(), FifoStep::Push(4));
    exchange.pushed(true);
    assert_eq!(exchange.step(), FifoStep::Pop);
    exchange.popped(None);
    assert_eq!(exchange.step(), FifoStep::Pop);
    exchange.popped(Some(0x9000_0000));
    assert_eq!(exchange.step(), FifoStep::Finish(9));
}

#[test]
fn replies_are_moved_to_the_low_end() {
    assert_eq!(decode_reply(0, 1), 1);
    assert_eq!(decode_reply(1, 0x8000_0000), 1);
    assert_eq!(decode_reply(8, 0xa5ff_ffff), 0xa5);
    assert_eq!(decode_reply(31, 0xffff_ffff), 0x7fff_ffff);
    assert_eq!(decode_reply(32, 0x1234_5678), 0x1234_5678);
}

#[test]
fn reply_to_a_read_past_a_word_is_the_top_bit() {
    assert_eq!(decode_reply(33, 0xffff_ffff), 1);
    assert_eq!(decode_reply(33, 0x7fff_ffff), 0);
}
