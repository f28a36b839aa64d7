use transfer_bench::error::TransferError;
use transfer_bench::receiver::{
    Receiver, ReceiverAction, ReceiverEvent, ReceiverPhase, DEFAULT_BUFFER_LEN,
};

fn announced(buffer_len: usize, file_size: u64) -> Receiver {
    let mut receiver = Receiver::new(buffer_len);
    receiver.advance(ReceiverEvent::SizeRead(file_size.to_le_bytes()));
    receiver
}

#[test]
fn receiver_starts_by_reading_the_size() {
    let receiver = Receiver::new(DEFAULT_BUFFER_LEN);
    assert_eq!(DEFAULT_BUFFER_LEN, 8192);
    assert_eq!(receiver.state().phase, ReceiverPhase::Connected);
    assert_eq!(receiver.state().buffer_len, 8192);
    assert_eq!(receiver.state().received, 0);
    assert_eq!(receiver.pending(), ReceiverAction::ReadSizeFrame);
}

#[test]
fn receiver_decodes_the_size_frame() {
    let mut receiver = Receiver::new(8192);
    receiver.advance(ReceiverEvent::SizeRead([0, 0, 0x10, 0, 0, 0, 0, 0]));
    assert_eq!(receiver.state().phase, ReceiverPhase::SizeExchanged);
    assert_eq!(receiver.state().file_size, 1_048_576);
    assert_eq!(receiver.state().received, 0);
    assert_eq!(receiver.pending(), ReceiverAction::Read(8192));
    assert_eq!(announced(8192, u64::MAX).state().file_size, u64::MAX);
}

#[test]
fn receiver_goes_through_every_phase() {
    let mut receiver = announced(4, 10);
    assert_eq!(receiver.pending(), ReceiverAction::Read(4));
    receiver.advance(ReceiverEvent::DataRead(4));
    assert_eq!(receiver.state().phase, ReceiverPhase::Streaming);
    assert_eq!(receiver.state().received, 4);
    assert_eq!(receiver.pending(), ReceiverAction::Read(4));
    receiver.advance(ReceiverEvent::DataRead(3));
    assert_eq!(receiver.state().received, 7);
    assert_eq!(receiver.pending(), ReceiverAction::Read(3));
    receiver.advance(ReceiverEvent::DataRead(1));
    assert_eq!(receiver.pending(), ReceiverAction::Read(2));
    receiver.advance(ReceiverEvent::DataRead(2));
    assert_eq!(receiver.state().phase, ReceiverPhase::Streaming);
    assert_eq!(receiver.state().received, 10);
    assert_eq!(receiver.pending(), ReceiverAction::WriteAck(*b"OK"));
    receiver.advance(ReceiverEvent::Completed);
    assert_eq!(receiver.state().phase, ReceiverPhase::Acknowledged);
    assert_eq!(receiver.pending(), ReceiverAction::Shutdown);
    receiver.advance(ReceiverEvent::Completed);
    assert_eq!(receiver.state().phase, ReceiverPhase::Closed);
    assert_eq!(receiver.pending(), ReceiverAction::Finish);
    assert_eq!(receiver.state().received, 10);
}

#[test]
fn empty_file_is_acknowledged_at_once() {
    let mut receiver = announced(8192, 0);
    assert_eq!(receiver.state().phase, ReceiverPhase::SizeExchanged);
    assert_eq!(receiver.pending(), ReceiverAction::WriteAck(*b"OK"));
    receiver.advance(ReceiverEvent::Completed);
    assert_eq!(receiver.state().phase, ReceiverPhase::Acknowledged);
    assert_eq!(receiver.state().received, 0);
    receiver.advance(ReceiverEvent::Completed);
    assert_eq!(receiver.state().phase, ReceiverPhase::Closed);
}

#[test]
fn read_never_asks_for_more_than_is_left() {
    let mut receiver = announced(8192, 10_000);
    assert_eq!(receiver.pending(), ReceiverAction::Read(8192));
    receiver.advance(ReceiverEvent::DataRead(8192));
    assert_eq!(receiver.pending(), ReceiverAction::Read(1808));
    receiver.advance(ReceiverEvent::DataRead(1808));
    assert_eq!(receiver.state().received, 10_000);
    assert_eq!(receiver.pending(), ReceiverAction::WriteAck(*b"OK"));
}

#[test]
fn huge_file_is_read_a_buffer_at_a_time() {
    let mut receiver = announced(8192, u64::MAX);
    assert_eq!(receiver.pending(), ReceiverAction::Read(8192));
    receiver.advance(ReceiverEvent::DataRead(8192));
    assert_eq!(receiver.state().received, 8192);
    assert_eq!(receiver.pending(), ReceiverAction::Read(8192));
    let mut receiver = announced(usize::MAX, 5);
    assert_eq!(receiver.pending(), ReceiverAction::Read(5));
    receiver.advance(ReceiverEvent::DataRead(5));
    assert_eq!(receiver.pending(), ReceiverAction::WriteAck(*b"OK"));
}

#[test]
fn stream_that_ends_early_is_a_protocol_violation() {
    let mut receiver = announced(8192, 10);
    receiver.advance(ReceiverEvent::DataRead(9));
    receiver.advance(ReceiverEvent::DataRead(0));
    assert_eq!(receiver.state().phase, ReceiverPhase::Failed(TransferError::ProtocolViolation));
    assert_eq!(receiver.pending(), ReceiverAction::Abort(TransferError::ProtocolViolation));
    assert_eq!(receiver.state().received, 9);
    // Nothing was read at all.
    let mut receiver = announced(8192, 10);
    receiver.advance(ReceiverEvent::DataRead(0));
    assert_eq!(receiver.state().phase, ReceiverPhase::Failed(TransferError::ProtocolViolation));
    // No retry: what arrives afterwards is not taken in.
    receiver.advance(ReceiverEvent::DataRead(10));
    receiver.advance(ReceiverEvent::Completed);
    assert_eq!(receiver.state().phase, ReceiverPhase::Failed(TransferError::ProtocolViolation));
    assert_eq!(receiver.state().received, 0);
}

#[test]
fn read_beyond_what_was_asked_is_a_protocol_violation() {
    let mut receiver = announced(4, 10);
    receiver.advance(ReceiverEvent::DataRead(5));
    assert_eq!(receiver.state().phase, ReceiverPhase::Failed(TransferError::ProtocolViolation));
    assert_eq!(receiver.state().received, 0);
    let mut receiver = announced(8192, 10);
    receiver.advance(ReceiverEvent::DataRead(11));
    assert_eq!(receiver.state().phase, ReceiverPhase::Failed(TransferError::ProtocolViolation));
    let mut receiver = announced(8192, 10);
    receiver.advance(ReceiverEvent::DataRead(10));
    receiver.advance(ReceiverEvent::DataRead(1));
    assert_eq!(receiver.state().phase, ReceiverPhase::Failed(TransferError::ProtocolViolation));
    assert_eq!(receiver.state().received, 10);
}

#[test]
fn receiver_failure_at_any_step_is_an_io_error() {
    for steps in 0..4 {
        let mut receiver = Receiver::new(8);
        for _ in 0..steps {
            match receiver.pending() {
                ReceiverAction::ReadSizeFrame => {
                    receiver.advance(ReceiverEvent::SizeRead(8u64.to_le_bytes()))
                }
                ReceiverAction::Read(len) => receiver.advance(ReceiverEvent::DataRead(len)),
                _ => receiver.advance(ReceiverEvent::Completed),
            }
        }
        assert_ne!(receiver.state().phase, ReceiverPhase::Closed);
        receiver.advance(ReceiverEvent::Failed);
        assert_eq!(receiver.state().phase, ReceiverPhase::Failed(TransferError::Io));
        assert_eq!(receiver.pending(), ReceiverAction::Abort(TransferError::Io));
    }
}

#[test]
fn receiver_event_out_of_order_is_a_protocol_violation() {
    let mut receiver = Receiver::new(8);
    receiver.advance(ReceiverEvent::DataRead(1));
    assert_eq!(receiver.state().phase, ReceiverPhase::Failed(TransferError::ProtocolViolation));
    let mut receiver = Receiver::new(8);
    receiver.advance(ReceiverEvent::Completed);
    assert_eq!(receiver.state().phase, ReceiverPhase::Failed(TransferError::ProtocolViolation));
    // A second size frame.
    let mut receiver = announced(8, 10);
    receiver.advance(ReceiverEvent::SizeRead(10u64.to_le_bytes()));
    assert_eq!(receiver.state().phase, ReceiverPhase::Failed(TransferError::ProtocolViolation));
    // An acknowledgment reported as written before the payload is in.
    let mut receiver = announced(8, 10);
    receiver.advance(ReceiverEvent::DataRead(8));
    receiver.advance(ReceiverEvent::Completed);
    assert_eq!(receiver.state().phase, ReceiverPhase::Failed(TransferError::ProtocolViolation));
    // A read after the acknowledgment.
    let mut receiver = announced(8, 0);
    receiver.advance(ReceiverEvent::Completed);
    receiver.advance(ReceiverEvent::DataRead(1));
    assert_eq!(receiver.state().phase, ReceiverPhase::Failed(TransferError::ProtocolViolation));
}

#[test]
fn finished_receiver_stays_as_it_is() {
    let mut closed = announced(8, 0);
    closed.advance(ReceiverEvent::Completed);
    closed.advance(ReceiverEvent::Completed);
    assert_eq!(closed.state().phase, ReceiverPhase::Closed);
    let before = closed.state();
    for event in [
        ReceiverEvent::Completed,
        ReceiverEvent::Failed,
        ReceiverEvent::DataRead(3),
        ReceiverEvent::SizeRead([1; 8]),
    ] {
        closed.advance(event);
        assert_eq!(closed.state(), before);
    }
}
