use transfer_bench::error::TransferError;
use transfer_bench::measure::TransferRequest;
use transfer_bench::sender::{Sender, SenderAction, SenderEvent, SenderPhase};

fn request(file_size: u64, chunk_size: u32) -> TransferRequest {
    TransferRequest::new(file_size, chunk_size).unwrap()
}

/// Runs a sender whose every action completes and that reads `ack`, and
/// returns the actions it asked for.
fn actions_of(sender: &mut Sender, ack: [u8; 2]) -> Vec<SenderAction> {
    let mut actions = Vec::new();
    loop {
        let action = sender.pending();
        actions.push(action);
        match action {
            SenderAction::Finish | SenderAction::Abort(_) => return actions,
            SenderAction::ReadAck => sender.advance(SenderEvent::AckRead(ack)),
            _ => sender.advance(SenderEvent::Completed),
        }
    }
}

fn chunks_of(actions: &[SenderAction]) -> Vec<u32> {
    actions
        .iter()
        .filter_map(|action| match action {
            SenderAction::WriteChunk(len) => Some(*len),
            _ => None,
        })
        .collect()
}

#[test]
fn sender_starts_connected() {
    let sender = Sender::new(request(10, 4));
    assert_eq!(sender.state().phase, SenderPhase::Connected);
    assert_eq!(sender.state().sent, 0);
    assert_eq!(sender.state().chunks, 0);
    assert_eq!(sender.state().request, request(10, 4));
    assert_eq!(sender.pending(), SenderAction::WriteSizeFrame(10u64.to_le_bytes()));
}

#[test]
fn sender_goes_through_every_phase() {
    let mut sender = Sender::new(request(10, 4));
    assert_eq!(sender.pending(), SenderAction::WriteSizeFrame([10, 0, 0, 0, 0, 0, 0, 0]));
    sender.advance(SenderEvent::Completed);
    assert_eq!(sender.state().phase, SenderPhase::SizeExchanged);
    assert_eq!(sender.pending(), SenderAction::WriteChunk(4));
    sender.advance(SenderEvent::Completed);
    assert_eq!(sender.state().phase, SenderPhase::Streaming);
    assert_eq!((sender.state().sent, sender.state().chunks), (4, 1));
    assert_eq!(sender.pending(), SenderAction::WriteChunk(4));
    sender.advance(SenderEvent::Completed);
    assert_eq!((sender.state().sent, sender.state().chunks), (8, 2));
    assert_eq!(sender.pending(), SenderAction::WriteChunk(2));
    sender.advance(SenderEvent::Completed);
    assert_eq!(sender.state().phase, SenderPhase::Streaming);
    assert_eq!((sender.state().sent, sender.state().chunks), (10, 3));
    assert_eq!(sender.pending(), SenderAction::Flush);
    sender.advance(SenderEvent::Completed);
    assert_eq!(sender.state().phase, SenderPhase::Flushed);
    assert_eq!(sender.pending(), SenderAction::ReadAck);
    sender.advance(SenderEvent::AckRead(*b"OK"));
    assert_eq!(sender.state().phase, SenderPhase::Acknowledged);
    assert_eq!(sender.pending(), SenderAction::Shutdown);
    sender.advance(SenderEvent::Completed);
    assert_eq!(sender.state().phase, SenderPhase::Closed);
    assert_eq!(sender.pending(), SenderAction::Finish);
    assert_eq!((sender.state().sent, sender.state().chunks), (10, 3));
}

#[test]
fn empty_file_takes_no_chunk() {
    let mut sender = Sender::new(request(0, 8192));
    let actions = actions_of(&mut sender, *b"OK");
    assert_eq!(
        actions,
        vec![
            SenderAction::WriteSizeFrame([0; 8]),
            SenderAction::Flush,
            SenderAction::ReadAck,
            SenderAction::Shutdown,
            SenderAction::Finish,
        ]
    );
    assert_eq!(sender.state().phase, SenderPhase::Closed);
    assert_eq!(sender.state().sent, 0);
    assert_eq!(sender.state().chunks, 0);
}

#[test]
fn one_megabyte_in_eight_kilobyte_chunks_takes_128_writes() {
    let mut sender = Sender::new(request(1_048_576, 8192));
    let actions = actions_of(&mut sender, *b"OK");
    let chunks = chunks_of(&actions);
    assert_eq!(chunks.len(), 128);
    assert!(chunks.iter().all(|len| *len == 8192));
    assert_eq!(sender.state().phase, SenderPhase::Closed);
    assert_eq!(sender.state().sent, 1_048_576);
    assert_eq!(sender.state().chunks, 128);
    assert_eq!(actions.len(), 128 + 5);
    assert_eq!(actions[0], SenderAction::WriteSizeFrame(1_048_576u64.to_le_bytes()));
    assert_eq!(actions[129], SenderAction::Flush);
    assert_eq!(actions[130], SenderAction::ReadAck);
    assert_eq!(actions[131], SenderAction::Shutdown);
    assert_eq!(actions[132], SenderAction::Finish);
}

#[test]
fn chunk_larger_than_file_is_one_short_chunk() {
    let mut sender = Sender::new(request(100, 8192));
    let actions = actions_of(&mut sender, *b"OK");
    assert_eq!(chunks_of(&actions), vec![100]);
    assert_eq!(sender.state().phase, SenderPhase::Closed);
    assert_eq!((sender.state().sent, sender.state().chunks), (100, 1));
}

#[test]
fn chunk_of_one_sends_byte_by_byte() {
    let mut sender = Sender::new(request(7, 1));
    let actions = actions_of(&mut sender, *b"OK");
    assert_eq!(chunks_of(&actions), vec![1; 7]);
    assert_eq!(sender.state().phase, SenderPhase::Closed);
    assert_eq!((sender.state().sent, sender.state().chunks), (7, 7));
}

#[test]
fn chunk_equal_to_file_is_one_full_chunk() {
    let mut sender = Sender::new(request(4096, 4096));
    let actions = actions_of(&mut sender, *b"OK");
    assert_eq!(chunks_of(&actions), vec![4096]);
    assert_eq!((sender.state().sent, sender.state().chunks), (4096, 1));
}

#[test]
fn last_chunk_holds_the_rest() {
    let mut sender = Sender::new(request(10_000, 4096));
    let actions = actions_of(&mut sender, *b"OK");
    assert_eq!(chunks_of(&actions), vec![4096, 4096, 1808]);
    assert_eq!((sender.state().sent, sender.state().chunks), (10_000, 3));
}

#[test]
fn every_chunk_size_sends_the_whole_file() {
    for file_size in [0u64, 1, 2, 99, 100, 101, 4096] {
        for chunk_size in [1u32, 2, 3, 7, 64, 99, 100, 101, 4096, 8192, u32::MAX] {
            let mut sender = Sender::new(request(file_size, chunk_size));
            let actions = actions_of(&mut sender, *b"OK");
            let chunks = chunks_of(&actions);
            let total: u64 = chunks.iter().map(|len| *len as u64).sum();
            assert_eq!(total, file_size);
            assert_eq!(chunks.len() as u64, file_size.div_ceil(chunk_size as u64));
            assert_eq!(sender.state().chunks, file_size.div_ceil(chunk_size as u64));
            assert!(chunks.iter().all(|len| 1 <= *len && *len <= chunk_size));
            assert_eq!(sender.state().phase, SenderPhase::Closed);
            assert_eq!(sender.state().sent, file_size);
        }
    }
}

#[test]
fn file_beyond_four_gigabytes_is_cut_by_the_chunk_size() {
    let mut sender = Sender::new(request(u64::MAX, u32::MAX));
    sender.advance(SenderEvent::Completed);
    assert_eq!(sender.pending(), SenderAction::WriteChunk(u32::MAX));
    sender.advance(SenderEvent::Completed);
    assert_eq!(sender.state().sent, u32::MAX as u64);
    assert_eq!(sender.pending(), SenderAction::WriteChunk(u32::MAX));
}

#[test]
fn wrong_acknowledgment_is_a_protocol_violation() {
    for ack in [*b"KO", *b"NO", *b"ok", [0, 0], *b"O\0"] {
        let mut sender = Sender::new(request(10, 4));
        let actions = actions_of(&mut sender, ack);
        assert_eq!(sender.state().phase, SenderPhase::Failed(TransferError::ProtocolViolation));
        assert_eq!(actions.last(), Some(&SenderAction::Abort(TransferError::ProtocolViolation)));
        assert!(!actions.contains(&SenderAction::Shutdown));
        assert!(!actions.contains(&SenderAction::Finish));
    }
}

#[test]
fn failed_read_of_the_acknowledgment_fails_the_transfer() {
    // The receiver went away before it acknowledged: the exact read of two
    // bytes fails, and so does the transfer.
    let mut sender = Sender::new(request(10, 4));
    while sender.pending() != SenderAction::ReadAck {
        sender.advance(SenderEvent::Completed);
    }
    sender.advance(SenderEvent::Failed);
    assert_eq!(sender.state().phase, SenderPhase::Failed(TransferError::Io));
    assert_eq!(sender.pending(), SenderAction::Abort(TransferError::Io));
}

#[test]
fn failure_at_any_step_is_an_io_error() {
    for steps in 0..7 {
        let mut sender = Sender::new(request(10, 4));
        for _ in 0..steps {
            match sender.pending() {
                SenderAction::ReadAck => sender.advance(SenderEvent::AckRead(*b"OK")),
                _ => sender.advance(SenderEvent::Completed),
            }
        }
        assert_ne!(sender.state().phase, SenderPhase::Closed);
        let sent = sender.state().sent;
        sender.advance(SenderEvent::Failed);
        assert_eq!(sender.state().phase, SenderPhase::Failed(TransferError::Io));
        assert_eq!(sender.pending(), SenderAction::Abort(TransferError::Io));
        assert_eq!(sender.state().sent, sent);
    }
}

#[test]
fn event_out_of_order_is_a_protocol_violation() {
    // An acknowledgment where a write was pending.
    let mut sender = Sender::new(request(10, 4));
    sender.advance(SenderEvent::AckRead(*b"OK"));
    assert_eq!(sender.state().phase, SenderPhase::Failed(TransferError::ProtocolViolation));
    let mut sender = Sender::new(request(10, 4));
    sender.advance(SenderEvent::Completed);
    sender.advance(SenderEvent::Completed);
    sender.advance(SenderEvent::AckRead(*b"OK"));
    assert_eq!(sender.state().phase, SenderPhase::Failed(TransferError::ProtocolViolation));
    // A completion where the acknowledgment was to be read.
    let mut sender = Sender::new(request(0, 4));
    sender.advance(SenderEvent::Completed);
    sender.advance(SenderEvent::Completed);
    assert_eq!(sender.pending(), SenderAction::ReadAck);
    sender.advance(SenderEvent::Completed);
    assert_eq!(sender.state().phase, SenderPhase::Failed(TransferError::ProtocolViolation));
    // An acknowledgment after the acknowledgment.
    let mut sender = Sender::new(request(0, 4));
    sender.advance(SenderEvent::Completed);
    sender.advance(SenderEvent::Completed);
    sender.advance(SenderEvent::AckRead(*b"OK"));
    sender.advance(SenderEvent::AckRead(*b"OK"));
    assert_eq!(sender.state().phase, SenderPhase::Failed(TransferError::ProtocolViolation));
}

#[test]
fn finished_sender_stays_as_it_is() {
    let mut closed = Sender::new(request(3, 2));
    actions_of(&mut closed, *b"OK");
    let before = closed.state();
    for event in [SenderEvent::Completed, SenderEvent::Failed, SenderEvent::AckRead(*b"KO")] {
        closed.advance(event);
        assert_eq!(closed.state(), before);
    }
    let mut failed = Sender::new(request(3, 2));
    failed.advance(SenderEvent::Failed);
    let before = failed.state();
    for event in [SenderEvent::Completed, SenderEvent::Failed, SenderEvent::AckRead(*b"OK")] {
        failed.advance(event);
        assert_eq!(failed.state(), before);
    }
}
