//! The receiver's half of one exchange: what to do next on the channel,
//! and what each outcome leads to.
//!
//! [`ReceiverState`] is the machine as a value, with its transitions and
//! its laws. [`Receiver`] holds one such state and steps it. Neither does
//! input or output: the caller performs the pending action on the channel
//! and reports how it ended.

use crate::error::TransferError;
use crate::wire::{ack_array, acknowledgment, decode_size, le_value};
use vstd::prelude::*;

verus! {

/// The size of the buffer that a receiver reads into unless told otherwise.
pub const DEFAULT_BUFFER_LEN: usize = 8192;

/// How far the receiver has come.
#[derive(Clone, Copy, Debug, PartialEq, Eq, Structural)]
pub enum ReceiverPhase {
    /// The channel is established; nothing has been read.
    Connected,
    /// The size frame has been read; no payload yet.
    SizeExchanged,
    /// Some payload has been read.
    Streaming,
    /// The whole payload has been read and the acknowledgment written.
    Acknowledged,
    /// The channel has been shut down: the exchange succeeded.
    Closed,
    /// The exchange failed. Nothing follows.
    Failed(TransferError),
}

/// What the receiver's caller is to do on the channel.
#[derive(Clone, Copy, Debug, PartialEq, Eq)]
pub enum ReceiverAction {
    /// Read exactly eight bytes.
    ReadSizeFrame,
    /// Read once, at most this many bytes.
    Read(usize),
    /// Write these two bytes.
    WriteAck([u8; 2]),
    /// Shut the channel down gracefully.
    Shutdown,
    /// Nothing: the exchange has succeeded.
    Finish,
    /// Nothing but to close the channel: the exchange has failed.
    Abort(TransferError),
}

/// How the pending action ended.
#[derive(Clone, Copy, Debug, PartialEq, Eq)]
pub enum ReceiverEvent {
    /// The exact read completed with these eight bytes.
    SizeRead([u8; 8]),
    /// The read completed with this many bytes; zero means that the stream
    /// has ended.
    DataRead(usize),
    /// The write or shutdown completed.
    Completed,
    /// The action failed on the channel.
    Failed,
}

/// The state of the receiver of one exchange.
#[derive(Clone, Copy, Debug, PartialEq, Eq, Structural)]
pub struct ReceiverState {
    /// The size of the buffer that payload is read into.
    pub buffer_len: usize,
    /// How far the exchange has come.
    pub phase: ReceiverPhase,
    /// The payload size that the size frame announced; zero before it is
    /// read.
    pub file_size: u64,
    /// Payload bytes read so far.
    pub received: u64,
}

impl ReceiverState {
    /// The receiver never reads more than the announced size, and
    /// acknowledges only when it has read all of it.
    pub open spec fn wf(self) -> bool {
        &&& self.buffer_len >= 1
        &&& self.received <= self.file_size
        &&& match self.phase {
            ReceiverPhase::Connected => self.file_size == 0,
            ReceiverPhase::SizeExchanged => self.received == 0,
            ReceiverPhase::Streaming => self.received > 0,
            ReceiverPhase::Acknowledged | ReceiverPhase::Closed => self.received
                == self.file_size,
            ReceiverPhase::Failed(_) => true,
        }
    }

    /// The receiver on a channel that has just been established.
    pub open spec fn initial(buffer_len: usize) -> ReceiverState {
        ReceiverState { buffer_len, phase: ReceiverPhase::Connected, file_size: 0, received: 0 }
    }

    /// The most that the next read may take: the buffer's size, or what is
    /// left of the payload if that is less.
    pub open spec fn next_read_len(self) -> usize {
        if self.file_size - self.received < self.buffer_len {
            (self.file_size - self.received) as usize
        } else {
            self.buffer_len
        }
    }

    /// Whether the exchange is over, one way or the other.
    pub open spec fn is_terminal(self) -> bool {
        self.phase is Closed || self.phase is Failed
    }

    /// The action to perform next.
    pub open spec fn pending(self) -> ReceiverAction {
        match self.phase {
            ReceiverPhase::Connected => ReceiverAction::ReadSizeFrame,
            ReceiverPhase::SizeExchanged | ReceiverPhase::Streaming => if self.received
                < self.file_size {
                ReceiverAction::Read(self.next_read_len())
            } else {
                ReceiverAction::WriteAck(ack_array())
            },
            ReceiverPhase::Acknowledged => ReceiverAction::Shutdown,
            ReceiverPhase::Closed => ReceiverAction::Finish,
            ReceiverPhase::Failed(error) => ReceiverAction::Abort(error),
        }
    }

    /// The receiver after the pending action ended with `event`.
    ///
    /// An exchange that is over stays as it is. A failed action fails the
    /// exchange with an I/O error. A stream that ends before the announced
    /// size is reached, a read that reports more than was asked for, or an
    /// event that does not answer the pending action, fails it with a
    /// protocol violation.
    pub open spec fn advance(self, event: ReceiverEvent) -> ReceiverState {
        match (self.phase, event) {
            (ReceiverPhase::Closed, _) | (ReceiverPhase::Failed(_), _) => self,
            (_, ReceiverEvent::Failed) => ReceiverState {
                phase: ReceiverPhase::Failed(TransferError::Io),
                ..self
            },
            (ReceiverPhase::Connected, ReceiverEvent::SizeRead(frame)) => ReceiverState {
                phase: ReceiverPhase::SizeExchanged,
                file_size: le_value(frame@) as u64,
                ..self
            },
            (ReceiverPhase::SizeExchanged, ReceiverEvent::DataRead(count)) | (
                ReceiverPhase::Streaming,
                ReceiverEvent::DataRead(count),
            ) => if self.received < self.file_size && 1 <= count <= self.next_read_len() {
                ReceiverState {
                    phase: ReceiverPhase::Streaming,
                    received: (self.received + count) as u64,
                    ..self
                }
            } else {
                ReceiverState { phase: ReceiverPhase::Failed(TransferError::ProtocolViolation), ..self }
            },
            (ReceiverPhase::SizeExchanged, ReceiverEvent::Completed) | (
                ReceiverPhase::Streaming,
                ReceiverEvent::Completed,
            ) => if self.received == self.file_size {
                ReceiverState { phase: ReceiverPhase::Acknowledged, ..self }
            } else {
                ReceiverState { phase: ReceiverPhase::Failed(TransferError::ProtocolViolation), ..self }
            },
            (ReceiverPhase::Acknowledged, ReceiverEvent::Completed) => ReceiverState {
                phase: ReceiverPhase::Closed,
                ..self
            },
            _ => ReceiverState { phase: ReceiverPhase::Failed(TransferError::ProtocolViolation), ..self },
        }
    }

    /// The receiver after the events of `events`, in order.
    pub open spec fn run(self, events: Seq<ReceiverEvent>) -> ReceiverState
        decreases events.len(),
    {
        if events.len() == 0 {
            self
        } else {
            self.run(events.drop_last()).advance(events.last())
        }
    }
}

/// The receiver of one exchange.
pub struct Receiver {
    state: ReceiverState,
}

impl View for Receiver {
    type V = ReceiverState;

    closed spec fn view(&self) -> ReceiverState {
        self.state
    }
}

impl Receiver {
    /// Every receiver is well-formed, whoever holds it.
    #[verifier::type_invariant]
    spec fn well_formed(self) -> bool {
        self.state.wf()
    }

    /// The receiver that reads into a buffer of `buffer_len` bytes, on a
    /// channel that has just been established.
    pub fn new(buffer_len: usize) -> (receiver: Receiver)
        requires
            buffer_len >= 1,
        ensures
            receiver@ == ReceiverState::initial(buffer_len),
            receiver@.wf(),
    {
        Receiver {
            state: ReceiverState {
                buffer_len,
                phase: ReceiverPhase::Connected,
                file_size: 0,
                received: 0,
            },
        }
    }

    /// The state of the receiver.
    pub fn state(&self) -> (state: ReceiverState)
        ensures
            state == self@,
            state.wf(),
    {
        proof {
            use_type_invariant(self);
        }
        self.state
    }

    /// The action to perform next on the channel.
    pub fn pending(&self) -> (action: ReceiverAction)
        ensures
            action == self@.pending(),
            self@.wf(),
    {
        proof {
            use_type_invariant(self);
        }
        let state = self.state;
        match state.phase {
            ReceiverPhase::Connected => ReceiverAction::ReadSizeFrame,
            ReceiverPhase::SizeExchanged | ReceiverPhase::Streaming => {
                if state.received < state.file_size {
                    ReceiverAction::Read(state.read_len())
                } else {
                    ReceiverAction::WriteAck(acknowledgment())
                }
            },
            ReceiverPhase::Acknowledged => ReceiverAction::Shutdown,
            ReceiverPhase::Closed => ReceiverAction::Finish,
            ReceiverPhase::Failed(error) => ReceiverAction::Abort(error),
        }
    }

    /// Takes in how the pending action ended.
    pub fn advance(&mut self, event: ReceiverEvent)
        ensures
            final(self)@ == old(self)@.advance(event),
            final(self)@.wf(),
    {
        proof {
            use_type_invariant(&*self);
            lemma_advance_keeps_wf(self.state, event);
        }
        let mut state = self.state;
        match state.phase {
            ReceiverPhase::Closed | ReceiverPhase::Failed(_) => {},
            ReceiverPhase::Connected => match event {
                ReceiverEvent::Failed => {
                    state.phase = ReceiverPhase::Failed(TransferError::Io);
                },
                ReceiverEvent::SizeRead(frame) => {
                    state.file_size = decode_size(&frame);
                    state.phase = ReceiverPhase::SizeExchanged;
                },
                _ => {
                    state.phase = ReceiverPhase::Failed(TransferError::ProtocolViolation);
                },
            },
            ReceiverPhase::SizeExchanged | ReceiverPhase::Streaming => match event {
                ReceiverEvent::Failed => {
                    state.phase = ReceiverPhase::Failed(TransferError::Io);
                },
                ReceiverEvent::DataRead(count) => {
                    if state.received < state.file_size && 1 <= count && count
                        <= state.read_len() {
                        state.received = state.received + count as u64;
                        state.phase = ReceiverPhase::Streaming;
                    } else {
                        state.phase = ReceiverPhase::Failed(TransferError::ProtocolViolation);
                    }
                },
                ReceiverEvent::Completed => {
                    if state.received == state.file_size {
                        state.phase = ReceiverPhase::Acknowledged;
                    } else {
                        state.phase = ReceiverPhase::Failed(TransferError::ProtocolViolation);
                    }
                },
                ReceiverEvent::SizeRead(_) => {
                    state.phase = ReceiverPhase::Failed(TransferError::ProtocolViolation);
                },
            },
            ReceiverPhase::Acknowledged => match event {
                ReceiverEvent::Failed => {
                    state.phase = ReceiverPhase::Failed(TransferError::Io);
                },
                ReceiverEvent::Completed => {
                    state.phase = ReceiverPhase::Closed;
                },
                _ => {
                    state.phase = ReceiverPhase::Failed(TransferError::ProtocolViolation);
                },
            },
        }
        self.state = state;
    }
}

impl ReceiverState {
    /// The most that the next read may take.
    fn read_len(&self) -> (len: usize)
        requires
            self.wf(),
            self.received < self.file_size,
        ensures
            len == self.next_read_len(),
            1 <= len <= self.buffer_len,
            self.received + len <= self.file_size,
    {
        let left = self.file_size - self.received;
        if left < self.buffer_len as u64 {
            left as usize
        } else {
            self.buffer_len
        }
    }
}

/// Law of the receiver: every step keeps it well-formed.
pub proof fn lemma_advance_keeps_wf(receiver: ReceiverState, event: ReceiverEvent)
    requires
        receiver.wf(),
    ensures
        receiver.advance(event).wf(),
{
    if let ReceiverEvent::SizeRead(frame) = event {
        crate::wire::lemma_size_frame_unique(frame@);
    }
}

/// Law of the receiver: an exchange that is over stays as it is, whatever
/// is reported afterwards.
pub proof fn lemma_terminal_is_final(receiver: ReceiverState, events: Seq<ReceiverEvent>)
    requires
        receiver.is_terminal(),
    ensures
        receiver.run(events) == receiver,
    decreases events.len(),
{
    if events.len() > 0 {
        lemma_terminal_is_final(receiver, events.drop_last());
    }
}

/// Law of the receiver: whatever is reported to it, it stays well-formed
/// and keeps its buffer size.
pub proof fn lemma_run_keeps_wf(receiver: ReceiverState, events: Seq<ReceiverEvent>)
    requires
        receiver.wf(),
    ensures
        receiver.run(events).wf(),
        receiver.run(events).buffer_len == receiver.buffer_len,
    decreases events.len(),
{
    if events.len() > 0 {
        lemma_run_keeps_wf(receiver, events.drop_last());
        lemma_advance_keeps_wf(receiver.run(events.drop_last()), events.last());
    }
}

/// The number of payload bytes that the reads among `events` reported.
pub open spec fn payload_read(events: Seq<ReceiverEvent>) -> nat
    decreases events.len(),
{
    if events.len() == 0 {
        0
    } else {
        payload_read(events.drop_last()) + match events.last() {
            ReceiverEvent::DataRead(count) => count as nat,
            _ => 0,
        }
    }
}

/// Whether each of `events` was reported to an exchange that was not over
/// yet.
pub open spec fn in_progress(receiver: ReceiverState, events: Seq<ReceiverEvent>) -> bool {
    events.len() > 0 ==> !receiver.run(events.drop_last()).is_terminal()
}

/// Whether `event` is the read of a size frame that announces `file_size`
/// bytes.
pub open spec fn announces(event: ReceiverEvent, file_size: u64) -> bool {
    event matches ReceiverEvent::SizeRead(frame) && file_size == le_value(frame@)
}

/// Law of the exchange: the byte count that the receiver observes. A
/// receiver that has not failed counts exactly the bytes that its reads
/// reported, never more than the size frame announced; once it has
/// acknowledged, exactly as many.
pub proof fn lemma_byte_count(buffer_len: usize, events: Seq<ReceiverEvent>)
    requires
        buffer_len >= 1,
        in_progress(ReceiverState::initial(buffer_len), events),
    ensures
        ({
            let end = ReceiverState::initial(buffer_len).run(events);
            &&& end.phase is Connected <==> events.len() == 0
            &&& !(end.phase is Failed) ==> {
                &&& end.received == payload_read(events)
                &&& payload_read(events) <= end.file_size
                &&& events.len() > 0 ==> announces(events[0], end.file_size)
                &&& end.phase is Acknowledged || end.phase is Closed ==> payload_read(events)
                    == end.file_size
            }
        }),
    decreases events.len(),
{
    let start = ReceiverState::initial(buffer_len);
    lemma_run_keeps_wf(start, events);
    if events.len() > 0 {
        let earlier = events.drop_last();
        if earlier.len() > 0 && start.run(earlier.drop_last()).is_terminal() {
            lemma_terminal_is_final(start.run(earlier.drop_last()), seq![earlier.last()]);
            assert(seq![earlier.last()].drop_last() =~= Seq::<ReceiverEvent>::empty());
        }
        lemma_byte_count(buffer_len, earlier);
        lemma_run_keeps_wf(start, earlier);
        if earlier.len() > 0 {
            assert(events[0] == earlier[0]);
        }
        if let ReceiverEvent::SizeRead(frame) = events.last() {
            crate::wire::lemma_size_frame_unique(frame@);
        }
    }
}

/// The sum of the read counts `reads`.
pub open spec fn total_read(reads: Seq<usize>) -> nat
    decreases reads.len(),
{
    if reads.len() == 0 {
        0
    } else {
        total_read(reads.drop_last()) + reads.last() as nat
    }
}

/// Whether the channel may deliver a payload of `file_size` bytes as the
/// reads `reads` to a buffer of `buffer_len` bytes: no read is empty, none
/// overruns the buffer or the payload, and together they are the payload.
pub open spec fn delivers(reads: Seq<usize>, file_size: nat, buffer_len: nat) -> bool {
    &&& total_read(reads) == file_size
    &&& forall|i: int| 0 <= i < reads.len() ==> 1 <= #[trigger] reads[i] <= buffer_len
}

/// What is reported to a receiver when nothing fails: the size frame is
/// read, the payload arrives as `reads`, and the acknowledgment and the
/// shutdown complete.
pub open spec fn success_events(frame: [u8; 8], reads: Seq<usize>) -> Seq<ReceiverEvent> {
    payload_events(frame, reads).push(ReceiverEvent::Completed).push(ReceiverEvent::Completed)
}

/// The size frame's read followed by the payload's reads.
pub open spec fn payload_events(frame: [u8; 8], reads: Seq<usize>) -> Seq<ReceiverEvent> {
    seq![ReceiverEvent::SizeRead(frame)] + Seq::new(
        reads.len(),
        |i: int| ReceiverEvent::DataRead(reads[i]),
    )
}

/// The sum of reads grows with the reads.
proof fn lemma_total_read_prefix(reads: Seq<usize>, n: int)
    requires
        0 <= n <= reads.len(),
    ensures
        total_read(reads.take(n)) <= total_read(reads),
    decreases reads.len(),
{
    if n == reads.len() {
        assert(reads.take(n) =~= reads);
    } else {
        assert(reads.drop_last().take(n) =~= reads.take(n));
        lemma_total_read_prefix(reads.drop_last(), n);
    }
}

/// After the size frame and the first `n` of the reads that deliver the
/// payload, the receiver has counted what those reads gave.
proof fn lemma_after_reads(buffer_len: usize, frame: [u8; 8], reads: Seq<usize>, n: int)
    requires
        buffer_len >= 1,
        delivers(reads, le_value(frame@), buffer_len as nat),
        0 <= n <= reads.len(),
    ensures
        ({
            let now = ReceiverState::initial(buffer_len).run(payload_events(frame, reads.take(n)));
            &&& now.wf()
            &&& now.buffer_len == buffer_len
            &&& now.file_size == le_value(frame@)
            &&& now.received == total_read(reads.take(n))
            &&& now.phase == if n == 0 {
                ReceiverPhase::SizeExchanged
            } else {
                ReceiverPhase::Streaming
            }
        }),
    decreases n,
{
    let start = ReceiverState::initial(buffer_len);
    let events = payload_events(frame, reads.take(n));
    crate::wire::lemma_size_frame_unique(frame@);
    lemma_run_keeps_wf(start, events);
    if n == 0 {
        assert(events =~= seq![ReceiverEvent::SizeRead(frame)]);
        assert(events.drop_last() =~= Seq::<ReceiverEvent>::empty());
        assert(start.run(events.drop_last()) == start);
    } else {
        lemma_after_reads(buffer_len, frame, reads, n - 1);
        assert(events.drop_last() =~= payload_events(frame, reads.take(n - 1)));
        assert(events.last() == ReceiverEvent::DataRead(reads[n - 1]));
        assert(reads.take(n).drop_last() =~= reads.take(n - 1));
        assert(reads.take(n).last() == reads[n - 1]);
        lemma_total_read_prefix(reads, n);
    }
}

/// Law of the receiver: when success is owed. However the channel cuts the
/// payload into reads, the receiver that is given the size frame and then
/// the payload, and whose acknowledgment and shutdown complete, ends closed,
/// having counted exactly the announced number of bytes.
pub proof fn lemma_success_run(buffer_len: usize, frame: [u8; 8], reads: Seq<usize>)
    requires
        buffer_len >= 1,
        delivers(reads, le_value(frame@), buffer_len as nat),
    ensures
        ({
            let end = ReceiverState::initial(buffer_len).run(success_events(frame, reads));
            &&& end.phase is Closed
            &&& end.file_size == le_value(frame@)
            &&& end.received == le_value(frame@)
        }),
{
    let start = ReceiverState::initial(buffer_len);
    lemma_after_reads(buffer_len, frame, reads, reads.len() as int);
    assert(reads.take(reads.len() as int) =~= reads);
    let e0 = payload_events(frame, reads);
    let e1 = e0.push(ReceiverEvent::Completed);
    assert(e1.drop_last() =~= e0);
    assert(start.run(e1).phase is Acknowledged);
    let e2 = e1.push(ReceiverEvent::Completed);
    assert(e2.drop_last() =~= e1);
}

/// The most that read number `index`, counted from zero, may take when the
/// payload announced by `frame` arrives as `reads`: the buffer's size, or
/// what the earlier reads have left of the payload if that is less.
pub open spec fn read_len_at(buffer_len: usize, frame: [u8; 8], reads: Seq<usize>, index: int) -> usize {
    let left = le_value(frame@) - total_read(reads.take(index));
    if left < buffer_len {
        left as usize
    } else {
        buffer_len
    }
}

/// What the receiver does, in order, when nothing fails: it reads the size
/// frame, then the payload read by read, writes the acknowledgment and shuts
/// the channel down.
pub open spec fn success_actions(buffer_len: usize, frame: [u8; 8], reads: Seq<usize>) -> Seq<
    ReceiverAction,
> {
    seq![ReceiverAction::ReadSizeFrame] + Seq::new(
        reads.len(),
        |k: int| ReceiverAction::Read(read_len_at(buffer_len, frame, reads, k)),
    ) + seq![ReceiverAction::WriteAck(ack_array()), ReceiverAction::Shutdown]
}

impl ReceiverState {
    /// The actions that the receiver asked for while `events` were
    /// reported: for each event, the action that it answered.
    pub open spec fn actions(self, events: Seq<ReceiverEvent>) -> Seq<ReceiverAction> {
        Seq::new(events.len(), |i: int| self.run(events.take(i)).pending())
    }
}

/// Law of the receiver: the order of its steps. When nothing fails, the
/// receiver asks for exactly the actions of a successful exchange, in their
/// order and with no other between them: it writes the acknowledgment once,
/// after the last read and not before. After them it asks for nothing more.
pub proof fn lemma_success_actions(buffer_len: usize, frame: [u8; 8], reads: Seq<usize>)
    requires
        buffer_len >= 1,
        delivers(reads, le_value(frame@), buffer_len as nat),
    ensures
        ReceiverState::initial(buffer_len).actions(success_events(frame, reads)) == success_actions(
            buffer_len,
            frame,
            reads,
        ),
        ReceiverState::initial(buffer_len).run(success_events(frame, reads)).pending()
            == ReceiverAction::Finish,
{
    let start = ReceiverState::initial(buffer_len);
    let events = success_events(frame, reads);
    let asked = start.actions(events);
    let expected = success_actions(buffer_len, frame, reads);
    let n = reads.len() as int;
    lemma_success_run(buffer_len, frame, reads);
    assert(asked.len() == expected.len());
    assert forall|i: int| 0 <= i < asked.len() implies asked[i] == expected[i] by {
        let now = start.run(events.take(i));
        if i == 0 {
            assert(events.take(0).len() == 0);
        } else if i <= n + 1 {
            let done = i - 1;
            assert(events.take(i) =~= payload_events(frame, reads.take(done)));
            lemma_after_reads(buffer_len, frame, reads, done);
            if i <= n {
                lemma_total_read_prefix(reads, done + 1);
                assert(reads.take(done + 1).drop_last() =~= reads.take(done));
                assert(reads.take(done + 1).last() == reads[done]);
                assert(now.received < now.file_size);
                assert(now.next_read_len() == read_len_at(buffer_len, frame, reads, done));
                assert(expected[i] == ReceiverAction::Read(
                    read_len_at(buffer_len, frame, reads, done),
                ));
            } else {
                assert(reads.take(n) =~= reads);
                assert(expected[i] == ReceiverAction::WriteAck(ack_array()));
            }
        } else {
            let e0 = payload_events(frame, reads);
            let e1 = e0.push(ReceiverEvent::Completed);
            assert(events.take(i) =~= e1);
            assert(e1.drop_last() =~= e0);
            lemma_after_reads(buffer_len, frame, reads, n);
            assert(reads.take(n) =~= reads);
            assert(now.phase is Acknowledged);
            assert(expected[i] == ReceiverAction::Shutdown);
        }
    }
    assert(asked =~= expected);
}

/// Law of the exchange: a stream that ends early is a failure. A receiver
/// that still lacks payload and reads the end of the stream fails with a
/// protocol violation, and nothing reported afterwards makes it write the
/// acknowledgment.
pub proof fn lemma_early_end_fails(receiver: ReceiverState, later: Seq<ReceiverEvent>)
    requires
        receiver.wf(),
        receiver.phase is SizeExchanged || receiver.phase is Streaming,
        receiver.received < receiver.file_size,
    ensures
        ({
            let failed = receiver.advance(ReceiverEvent::DataRead(0));
            &&& failed.phase == ReceiverPhase::Failed(TransferError::ProtocolViolation)
            &&& failed.run(later) == failed
            &&& failed.run(later).pending() == ReceiverAction::Abort(
                TransferError::ProtocolViolation,
            )
        }),
{
    lemma_terminal_is_final(receiver.advance(ReceiverEvent::DataRead(0)), later);
}

/// Law of the exchange: the acknowledgment is written only for a complete
/// payload.
pub proof fn lemma_acknowledges_only_when_complete(receiver: ReceiverState)
    requires
        receiver.wf(),
    ensures
        receiver.pending() is WriteAck ==> receiver.received == receiver.file_size,
        receiver.received < receiver.file_size ==> !(receiver.phase is Acknowledged) && !(
        receiver.phase is Closed),
{
}

} // verus!
