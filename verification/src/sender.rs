//! The sender's half of one exchange: what to do next on the channel, and
//! what each outcome leads to.
//!
//! [`SenderState`] is the machine as a value, with its transitions and its
//! laws. [`Sender`] holds one such state and steps it. Neither does input or
//! output: the caller performs the pending action on the channel and
//! reports how it ended.

use crate::error::TransferError;
use crate::measure::TransferRequest;
use crate::wire::{ack_bytes, encode_size, is_acknowledgment, size_frame_array};
use vstd::prelude::*;

verus! {

/// How far the sender has come.
#[derive(Clone, Copy, Debug, PartialEq, Eq, Structural)]
pub enum SenderPhase {
    /// The channel is established; nothing has been written.
    Connected,
    /// The size frame has been written; no payload yet.
    SizeExchanged,
    /// Some payload has been written.
    Streaming,
    /// The whole payload has been written and flushed; the acknowledgment
    /// has not been read.
    Flushed,
    /// The acknowledgment has been read and is the expected one.
    Acknowledged,
    /// The channel has been shut down: the exchange succeeded.
    Closed,
    /// The exchange failed. Nothing follows.
    Failed(TransferError),
}

/// What the sender's caller is to do on the channel.
#[derive(Clone, Copy, Debug, PartialEq, Eq)]
pub enum SenderAction {
    /// Write these eight bytes.
    WriteSizeFrame([u8; 8]),
    /// Write this many bytes of filler as one chunk.
    WriteChunk(u32),
    /// Flush what was written.
    Flush,
    /// Read exactly two bytes.
    ReadAck,
    /// Shut the channel down gracefully.
    Shutdown,
    /// Nothing: the exchange has succeeded.
    Finish,
    /// Nothing but to close the channel: the exchange has failed.
    Abort(TransferError),
}

/// How the pending action ended.
#[derive(Clone, Copy, Debug, PartialEq, Eq)]
pub enum SenderEvent {
    /// The write, flush or shutdown completed.
    Completed,
    /// The read completed with these two bytes.
    AckRead([u8; 2]),
    /// The action failed on the channel.
    Failed,
}

/// The number of chunks of at most `chunk_size` bytes that `bytes` bytes
/// take.
pub open spec fn chunk_count(bytes: nat, chunk_size: nat) -> nat {
    ((bytes + chunk_size - 1) / (chunk_size as int)) as nat
}

/// The state of the sender of one exchange.
#[derive(Clone, Copy, Debug, PartialEq, Eq, Structural)]
pub struct SenderState {
    /// What is to be sent.
    pub request: TransferRequest,
    /// How far the exchange has come.
    pub phase: SenderPhase,
    /// Payload bytes written so far.
    pub sent: u64,
    /// Payload chunks written so far.
    pub chunks: u64,
}

impl SenderState {
    /// The sender never writes more than the announced size, writes full
    /// chunks but for the last, and awaits the acknowledgment only when the
    /// whole payload is out.
    pub open spec fn wf(self) -> bool {
        &&& self.request.wf()
        &&& self.sent <= self.request.file_size
        &&& self.chunks == chunk_count(self.sent as nat, self.request.chunk_size as nat)
        &&& self.sent < self.request.file_size ==> self.sent as int % self.request.chunk_size as int
            == 0
        &&& match self.phase {
            SenderPhase::Connected | SenderPhase::SizeExchanged => self.sent == 0,
            SenderPhase::Streaming => self.sent > 0,
            SenderPhase::Flushed | SenderPhase::Acknowledged | SenderPhase::Closed => self.sent
                == self.request.file_size,
            SenderPhase::Failed(_) => true,
        }
    }

    /// The sender on a channel that has just been established.
    pub open spec fn initial(request: TransferRequest) -> SenderState {
        SenderState { request, phase: SenderPhase::Connected, sent: 0, chunks: 0 }
    }

    /// The length of the next chunk: the chunk size, or what is left of the
    /// payload if that is less.
    pub open spec fn next_chunk_len(self) -> u32 {
        if self.request.file_size - self.sent < self.request.chunk_size {
            (self.request.file_size - self.sent) as u32
        } else {
            self.request.chunk_size
        }
    }

    /// Whether the exchange is over, one way or the other.
    pub open spec fn is_terminal(self) -> bool {
        self.phase is Closed || self.phase is Failed
    }

    /// The action to perform next.
    pub open spec fn pending(self) -> SenderAction {
        match self.phase {
            SenderPhase::Connected => SenderAction::WriteSizeFrame(
                size_frame_array(self.request.file_size),
            ),
            SenderPhase::SizeExchanged | SenderPhase::Streaming => if self.sent
                < self.request.file_size {
                SenderAction::WriteChunk(self.next_chunk_len())
            } else {
                SenderAction::Flush
            },
            SenderPhase::Flushed => SenderAction::ReadAck,
            SenderPhase::Acknowledged => SenderAction::Shutdown,
            SenderPhase::Closed => SenderAction::Finish,
            SenderPhase::Failed(error) => SenderAction::Abort(error),
        }
    }

    /// The sender after the pending action ended with `event`.
    ///
    /// An exchange that is over stays as it is. A failed action fails the
    /// exchange with an I/O error. An acknowledgment other than the expected
    /// one, or an event that does not answer the pending action, fails it
    /// with a protocol violation.
    pub open spec fn advance(self, event: SenderEvent) -> SenderState {
        match (self.phase, event) {
            (SenderPhase::Closed, _) | (SenderPhase::Failed(_), _) => self,
            (_, SenderEvent::Failed) => SenderState {
                phase: SenderPhase::Failed(TransferError::Io),
                ..self
            },
            (SenderPhase::Connected, SenderEvent::Completed) => SenderState {
                phase: SenderPhase::SizeExchanged,
                ..self
            },
            (SenderPhase::SizeExchanged, SenderEvent::Completed) | (
                SenderPhase::Streaming,
                SenderEvent::Completed,
            ) => if self.sent < self.request.file_size {
                SenderState {
                    phase: SenderPhase::Streaming,
                    sent: (self.sent + self.next_chunk_len()) as u64,
                    chunks: (self.chunks + 1) as u64,
                    ..self
                }
            } else {
                SenderState { phase: SenderPhase::Flushed, ..self }
            },
            (SenderPhase::Flushed, SenderEvent::AckRead(bytes)) => if bytes@ == ack_bytes() {
                SenderState { phase: SenderPhase::Acknowledged, ..self }
            } else {
                SenderState { phase: SenderPhase::Failed(TransferError::ProtocolViolation), ..self }
            },
            (SenderPhase::Acknowledged, SenderEvent::Completed) => SenderState {
                phase: SenderPhase::Closed,
                ..self
            },
            _ => SenderState { phase: SenderPhase::Failed(TransferError::ProtocolViolation), ..self },
        }
    }

    /// The sender after the events of `events`, in order.
    pub open spec fn run(self, events: Seq<SenderEvent>) -> SenderState
        decreases events.len(),
    {
        if events.len() == 0 {
            self
        } else {
            self.run(events.drop_last()).advance(events.last())
        }
    }
}

/// The sender of one exchange.
pub struct Sender {
    state: SenderState,
}

impl View for Sender {
    type V = SenderState;

    closed spec fn view(&self) -> SenderState {
        self.state
    }
}

impl Sender {
    /// Every sender is well-formed, whoever holds it.
    #[verifier::type_invariant]
    spec fn well_formed(self) -> bool {
        self.state.wf()
    }

    /// The sender for `request`, on a channel that has just been
    /// established.
    pub fn new(request: TransferRequest) -> (sender: Sender)
        requires
            request.wf(),
        ensures
            sender@ == SenderState::initial(request),
            sender@.wf(),
    {
        proof {
            lemma_no_bytes_no_chunks(request.chunk_size as nat);
        }
        Sender { state: SenderState { request, phase: SenderPhase::Connected, sent: 0, chunks: 0 } }
    }

    /// The state of the sender.
    pub fn state(&self) -> (state: SenderState)
        ensures
            state == self@,
            state.wf(),
    {
        proof {
            use_type_invariant(self);
        }
        self.state
    }

    /// The action to perform next on the channel.
    pub fn pending(&self) -> (action: SenderAction)
        ensures
            action == self@.pending(),
            self@.wf(),
    {
        proof {
            use_type_invariant(self);
        }
        let state = self.state;
        match state.phase {
            SenderPhase::Connected => SenderAction::WriteSizeFrame(
                encode_size(state.request.file_size),
            ),
            SenderPhase::SizeExchanged | SenderPhase::Streaming => {
                if state.sent < state.request.file_size {
                    SenderAction::WriteChunk(state.chunk_len())
                } else {
                    SenderAction::Flush
                }
            },
            SenderPhase::Flushed => SenderAction::ReadAck,
            SenderPhase::Acknowledged => SenderAction::Shutdown,
            SenderPhase::Closed => SenderAction::Finish,
            SenderPhase::Failed(error) => SenderAction::Abort(error),
        }
    }

    /// Takes in how the pending action ended.
    pub fn advance(&mut self, event: SenderEvent)
        ensures
            final(self)@ == old(self)@.advance(event),
            final(self)@.wf(),
    {
        proof {
            use_type_invariant(&*self);
            lemma_advance_keeps_wf(self.state, event);
        }
        let mut state = self.state;
        match state.phase {
            SenderPhase::Closed | SenderPhase::Failed(_) => {},
            SenderPhase::Connected => match event {
                SenderEvent::Failed => {
                    state.phase = SenderPhase::Failed(TransferError::Io);
                },
                SenderEvent::Completed => {
                    state.phase = SenderPhase::SizeExchanged;
                },
                SenderEvent::AckRead(_) => {
                    state.phase = SenderPhase::Failed(TransferError::ProtocolViolation);
                },
            },
            SenderPhase::SizeExchanged | SenderPhase::Streaming => match event {
                SenderEvent::Failed => {
                    state.phase = SenderPhase::Failed(TransferError::Io);
                },
                SenderEvent::Completed => {
                    if state.sent < state.request.file_size {
                        let len = state.chunk_len();
                        proof {
                            lemma_chunk_step(
                                state.sent as nat,
                                state.request.file_size as nat,
                                state.request.chunk_size as nat,
                            );
                        }
                        state.sent = state.sent + len as u64;
                        state.chunks = state.chunks + 1;
                        state.phase = SenderPhase::Streaming;
                    } else {
                        state.phase = SenderPhase::Flushed;
                    }
                },
                SenderEvent::AckRead(_) => {
                    state.phase = SenderPhase::Failed(TransferError::ProtocolViolation);
                },
            },
            SenderPhase::Flushed => match event {
                SenderEvent::Failed => {
                    state.phase = SenderPhase::Failed(TransferError::Io);
                },
                SenderEvent::AckRead(bytes) => {
                    if is_acknowledgment(bytes.as_slice()) {
                        state.phase = SenderPhase::Acknowledged;
                    } else {
                        state.phase = SenderPhase::Failed(TransferError::ProtocolViolation);
                    }
                },
                SenderEvent::Completed => {
                    state.phase = SenderPhase::Failed(TransferError::ProtocolViolation);
                },
            },
            SenderPhase::Acknowledged => match event {
                SenderEvent::Failed => {
                    state.phase = SenderPhase::Failed(TransferError::Io);
                },
                SenderEvent::Completed => {
                    state.phase = SenderPhase::Closed;
                },
                SenderEvent::AckRead(_) => {
                    state.phase = SenderPhase::Failed(TransferError::ProtocolViolation);
                },
            },
        }
        self.state = state;
    }
}

impl SenderState {
    /// The length of the next chunk.
    fn chunk_len(&self) -> (len: u32)
        requires
            self.wf(),
            self.sent < self.request.file_size,
        ensures
            len == self.next_chunk_len(),
            1 <= len <= self.request.chunk_size,
            self.sent + len <= self.request.file_size,
    {
        let left = self.request.file_size - self.sent;
        if left < self.request.chunk_size as u64 {
            left as u32
        } else {
            self.request.chunk_size
        }
    }
}

/// No bytes take no chunks.
proof fn lemma_no_bytes_no_chunks(chunk_size: nat)
    requires
        chunk_size >= 1,
    ensures
        chunk_count(0, chunk_size) == 0,
{
    vstd::arithmetic::div_mod::lemma_fundamental_div_mod_converse(
        chunk_size - 1,
        chunk_size as int,
        0,
        chunk_size - 1,
    );
}

/// One more chunk is one more in the count, and leaves the sender on a
/// chunk boundary unless it was the last.
proof fn lemma_chunk_step(sent: nat, file_size: nat, chunk_size: nat)
    requires
        chunk_size >= 1,
        sent < file_size,
        sent % chunk_size == 0,
    ensures
        ({
            let len = if file_size - sent < chunk_size {
                (file_size - sent) as nat
            } else {
                chunk_size
            };
            &&& chunk_count(sent + len, chunk_size) == chunk_count(sent, chunk_size) + 1
            &&& chunk_count(sent + len, chunk_size) <= sent + len
            &&& sent + len < file_size ==> (sent + len) % chunk_size == 0
        }),
{
    let c = chunk_size as int;
    let k = sent as int / c;
    let len = if file_size - sent < chunk_size {
        file_size - sent
    } else {
        c
    };
    vstd::arithmetic::div_mod::lemma_fundamental_div_mod(sent as int, c);
    assert(sent == k * c) by (nonlinear_arith)
        requires
            sent == c * k + 0,
    ;
    assert(0 <= k) by (nonlinear_arith)
        requires
            sent == k * c,
            c >= 1,
            sent >= 0,
    ;
    vstd::arithmetic::div_mod::lemma_fundamental_div_mod_converse(sent + c - 1, c, k, c - 1);
    assert((k + 1) * c == k * c + c) by (nonlinear_arith);
    vstd::arithmetic::div_mod::lemma_fundamental_div_mod_converse(
        sent + len + c - 1,
        c,
        k + 1,
        len - 1,
    );
    if len == c {
        vstd::arithmetic::div_mod::lemma_fundamental_div_mod_converse(sent + len, c, k + 1, 0);
    }
    assert(k <= k * c) by (nonlinear_arith)
        requires
            0 <= k,
            c >= 1,
    ;
}

/// Law of the sender: every step keeps it well-formed.
pub proof fn lemma_advance_keeps_wf(sender: SenderState, event: SenderEvent)
    requires
        sender.wf(),
    ensures
        sender.advance(event).wf(),
{
    if sender.sent < sender.request.file_size {
        lemma_chunk_step(
            sender.sent as nat,
            sender.request.file_size as nat,
            sender.request.chunk_size as nat,
        );
    }
}

/// Law of the sender: an exchange that is over stays as it is, whatever is
/// reported afterwards.
pub proof fn lemma_terminal_is_final(sender: SenderState, events: Seq<SenderEvent>)
    requires
        sender.is_terminal(),
    ensures
        sender.run(events) == sender,
    decreases events.len(),
{
    if events.len() > 0 {
        lemma_terminal_is_final(sender, events.drop_last());
    }
}

/// Law of the sender: whatever is reported to it, it stays well-formed and
/// keeps its request.
pub proof fn lemma_run_keeps_wf(sender: SenderState, events: Seq<SenderEvent>)
    requires
        sender.wf(),
    ensures
        sender.run(events).wf(),
        sender.run(events).request == sender.request,
    decreases events.len(),
{
    if events.len() > 0 {
        lemma_run_keeps_wf(sender, events.drop_last());
        lemma_advance_keeps_wf(sender.run(events.drop_last()), events.last());
    }
}

/// Law of the sender: whatever the chunk size, a sender that has come to
/// await the acknowledgment, or further, has written exactly the announced
/// number of payload bytes, in as many chunks as that number takes.
pub proof fn lemma_payload_written_in_full(request: TransferRequest, events: Seq<SenderEvent>)
    requires
        request.wf(),
    ensures
        ({
            let end = SenderState::initial(request).run(events);
            end.phase is Flushed || end.phase is Acknowledged || end.phase is Closed ==> end.sent
                == request.file_size && end.chunks == chunk_count(
                request.file_size as nat,
                request.chunk_size as nat,
            )
        }),
{
    lemma_no_bytes_no_chunks(request.chunk_size as nat);
    lemma_run_keeps_wf(SenderState::initial(request), events);
}

/// Whether `event` is a read that gave the expected acknowledgment.
pub open spec fn acknowledges(event: SenderEvent) -> bool {
    event matches SenderEvent::AckRead(bytes) && bytes@ == ack_bytes()
}

/// Law of the sender: it reaches the acknowledged state, and the closed one
/// after it, only through a read that gave the expected acknowledgment. A
/// failed read, or other bytes, never count as one.
pub proof fn lemma_success_needs_acknowledgment(sender: SenderState, events: Seq<SenderEvent>)
    requires
        !(sender.phase is Acknowledged),
        !(sender.phase is Closed),
    ensures
        ({
            let end = sender.run(events);
            end.phase is Acknowledged || end.phase is Closed ==> exists|i: int|
                0 <= i < events.len() && sender.run(events.take(i)).phase is Flushed
                    && acknowledges(#[trigger] events[i])
        }),
    decreases events.len(),
{
    let end = sender.run(events);
    if events.len() > 0 && (end.phase is Acknowledged || end.phase is Closed) {
        let before = sender.run(events.drop_last());
        let n = events.len() - 1;
        if before.phase is Acknowledged || before.phase is Closed {
            lemma_success_needs_acknowledgment(sender, events.drop_last());
            let i = choose|i: int|
                0 <= i < n && sender.run(events.drop_last().take(i)).phase is Flushed
                    && acknowledges(#[trigger] events.drop_last()[i]);
            assert(events.drop_last().take(i) =~= events.take(i));
            assert(events[i] == events.drop_last()[i]);
        } else {
            assert(before.phase is Flushed);
            assert(events.take(n) =~= events.drop_last());
            assert(events[n] == events.last());
        }
    }
}

/// Law of the exchange: an acknowledgment that cannot be read is a failure.
/// A sender that awaits the acknowledgment and whose read fails, as it does
/// when the receiver has gone without acknowledging, fails with an I/O
/// error, and nothing reported afterwards makes it succeed.
pub proof fn lemma_failed_read_fails(sender: SenderState, later: Seq<SenderEvent>)
    requires
        sender.phase is Flushed,
    ensures
        ({
            let failed = sender.advance(SenderEvent::Failed);
            &&& failed.phase == SenderPhase::Failed(TransferError::Io)
            &&& failed.run(later) == failed
            &&& failed.run(later).pending() == SenderAction::Abort(TransferError::Io)
        }),
{
    lemma_terminal_is_final(sender.advance(SenderEvent::Failed), later);
}

/// `count` completions in a row.
pub open spec fn completions(count: nat) -> Seq<SenderEvent> {
    Seq::new(count, |i: int| SenderEvent::Completed)
}

/// What is reported to the sender of `request` when nothing fails and the
/// receiver acknowledges: the size frame, each chunk and the flush complete,
/// the acknowledgment is read, and the shutdown completes.
pub open spec fn success_events(request: TransferRequest) -> Seq<SenderEvent> {
    completions(chunk_count(request.file_size as nat, request.chunk_size as nat) + 2).push(
        SenderEvent::AckRead(crate::wire::ack_array()),
    ).push(SenderEvent::Completed)
}

/// `chunks` chunks cover fewer than `bytes` bytes exactly when `bytes` takes
/// more chunks than that.
proof fn lemma_chunks_short_of(bytes: nat, chunk_size: nat, chunks: nat)
    requires
        chunk_size >= 1,
    ensures
        chunks * chunk_size < bytes <==> chunks < chunk_count(bytes, chunk_size),
{
    let c = chunk_size as int;
    let x = bytes + c - 1;
    let q = x / c;
    vstd::arithmetic::div_mod::lemma_fundamental_div_mod(x, c);
    vstd::arithmetic::div_mod::lemma_mod_bound(x, c);
    assert(0 <= q) by (nonlinear_arith)
        requires
            x == c * q + x % c,
            0 <= x % c < c,
            x >= 0,
            c >= 1,
    ;
    assert(chunks * c < bytes <==> chunks < q) by (nonlinear_arith)
        requires
            bytes + c - 1 == c * q + x % c,
            0 <= x % c < c,
            c >= 1,
            chunks >= 0,
    ;
}

/// After the size frame and `chunks` chunks, no more than the payload
/// takes, the sender has written `chunks` full chunks, or the whole payload
/// if that is less.
proof fn lemma_after_chunks(request: TransferRequest, chunks: nat)
    requires
        request.wf(),
        chunks <= chunk_count(request.file_size as nat, request.chunk_size as nat),
    ensures
        ({
            let now = SenderState::initial(request).run(completions(chunks + 1));
            &&& now.wf()
            &&& now.request == request
            &&& now.phase == if chunks == 0 {
                SenderPhase::SizeExchanged
            } else {
                SenderPhase::Streaming
            }
            &&& now.sent == if chunks * request.chunk_size < request.file_size {
                chunks * request.chunk_size
            } else {
                request.file_size as int
            }
            &&& now.chunks == chunks
        }),
    decreases chunks,
{
    let start = SenderState::initial(request);
    let events = completions(chunks + 1);
    lemma_no_bytes_no_chunks(request.chunk_size as nat);
    lemma_run_keeps_wf(start, events);
    assert(events.drop_last() =~= completions(chunks));
    if chunks == 0 {
        assert(completions(0).len() == 0);
        assert(start.run(completions(0)) == start);
        assert(0 * request.chunk_size == 0);
    } else {
        let c = request.chunk_size as nat;
        let f = request.file_size as nat;
        let j = (chunks - 1) as nat;
        lemma_after_chunks(request, j);
        let before = start.run(completions(chunks));
        lemma_chunks_short_of(f, c, j);
        lemma_chunks_short_of(f, c, chunks);
        assert(chunks * c == j * c + c) by (nonlinear_arith)
            requires
                chunks == j + 1,
        ;
        assert(before.sent == j * c);
        assert(before.sent < f);
    }
}

/// Law of the sender: when success is owed. Whatever the chunk size, the
/// sender whose every action completes and that reads the expected
/// acknowledgment ends closed, having written the whole payload.
pub proof fn lemma_success_run(request: TransferRequest)
    requires
        request.wf(),
    ensures
        ({
            let end = SenderState::initial(request).run(success_events(request));
            &&& end.phase is Closed
            &&& end.sent == request.file_size
            &&& end.chunks == chunk_count(request.file_size as nat, request.chunk_size as nat)
        }),
{
    let start = SenderState::initial(request);
    let c = request.chunk_size as nat;
    let f = request.file_size as nat;
    let n = chunk_count(f, c);
    lemma_after_chunks(request, n);
    lemma_chunks_short_of(f, c, n);
    let streamed = start.run(completions(n + 1));
    assert(streamed.sent == f);
    let e1 = completions(n + 2);
    assert(e1.drop_last() =~= completions(n + 1));
    let flushed = start.run(e1);
    assert(flushed.phase is Flushed);
    let e2 = e1.push(SenderEvent::AckRead(crate::wire::ack_array()));
    assert(e2.drop_last() =~= e1);
    assert(crate::wire::ack_array()@ =~= ack_bytes());
    let acknowledged = start.run(e2);
    assert(acknowledged.phase is Acknowledged);
    let e3 = e2.push(SenderEvent::Completed);
    assert(e3.drop_last() =~= e2);
    assert(e3 == success_events(request));
}

/// The length of chunk number `index`, counted from zero, of the payload of
/// `request`: the chunk size, but for a last chunk that holds the rest.
pub open spec fn chunk_len_at(request: TransferRequest, index: nat) -> u32 {
    if (index + 1) * request.chunk_size <= request.file_size {
        request.chunk_size
    } else {
        (request.file_size - index * request.chunk_size) as u32
    }
}

/// What the sender of `request` does, in order, when nothing fails: it
/// writes the size frame, then the payload chunk by chunk, flushes, reads
/// the acknowledgment and shuts the channel down.
pub open spec fn success_actions(request: TransferRequest) -> Seq<SenderAction> {
    seq![SenderAction::WriteSizeFrame(size_frame_array(request.file_size))] + Seq::new(
        chunk_count(request.file_size as nat, request.chunk_size as nat),
        |k: int| SenderAction::WriteChunk(chunk_len_at(request, k as nat)),
    ) + seq![SenderAction::Flush, SenderAction::ReadAck, SenderAction::Shutdown]
}

impl SenderState {
    /// The actions that the sender asked for while `events` were reported:
    /// for each event, the action that it answered.
    pub open spec fn actions(self, events: Seq<SenderEvent>) -> Seq<SenderAction> {
        Seq::new(events.len(), |i: int| self.run(events.take(i)).pending())
    }
}

/// Law of the sender: the order of its steps. When nothing fails, the
/// sender asks for exactly the actions of a successful exchange, in their
/// order and with no other between them: the number of payload writes is
/// the number of chunks that the payload takes, whatever else holds. After
/// them it asks for nothing more.
pub proof fn lemma_success_actions(request: TransferRequest)
    requires
        request.wf(),
    ensures
        SenderState::initial(request).actions(success_events(request)) == success_actions(request),
        SenderState::initial(request).run(success_events(request)).pending()
            == SenderAction::Finish,
{
    let start = SenderState::initial(request);
    let c = request.chunk_size as nat;
    let f = request.file_size as nat;
    let n = chunk_count(f, c);
    let events = success_events(request);
    let asked = start.actions(events);
    let expected = success_actions(request);
    lemma_success_run(request);
    assert(asked.len() == expected.len());
    assert forall|i: int| 0 <= i < asked.len() implies asked[i] == expected[i] by {
        let now = start.run(events.take(i));
        if i == 0 {
            assert(events.take(0).len() == 0);
        } else if i <= n + 1 {
            let done = (i - 1) as nat;
            assert(events.take(i) =~= completions(done + 1));
            lemma_after_chunks(request, done);
            lemma_chunks_short_of(f, c, done);
            if i <= n {
                assert(done * c < f);
                assert((done + 1) * c == done * c + c) by (nonlinear_arith);
                assert(now.next_chunk_len() == chunk_len_at(request, done));
                assert(expected[i] == SenderAction::WriteChunk(chunk_len_at(request, done)));
            } else {
                assert(expected[i] == SenderAction::Flush);
            }
        } else if i == n + 2 {
            let e1 = completions(n + 2);
            assert(events.take(i) =~= e1);
            assert(e1.drop_last() =~= completions(n + 1));
            lemma_after_chunks(request, n);
            lemma_chunks_short_of(f, c, n);
            assert(now.phase is Flushed);
            assert(expected[i] == SenderAction::ReadAck);
        } else {
            let e1 = completions(n + 2);
            let e2 = e1.push(SenderEvent::AckRead(crate::wire::ack_array()));
            assert(events.take(i) =~= e2);
            assert(e2.drop_last() =~= e1);
            assert(e1.drop_last() =~= completions(n + 1));
            lemma_after_chunks(request, n);
            lemma_chunks_short_of(f, c, n);
            assert(crate::wire::ack_array()@ =~= ack_bytes());
            assert(start.run(e1).phase is Flushed);
            assert(now.phase is Acknowledged);
            assert(expected[i] == SenderAction::Shutdown);
        }
    }
    assert(asked =~= expected);
}

/// Law of the exchange: chunking invariance. Two senders of the same payload
/// size, with whatever chunk sizes, both succeed when nothing fails, and
/// both have then written the same number of payload bytes: the announced
/// one.
pub proof fn lemma_chunking_invariance(file_size: u64, chunk_size: u32, other_chunk_size: u32)
    requires
        chunk_size >= 1,
        other_chunk_size >= 1,
    ensures
        ({
            let one = TransferRequest { file_size, chunk_size };
            let other = TransferRequest { file_size, chunk_size: other_chunk_size };
            let end = SenderState::initial(one).run(success_events(one));
            let other_end = SenderState::initial(other).run(success_events(other));
            &&& end.phase is Closed
            &&& other_end.phase is Closed
            &&& end.sent == file_size
            &&& other_end.sent == file_size
        }),
{
    lemma_success_run(TransferRequest { file_size, chunk_size });
    lemma_success_run(TransferRequest { file_size, chunk_size: other_chunk_size });
}

} // verus!
