//! Laws of the whole exchange: what the sender's and the receiver's
//! machines guarantee together.

use crate::measure::TransferRequest;
use crate::receiver::{delivers, ReceiverState};
use crate::sender::SenderState;
use crate::wire::size_frame_array;
use vstd::prelude::*;

verus! {

/// Law of the exchange: the byte count of a successful transfer. Whatever
/// the sender's chunk size, the receiver's buffer size and the way the
/// channel cuts the payload into reads: when nothing fails, the receiver is
/// given the frame that the sender wrote and the sender the acknowledgment
/// that the receiver wrote, both end closed, and the receiver has counted
/// exactly the bytes that the sender announced and wrote.
pub proof fn lemma_transfer_moves_file_size(
    request: TransferRequest,
    buffer_len: usize,
    reads: Seq<usize>,
)
    requires
        request.wf(),
        buffer_len >= 1,
        delivers(reads, request.file_size as nat, buffer_len as nat),
    ensures
        ({
            let sent = SenderState::initial(request).run(crate::sender::success_events(request));
            let received = ReceiverState::initial(buffer_len).run(
                crate::receiver::success_events(size_frame_array(request.file_size), reads),
            );
            &&& sent.phase is Closed
            &&& received.phase is Closed
            &&& sent.sent == request.file_size
            &&& received.file_size == request.file_size
            &&& received.received == request.file_size
        }),
{
    crate::wire::lemma_size_frame_round_trip(request.file_size);
    crate::sender::lemma_success_run(request);
    crate::receiver::lemma_success_run(buffer_len, size_frame_array(request.file_size), reads);
}

} // verus!
