//! What one transfer is asked to do, and what was measured of it.

use vstd::prelude::*;

verus! {

/// Nanoseconds in a millisecond.
pub const NANOS_PER_MILLI: u128 = 1_000_000;

/// A span of wall-clock time, in whole nanoseconds.
#[derive(Clone, Copy, Debug, PartialEq, Eq, Structural)]
pub struct Elapsed {
    pub nanos: u128,
}

impl View for Elapsed {
    type V = nat;

    /// The span as a number of nanoseconds.
    open spec fn view(&self) -> nat {
        self.nanos as nat
    }
}

impl Elapsed {
    /// A span of `nanos` nanoseconds.
    pub fn from_nanos(nanos: u128) -> (span: Elapsed)
        ensures
            span@ == nanos,
    {
        Elapsed { nanos }
    }

    /// A span of `millis` milliseconds.
    pub fn from_millis(millis: u64) -> (span: Elapsed)
        ensures
            span@ == millis * 1_000_000,
    {
        Elapsed { nanos: (millis as u128) * NANOS_PER_MILLI }
    }

    /// The span in nanoseconds.
    pub fn as_nanos(&self) -> (nanos: u128)
        ensures
            nanos == self@,
    {
        self.nanos
    }

    /// The whole milliseconds of the span.
    pub fn as_millis(&self) -> (millis: u128)
        ensures
            millis == self@ / 1_000_000,
    {
        self.nanos / NANOS_PER_MILLI
    }
}

/// One transfer to run: a synthetic payload of `file_size` bytes, written in
/// chunks of at most `chunk_size` bytes.
#[derive(Clone, Copy, Debug, PartialEq, Eq, Structural)]
pub struct TransferRequest {
    pub file_size: u64,
    pub chunk_size: u32,
}

impl TransferRequest {
    /// A request can be run when its chunks are not empty.
    pub open spec fn wf(self) -> bool {
        self.chunk_size >= 1
    }

    /// The request for `file_size` bytes in chunks of `chunk_size`, or nothing
    /// where the chunk size is zero.
    pub fn new(file_size: u64, chunk_size: u32) -> (request: Option<TransferRequest>)
        ensures
            chunk_size >= 1 ==> request == Some(TransferRequest { file_size, chunk_size }),
            chunk_size == 0 ==> request is None,
            request matches Some(r) ==> r.wf(),
    {
        if chunk_size >= 1 {
            Some(TransferRequest { file_size, chunk_size })
        } else {
            None
        }
    }
}

/// A rate in megabits per second, held exactly: the rate is
/// `numer / denom`.
#[derive(Clone, Copy, Debug, PartialEq, Eq, Structural)]
pub struct Throughput {
    pub numer: u128,
    pub denom: u128,
}

impl Throughput {
    /// A rate has a denominator.
    pub open spec fn wf(self) -> bool {
        self.denom > 0
    }

    /// `self` is at most `other`, as fractions.
    pub open spec fn le(self, other: Throughput) -> bool {
        self.numer * other.denom <= other.numer * self.denom
    }

    /// `self` is less than `other`, as fractions.
    pub open spec fn lt(self, other: Throughput) -> bool {
        self.numer * other.denom < other.numer * self.denom
    }

    /// The whole megabits per second of the rate.
    pub fn whole_mbps(&self) -> (mbps: u128)
        requires
            self.wf(),
        ensures
            mbps == self.numer / self.denom,
    {
        self.numer / self.denom
    }
}

/// The measurement of one successful transfer.
#[derive(Clone, Copy, Debug, PartialEq, Eq, Structural)]
pub struct TransferResult {
    pub file_size: u64,
    pub chunk_size: u32,
    pub duration: Elapsed,
}

impl TransferResult {
    /// The throughput of the transfer in megabits per second: eight bits per
    /// byte, over the duration in microseconds. A transfer that took no
    /// measurable time has throughput zero.
    pub open spec fn spec_throughput(&self) -> Throughput {
        if self.duration@ == 0 {
            Throughput { numer: 0, denom: 1 }
        } else {
            Throughput { numer: (self.file_size * 8000) as u128, denom: self.duration.nanos }
        }
    }

    /// The result of moving `file_size` bytes in chunks of `chunk_size`
    /// within `duration`.
    pub fn new(file_size: u64, chunk_size: u32, duration: Elapsed) -> (result: TransferResult)
        ensures
            result == (TransferResult { file_size, chunk_size, duration }),
    {
        TransferResult { file_size, chunk_size, duration }
    }

    /// The request that this result answers.
    pub fn request(&self) -> (request: TransferRequest)
        ensures
            request == (TransferRequest { file_size: self.file_size, chunk_size: self.chunk_size }),
    {
        TransferRequest { file_size: self.file_size, chunk_size: self.chunk_size }
    }

    /// The throughput of the transfer.
    #[verifier::when_used_as_spec(spec_throughput)]
    pub fn throughput(&self) -> (rate: Throughput)
        ensures
            rate == self.spec_throughput(),
            rate.wf(),
            self.duration@ > 0 ==> rate.numer == self.file_size * 8 * 1000 && rate.denom
                == self.duration@,
            self.duration@ == 0 ==> rate.numer == 0,
    {
        if self.duration.nanos == 0 {
            Throughput { numer: 0, denom: 1 }
        } else {
            Throughput { numer: (self.file_size as u128) * 8000, denom: self.duration.nanos }
        }
    }

    /// Whether this transfer was strictly faster than another of the same
    /// size.
    pub fn outperforms(&self, other: &TransferResult) -> (faster: bool)
        requires
            self.file_size == other.file_size,
        ensures
            faster == other.spec_throughput().lt(self.spec_throughput()),
    {
        let faster = if self.file_size == 0 || self.duration.nanos == 0 {
            false
        } else if other.duration.nanos == 0 {
            true
        } else {
            self.duration.nanos < other.duration.nanos
        };
        proof {
            lemma_same_size_order(*self, *other);
        }
        faster
    }
}

/// Among transfers of one size, a higher throughput is a shorter positive
/// duration.
pub proof fn lemma_same_size_order(a: TransferResult, b: TransferResult)
    requires
        a.file_size == b.file_size,
    ensures
        b.spec_throughput().lt(a.spec_throughput()) <==> (a.file_size > 0 && a.duration@ > 0 && (
        b.duration@ == 0 || a.duration@ < b.duration@)),
{
    let n = (a.file_size * 8000) as int;
    let da = a.duration@ as int;
    let db = b.duration@ as int;
    if da > 0 && db > 0 {
        assert((n * da < n * db) <==> (n > 0 && da < db)) by (nonlinear_arith)
            requires
                n >= 0,
                da > 0,
                db > 0,
        ;
    } else if da > 0 {
        assert(0 * da == 0);
        assert(n * 1 == n);
    } else if db > 0 {
        assert(0 * db == 0);
    }
}

} // verus!
