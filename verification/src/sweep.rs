//! Sweeps: ordered runs of transfers, one after the other, that stop at the
//! first failure.

use crate::error::TransferError;
use crate::measure::{Elapsed, TransferRequest, TransferResult};
use vstd::prelude::*;

verus! {

/// The file sizes of the size sweep, ascending from 1 KB to 1 GB.
pub open spec fn size_sweep_sizes() -> Seq<u64> {
    seq![
        1024,
        2_048,
        4_096,
        8_192,
        16_384,
        32_768,
        65_536,
        131_072,
        262_144,
        524_288,
        1_048_576,
        2_097_152,
        5_242_880,
        10_485_760,
        20_971_520,
        52_428_800,
        104_857_600,
        209_715_200,
        524_288_000,
        1_073_741_824,
    ]
}

/// The file sizes of the chunk analysis: 1 MB, 10 MB and 100 MB.
pub open spec fn analysis_file_sizes() -> Seq<u64> {
    seq![1_048_576, 10_485_760, 104_857_600]
}

/// The chunk sizes of the chunk analysis: the powers of two from 1 KB to
/// 256 KB.
pub open spec fn analysis_chunk_sizes() -> Seq<u32> {
    seq![1024, 2048, 4096, 8192, 16384, 32768, 65536, 131072, 262144]
}

/// The plan of a repeated transfer: the same request, `count` times.
pub open spec fn repeated_plan(request: TransferRequest, count: nat) -> Seq<TransferRequest> {
    Seq::new(count, |i: int| request)
}

/// The plan that crosses file sizes with chunk sizes: for each file size in
/// turn, every chunk size in turn.
pub open spec fn grid_plan(file_sizes: Seq<u64>, chunk_sizes: Seq<u32>) -> Seq<TransferRequest> {
    Seq::new(
        file_sizes.len() * chunk_sizes.len(),
        |k: int|
            TransferRequest {
                file_size: file_sizes[k / (chunk_sizes.len() as int)],
                chunk_size: chunk_sizes[k % (chunk_sizes.len() as int)],
            },
    )
}

/// What a sweep is at one moment: the requests it will make, in order, the
/// results of those already made, and the failure that ended it, if any.
pub struct SweepView {
    pub plan: Seq<TransferRequest>,
    pub results: Seq<TransferResult>,
    pub failure: Option<TransferError>,
}

impl SweepView {
    /// A sweep before its first transfer.
    pub open spec fn start(plan: Seq<TransferRequest>) -> SweepView {
        SweepView { plan, results: Seq::empty(), failure: None }
    }

    /// Results answer the plan's requests one for one and in order, and
    /// every request can be run.
    pub open spec fn wf(self) -> bool {
        &&& self.results.len() <= self.plan.len()
        &&& forall|i: int| 0 <= i < self.plan.len() ==> (#[trigger] self.plan[i]).wf()
        &&& forall|i: int|
            0 <= i < self.results.len() ==> (#[trigger] self.results[i]).file_size
                == self.plan[i].file_size && self.results[i].chunk_size == self.plan[i].chunk_size
    }

    /// The request to run next: the first one without a result, unless a
    /// transfer has failed.
    pub open spec fn pending(self) -> Option<TransferRequest> {
        if self.failure is None && self.results.len() < self.plan.len() {
            Some(self.plan[self.results.len() as int])
        } else {
            None
        }
    }

    /// The sweep after the pending transfer ended with `outcome`. A sweep
    /// with nothing pending stays as it is.
    pub open spec fn recorded(self, outcome: Result<Elapsed, TransferError>) -> SweepView {
        match (self.pending(), outcome) {
            (None, _) => self,
            (Some(request), Ok(duration)) => SweepView {
                results: self.results.push(
                    TransferResult {
                        file_size: request.file_size,
                        chunk_size: request.chunk_size,
                        duration,
                    },
                ),
                ..self
            },
            (Some(_), Err(error)) => SweepView { failure: Some(error), ..self },
        }
    }

    /// The sweep after the transfers ended with `outcomes`, in order.
    pub open spec fn recorded_all(self, outcomes: Seq<Result<Elapsed, TransferError>>) -> SweepView
        decreases outcomes.len(),
    {
        if outcomes.len() == 0 {
            self
        } else {
            self.recorded_all(outcomes.drop_last()).recorded(outcomes.last())
        }
    }
}

/// A sweep in progress.
pub struct Sweep {
    plan: Vec<TransferRequest>,
    results: Vec<TransferResult>,
    failure: Option<TransferError>,
}

impl View for Sweep {
    type V = SweepView;

    closed spec fn view(&self) -> SweepView {
        SweepView { plan: self.plan@, results: self.results@, failure: self.failure }
    }
}

impl Sweep {
    /// Every sweep is well-formed, whoever holds it.
    #[verifier::type_invariant]
    spec fn well_formed(self) -> bool {
        self@.wf()
    }

    /// The sweep that runs `request` once.
    pub fn single(request: TransferRequest) -> (sweep: Sweep)
        requires
            request.wf(),
        ensures
            sweep@ == SweepView::start(seq![request]),
            sweep@.wf(),
    {
        let plan: Vec<TransferRequest> = vec![request];
        assert(plan@ =~= seq![request]);
        Sweep { plan, results: Vec::new(), failure: None }
    }

    /// The sweep that runs `request` `count` times.
    pub fn repeated(request: TransferRequest, count: usize) -> (sweep: Sweep)
        requires
            request.wf(),
        ensures
            sweep@ == SweepView::start(repeated_plan(request, count as nat)),
            sweep@.wf(),
    {
        let mut plan: Vec<TransferRequest> = Vec::new();
        let mut i: usize = 0;
        while i < count
            invariant
                i <= count,
                plan@ == repeated_plan(request, i as nat),
            decreases count - i,
        {
            plan.push(request);
            i = i + 1;
        }
        Sweep { plan, results: Vec::new(), failure: None }
    }

    /// The size sweep: one transfer for each of the sweep's file sizes,
    /// ascending, all with the same chunk size.
    pub fn size_sweep(chunk_size: u32) -> (sweep: Sweep)
        requires
            chunk_size >= 1,
        ensures
            sweep@ == SweepView::start(grid_plan(size_sweep_sizes(), seq![chunk_size])),
            sweep@.wf(),
    {
        let file_sizes = size_sweep_file_sizes();
        let chunk_sizes: Vec<u32> = vec![chunk_size];
        assert(chunk_sizes@ =~= seq![chunk_size]);
        assert(file_sizes@.len() * chunk_sizes@.len() == 20) by (nonlinear_arith)
            requires
                file_sizes@.len() == 20,
                chunk_sizes@.len() == 1,
        ;
        Sweep::grid(&file_sizes, &chunk_sizes)
    }

    /// The chunk analysis: for each of its file sizes in turn, one transfer
    /// for each of its chunk sizes in turn.
    pub fn chunk_analysis() -> (sweep: Sweep)
        ensures
            sweep@ == SweepView::start(grid_plan(analysis_file_sizes(), analysis_chunk_sizes())),
            sweep@.wf(),
    {
        let file_sizes = chunk_analysis_file_sizes();
        let chunk_sizes = chunk_analysis_chunk_sizes();
        assert(file_sizes@.len() * chunk_sizes@.len() == 27) by (nonlinear_arith)
            requires
                file_sizes@.len() == 3,
                chunk_sizes@.len() == 9,
        ;
        Sweep::grid(&file_sizes, &chunk_sizes)
    }

    /// The sweep over every pair of a file size and a chunk size, file sizes
    /// outermost.
    pub fn grid(file_sizes: &Vec<u64>, chunk_sizes: &Vec<u32>) -> (sweep: Sweep)
        requires
            forall|j: int| 0 <= j < chunk_sizes@.len() ==> chunk_sizes@[j] >= 1,
            file_sizes@.len() * chunk_sizes@.len() <= usize::MAX,
        ensures
            sweep@ == SweepView::start(grid_plan(file_sizes@, chunk_sizes@)),
            sweep@.wf(),
    {
        let mut plan: Vec<TransferRequest> = Vec::new();
        let rows = file_sizes.len();
        let cols = chunk_sizes.len();
        let mut i: usize = 0;
        while i < rows
            invariant
                i <= rows,
                rows == file_sizes@.len(),
                cols == chunk_sizes@.len(),
                plan@.len() == i * cols,
                forall|k: int|
                    0 <= k < plan@.len() ==> #[trigger] plan@[k] == grid_plan(
                        file_sizes@,
                        chunk_sizes@,
                    )[k],
                rows * cols <= usize::MAX,
            decreases rows - i,
        {
            let mut j: usize = 0;
            while j < cols
                invariant
                    i < rows,
                    j <= cols,
                    rows == file_sizes@.len(),
                    cols == chunk_sizes@.len(),
                    plan@.len() == i * cols + j,
                    forall|k: int|
                        0 <= k < plan@.len() ==> #[trigger] plan@[k] == grid_plan(
                            file_sizes@,
                            chunk_sizes@,
                        )[k],
                    rows * cols <= usize::MAX,
                decreases cols - j,
            {
                proof {
                    lemma_grid_cell(i as int, j as int, rows as int, cols as int);
                }
                plan.push(TransferRequest { file_size: file_sizes[i], chunk_size: chunk_sizes[j] });
                j = j + 1;
            }
            proof {
                assert((i + 1) * cols == i * cols + cols) by (nonlinear_arith);
            }
            i = i + 1;
        }
        proof {
            assert(plan@ =~= grid_plan(file_sizes@, chunk_sizes@));
            assert forall|k: int| 0 <= k < plan@.len() implies (#[trigger] plan@[k]).wf() by {
                lemma_grid_index(k, rows as int, cols as int);
            }
        }
        Sweep { plan, results: Vec::new(), failure: None }
    }

    /// The request to run next, if the sweep has one left and has not failed.
    pub fn next_request(&self) -> (request: Option<TransferRequest>)
        ensures
            self@.wf(),
            request == self@.pending(),
            request matches Some(r) ==> r.wf(),
    {
        proof {
            use_type_invariant(self);
        }
        if self.failure.is_none() && self.results.len() < self.plan.len() {
            Some(self.plan[self.results.len()])
        } else {
            None
        }
    }

    /// Records how the pending transfer ended: its duration, or the failure
    /// that ends the sweep.
    pub fn record(&mut self, outcome: Result<Elapsed, TransferError>)
        ensures
            final(self)@ == old(self)@.recorded(outcome),
            final(self)@.wf(),
    {
        proof {
            use_type_invariant(&*self);
        }
        if self.failure.is_none() && self.results.len() < self.plan.len() {
            let request = self.plan[self.results.len()];
            match outcome {
                Ok(duration) => {
                    // The results grow outside the sweep, which stays
                    // well-formed meanwhile.
                    let mut results: Vec<TransferResult> = Vec::new();
                    core::mem::swap(&mut self.results, &mut results);
                    results.push(
                        TransferResult::new(request.file_size, request.chunk_size, duration),
                    );
                    core::mem::swap(&mut self.results, &mut results);
                },
                Err(error) => {
                    self.failure = Some(error);
                },
            }
        }
    }

    /// Whether nothing is left to run: every request has its result, or a
    /// transfer has failed.
    pub fn is_finished(&self) -> (finished: bool)
        ensures
            finished == (self@.pending() is None),
    {
        !(self.failure.is_none() && self.results.len() < self.plan.len())
    }

    /// The failure that ended the sweep, if one did.
    pub fn failure(&self) -> (failure: Option<TransferError>)
        ensures
            failure == self@.failure,
    {
        self.failure
    }

    /// The results so far, in the order in which the transfers ran.
    pub fn results(&self) -> (results: &Vec<TransferResult>)
        ensures
            results@ == self@.results,
    {
        &self.results
    }

    /// The outcome of the sweep: the results of its transfers in order, or
    /// the failure of the one that failed. A sweep that failed yields no
    /// partial results.
    pub fn finish(self) -> (outcome: Result<Vec<TransferResult>, TransferError>)
        ensures
            match outcome {
                Ok(results) => self@.failure is None && results@ == self@.results,
                Err(error) => self@.failure == Some(error),
            },
    {
        match self.failure {
            Some(error) => Err(error),
            None => Ok(self.results),
        }
    }
}

/// The file sizes of the size sweep.
pub fn size_sweep_file_sizes() -> (sizes: Vec<u64>)
    ensures
        sizes@ == size_sweep_sizes(),
{
    let sizes: Vec<u64> = vec![
        1024,
        2_048,
        4_096,
        8_192,
        16_384,
        32_768,
        65_536,
        131_072,
        262_144,
        524_288,
        1_048_576,
        2_097_152,
        5_242_880,
        10_485_760,
        20_971_520,
        52_428_800,
        104_857_600,
        209_715_200,
        524_288_000,
        1_073_741_824,
    ];
    assert(sizes@ =~= size_sweep_sizes());
    sizes
}

/// The file sizes of the chunk analysis.
pub fn chunk_analysis_file_sizes() -> (sizes: Vec<u64>)
    ensures
        sizes@ == analysis_file_sizes(),
{
    let sizes: Vec<u64> = vec![1_048_576, 10_485_760, 104_857_600];
    assert(sizes@ =~= analysis_file_sizes());
    sizes
}

/// The chunk sizes of the chunk analysis.
pub fn chunk_analysis_chunk_sizes() -> (sizes: Vec<u32>)
    ensures
        sizes@ == analysis_chunk_sizes(),
{
    let sizes: Vec<u32> = vec![1024, 2048, 4096, 8192, 16384, 32768, 65536, 131072, 262144];
    assert(sizes@ =~= analysis_chunk_sizes());
    sizes
}

/// Row `i`, column `j` of a grid with `cols` columns is cell `i * cols + j`.
proof fn lemma_grid_cell(i: int, j: int, rows: int, cols: int)
    requires
        0 <= i < rows,
        0 <= j < cols,
    ensures
        0 <= i * cols + j < rows * cols,
        (i * cols + j) / cols == i,
        (i * cols + j) % cols == j,
{
    vstd::arithmetic::div_mod::lemma_fundamental_div_mod_converse(i * cols + j, cols, i, j);
    assert(i * cols + j < rows * cols) by (nonlinear_arith)
        requires
            0 <= i < rows,
            0 <= j < cols,
    ;
    assert(0 <= i * cols) by (nonlinear_arith)
        requires
            0 <= i,
            0 <= cols,
    ;
}

/// Cell `k` of a grid lies in a row and a column of the grid.
proof fn lemma_grid_index(k: int, rows: int, cols: int)
    requires
        0 <= k < rows * cols,
        0 <= rows,
        0 <= cols,
    ensures
        0 <= k / cols < rows,
        0 <= k % cols < cols,
{
    assert(cols > 0) by (nonlinear_arith)
        requires
            0 <= k < rows * cols,
            0 <= rows,
            0 <= cols,
    ;
    vstd::arithmetic::div_mod::lemma_fundamental_div_mod(k, cols);
    vstd::arithmetic::div_mod::lemma_mod_bound(k, cols);
    assert(0 <= k / cols < rows) by (nonlinear_arith)
        requires
            0 <= k < rows * cols,
            cols > 0,
            k == cols * (k / cols) + k % cols,
            0 <= k % cols < cols,
    ;
}

/// The number of transfers that succeeded before the first that failed.
pub open spec fn leading_successes(outcomes: Seq<Result<Elapsed, TransferError>>) -> nat
    decreases outcomes.len(),
{
    if outcomes.len() == 0 {
        0
    } else {
        let earlier = leading_successes(outcomes.drop_last());
        if earlier == outcomes.len() - 1 && outcomes.last() is Ok {
            earlier + 1
        } else {
            earlier
        }
    }
}

/// The leading successes are successes, there are no more of them than
/// outcomes, and the outcome after them, if there is one, is a failure.
proof fn lemma_leading_successes(outcomes: Seq<Result<Elapsed, TransferError>>)
    ensures
        leading_successes(outcomes) <= outcomes.len(),
        forall|i: int| 0 <= i < leading_successes(outcomes) ==> (#[trigger] outcomes[i]) is Ok,
        leading_successes(outcomes) < outcomes.len() ==> outcomes[leading_successes(
            outcomes,
        ) as int] is Err,
    decreases outcomes.len(),
{
    if outcomes.len() > 0 {
        lemma_leading_successes(outcomes.drop_last());
        let earlier = outcomes.drop_last();
        assert forall|i: int| 0 <= i < leading_successes(outcomes) implies (
        #[trigger] outcomes[i]) is Ok by {
            if i < earlier.len() {
                assert(outcomes[i] == earlier[i]);
            }
        }
        if leading_successes(earlier) < earlier.len() {
            assert(outcomes[leading_successes(earlier) as int] == earlier[leading_successes(
                earlier,
            ) as int]);
        }
    }
}

/// Law of the sweep: order, and the end at the first failure. After any
/// outcomes, the results are those of the transfers that succeeded before
/// the first failure, one for each request of the plan and in the plan's
/// order; the first failure, if it came while a request was pending, is the
/// sweep's failure, and nothing is pending after it.
pub proof fn lemma_sweep_outcomes(
    plan: Seq<TransferRequest>,
    outcomes: Seq<Result<Elapsed, TransferError>>,
)
    requires
        SweepView::start(plan).wf(),
    ensures
        ({
            let end = SweepView::start(plan).recorded_all(outcomes);
            let successes = leading_successes(outcomes);
            let done = if successes < plan.len() {
                successes
            } else {
                plan.len()
            };
            &&& end.wf()
            &&& end.plan == plan
            &&& end.results.len() == done
            &&& forall|i: int|
                0 <= i < done ==> #[trigger] end.results[i] == (TransferResult {
                    file_size: plan[i].file_size,
                    chunk_size: plan[i].chunk_size,
                    duration: outcomes[i]->Ok_0,
                })
            &&& end.failure == if successes < plan.len() && successes < outcomes.len() {
                Some(outcomes[successes as int]->Err_0)
            } else {
                None
            }
            &&& end.failure is Some ==> end.pending() is None
        }),
    decreases outcomes.len(),
{
    lemma_leading_successes(outcomes);
    if outcomes.len() > 0 {
        let earlier = outcomes.drop_last();
        lemma_sweep_outcomes(plan, earlier);
        lemma_leading_successes(earlier);
        let before = SweepView::start(plan).recorded_all(earlier);
        let end = before.recorded(outcomes.last());
        let done = end.results.len();
        assert forall|i: int| 0 <= i < done implies #[trigger] end.results[i] == (TransferResult {
            file_size: plan[i].file_size,
            chunk_size: plan[i].chunk_size,
            duration: outcomes[i]->Ok_0,
        }) by {
            if i < before.results.len() {
                assert(end.results[i] == before.results[i]);
                assert(outcomes[i] == earlier[i]);
            }
        }
        if leading_successes(earlier) < earlier.len() {
            assert(outcomes[leading_successes(earlier) as int] == earlier[leading_successes(
                earlier,
            ) as int]);
        }
    }
}

/// `durations` as the outcomes of transfers that all succeeded.
pub open spec fn successes(durations: Seq<Elapsed>) -> Seq<Result<Elapsed, TransferError>> {
    Seq::new(durations.len(), |i: int| Ok(durations[i]))
}

/// Law of the repeated transfer: running the same request as many times as
/// there are durations, each run succeeding, yields one result for each
/// run, in order, each with the request's sizes and its own duration; no
/// run is left pending.
pub proof fn lemma_repeated_results(request: TransferRequest, durations: Seq<Elapsed>)
    requires
        request.wf(),
    ensures
        ({
            let end = SweepView::start(repeated_plan(request, durations.len())).recorded_all(
                successes(durations),
            );
            &&& end.failure is None
            &&& end.pending() is None
            &&& end.results.len() == durations.len()
            &&& forall|i: int|
                0 <= i < durations.len() ==> #[trigger] end.results[i] == (TransferResult {
                    file_size: request.file_size,
                    chunk_size: request.chunk_size,
                    duration: durations[i],
                })
        }),
{
    let plan = repeated_plan(request, durations.len());
    let outcomes = successes(durations);
    lemma_all_successes(outcomes);
    lemma_sweep_outcomes(plan, outcomes);
}

/// Outcomes that are all successes have no first failure.
proof fn lemma_all_successes(outcomes: Seq<Result<Elapsed, TransferError>>)
    requires
        forall|i: int| 0 <= i < outcomes.len() ==> (#[trigger] outcomes[i]) is Ok,
    ensures
        leading_successes(outcomes) == outcomes.len(),
    decreases outcomes.len(),
{
    if outcomes.len() > 0 {
        let earlier = outcomes.drop_last();
        assert forall|i: int| 0 <= i < earlier.len() implies (#[trigger] earlier[i]) is Ok by {
            assert(earlier[i] == outcomes[i]);
        }
        lemma_all_successes(earlier);
    }
}

} // verus!
