//! What a sweep's results add up to: the mean duration of repeated
//! transfers, and the best chunk size for a file size.

use crate::measure::{Elapsed, TransferResult};
use vstd::prelude::*;

verus! {

/// The sum of the durations of `results`, in nanoseconds.
pub open spec fn total_nanos(results: Seq<TransferResult>) -> nat
    decreases results.len(),
{
    if results.len() == 0 {
        0
    } else {
        total_nanos(results.drop_last()) + results.last().duration@
    }
}

/// The sum of durations grows with the results.
proof fn lemma_total_nanos_prefix(results: Seq<TransferResult>, n: int)
    requires
        0 <= n <= results.len(),
    ensures
        total_nanos(results.take(n)) <= total_nanos(results),
    decreases results.len(),
{
    if n == results.len() {
        assert(results.take(n) =~= results);
    } else {
        assert(results.drop_last().take(n) =~= results.take(n));
        lemma_total_nanos_prefix(results.drop_last(), n);
    }
}

/// An arithmetic mean of durations, held exactly: `whole` nanoseconds and
/// `remainder` parts in `count` of one more, where `count` is the number of
/// durations. The mean of 1 ns and 2 ns is 1 ns and 1 part in 2.
#[derive(Clone, Copy, Debug, PartialEq, Eq, Structural)]
pub struct MeanDuration {
    /// The whole nanoseconds of the mean.
    pub whole: Elapsed,
    /// What the mean has beyond its whole nanoseconds, in parts of a
    /// nanosecond of which `count` make one.
    pub remainder: u128,
    /// The number of durations that the mean is of.
    pub count: usize,
}

impl MeanDuration {
    /// The fraction beyond the whole nanoseconds is less than one.
    pub open spec fn wf(self) -> bool {
        self.remainder < self.count
    }

    /// The mean times the number of durations, in nanoseconds.
    pub open spec fn times_count(self) -> nat {
        (self.whole@ * self.count + self.remainder) as nat
    }

    /// Whether this is the arithmetic mean of the durations of `results`:
    /// times their number, it is their sum.
    pub open spec fn is_mean_of(self, results: Seq<TransferResult>) -> bool {
        &&& self.wf()
        &&& self.count == results.len()
        &&& self.times_count() == total_nanos(results)
    }

    /// The whole milliseconds of the mean.
    pub fn as_millis(&self) -> (millis: u128)
        requires
            self.wf(),
        ensures
            millis == (self.times_count() as int) / (self.count * 1_000_000),
            millis == self.whole@ / 1_000_000,
    {
        proof {
            let sum = self.times_count() as int;
            let count = self.count as int;
            vstd::arithmetic::div_mod::lemma_fundamental_div_mod_converse(
                sum,
                count,
                self.whole@ as int,
                self.remainder as int,
            );
            vstd::arithmetic::div_mod::lemma_div_denominator(sum, count, 1_000_000);
        }
        self.whole.as_millis()
    }
}

/// The arithmetic mean of the durations of `results`, exactly: the sum of
/// the durations over their number. There is none where there are no
/// results, or where the sum does not fit in 128 bits.
pub fn mean_duration(results: &Vec<TransferResult>) -> (mean: Option<MeanDuration>)
    ensures
        mean is Some <==> results@.len() > 0 && total_nanos(results@) <= u128::MAX,
        mean matches Some(m) ==> m.is_mean_of(results@),
{
    let count = results.len();
    if count == 0 {
        return None;
    }
    let mut total: u128 = 0;
    let mut i: usize = 0;
    while i < count
        invariant
            i <= count,
            count == results@.len(),
            total == total_nanos(results@.take(i as int)),
        decreases count - i,
    {
        proof {
            assert(results@.take(i + 1).drop_last() =~= results@.take(i as int));
            lemma_total_nanos_prefix(results@, i + 1);
        }
        match total.checked_add(results[i].duration.nanos) {
            Some(sum) => {
                total = sum;
            },
            None => {
                return None;
            },
        }
        i = i + 1;
    }
    proof {
        assert(results@.take(count as int) =~= results@);
        vstd::arithmetic::div_mod::lemma_fundamental_div_mod(total as int, count as int);
        vstd::arithmetic::div_mod::lemma_mod_bound(total as int, count as int);
        vstd::arithmetic::mul::lemma_mul_is_commutative(count as int, total as int / count as int);
    }
    Some(
        MeanDuration {
            whole: Elapsed { nanos: total / (count as u128) },
            remainder: total % (count as u128),
            count,
        },
    )
}

/// The summary of a repeated transfer: the mean duration of its runs, given
/// for more than one run.
pub fn repeated_summary(results: &Vec<TransferResult>) -> (mean: Option<MeanDuration>)
    ensures
        mean is Some <==> results@.len() > 1 && total_nanos(results@) <= u128::MAX,
        mean matches Some(m) ==> m.is_mean_of(results@),
{
    if results.len() > 1 {
        mean_duration(results)
    } else {
        None
    }
}

/// Law of the mean: it is exact. The mean of some durations, times their
/// number, is their sum, and no other value is their mean.
pub proof fn lemma_mean_is_exact(results: Seq<TransferResult>, mean: MeanDuration, other: MeanDuration)
    requires
        mean.is_mean_of(results),
        other.is_mean_of(results),
    ensures
        mean.whole@ * results.len() + mean.remainder == total_nanos(results),
        mean.remainder == 0 ==> mean.whole@ * results.len() == total_nanos(results),
        mean == other,
{
    let sum = total_nanos(results) as int;
    let count = results.len() as int;
    vstd::arithmetic::div_mod::lemma_fundamental_div_mod_converse(
        sum,
        count,
        mean.whole@ as int,
        mean.remainder as int,
    );
    vstd::arithmetic::div_mod::lemma_fundamental_div_mod_converse(
        sum,
        count,
        other.whole@ as int,
        other.remainder as int,
    );
}

/// `best` is the optimum among the results for `file_size`: the first of
/// those with the highest throughput.
pub open spec fn is_optimum(results: Seq<TransferResult>, file_size: u64, best: int) -> bool {
    &&& 0 <= best < results.len()
    &&& results[best].file_size == file_size
    &&& forall|j: int|
        0 <= j < results.len() && (#[trigger] results[j]).file_size == file_size
            ==> results[j].spec_throughput().le(results[best].spec_throughput())
    &&& forall|j: int|
        0 <= j < best && (#[trigger] results[j]).file_size == file_size
            ==> results[j].spec_throughput().lt(results[best].spec_throughput())
}

/// Whether `results` holds a transfer of `file_size` bytes.
pub open spec fn has_file_size(results: Seq<TransferResult>, file_size: u64) -> bool {
    exists|j: int| 0 <= j < results.len() && (#[trigger] results[j]).file_size == file_size
}

/// The position of the optimum among the results for `file_size`: the
/// result with the highest throughput, and of several with the highest, the
/// one that ran first. There is none where no result has that file size.
pub fn optimal_index(results: &Vec<TransferResult>, file_size: u64) -> (best: Option<usize>)
    ensures
        best is Some <==> has_file_size(results@, file_size),
        best matches Some(b) ==> is_optimum(results@, file_size, b as int),
{
    let mut best: Option<usize> = None;
    let mut i: usize = 0;
    while i < results.len()
        invariant
            i <= results@.len(),
            best is Some <==> has_file_size(results@.take(i as int), file_size),
            best matches Some(b) ==> is_optimum(results@.take(i as int), file_size, b as int),
        decreases results@.len() - i,
    {
        let ghost before = results@.take(i as int);
        let ghost after = results@.take(i + 1);
        let candidate = &results[i];
        proof {
            assert(after[i as int] == *candidate);
            assert forall|j: int| 0 <= j < i implies after[j] == before[j] by {}
        }
        if candidate.file_size == file_size {
            match best {
                None => {
                    best = Some(i);
                    proof {
                        assert forall|j: int|
                            0 <= j < i && (#[trigger] after[j]).file_size == file_size implies false by {
                            assert(before[j].file_size == file_size);
                        }
                        assert(after[i as int].spec_throughput().le(after[i as int].spec_throughput()));
                    }
                },
                Some(b) => {
                    let faster = candidate.outperforms(&results[b]);
                    proof {
                        assert(after[b as int] == before[b as int]);
                        assert forall|j: int|
                            0 <= j < i && (#[trigger] after[j]).file_size == file_size implies {
                            &&& after[j].spec_throughput().le(before[b as int].spec_throughput())
                            &&& faster ==> after[j].spec_throughput().lt(
                                candidate.spec_throughput(),
                            )
                        } by {
                            assert(after[j] == before[j]);
                            assert(before[j].file_size == file_size);
                            crate::measure::lemma_same_size_order(before[j], before[b as int]);
                            crate::measure::lemma_same_size_order(*candidate, before[j]);
                            crate::measure::lemma_same_size_order(*candidate, before[b as int]);
                        }
                    }
                    if faster {
                        best = Some(i);
                    }
                },
            }
            proof {
                assert(has_file_size(after, file_size));
            }
        } else {
            proof {
                if has_file_size(after, file_size) {
                    let j = choose|j: int|
                        0 <= j < after.len() && (#[trigger] after[j]).file_size == file_size;
                    assert(before[j].file_size == file_size);
                }
                if has_file_size(before, file_size) {
                    let j = choose|j: int|
                        0 <= j < before.len() && (#[trigger] before[j]).file_size == file_size;
                    assert(after[j].file_size == file_size);
                }
            }
        }
        i = i + 1;
    }
    proof {
        assert(results@.take(i as int) =~= results@);
    }
    best
}

/// The optimal chunk size for `file_size`: the chunk size of the optimum
/// among the results for that file size.
pub fn optimal_chunk_size(results: &Vec<TransferResult>, file_size: u64) -> (chunk_size: Option<
    u32,
>)
    ensures
        chunk_size is Some <==> has_file_size(results@, file_size),
        chunk_size matches Some(c) ==> exists|b: int|
            is_optimum(results@, file_size, b) && c == results@[b].chunk_size,
{
    match optimal_index(results, file_size) {
        Some(b) => Some(results[b].chunk_size),
        None => None,
    }
}

/// The optimum for each of `file_sizes`, in their order.
pub fn optima(results: &Vec<TransferResult>, file_sizes: &Vec<u64>) -> (best: Vec<Option<usize>>)
    ensures
        best@.len() == file_sizes@.len(),
        forall|k: int|
            0 <= k < file_sizes@.len() ==> ((#[trigger] best@[k]) is Some <==> has_file_size(
                results@,
                file_sizes@[k],
            )),
        forall|k: int|
            0 <= k < file_sizes@.len() ==> ((#[trigger] best@[k]) matches Some(b) ==> is_optimum(
                results@,
                file_sizes@[k],
                b as int,
            )),
{
    let mut best: Vec<Option<usize>> = Vec::new();
    let mut k: usize = 0;
    while k < file_sizes.len()
        invariant
            k <= file_sizes@.len(),
            best@.len() == k,
            forall|m: int|
                0 <= m < k ==> ((#[trigger] best@[m]) is Some <==> has_file_size(
                    results@,
                    file_sizes@[m],
                )),
            forall|m: int|
                0 <= m < k ==> ((#[trigger] best@[m]) matches Some(b) ==> is_optimum(
                    results@,
                    file_sizes@[m],
                    b as int,
                )),
        decreases file_sizes@.len() - k,
    {
        best.push(optimal_index(results, file_sizes[k]));
        k = k + 1;
    }
    best
}

/// Law of the optimum: there is at most one.
pub proof fn lemma_optimum_unique(results: Seq<TransferResult>, file_size: u64, a: int, b: int)
    requires
        is_optimum(results, file_size, a),
        is_optimum(results, file_size, b),
    ensures
        a == b,
{
    if a < b {
        assert(results[a].spec_throughput().lt(results[b].spec_throughput()));
        assert(results[b].spec_throughput().le(results[a].spec_throughput()));
    } else if b < a {
        assert(results[b].spec_throughput().lt(results[a].spec_throughput()));
        assert(results[a].spec_throughput().le(results[b].spec_throughput()));
    }
}

} // verus!
