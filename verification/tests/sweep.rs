use transfer_bench::error::TransferError;
use transfer_bench::measure::{Elapsed, TransferRequest, TransferResult};
use transfer_bench::stats::{mean_duration, optimal_chunk_size, MeanDuration};
use transfer_bench::sweep::{
    chunk_analysis_chunk_sizes, chunk_analysis_file_sizes, size_sweep_file_sizes, Sweep,
};

fn plan_of(mut sweep: Sweep) -> Vec<TransferRequest> {
    let mut plan = Vec::new();
    while let Some(request) = sweep.next_request() {
        plan.push(request);
        sweep.record(Ok(Elapsed::from_millis(1)));
    }
    assert!(sweep.is_finished());
    plan
}

#[test]
fn repeated_sweep_runs_the_request_count_times() {
    let request = TransferRequest { file_size: 1_048_576, chunk_size: 8192 };
    assert_eq!(plan_of(Sweep::repeated(request, 5)), vec![request; 5]);
    assert_eq!(plan_of(Sweep::repeated(request, 1)), vec![request]);
    assert_eq!(plan_of(Sweep::repeated(request, 0)), Vec::new());
}

#[test]
fn single_sweep_runs_the_request_once() {
    let request = TransferRequest { file_size: 1_048_576, chunk_size: 8192 };
    assert_eq!(plan_of(Sweep::single(request)), vec![request]);
    let mut sweep = Sweep::single(request);
    sweep.record(Ok(Elapsed::from_millis(12)));
    assert!(sweep.is_finished());
    assert_eq!(
        sweep.finish(),
        Ok(vec![TransferResult::new(1_048_576, 8192, Elapsed::from_millis(12))])
    );
}

#[test]
fn repeated_sweep_yields_one_result_per_run() {
    let request = TransferRequest { file_size: 4096, chunk_size: 512 };
    let mut sweep = Sweep::repeated(request, 3);
    let durations = [30u64, 10, 20];
    for millis in durations {
        assert_eq!(sweep.next_request(), Some(request));
        assert!(!sweep.is_finished());
        sweep.record(Ok(Elapsed::from_millis(millis)));
    }
    assert_eq!(sweep.next_request(), None);
    assert!(sweep.is_finished());
    assert_eq!(sweep.failure(), None);
    let expected = vec![
        TransferResult::new(4096, 512, Elapsed::from_millis(30)),
        TransferResult::new(4096, 512, Elapsed::from_millis(10)),
        TransferResult::new(4096, 512, Elapsed::from_millis(20)),
    ];
    assert_eq!(sweep.results(), &expected);
    assert_eq!(
        mean_duration(sweep.results()),
        Some(MeanDuration { whole: Elapsed::from_millis(20), remainder: 0, count: 3 })
    );
    assert_eq!(sweep.finish(), Ok(expected));
}

#[test]
fn size_sweep_ascends_from_one_kilobyte_to_one_gigabyte() {
    let sizes = size_sweep_file_sizes();
    assert_eq!(
        sizes,
        vec![
            1024,
            2_048,
            4_096,
            8_192,
            16_384,
            32_768,
            65_536,
            131_072,
            262_144,
            524_288,
            1_048_576,
            2_097_152,
            5_242_880,
            10_485_760,
            20_971_520,
            52_428_800,
            104_857_600,
            209_715_200,
            524_288_000,
            1_073_741_824,
        ]
    );
    assert!(sizes.windows(2).all(|pair| pair[0] < pair[1]));
    let plan = plan_of(Sweep::size_sweep(16_384));
    assert_eq!(plan.len(), 20);
    for (request, size) in plan.iter().zip(sizes.iter()) {
        assert_eq!(*request, TransferRequest { file_size: *size, chunk_size: 16_384 });
    }
}

#[test]
fn chunk_analysis_crosses_file_sizes_with_chunk_sizes() {
    assert_eq!(chunk_analysis_file_sizes(), vec![1_048_576, 10_485_760, 104_857_600]);
    assert_eq!(
        chunk_analysis_chunk_sizes(),
        vec![1024, 2048, 4096, 8192, 16384, 32768, 65536, 131072, 262144]
    );
    let plan = plan_of(Sweep::chunk_analysis());
    let mut expected = Vec::new();
    for file_size in chunk_analysis_file_sizes() {
        for chunk_size in chunk_analysis_chunk_sizes() {
            expected.push(TransferRequest { file_size, chunk_size });
        }
    }
    assert_eq!(plan.len(), 27);
    assert_eq!(plan, expected);
    assert_eq!(plan[0], TransferRequest { file_size: 1_048_576, chunk_size: 1024 });
    assert_eq!(plan[8], TransferRequest { file_size: 1_048_576, chunk_size: 262144 });
    assert_eq!(plan[9], TransferRequest { file_size: 10_485_760, chunk_size: 1024 });
    assert_eq!(plan[26], TransferRequest { file_size: 104_857_600, chunk_size: 262144 });
}

#[test]
fn grid_puts_file_sizes_outermost() {
    let plan = plan_of(Sweep::grid(&vec![10, 20], &vec![1, 2, 3]));
    let pairs: Vec<(u64, u32)> = plan.iter().map(|r| (r.file_size, r.chunk_size)).collect();
    assert_eq!(pairs, vec![(10, 1), (10, 2), (10, 3), (20, 1), (20, 2), (20, 3)]);
    assert_eq!(plan_of(Sweep::grid(&Vec::new(), &vec![1, 2, 3])), Vec::new());
    assert_eq!(plan_of(Sweep::grid(&vec![10, 20], &Vec::new())), Vec::new());
}

#[test]
fn first_failure_ends_the_sweep() {
    let mut sweep = Sweep::grid(&vec![10, 20, 30], &vec![4]);
    sweep.record(Ok(Elapsed::from_millis(5)));
    assert_eq!(sweep.next_request(), Some(TransferRequest { file_size: 20, chunk_size: 4 }));
    sweep.record(Err(TransferError::Io));
    assert_eq!(sweep.next_request(), None);
    assert!(sweep.is_finished());
    assert_eq!(sweep.failure(), Some(TransferError::Io));
    assert_eq!(sweep.results().len(), 1);
    // Nothing that is reported afterwards is taken in.
    sweep.record(Ok(Elapsed::from_millis(5)));
    sweep.record(Err(TransferError::Handshake));
    assert_eq!(sweep.results().len(), 1);
    assert_eq!(sweep.failure(), Some(TransferError::Io));
    assert_eq!(sweep.finish(), Err(TransferError::Io));
}

#[test]
fn each_kind_of_failure_is_reported_as_it_is() {
    let kinds = [
        TransferError::Connection,
        TransferError::Handshake,
        TransferError::Io,
        TransferError::ProtocolViolation,
    ];
    for kind in kinds {
        let mut sweep = Sweep::size_sweep(8192);
        sweep.record(Err(kind));
        assert_eq!(sweep.failure(), Some(kind));
        assert_eq!(sweep.finish(), Err(kind));
    }
}

#[test]
fn finished_sweep_takes_nothing_more() {
    let request = TransferRequest { file_size: 1, chunk_size: 1 };
    let mut sweep = Sweep::repeated(request, 1);
    sweep.record(Ok(Elapsed::from_millis(2)));
    sweep.record(Ok(Elapsed::from_millis(3)));
    sweep.record(Err(TransferError::Connection));
    assert_eq!(sweep.failure(), None);
    assert_eq!(sweep.finish(), Ok(vec![TransferResult::new(1, 1, Elapsed::from_millis(2))]));
}

#[test]
fn unfinished_sweep_hands_out_what_it_has() {
    let request = TransferRequest { file_size: 1, chunk_size: 1 };
    let mut sweep = Sweep::repeated(request, 3);
    sweep.record(Ok(Elapsed::from_millis(2)));
    assert!(!sweep.is_finished());
    assert_eq!(sweep.finish(), Ok(vec![TransferResult::new(1, 1, Elapsed::from_millis(2))]));
}

#[test]
fn chunk_analysis_gives_an_optimum_for_each_file_size() {
    let mut sweep = Sweep::chunk_analysis();
    // The 16 KB chunk is the fastest for each file size; 32 KB ties with it.
    while let Some(request) = sweep.next_request() {
        let millis = match request.chunk_size {
            16384 | 32768 => 10,
            _ => 20,
        };
        sweep.record(Ok(Elapsed::from_millis(millis * (request.file_size / 1_048_576))));
    }
    let results = sweep.finish().unwrap();
    assert_eq!(results.len(), 27);
    for file_size in chunk_analysis_file_sizes() {
        assert_eq!(optimal_chunk_size(&results, file_size), Some(16384));
    }
}
