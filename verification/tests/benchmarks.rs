use nsysbench::io::{
    effective_block_kb, effective_file_mb, fill_block, IoPhase, IoPhaseKind, IO_SEED,
};
use nsysbench::kernels::{lcg_next, CpuWorkload};
use nsysbench::memory::{
    memory_plan, phase_seconds, random_read, random_write, run_for, sequential_read,
    sequential_write, MemoryArgs, MemoryBuffer, MemoryPhase, MemoryPlan, PhaseAction, RANDOM_SEED,
};
use nsysbench::network::{measured_secs, NetworkTally, NoRequests};
use nsysbench::platform::CpuCapabilities;
use nsysbench::progress;
use nsysbench::results::{
    class_stages_to_compare, cpu_result, cpu_sequence_result, io_result, memory_result,
    multi_stage, network_result, single_stage, smt_stages, stage_named, stage_of_class,
    stage_result, suite_result, workload_result, CpuScores, CpuStageResult, MemoryResult,
    NetworkRates, NetworkResult, StageMeasures, SuiteResult, SCORE_VERSION,
};
use nsysbench::suite::{
    available_scores, suite_plan, suite_scores, RunArgs, DEFAULT_MAX_PRIME,
};
use nsysbench::topology::{fallback_cpu_topology, CpuStage};

#[test]
fn duration_is_split_into_four_phases() {
    assert_eq!(phase_seconds(0), 1);
    assert_eq!(phase_seconds(4), 1);
    assert_eq!(phase_seconds(7), 1);
    assert_eq!(phase_seconds(8), 2);
    assert_eq!(phase_seconds(u64::MAX), u64::MAX / 4);
}

#[test]
fn memory_plan_sizes_the_buffer() {
    let plan = memory_plan(MemoryArgs {
        size_mb: 128,
        duration: 6,
    });
    assert_eq!(
        plan,
        Some(MemoryPlan {
            size_mb: 128,
            elements: 16_777_216,
            phase_secs: 1
        })
    );
    let least = memory_plan(MemoryArgs {
        size_mb: 0,
        duration: 0,
    });
    assert_eq!(
        least,
        Some(MemoryPlan {
            size_mb: 1,
            elements: 131_072,
            phase_secs: 1
        })
    );
    let too_large = memory_plan(MemoryArgs {
        size_mb: usize::MAX,
        duration: 0,
    });
    assert_eq!(too_large, None);
}

#[test]
fn sequential_passes_touch_every_element() {
    let mut data = vec![9u64; 5];
    assert_eq!(sequential_write(&mut data), 40);
    assert_eq!(data, vec![0, 1, 2, 3, 4]);
    assert_eq!(sequential_read(&data), (40, 10));
    assert_eq!(sequential_read(&vec![u64::MAX, 2]), (16, 1));
}

#[test]
fn random_passes_follow_the_random_sequence() {
    let mut data = vec![0u64; 8];
    let mut expected = vec![0u64; 8];
    let mut state = RANDOM_SEED;
    let mut model = 0x9E3779B97F4A7C15_u64;
    for _ in 0..3 {
        assert_eq!(random_write(&mut data, &mut state), 64);
        for _ in 0..8 {
            model = lcg_next(model);
            expected[(model as usize) % 8] = model;
        }
        assert_eq!(data, expected);
        assert_eq!(state, model);
    }
    let mut sum = 0u64;
    for _ in 0..8 {
        model = lcg_next(model);
        sum = sum.wrapping_add(expected[(model as usize) % 8]);
    }
    assert_eq!(random_read(&data, &mut state), (64, sum));
    assert_eq!(state, model);
}

#[test]
fn memory_phases_share_one_buffer() {
    let names: Vec<&str> = MemoryPhase::all().iter().map(|phase| phase.name()).collect();
    assert_eq!(
        names,
        vec!["sequential write", "sequential read", "random write", "random read"]
    );
    let mut buffer = MemoryBuffer::new(4);
    assert_eq!(buffer.data, vec![0, 0, 0, 0]);
    assert_eq!(buffer.pass(MemoryPhase::SequentialWrite), (32, None));
    assert_eq!(buffer.data, vec![0, 1, 2, 3]);
    assert_eq!(buffer.pass(MemoryPhase::SequentialRead), (32, Some(6)));
    assert_eq!(buffer.data, vec![0, 1, 2, 3]);
    assert_eq!(buffer.state, RANDOM_SEED);
    assert_eq!(buffer.pass(MemoryPhase::RandomWrite), (32, None));
    let written = buffer.data.clone();
    assert_ne!(written, vec![0, 1, 2, 3]);
    let mut reader = buffer.state;
    let mut sum = 0u64;
    for _ in 0..4 {
        reader = lcg_next(reader);
        sum = sum.wrapping_add(written[(reader as usize) % 4]);
    }
    assert_eq!(buffer.pass(MemoryPhase::RandomRead), (32, Some(sum)));
    assert_eq!(buffer.data, written);
    let mut state = RANDOM_SEED;
    for _ in 0..8 {
        state = lcg_next(state);
    }
    assert_eq!(buffer.state, state);
}

#[test]
fn phases_fill_their_fields() {
    let memory = memory_result(64, [1, 2, 3, 4], 5);
    assert_eq!(memory.size_mb, 64);
    assert_eq!((memory.seq_write_mb_s, memory.seq_read_mb_s), (1, 2));
    assert_eq!((memory.rand_write_mb_s, memory.rand_read_mb_s), (3, 4));
    assert_eq!(memory.score, 5);
    let io = io_result("/tmp".to_string(), 4, 64, [1, 2, 3, 4], [5, 6, 7, 8], 9);
    assert_eq!((io.seq_write_mb_s, io.seq_read_mb_s), (1, 2));
    assert_eq!((io.rand_write_mb_s, io.rand_read_mb_s), (3, 4));
    assert_eq!((io.seq_write_iops, io.seq_read_iops), (5, 6));
    assert_eq!((io.rand_write_iops, io.rand_read_iops), (7, 8));
    assert_eq!((io.path.as_str(), io.block_kb, io.file_size_mb), ("/tmp", 4, 64));
    assert_eq!(io.score, 9);
}

#[test]
fn measured_numbers_fill_their_fields() {
    let workload = workload_result(CpuWorkload::Simd, 2, 1, 3, 4);
    assert_eq!(workload.name, "simd-fp");
    assert_eq!(workload.operations_per_sec, 2);
    assert_eq!(workload.min_operations_per_sec, 1);
    assert_eq!(workload.max_operations_per_sec, 3);
    assert_eq!(workload.coefficient_of_variation_percent, 4);
    let tally = NetworkTally {
        requests: 7,
        bytes: 8,
    };
    let rates = NetworkRates {
        duration_secs: 1,
        throughput_mb_s: 2,
        requests_per_sec: 3,
        avg_latency_ms: 4,
        score: 5,
    };
    let network = network_result("t".to_string(), tally, rates);
    assert_eq!((network.target.as_str(), network.duration_secs), ("t", 1));
    assert_eq!((network.requests, network.bytes), (7, 8));
    assert_eq!((network.throughput_mb_s, network.requests_per_sec), (2, 3));
    assert_eq!((network.avg_latency_ms, network.score), (4, 5));
}

fn capabilities() -> CpuCapabilities {
    CpuCapabilities {
        placement: "pinned".to_string(),
        topology_detail: true,
        simd_path: "sse2".to_string(),
    }
}

fn scores() -> CpuScores<u64> {
    CpuScores {
        single_thread_score: 1,
        multi_thread_score: 2,
        smt_gain_percent: Some(3),
        performance_efficiency_ratio: None,
        score: 4,
    }
}

#[test]
fn sequence_and_suite_results_keep_their_parts() {
    let topology = fallback_cpu_topology("test", 2);
    let sequence = cpu_sequence_result::<u64>(5, topology, capabilities(), vec![]);
    assert_eq!(sequence.score_version, 2);
    assert_eq!(sequence.duration_secs_per_stage, 5);
    assert_eq!(sequence.topology.physical_cores, 2);
    assert_eq!(sequence.capabilities.simd_path, "sse2");
    assert!(sequence.results.is_empty());
    let cpu = cpu_result(0, sequence.topology, sequence.capabilities, vec![], scores());
    let memory = memory_result(1, [0; 4], 10);
    let io = io_result("/tmp".to_string(), 4, 64, [0; 4], [0; 4], 20);
    let suite = suite_result(cpu, memory, io, None, 34);
    assert_eq!(available_scores(&suite_scores(&suite)), vec![4, 10, 20]);
    assert_eq!(suite.total_score, 34);
    assert!(suite.network.is_none());
}

#[test]
fn progress_messages_name_the_phase() {
    assert_eq!(
        progress::collecting_info("/tmp"),
        "collecting system information for /tmp"
    );
    assert_eq!(
        progress::cpu_stages(3, 8),
        "running CPU score v2: 3 topology stage(s), 8s each"
    );
    assert_eq!(
        progress::cpu_stage("all-logical", 16),
        "running CPU stage all-logical with 16 thread(s)"
    );
    assert_eq!(
        progress::cpu_sequence(4, 5),
        "running full CPU scaling sequence from 1 to 4 thread(s), 5s each"
    );
    assert_eq!(
        progress::memory_phase("random read", 2),
        "running memory random read phase for 2s"
    );
    assert_eq!(
        progress::io_started(".", 4, 64),
        "running IO benchmark in . using 4 KiB blocks and a 64 MiB file"
    );
    assert_eq!(
        progress::io_phase("sequential write", 2),
        "running IO sequential write phase for 2s"
    );
    assert_eq!(
        progress::network_started("http://localhost/", 8),
        "running network benchmark against http://localhost/ for 8s"
    );
}

#[test]
fn timed_phase_counts_its_passes() {
    assert_eq!(run_for(0, None, true), (0, PhaseAction::RunPass));
    assert_eq!(run_for(5, Some(7), true), (12, PhaseAction::RunPass));
    assert_eq!(run_for(12, Some(7), false), (19, PhaseAction::Stop));
    assert_eq!(run_for(0, None, false), (0, PhaseAction::Stop));
    assert_eq!(
        run_for(u64::MAX - 1, Some(7), false),
        (u64::MAX, PhaseAction::Stop)
    );
}

#[test]
fn io_phases_run_in_order() {
    let phases: Vec<(&str, bool, bool)> = IoPhaseKind::all()
        .iter()
        .map(|kind| (kind.name(), kind.writes(), kind.is_random()))
        .collect();
    assert_eq!(
        phases,
        vec![
            ("sequential write", true, false),
            ("sequential read", false, false),
            ("random write", true, true),
            ("random read", false, true),
        ]
    );
}

#[test]
fn io_sizes_have_minimums() {
    assert_eq!((effective_block_kb(0), effective_block_kb(4)), (1, 4));
    assert_eq!((effective_file_mb(0), effective_file_mb(64)), (8, 64));
    let phase = IoPhase::new(1, 0, false).unwrap();
    assert_eq!(phase.file_size, 8 << 20);
    assert_eq!(phase.block_size, 1024);
    assert_eq!(phase.blocks, 8192);
    assert!(IoPhase::new(usize::MAX, 4, false).is_none());
    assert!(IoPhase::new(64, usize::MAX, false).is_none());
}

#[test]
fn sequential_requests_wrap_at_the_end_of_the_file() {
    let mut phase = IoPhase::new(8, 4096, false).unwrap();
    assert_eq!(phase.blocks, 2);
    let mut offsets = vec![];
    for _ in 0..5 {
        assert!(phase.has_room());
        offsets.push(phase.next_request().offset);
    }
    let block = 4096 * 1024;
    assert_eq!(offsets, vec![0, block, 0, block, 0]);
    assert_eq!(phase.ops, 5);
    assert_eq!(phase.bytes, 5 * block);
}

#[test]
fn random_requests_follow_the_random_sequence() {
    let mut phase = IoPhase::new(8, 4, true).unwrap();
    let mut state = IO_SEED;
    assert_eq!(state, 0xD1B54A32D192ED03);
    for _ in 0..100 {
        state = lcg_next(state);
        let request = phase.next_request();
        assert_eq!(request.block, state % 2048);
        assert_eq!(request.offset, request.block * 4096);
        assert!(request.offset + 4096 <= phase.file_size);
    }
}

#[test]
fn block_larger_than_the_file_is_the_only_one() {
    let mut phase = IoPhase::new(8, 16 * 1024, true).unwrap();
    assert_eq!(phase.blocks, 1);
    assert_eq!(phase.next_request().offset, 0);
    assert_eq!(phase.next_request().offset, 0);
}

#[test]
fn full_counter_has_no_room() {
    let mut phase = IoPhase::new(8, 1, false).unwrap();
    assert!(phase.has_room());
    phase.bytes = u64::MAX - 1000;
    assert!(!phase.has_room());
}

#[test]
fn blocks_count_up_from_their_number() {
    let mut buffer = vec![0u8; 600];
    fill_block(&mut buffer, 250);
    assert_eq!(buffer[0], 250);
    assert_eq!(buffer[5], 255);
    assert_eq!(buffer[6], 0);
    assert_eq!(buffer[599], ((250 + 599) % 256) as u8);
}

#[test]
fn network_tally_counts_answers() {
    let mut tally = NetworkTally::new();
    assert_eq!(tally.finish(), Err(NoRequests));
    assert_eq!(NoRequests.message(), "no network requests completed");
    assert!(tally.has_room(10));
    tally.record(10);
    tally.record(32);
    let done = tally.finish().unwrap();
    assert_eq!((done.requests, done.bytes), (2, 42));
    assert!(tally.has_room(u64::MAX - 42));
    assert!(!tally.has_room(u64::MAX));
    assert_eq!((measured_secs(0), measured_secs(8)), (1, 8));
}

fn run_args(threads: Option<usize>, duration: u64, target: Option<&str>) -> RunArgs<String> {
    RunArgs {
        threads,
        duration,
        memory_mb: 256,
        io_path: "/tmp".to_string(),
        target: target.map(str::to_string),
    }
}

#[test]
fn bare_run_uses_every_cpu() {
    let plan = suite_plan(RunArgs::default());
    assert_eq!(plan.cpu.threads, 0);
    assert_eq!(plan.cpu.duration, 5);
    assert!(!plan.cpu.sequence);
    assert_eq!(plan.cpu.cpu_max_prime, 10_000);
    assert_eq!(plan.memory.size_mb, 128);
    assert_eq!(plan.io.path, ".");
    assert!(plan.network.is_none());
}

#[test]
fn run_without_threads_is_single_threaded() {
    let plan = suite_plan(run_args(None, 2, None));
    assert_eq!(plan.cpu.threads, 1);
    assert_eq!(plan.cpu.duration, 2);
    assert_eq!(plan.memory.duration, 4);
    assert_eq!(plan.memory.size_mb, 256);
    assert_eq!(plan.io.duration, 4);
    assert_eq!((plan.io.block_kb, plan.io.file_size_mb), (4, 64));
    assert_eq!(DEFAULT_MAX_PRIME, 10_000);
}

#[test]
fn network_runs_only_with_a_target() {
    let plan = suite_plan(run_args(Some(2), 5, Some("http://localhost/")));
    let network = plan.network.unwrap();
    assert_eq!(network.target, "http://localhost/");
    assert_eq!(network.duration, 5);
    assert_eq!(plan.cpu.threads, 2);
    assert_eq!(plan.io.duration, 5);
}

#[test]
fn scores_of_what_ran_are_added_up() {
    let suite = SuiteResult {
        cpu: None,
        memory: Some(MemoryResult {
            size_mb: 1,
            seq_write_mb_s: 1.0,
            seq_read_mb_s: 2.0,
            rand_write_mb_s: 3.0,
            rand_read_mb_s: 4.0,
            score: 2.5,
        }),
        io: None,
        network: Some(NetworkResult {
            target: "t".to_string(),
            duration_secs: 1.0,
            requests: 1,
            bytes: 1,
            throughput_mb_s: 1.0,
            requests_per_sec: 1.0,
            avg_latency_ms: 1.0,
            score: 3.5,
        }),
        total_score: 0.0,
    };
    assert_eq!(available_scores(&suite_scores(&suite)), vec![2.5, 3.5]);
}

#[test]
fn total_score_sums_available_categories() {
    let scores = available_scores(&[Some(1.0), None, Some(2.5), Some(3.5)]);
    assert_eq!(scores, vec![1.0, 2.5, 3.5]);
    let total: f64 = scores.iter().sum();
    assert!((total - 7.0).abs() < f64::EPSILON);
}

fn stage(id: &str, class: Option<&str>, cpus: Vec<usize>) -> CpuStageResult<f64> {
    let stage = CpuStage {
        id: id.to_string(),
        cpu_class: class.map(str::to_string),
        cpus,
    };
    let measures = StageMeasures {
        workloads: vec![],
        primes_per_sec: 0.5,
        composite_gops: 2.0,
        score: 200.0,
        scaling_factor: 0.0,
        parallel_efficiency_percent: 0.0,
        stability_warning: Some("noisy".to_string()),
    };
    stage_result(&stage, &capabilities(), measures)
}

#[test]
fn stage_results_keep_their_stage() {
    let result = stage("efficiency-cores", Some("efficiency"), vec![4, 5]);
    assert_eq!(result.id, "efficiency-cores");
    assert_eq!(result.threads, 2);
    assert_eq!(result.cpu_class.as_deref(), Some("efficiency"));
    assert_eq!(result.placement, "pinned");
    assert_eq!(result.logical_cpus, vec![4, 5]);
    assert_eq!(result.composite_gops, 2.0);
    assert_eq!(result.primes_per_sec, 0.5);
    assert_eq!(result.score, 200.0);
    assert_eq!(result.stability_warning.as_deref(), Some("noisy"));
}

#[test]
fn cpu_result_has_the_version_of_the_score() {
    let result = cpu_result(
        8,
        fallback_cpu_topology("test", 2),
        capabilities(),
        vec![],
        scores(),
    );
    assert_eq!(SCORE_VERSION, 2);
    assert_eq!(result.score_version, 2);
    assert_eq!(result.requested_threads, 8);
    assert_eq!(result.topology.physical_cores, 2);
    assert_eq!(result.capabilities.placement, "pinned");
    assert_eq!((result.single_thread_score, result.multi_thread_score), (1, 2));
    assert_eq!(result.smt_gain_percent, Some(3));
    assert_eq!(result.performance_efficiency_ratio, None);
    assert_eq!(result.score, 4);
}

#[test]
fn scores_are_taken_from_the_right_stages() {
    let stages = vec![
        stage("single-thread", None, vec![4]),
        stage("efficiency-cores", Some("efficiency"), vec![4, 5]),
        stage("performance-cores", Some("performance"), vec![0, 1, 2, 3]),
        stage("physical-cores", None, vec![4, 5, 0, 2]),
        stage("all-logical", None, vec![4, 5, 0, 1, 2, 3]),
    ];
    assert_eq!(single_stage(&stages), Some(0));
    assert_eq!(multi_stage(&stages), Some(4));
    assert_eq!(smt_stages(&stages), Some((3, 4)));
    assert_eq!(class_stages_to_compare(&stages), Some((2, 1)));
    assert_eq!(stage_named(&stages, "physical-cores"), Some(3));
    assert_eq!(stage_of_class(&stages, "default"), None);
}

#[test]
fn missing_stages_are_not_compared() {
    let none: Vec<CpuStageResult<f64>> = vec![];
    assert_eq!(single_stage(&none), None);
    assert_eq!(multi_stage(&none), None);
    let one = vec![stage("single-thread", None, vec![0])];
    assert_eq!(multi_stage(&one), Some(0));
    assert_eq!(smt_stages(&one), None);
    assert_eq!(class_stages_to_compare(&one), None);
    let half = vec![stage("performance-cores", Some("performance"), vec![0, 1])];
    assert_eq!(single_stage(&half), None);
    assert_eq!(class_stages_to_compare(&half), None);
}
