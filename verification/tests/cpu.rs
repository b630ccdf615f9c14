use nsysbench::cpulist::parse_cpu_list;
use nsysbench::kernels::{
    floating_point_block, integer_block, integer_lanes, kernel_lanes, lcg_next, simd_block,
    simd_operations, simd_scalar_block, total_operations, CpuWorkload, WorkerState,
};
use nsysbench::platform::{
    cpu_capabilities, placement_name, simd_path, worker_placement, CpuFeatures, PlacementAction,
    Platform, SimdPath,
};
use nsysbench::primes::{count_primes, has_no_divisor};
use nsysbench::samples::{
    summarize, SAMPLES_PER_STAGE, SAMPLES_PER_WORKLOAD, WARM_UP_MILLIS,
};
use nsysbench::topology::{
    core_key, fallback_cpu_topology, select_cpus, sequence_stages, topology_stages, CpuCoreClass,
    CpuStage, CpuTopology,
};

/// The lanes of the scalar floating-point kernel.
fn float_start(seed: u64) -> (f64, f64, f64, f64) {
    let a = seed as f64 * 1e-12 + 1.0;
    (a, a + 0.25, a + 0.5, a + 0.75)
}

fn float_round(lanes: (f64, f64, f64, f64)) -> (f64, f64, f64, f64) {
    let a = lanes.0 * 1.000_000_1 + lanes.1 * 0.000_000_1;
    let b = lanes.1 * 0.999_999_9 + lanes.2 * 0.000_000_2;
    let c = lanes.2 * 1.000_000_2 + lanes.3 * 0.000_000_1;
    let d = lanes.3 * 0.999_999_8 + a * 0.000_000_3;
    (a, b, c, d)
}

/// Two performance cores with two threads each, and two efficiency cores.
fn hybrid() -> CpuTopology {
    CpuTopology {
        logical_cpus: vec![0, 1, 2, 3, 4, 5],
        physical_cores: 4,
        smt_threads_per_core: 2,
        core_classes: vec![
            CpuCoreClass {
                id: "efficiency".to_string(),
                logical_cpus: vec![4, 5],
                physical_cores: 2,
            },
            CpuCoreClass {
                id: "performance".to_string(),
                logical_cpus: vec![0, 1, 2, 3],
                physical_cores: 2,
            },
        ],
        source: "test".to_string(),
        core_groups: vec![vec![0, 1], vec![2, 3], vec![4], vec![5]],
    }
}

fn summary(stages: &[CpuStage]) -> Vec<(String, Option<String>, Vec<usize>)> {
    stages
        .iter()
        .map(|stage| (stage.id.clone(), stage.cpu_class.clone(), stage.cpus.clone()))
        .collect()
}

#[test]
fn cpu_list_parser_handles_ranges_and_individual_cpus() {
    assert_eq!(parse_cpu_list("0-2, 5, 7-8\n"), vec![0, 1, 2, 5, 7, 8]);
}

#[test]
fn cpu_list_entries_that_cannot_be_read_name_no_cpu() {
    assert_eq!(parse_cpu_list(""), Vec::<usize>::new());
    assert_eq!(parse_cpu_list("x, 1-, -2, 3-1, 4"), vec![4]);
    assert_eq!(parse_cpu_list("1 - 2, +7"), vec![7]);
    assert_eq!(parse_cpu_list("99999999999999999999999, 6-6"), vec![6]);
}

#[test]
fn cpu_lists_join_at_commas() {
    let both = parse_cpu_list("3-4,9");
    let mut one_by_one = parse_cpu_list("3-4");
    one_by_one.extend(parse_cpu_list("9"));
    assert_eq!(both, one_by_one);
    assert_eq!(parse_cpu_list("\t 3-4,9 \n"), both);
}

#[test]
fn selected_cpu_limit_is_applied() {
    for parallelism in 1..=64 {
        let topology = fallback_cpu_topology("test", parallelism);
        assert_eq!(select_cpus(&topology, 1).len(), 1);
        assert_eq!(select_cpus(&topology, 0).len(), topology.logical_cpus.len());
    }
}

#[test]
fn selection_follows_the_classes() {
    let topology = hybrid();
    assert_eq!(select_cpus(&topology, 0), vec![4, 5, 0, 1, 2, 3]);
    assert_eq!(select_cpus(&topology, 3), vec![4, 5, 0]);
    assert_eq!(select_cpus(&topology, 99), vec![4, 5, 0, 1, 2, 3]);
}

#[test]
fn selection_names_no_cpu_twice() {
    let mut topology = hybrid();
    topology.core_classes[0].logical_cpus = vec![4, 5, 4, 0];
    assert_eq!(select_cpus(&topology, 0), vec![4, 5, 0, 1, 2, 3]);
}

#[test]
fn selection_without_classes_takes_the_logical_cpus() {
    let mut topology = hybrid();
    topology.core_classes.clear();
    assert_eq!(select_cpus(&topology, 2), vec![0, 1]);
}

#[test]
fn stages_of_a_hybrid_cpu() {
    let topology = hybrid();
    let selected = select_cpus(&topology, 0);
    let stages = topology_stages(&topology, &selected);
    assert_eq!(
        summary(&stages),
        vec![
            ("single-thread".to_string(), None, vec![4]),
            (
                "efficiency-cores".to_string(),
                Some("efficiency".to_string()),
                vec![4, 5]
            ),
            (
                "performance-cores".to_string(),
                Some("performance".to_string()),
                vec![0, 1, 2, 3]
            ),
            ("physical-cores".to_string(), None, vec![4, 5, 0, 2]),
            ("all-logical".to_string(), None, vec![4, 5, 0, 1, 2, 3]),
        ]
    );
}

#[test]
fn one_cpu_has_one_stage() {
    let topology = fallback_cpu_topology("test", 1);
    let stages = topology_stages(&topology, &select_cpus(&topology, 0));
    assert_eq!(
        summary(&stages),
        vec![("single-thread".to_string(), None, vec![0])]
    );
}

#[test]
fn cpus_without_smt_have_no_physical_stage() {
    let topology = fallback_cpu_topology("test", 4);
    let stages = topology_stages(&topology, &select_cpus(&topology, 0));
    assert_eq!(
        summary(&stages),
        vec![
            ("single-thread".to_string(), None, vec![0]),
            ("all-logical".to_string(), None, vec![0, 1, 2, 3]),
        ]
    );
}

#[test]
fn a_cpu_outside_the_groups_is_its_own_core() {
    let topology = hybrid();
    assert_eq!(core_key(&topology, 1), 0);
    assert_eq!(core_key(&topology, 5), 3);
    assert_eq!(core_key(&topology, 17), 17);
}

#[test]
fn sequence_adds_one_cpu_at_a_time() {
    assert_eq!(
        summary(&sequence_stages(&vec![7, 3, 5])),
        vec![
            ("threads-1".to_string(), None, vec![7]),
            ("threads-2".to_string(), None, vec![7, 3]),
            ("threads-3".to_string(), None, vec![7, 3, 5]),
        ]
    );
}

#[test]
fn compute_kernels_report_their_fixed_operation_counts() {
    assert_eq!(integer_block(1), 240_000);
    assert_eq!(floating_point_block(1, float_start, float_round), 240_000);
}

#[test]
fn integer_kernel_computes_its_lanes() {
    let seed = 0x1234_5678_9ABC_DEF0_u64;
    let mut a = seed;
    let mut b = seed.rotate_left(17);
    let mut c = !seed;
    let mut d = seed.wrapping_mul(0xD6E8_FEB8_6659_FD93);
    for _ in 0..20_000 {
        a = a.wrapping_mul(0x9E37_79B1).rotate_left(13) ^ b;
        b = b.wrapping_add(0xC2B2_AE3D).rotate_right(11) ^ c;
        c = c.wrapping_mul(0x1656_67B1).rotate_left(7) ^ d;
        d = d.wrapping_add(a).rotate_right(19) ^ b;
    }
    assert_eq!(integer_lanes(seed), (a, b, c, d));
}

#[test]
fn kernels_run_their_rounds() {
    assert_eq!(kernel_lanes(5u64, |n: u64| n + 2), 40_005);
}

#[test]
fn simd_blocks_count_by_path() {
    assert_eq!(simd_operations(SimdPath::Avx2Fma), 320_000);
    assert_eq!(simd_operations(SimdPath::Sse2), 160_000);
    assert_eq!(simd_operations(SimdPath::Neon), 160_000);
    assert_eq!(simd_operations(SimdPath::Scalar), 160_000);
    let start = |seed: u64| [seed as f32 * 1e-6 + 1.0, 1.25, 1.5, 1.75];
    let round = |lanes: [f32; 4]| lanes.map(|lane| lane * 1.000_001 + 0.000_001);
    assert_eq!(simd_block(SimdPath::Avx2Fma, 1, start, round), 320_000);
    assert_eq!(simd_scalar_block(1, start, round), 160_000);
}

#[test]
fn workloads_run_their_own_block() {
    let names: Vec<&str> = CpuWorkload::all().iter().map(|w| w.name()).collect();
    assert_eq!(names, vec!["scalar-integer", "scalar-fp", "simd-fp"]);
    assert_eq!(CpuWorkload::Integer.run_block(3, |_| 1, |_| 2), 240_000);
    assert_eq!(CpuWorkload::FloatingPoint.run_block(3, |seed| seed + 1, |_| 2), 4);
    assert_eq!(CpuWorkload::Simd.run_block(3, |_| 1, |seed| seed + 2), 5);
}

#[test]
fn workers_start_from_different_seeds() {
    let first = WorkerState::new(0);
    let mut second = WorkerState::new(1);
    assert_eq!(first.seed, 0x9E37_79B9_7F4A_7C15);
    assert_eq!(second.seed, 0x9E37_79B9_7F4A_7C15_u64.wrapping_mul(2));
    let seed = second.seed;
    second.advance(240_000);
    assert_eq!(second.seed, seed.wrapping_add(0xD1B5_4A32_D192_ED03));
    assert_eq!(second.operations, 240_000);
    second.advance(u64::MAX);
    assert_eq!(second.operations, u64::MAX);
}

#[test]
fn operations_of_the_workers_add_up() {
    assert_eq!(total_operations(&vec![]), Some(0));
    assert_eq!(total_operations(&vec![1, 2, 3]), Some(6));
    assert_eq!(total_operations(&vec![u64::MAX, 1]), None);
}

#[test]
fn random_sequence_is_the_known_one() {
    assert_eq!(lcg_next(0), 1);
    assert_eq!(lcg_next(1), 6364136223846793006);
    assert_eq!(
        lcg_next(u64::MAX),
        u64::MAX.wrapping_mul(6364136223846793005).wrapping_add(1)
    );
}

#[test]
fn primes_are_counted_from_three_on() {
    assert!(has_no_divisor(3));
    assert!(!has_no_divisor(9));
    assert!(has_no_divisor(97));
    assert!(!has_no_divisor(7 * 13));
    assert_eq!(count_primes(0), 0);
    assert_eq!(count_primes(3), 0);
    assert_eq!(count_primes(4), 1);
    assert_eq!(count_primes(12), 4);
    assert_eq!(count_primes(10_000), 1228);
    assert!(count_primes(20_000) >= count_primes(10_000));
}

#[test]
fn median_of_three_samples_is_reported() {
    let summary = summarize(&vec![30, 10, 20]);
    assert_eq!((summary.least, summary.median, summary.greatest), (10, 20, 30));
    assert_eq!(summary.ordered, vec![10, 20, 30]);
    let one = summarize(&vec![7]);
    assert_eq!((one.least, one.median, one.greatest), (7, 7, 7));
    let four = summarize(&vec![4, 4, 1, 9]);
    assert_eq!((four.least, four.median, four.greatest), (1, 4, 9));
    assert_eq!(SAMPLES_PER_WORKLOAD, 3);
    assert_eq!(
        SAMPLES_PER_STAGE,
        CpuWorkload::all().len() * SAMPLES_PER_WORKLOAD
    );
    assert_eq!(WARM_UP_MILLIS, 30);
}

#[test]
fn positive_rates_order_as_their_bits() {
    let rates = [2.5e9_f64, 0.0, 1.25e10];
    let bits: Vec<u64> = rates.iter().map(|rate| rate.to_bits()).collect();
    let summary = summarize(&bits);
    assert_eq!(f64::from_bits(summary.least), 0.0);
    assert_eq!(f64::from_bits(summary.median), 2.5e9);
    assert_eq!(f64::from_bits(summary.greatest), 1.25e10);
}

#[test]
fn simd_path_is_the_best_detected() {
    let x86 = |avx2, fma, sse2| simd_path(CpuFeatures::X86 { avx2, fma, sse2 });
    assert_eq!(x86(true, true, true), "avx2-fma");
    assert_eq!(x86(true, false, true), "sse2");
    assert_eq!(x86(false, true, true), "sse2");
    assert_eq!(x86(false, false, false), "scalar");
    assert_eq!(simd_path(CpuFeatures::Aarch64), "neon");
    assert_eq!(simd_path(CpuFeatures::Other), "scalar");
}

#[test]
fn capabilities_of_the_platforms() {
    assert_eq!(placement_name(Platform::Linux), "pinned");
    assert_eq!(placement_name(Platform::Macos), "qos-advisory");
    assert_eq!(placement_name(Platform::Other), "scheduler");
    let plain = fallback_cpu_topology("scheduler-visible logical CPUs", 2);
    let capabilities = cpu_capabilities(&plain, Platform::Other, CpuFeatures::Aarch64);
    assert_eq!(capabilities.placement, "scheduler");
    assert!(!capabilities.topology_detail);
    assert_eq!(capabilities.simd_path, "neon");
    let detailed = fallback_cpu_topology("Linux sysfs topology", 2);
    assert!(cpu_capabilities(&detailed, Platform::Linux, CpuFeatures::Other).topology_detail);
    let advised = fallback_cpu_topology("macOS sysctl", 2);
    assert!(cpu_capabilities(&advised, Platform::Macos, CpuFeatures::Other).topology_detail);
}

#[test]
fn workers_are_placed_by_platform() {
    let efficiency = Some("efficiency".to_string());
    let performance = Some("performance".to_string());
    assert_eq!(
        worker_placement(Platform::Linux, 3, &efficiency, "pinned"),
        PlacementAction::Pin(3)
    );
    assert_eq!(
        worker_placement(Platform::Linux, 3, &None, "scheduler"),
        PlacementAction::Nothing
    );
    assert_eq!(
        worker_placement(Platform::Macos, 3, &efficiency, "qos-advisory"),
        PlacementAction::Background
    );
    assert_eq!(
        worker_placement(Platform::Macos, 3, &performance, "qos-advisory"),
        PlacementAction::UserInitiated
    );
    assert_eq!(
        worker_placement(Platform::Macos, 3, &None, "qos-advisory"),
        PlacementAction::UserInitiated
    );
    assert_eq!(
        worker_placement(Platform::Other, 3, &efficiency, "scheduler"),
        PlacementAction::Nothing
    );
}
