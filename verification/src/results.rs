//! What the benchmarks measured, over numbers of any type, and the stages that the CPU score is
//! taken from.

use vstd::prelude::*;
use crate::kernels::CpuWorkload;
use crate::network::NetworkTally;
use crate::platform::CpuCapabilities;
use crate::text::{chars_of, text_is};
use crate::topology::{copy_cpus, CpuStage, CpuTopology};
#[allow(unused_imports)]
use crate::info::optional_text;
#[allow(unused_imports)]
use crate::kernels::workload_name;
#[allow(unused_imports)]
use crate::topology::{
    class_stages_are_named_after_the_class, last_stage_loads_all, only_the_first_stage_is_single,
    physical_stage_takes_one_cpu_per_core, stage_plan, stage_view,
};

verus! {

/// The samples of one workload.
#[derive(Debug)]
pub struct CpuWorkloadResult<V> {
    pub name: String,
    pub operations_per_sec: V,
    pub min_operations_per_sec: V,
    pub max_operations_per_sec: V,
    pub coefficient_of_variation_percent: V,
}

/// What a stage measured.
#[derive(Debug)]
pub struct CpuStageResult<V> {
    pub id: String,
    pub threads: usize,
    pub cpu_class: Option<String>,
    pub placement: String,
    pub logical_cpus: Vec<usize>,
    pub workloads: Vec<CpuWorkloadResult<V>>,
    pub primes_per_sec: V,
    pub composite_gops: V,
    pub score: V,
    pub scaling_factor: V,
    pub parallel_efficiency_percent: V,
    pub stability_warning: Option<String>,
}

/// The numbers of a stage, before they are compared with those of other stages.
#[derive(Debug)]
pub struct StageMeasures<V> {
    pub workloads: Vec<CpuWorkloadResult<V>>,
    pub primes_per_sec: V,
    pub composite_gops: V,
    pub score: V,
    pub scaling_factor: V,
    pub parallel_efficiency_percent: V,
    pub stability_warning: Option<String>,
}

/// What the CPU benchmark measured.
#[derive(Debug)]
pub struct CpuResult<V> {
    pub score_version: u8,
    pub requested_threads: usize,
    pub topology: CpuTopology,
    pub capabilities: CpuCapabilities,
    pub stages: Vec<CpuStageResult<V>>,
    pub single_thread_score: V,
    pub multi_thread_score: V,
    pub smt_gain_percent: Option<V>,
    pub performance_efficiency_ratio: Option<V>,
    pub score: V,
}

/// What the CPU benchmark measured with one thread, with two, and so on.
#[derive(Debug)]
pub struct CpuSequenceResult<V> {
    pub score_version: u8,
    pub duration_secs_per_stage: u64,
    pub topology: CpuTopology,
    pub capabilities: CpuCapabilities,
    pub results: Vec<CpuStageResult<V>>,
}

/// What the memory benchmark measured.
#[derive(Debug)]
pub struct MemoryResult<V> {
    pub size_mb: usize,
    pub seq_write_mb_s: V,
    pub seq_read_mb_s: V,
    pub rand_write_mb_s: V,
    pub rand_read_mb_s: V,
    pub score: V,
}

/// What the storage benchmark measured.
#[derive(Debug)]
pub struct IoResult<V> {
    pub path: String,
    pub block_kb: usize,
    pub file_size_mb: usize,
    pub seq_write_mb_s: V,
    pub seq_write_iops: V,
    pub seq_read_mb_s: V,
    pub seq_read_iops: V,
    pub rand_write_mb_s: V,
    pub rand_write_iops: V,
    pub rand_read_mb_s: V,
    pub rand_read_iops: V,
    pub score: V,
}

/// What the network benchmark measured.
#[derive(Debug)]
pub struct NetworkResult<V> {
    pub target: String,
    pub duration_secs: V,
    pub requests: u64,
    pub bytes: u64,
    pub throughput_mb_s: V,
    pub requests_per_sec: V,
    pub avg_latency_ms: V,
    pub score: V,
}

/// What the benchmarks of a suite measured.
#[derive(Debug)]
pub struct SuiteResult<V> {
    pub cpu: Option<CpuResult<V>>,
    pub memory: Option<MemoryResult<V>>,
    pub io: Option<IoResult<V>>,
    pub network: Option<NetworkResult<V>>,
    pub total_score: V,
}

/// The name, the class and the CPUs of the stage of a result, as `stage_view` gives them of a
/// stage. Nothing of what was measured is in it.
pub open spec fn measured_stage<V>(result: CpuStageResult<V>) -> (
    Seq<char>,
    Option<Seq<char>>,
    Seq<usize>,
) {
    (result.id@, optional_text(result.cpu_class), result.logical_cpus@)
}

/// The result of a stage: its name, class and CPUs, as many threads as it has CPUs, the placement
/// of the workers, and the numbers measured.
pub fn stage_result<V>(
    stage: &CpuStage,
    capabilities: &CpuCapabilities,
    measures: StageMeasures<V>,
) -> (r: CpuStageResult<V>)
    ensures
        measured_stage(r) == stage_view(*stage),
        r.threads == stage.cpus@.len(),
        r.placement@ == capabilities.placement@,
        r.workloads == measures.workloads,
        r.primes_per_sec == measures.primes_per_sec,
        r.composite_gops == measures.composite_gops,
        r.score == measures.score,
        r.scaling_factor == measures.scaling_factor,
        r.parallel_efficiency_percent == measures.parallel_efficiency_percent,
        r.stability_warning == measures.stability_warning,
{
    CpuStageResult {
        id: stage.id.clone(),
        threads: stage.cpus.len(),
        cpu_class: match &stage.cpu_class {
            Some(class) => Some(class.clone()),
            None => None,
        },
        placement: capabilities.placement.clone(),
        logical_cpus: copy_cpus(&stage.cpus),
        workloads: measures.workloads,
        primes_per_sec: measures.primes_per_sec,
        composite_gops: measures.composite_gops,
        score: measures.score,
        scaling_factor: measures.scaling_factor,
        parallel_efficiency_percent: measures.parallel_efficiency_percent,
        stability_warning: measures.stability_warning,
    }
}

/// The version of the CPU score.
pub const SCORE_VERSION: u8 = 2;

/// The scores and the comparisons of the CPU benchmark.
#[derive(Debug)]
pub struct CpuScores<V> {
    pub single_thread_score: V,
    pub multi_thread_score: V,
    pub smt_gain_percent: Option<V>,
    pub performance_efficiency_ratio: Option<V>,
    pub score: V,
}

/// The result of the CPU benchmark.
pub fn cpu_result<V>(
    requested_threads: usize,
    topology: CpuTopology,
    capabilities: CpuCapabilities,
    stages: Vec<CpuStageResult<V>>,
    scores: CpuScores<V>,
) -> (r: CpuResult<V>)
    ensures
        r == (CpuResult {
            score_version: SCORE_VERSION,
            requested_threads,
            topology,
            capabilities,
            stages,
            single_thread_score: scores.single_thread_score,
            multi_thread_score: scores.multi_thread_score,
            smt_gain_percent: scores.smt_gain_percent,
            performance_efficiency_ratio: scores.performance_efficiency_ratio,
            score: scores.score,
        }),
        r.score_version == 2,
{
    CpuResult {
        score_version: SCORE_VERSION,
        requested_threads,
        topology,
        capabilities,
        stages,
        single_thread_score: scores.single_thread_score,
        multi_thread_score: scores.multi_thread_score,
        smt_gain_percent: scores.smt_gain_percent,
        performance_efficiency_ratio: scores.performance_efficiency_ratio,
        score: scores.score,
    }
}

/// The result of the memory benchmark, from the throughput of its phases in their order.
pub fn memory_result<V: Copy>(size_mb: usize, mb_s: [V; 4], score: V) -> (r: MemoryResult<V>)
    ensures
        r == (MemoryResult {
            size_mb,
            seq_write_mb_s: mb_s@[0],
            seq_read_mb_s: mb_s@[1],
            rand_write_mb_s: mb_s@[2],
            rand_read_mb_s: mb_s@[3],
            score,
        }),
{
    MemoryResult {
        size_mb,
        seq_write_mb_s: mb_s[0],
        seq_read_mb_s: mb_s[1],
        rand_write_mb_s: mb_s[2],
        rand_read_mb_s: mb_s[3],
        score,
    }
}

/// The result of the storage benchmark, from the throughput and the requests per second of its
/// phases in their order.
pub fn io_result<V: Copy>(
    path: String,
    block_kb: usize,
    file_size_mb: usize,
    mb_s: [V; 4],
    iops: [V; 4],
    score: V,
) -> (r: IoResult<V>)
    ensures
        r == (IoResult {
            path,
            block_kb,
            file_size_mb,
            seq_write_mb_s: mb_s@[0],
            seq_write_iops: iops@[0],
            seq_read_mb_s: mb_s@[1],
            seq_read_iops: iops@[1],
            rand_write_mb_s: mb_s@[2],
            rand_write_iops: iops@[2],
            rand_read_mb_s: mb_s@[3],
            rand_read_iops: iops@[3],
            score,
        }),
{
    IoResult {
        path,
        block_kb,
        file_size_mb,
        seq_write_mb_s: mb_s[0],
        seq_write_iops: iops[0],
        seq_read_mb_s: mb_s[1],
        seq_read_iops: iops[1],
        rand_write_mb_s: mb_s[2],
        rand_write_iops: iops[2],
        rand_read_mb_s: mb_s[3],
        rand_read_iops: iops[3],
        score,
    }
}

/// The result of a scaling sequence.
pub fn cpu_sequence_result<V>(
    duration_secs_per_stage: u64,
    topology: CpuTopology,
    capabilities: CpuCapabilities,
    results: Vec<CpuStageResult<V>>,
) -> (r: CpuSequenceResult<V>)
    ensures
        r == (CpuSequenceResult {
            score_version: SCORE_VERSION,
            duration_secs_per_stage,
            topology,
            capabilities,
            results,
        }),
        r.score_version == 2,
{
    CpuSequenceResult {
        score_version: SCORE_VERSION,
        duration_secs_per_stage,
        topology,
        capabilities,
        results,
    }
}

/// The result of a workload, from the order statistics of its samples: the median is reported.
pub fn workload_result<V>(
    workload: CpuWorkload,
    median: V,
    least: V,
    greatest: V,
    coefficient_of_variation_percent: V,
) -> (r: CpuWorkloadResult<V>)
    ensures
        r.name@ == workload_name(workload),
        r.operations_per_sec == median,
        r.min_operations_per_sec == least,
        r.max_operations_per_sec == greatest,
        r.coefficient_of_variation_percent == coefficient_of_variation_percent,
{
    CpuWorkloadResult {
        name: workload.name().to_string(),
        operations_per_sec: median,
        min_operations_per_sec: least,
        max_operations_per_sec: greatest,
        coefficient_of_variation_percent,
    }
}

/// The rates of the network benchmark.
#[derive(Debug)]
pub struct NetworkRates<V> {
    pub duration_secs: V,
    pub throughput_mb_s: V,
    pub requests_per_sec: V,
    pub avg_latency_ms: V,
    pub score: V,
}

/// The result of the network benchmark.
pub fn network_result<V>(target: String, tally: NetworkTally, rates: NetworkRates<V>) -> (r:
    NetworkResult<V>)
    ensures
        r == (NetworkResult {
            target,
            duration_secs: rates.duration_secs,
            requests: tally.requests,
            bytes: tally.bytes,
            throughput_mb_s: rates.throughput_mb_s,
            requests_per_sec: rates.requests_per_sec,
            avg_latency_ms: rates.avg_latency_ms,
            score: rates.score,
        }),
{
    NetworkResult {
        target,
        duration_secs: rates.duration_secs,
        requests: tally.requests,
        bytes: tally.bytes,
        throughput_mb_s: rates.throughput_mb_s,
        requests_per_sec: rates.requests_per_sec,
        avg_latency_ms: rates.avg_latency_ms,
        score: rates.score,
    }
}

/// The result of a suite, in which only the network may have been left out.
pub fn suite_result<V>(
    cpu: CpuResult<V>,
    memory: MemoryResult<V>,
    io: IoResult<V>,
    network: Option<NetworkResult<V>>,
    total_score: V,
) -> (r: SuiteResult<V>)
    ensures
        r == (SuiteResult {
            cpu: Some(cpu),
            memory: Some(memory),
            io: Some(io),
            network,
            total_score,
        }),
{
    SuiteResult { cpu: Some(cpu), memory: Some(memory), io: Some(io), network, total_score }
}

/// Is `r` the place of the first `wanted` in `s`, and none where there is no such place?
pub open spec fn is_first<T>(s: Seq<T>, wanted: T, r: Option<usize>) -> bool {
    match r {
        Some(i) => {
            &&& i < s.len()
            &&& s[i as int] == wanted
            &&& forall|k: int| 0 <= k < i ==> #[trigger] s[k] != wanted
        },
        None => forall|k: int| 0 <= k < s.len() ==> #[trigger] s[k] != wanted,
    }
}

/// The names of the stages.
pub open spec fn stage_ids<V>(stages: Seq<CpuStageResult<V>>) -> Seq<Seq<char>> {
    stages.map_values(|s: CpuStageResult<V>| s.id@)
}

/// The thread counts of the stages.
pub open spec fn stage_threads<V>(stages: Seq<CpuStageResult<V>>) -> Seq<usize> {
    stages.map_values(|s: CpuStageResult<V>| s.threads)
}

/// The classes of the stages.
pub open spec fn stage_classes<V>(stages: Seq<CpuStageResult<V>>) -> Seq<Option<Seq<char>>> {
    stages.map_values(|s: CpuStageResult<V>| optional_text(s.cpu_class))
}

/// The stage that the single-thread score is taken from: the first of one thread.
pub fn single_stage<V>(stages: &Vec<CpuStageResult<V>>) -> (r: Option<usize>)
    ensures
        is_first(stage_threads(stages@), 1usize, r),
{
    let ghost threads = stage_threads(stages@);
    for i in 0..stages.len()
        invariant
            threads == stage_threads(stages@),
            forall|k: int| 0 <= k < i ==> #[trigger] threads[k] != 1,
    {
        assert(threads[i as int] == stages@[i as int].threads);
        if stages[i].threads == 1 {
            return Some(i);
        }
    }
    None
}

/// The first stage called `id`.
pub fn stage_named<V>(stages: &Vec<CpuStageResult<V>>, id: &str) -> (r: Option<usize>)
    ensures
        is_first(stage_ids(stages@), id@, r),
{
    let ghost ids = stage_ids(stages@);
    for i in 0..stages.len()
        invariant
            ids == stage_ids(stages@),
            forall|k: int| 0 <= k < i ==> #[trigger] ids[k] != id@,
    {
        assert(ids[i as int] == stages@[i as int].id@);
        if text_is(chars_of(stages[i].id.as_str()).as_slice(), id) {
            return Some(i);
        }
    }
    None
}

/// The first stage of the class `class`.
pub fn stage_of_class<V>(stages: &Vec<CpuStageResult<V>>, class: &str) -> (r: Option<usize>)
    ensures
        is_first(stage_classes(stages@), Some(class@), r),
{
    let ghost classes = stage_classes(stages@);
    for i in 0..stages.len()
        invariant
            classes == stage_classes(stages@),
            forall|k: int| 0 <= k < i ==> #[trigger] classes[k] != Some(class@),
    {
        assert(classes[i as int] == optional_text(stages@[i as int].cpu_class));
        if let Some(name) = &stages[i].cpu_class {
            if text_is(chars_of(name.as_str()).as_slice(), class) {
                return Some(i);
            }
        }
    }
    None
}

/// Is `r` the first stage called `all-logical`, or the last stage where there is none?
pub open spec fn is_multi_stage<V>(stages: Seq<CpuStageResult<V>>, r: Option<usize>) -> bool {
    let ids = stage_ids(stages);
    if is_first(ids, "all-logical"@, None) {
        match r {
            Some(i) => i == stages.len() - 1,
            None => stages.len() == 0,
        }
    } else {
        is_first(ids, "all-logical"@, r)
    }
}

/// The stage that the multi-thread score is taken from.
pub fn multi_stage<V>(stages: &Vec<CpuStageResult<V>>) -> (r: Option<usize>)
    ensures
        is_multi_stage(stages@, r),
{
    let found = stage_named(stages, "all-logical");
    proof {
        if let Some(i) = found {
            assert(stage_ids(stages@)[i as int] == "all-logical"@);
        }
    }
    match found {
        Some(i) => Some(i),
        None => if stages.len() == 0 {
            None
        } else {
            Some(stages.len() - 1)
        },
    }
}

/// The stages that SMT gain compares: that of one thread per core, if it ran, and the one that the
/// multi-thread score is taken from.
pub fn smt_stages<V>(stages: &Vec<CpuStageResult<V>>) -> (r: Option<(usize, usize)>)
    ensures
        match r {
            Some((physical, multi)) => {
                &&& is_first(stage_ids(stages@), "physical-cores"@, Some(physical))
                &&& is_multi_stage(stages@, Some(multi))
            },
            None => is_first(stage_ids(stages@), "physical-cores"@, None),
        },
{
    match (stage_named(stages, "physical-cores"), multi_stage(stages)) {
        (Some(physical), Some(multi)) => Some((physical, multi)),
        _ => None,
    }
}

/// The stages that the performance/efficiency ratio compares, if both classes have one.
pub fn class_stages_to_compare<V>(stages: &Vec<CpuStageResult<V>>) -> (r: Option<(usize, usize)>)
    ensures
        match r {
            Some((performance, efficiency)) => {
                &&& is_first(stage_classes(stages@), Some("performance"@), Some(performance))
                &&& is_first(stage_classes(stages@), Some("efficiency"@), Some(efficiency))
            },
            None => is_first(stage_classes(stages@), Some("performance"@), None) || is_first(
                stage_classes(stages@),
                Some("efficiency"@),
                None,
            ),
        },
{
    match (stage_of_class(stages, "performance"), stage_of_class(stages, "efficiency")) {
        (Some(performance), Some(efficiency)) => Some((performance, efficiency)),
        _ => None,
    }
}

/// Are these the results of the planned stages, in their order?
pub open spec fn are_results_of<V>(
    stages: Seq<CpuStageResult<V>>,
    plan: Seq<(Seq<char>, Option<Seq<char>>, Seq<usize>)>,
) -> bool {
    &&& stages.len() == plan.len()
    &&& forall|i: int|
        0 <= i < stages.len() ==> {
            &&& measured_stage(#[trigger] stages[i]) == plan[i]
            &&& stages[i].threads == plan[i].2.len()
        }
}

/// The single-thread score is taken from the stage `single-thread`, the first.
pub proof fn single_score_is_of_the_first_stage<V>(
    topology: CpuTopology,
    selected: Seq<usize>,
    stages: Seq<CpuStageResult<V>>,
)
    requires
        selected.len() > 0,
        are_results_of(stages, stage_plan(topology, selected)),
    ensures
        is_first(stage_threads(stages), 1usize, Some(0usize)),
        stage_ids(stages)[0] == "single-thread"@,
        stages[0].logical_cpus@ == selected.take(1),
{
    only_the_first_stage_is_single(topology, selected);
    let plan = stage_plan(topology, selected);
    assert(measured_stage(stages[0]) == plan[0]);
    assert(stage_threads(stages)[0] == plan[0].2.len());
}

/// The multi-thread score is taken from the last stage, the one that loads every selected CPU.
pub proof fn multi_score_is_of_the_last_stage<V>(
    topology: CpuTopology,
    selected: Seq<usize>,
    stages: Seq<CpuStageResult<V>>,
    r: Option<usize>,
)
    requires
        selected.len() > 0,
        are_results_of(stages, stage_plan(topology, selected)),
        is_multi_stage(stages, r),
    ensures
        r is Some,
        r->0 == stages.len() - 1,
        stages[r->0 as int].logical_cpus@ == selected,
{
    only_the_first_stage_is_single(topology, selected);
    last_stage_loads_all(topology, selected);
    let plan = stage_plan(topology, selected);
    let ids = stage_ids(stages);
    let last = stages.len() - 1;
    assert(measured_stage(stages[last]) == plan[last]);
    reveal_strlit("single-thread");
    reveal_strlit("physical-cores");
    reveal_strlit("all-logical");
    reveal_strlit("-cores");
    if selected.len() > 1 {
        assert(ids[last] == "all-logical"@);
        assert forall|k: int| 0 <= k < last implies #[trigger] ids[k] != "all-logical"@ by {
            class_stages_are_named_after_the_class(topology, selected, k);
            assert(measured_stage(stages[k]) == plan[k]);
            match plan[k].1 {
                Some(class) => {
                    assert((class + "-cores"@).last() == 's');
                    assert("all-logical"@.last() == 'l');
                },
                None => {
                    assert("single-thread"@.len() != "all-logical"@.len());
                    assert("physical-cores"@.len() != "all-logical"@.len());
                },
            }
        }
    } else {
        assert(measured_stage(stages[0]) == plan[0]);
        assert("single-thread"@.len() != "all-logical"@.len());
        assert(ids[0] != "all-logical"@);
    }
}

/// SMT gain compares two different stages: one with a thread for each core, and `all-logical`,
/// which follows it. (No core class may be called `physical`, or its stage would bear the name of
/// the first.)
pub proof fn smt_gain_compares_cores_with_all<V>(
    topology: CpuTopology,
    selected: Seq<usize>,
    stages: Seq<CpuStageResult<V>>,
    physical: usize,
    multi: usize,
)
    requires
        selected.len() > 0,
        are_results_of(stages, stage_plan(topology, selected)),
        !stage_classes(stages).contains(Some("physical"@)),
        is_first(stage_ids(stages), "physical-cores"@, Some(physical)),
        is_multi_stage(stages, Some(multi)),
    ensures
        multi == physical + 1,
        stage_ids(stages)[multi as int] == "all-logical"@,
        stages[physical as int].threads < stages[multi as int].threads,
{
    let plan = stage_plan(topology, selected);
    multi_score_is_of_the_last_stage(topology, selected, stages, Some(multi));
    last_stage_loads_all(topology, selected);
    let p = physical as int;
    assert(measured_stage(stages[p]) == plan[p]);
    assert(measured_stage(stages[multi as int]) == plan[multi as int]);
    class_stages_are_named_after_the_class(topology, selected, p);
    reveal_strlit("physical-cores");
    reveal_strlit("physical");
    reveal_strlit("-cores");
    reveal_strlit("single-thread");
    assert(stage_ids(stages)[p] == plan[p].0);
    if let Some(class) = plan[p].1 {
        assert(class =~= (class + "-cores"@).take(class.len() as int));
        assert("physical"@ =~= "physical-cores"@.take(8));
        assert(class.len() == 8);
        assert(stage_classes(stages)[p] == Some("physical"@));
        assert(false);
    }
    physical_stage_takes_one_cpu_per_core(topology, selected, p);
}

/// The first place of a value holds it, no earlier one does, and there is none exactly where the
/// value does not occur.
pub proof fn first_place_is_the_first<T>(s: Seq<T>, wanted: T, i: usize)
    ensures
        is_first(s, wanted, Some(i)) <==> i < s.len() && s[i as int] == wanted && !s.take(
            i as int,
        ).contains(wanted),
        is_first(s, wanted, None) <==> !s.contains(wanted),
{
    if i < s.len() && s[i as int] == wanted && !s.take(i as int).contains(wanted) {
        assert forall|k: int| 0 <= k < i implies #[trigger] s[k] != wanted by {
            assert(s.take(i as int)[k] == s[k]);
        }
    }
}

/// Of the results of stages, what is looked for is looked for among their names, their thread counts
/// and their classes, in order.
pub proof fn stages_are_known_by_their_results<V>(stages: Seq<CpuStageResult<V>>, i: int)
    requires
        0 <= i < stages.len(),
    ensures
        stage_ids(stages).len() == stages.len(),
        stage_ids(stages)[i] == stages[i].id@,
        stage_threads(stages).len() == stages.len(),
        stage_threads(stages)[i] == stages[i].threads,
        stage_classes(stages).len() == stages.len(),
        match stages[i].cpu_class {
            Some(class) => stage_classes(stages)[i] == Some(class@),
            None => stage_classes(stages)[i] is None,
        },
        measured_stage(stages[i]).0 == stages[i].id@,
        measured_stage(stages[i]).1 == stage_classes(stages)[i],
        measured_stage(stages[i]).2 == stages[i].logical_cpus@,
{
}

/// The multi-thread score is taken from the first stage called `all-logical`, from the last stage
/// where none is called so, and from none where there is no stage.
pub proof fn all_logical_stage_is_taken<V>(stages: Seq<CpuStageResult<V>>, r: Option<usize>)
    requires
        is_multi_stage(stages, r),
    ensures
        r is None <==> stages.len() == 0,
        r matches Some(i) ==> i < stages.len(),
        (exists|k: int| 0 <= k < stages.len() && (#[trigger] stages[k]).id@ == "all-logical"@)
            ==> stages[r->0 as int].id@ == "all-logical"@ && forall|k: int|
            0 <= k < r->0 ==> (#[trigger] stages[k]).id@ != "all-logical"@,
        (forall|k: int| 0 <= k < stages.len() ==> (#[trigger] stages[k]).id@ != "all-logical"@)
            && stages.len() > 0 ==> r->0 == stages.len() - 1,
{
    let ids = stage_ids(stages);
    assert forall|k: int| 0 <= k < stages.len() implies ids[k] == (#[trigger] stages[k]).id@ by {
    }
    if forall|k: int| 0 <= k < stages.len() ==> (#[trigger] stages[k]).id@ != "all-logical"@ {
        assert(is_first(ids, "all-logical"@, None)) by {
            assert forall|k: int| 0 <= k < ids.len() implies #[trigger] ids[k]
                != "all-logical"@ by {
                assert(stages[k].id@ != "all-logical"@);
            }
        }
    } else {
        let k = choose|k: int| 0 <= k < stages.len() && (#[trigger] stages[k]).id@
            == "all-logical"@;
        assert(ids[k] == "all-logical"@);
    }
}

/// The results of planned stages are as many as the stages, and each has the name, the class, the
/// CPUs and the threads of its own.
pub proof fn results_follow_the_plan<V>(
    stages: Seq<CpuStageResult<V>>,
    plan: Seq<(Seq<char>, Option<Seq<char>>, Seq<usize>)>,
)
    ensures
        are_results_of(stages, plan) <==> stages.len() == plan.len() && forall|i: int|
            0 <= i < plan.len() ==> {
                &&& (#[trigger] stages[i]).id@ == plan[i].0
                &&& optional_text(stages[i].cpu_class) == plan[i].1
                &&& stages[i].logical_cpus@ == plan[i].2
                &&& stages[i].threads == plan[i].2.len()
            },
{
    if are_results_of(stages, plan) {
        assert forall|i: int| 0 <= i < plan.len() implies {
            &&& (#[trigger] stages[i]).id@ == plan[i].0
            &&& optional_text(stages[i].cpu_class) == plan[i].1
            &&& stages[i].logical_cpus@ == plan[i].2
            &&& stages[i].threads == plan[i].2.len()
        } by {
            assert(measured_stage(stages[i]) == plan[i]);
        }
    }
}

} // verus!
