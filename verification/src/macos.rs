//! What macOS tells of the machine through `sysctl`.

use vstd::prelude::*;
use crate::info::MemoryInfo;
use crate::sorted::TextMap;
use crate::text::{
    begins_with, chars_of, lines_of, parse_u64, parse_usize, split_at_first, string_of, text_is,
    trimmed,
};
use crate::topology::{cpus_below, div_rounded_up, groups_of_one, CpuCoreClass, CpuTopology};
#[allow(unused_imports)]
use crate::text::{
    last_field, last_line_gives_the_field, lines, parse_up_to, prefix_and_rest_are_the_text,
    slice_views, split_once, starts_with, trim,
};
#[allow(unused_imports)]
use crate::topology::{
    ceil_div, classes_cpus, first_cpus, group_views, lemma_nothing_to_drop, selected_cpus,
    single_groups, threads_per_core_suffice,
};

verus! {

/// The numbers that `sysctl` gives, where it gives them.
pub struct MacosReadings {
    /// `hw.logicalcpu`
    pub logical: Option<usize>,
    /// `hw.physicalcpu`
    pub physical: Option<usize>,
    /// `hw.perflevel0.logicalcpu`
    pub performance: Option<usize>,
    /// `hw.perflevel1.logicalcpu`
    pub efficiency: Option<usize>,
}

/// The number that `sysctl -n` printed, where it printed one.
pub fn sysctl_usize(output: &Option<String>) -> (r: Option<usize>)
    ensures
        match r {
            Some(n) => *output is Some && parse_up_to(trim((*output)->0@), usize::MAX as nat) == Some(
                n as nat,
            ),
            None => *output is Some ==> parse_up_to(trim((*output)->0@), usize::MAX as nat) is None,
        },
{
    match output {
        Some(text) => {
            let chars = chars_of(text.as_str());
            parse_usize(trimmed(chars.as_slice()))
        },
        None => None,
    }
}

/// The total memory that `sysctl -n hw.memsize` printed, where it printed a number.
pub fn memory_info(output: &Option<String>) -> (r: MemoryInfo)
    ensures
        match r.total_bytes {
            Some(n) => *output is Some && parse_up_to(trim((*output)->0@), u64::MAX as nat) == Some(
                n as nat,
            ),
            None => *output is Some ==> parse_up_to(trim((*output)->0@), u64::MAX as nat) is None,
        },
{
    let total_bytes = match output {
        Some(text) => {
            let chars = chars_of(text.as_str());
            parse_u64(trimmed(chars.as_slice()))
        },
        None => None,
    };
    MemoryInfo { total_bytes }
}

/// The settings that are reported.
pub open spec fn is_reported(key: Seq<char>) -> bool {
    ||| key == "machdep.cpu.brand_string"@
    ||| key == "machdep.cpu.vendor"@
    ||| key == "machdep.cpu.family"@
    ||| key == "machdep.cpu.model"@
    ||| key == "machdep.cpu.stepping"@
    ||| key == "hw.cpufrequency"@
    ||| key == "hw.tbfrequency"@
    ||| key == "hw.cachelinesize"@
    ||| key == "hw.l1dcachesize"@
    ||| key == "hw.l1icachesize"@
    ||| key == "hw.l2cachesize"@
    ||| key == "hw.l3cachesize"@
    ||| key == "hw.model"@
    ||| key == "hw.machine"@
    ||| key == "hw.machine_arch"@
    ||| key == "hw.physicalcpu"@
    ||| key == "hw.logicalcpu"@
    ||| starts_with(key, "hw.perflevel"@)
}

/// Is the setting reported?
fn reported(key: &[char]) -> (r: bool)
    ensures
        r == is_reported(key@),
{
    let perflevel = chars_of("hw.perflevel");
    text_is(key, "machdep.cpu.brand_string") || text_is(key, "machdep.cpu.vendor") || text_is(
        key,
        "machdep.cpu.family",
    ) || text_is(key, "machdep.cpu.model") || text_is(key, "machdep.cpu.stepping") || text_is(
        key,
        "hw.cpufrequency",
    ) || text_is(key, "hw.tbfrequency") || text_is(key, "hw.cachelinesize") || text_is(
        key,
        "hw.l1dcachesize",
    ) || text_is(key, "hw.l1icachesize") || text_is(key, "hw.l2cachesize") || text_is(
        key,
        "hw.l3cachesize",
    ) || text_is(key, "hw.model") || text_is(key, "hw.machine") || text_is(key, "hw.machine_arch")
        || text_is(key, "hw.physicalcpu") || text_is(key, "hw.logicalcpu") || begins_with(
        key,
        perflevel.as_slice(),
    )
}

/// The number of cores that the settings give.
pub open spec fn physical_cpus(lines: Seq<Seq<char>>) -> Option<nat> {
    match last_field(lines, "hw.physicalcpu"@) {
        Some(value) => parse_up_to(value, usize::MAX as nat),
        None => None,
    }
}

/// What `sysctl -a` printed: the number of cores, and the reported settings.
pub fn cpu_details(output: &str) -> (r: (Option<usize>, TextMap))
    ensures
        match r.0 {
            Some(n) => physical_cpus(lines(output@)) == Some(n as nat),
            None => physical_cpus(lines(output@)) is None,
        },
        r.1.wf(),
        forall|k: Seq<char>, v: Seq<char>| #[trigger]
            r.1.maps(k, v) <==> is_reported(k) && last_field(lines(output@), k) == Some(v),
{
    let chars = chars_of(output);
    let all = lines_of(chars.as_slice());
    let ghost views = slice_views(all@);
    let mut details = TextMap::new();
    let mut physical: Option<usize> = None;
    for i in 0..all.len()
        invariant
            views == slice_views(all@),
            details.wf(),
            match physical {
                Some(n) => physical_cpus(views.take(i as int)) == Some(n as nat),
                None => physical_cpus(views.take(i as int)) is None,
            },
            forall|k: Seq<char>, v: Seq<char>| #[trigger]
                details.maps(k, v) <==> is_reported(k) && last_field(views.take(i as int), k)
                    == Some(v),
    {
        assert(views.take(i + 1).drop_last() == views.take(i as int));
        assert(views.take(i + 1).last() == all@[i as int]@);
        if let Some((name, value)) = split_at_first(all[i], ':') {
            let key = trimmed(name);
            let value = trimmed(value);
            if reported(key) {
                if text_is(key, "hw.physicalcpu") {
                    physical = parse_usize(value);
                }
                details.insert(string_of(key), string_of(value));
            }
        }
    }
    assert(views.take(views.len() as int) == views);
    (physical, details)
}

/// The CPU numbers from `first` up to, and not including, `end`.
pub open spec fn cpus_between(first: nat, end: nat) -> Seq<usize> {
    Seq::new((end - first) as nat, |i: int| (first + i) as usize)
}

fn cpus_from(first: usize, end: usize) -> (r: Vec<usize>)
    requires
        first <= end,
    ensures
        r@ == cpus_between(first as nat, end as nat),
{
    let mut out: Vec<usize> = Vec::new();
    let mut cpu: usize = first;
    while cpu < end
        invariant
            first <= cpu <= end,
            out@ == cpus_between(first as nat, cpu as nat),
        decreases end - cpu,
    {
        out.push(cpu);
        assert(cpus_between(first as nat, cpu as nat).push(cpu) =~= cpus_between(
            first as nat,
            (cpu + 1) as nat,
        ));
        cpu = cpu + 1;
    }
    out
}

pub open spec fn or_else(reading: Option<usize>, default: usize) -> usize {
    match reading {
        Some(n) => n,
        None => default,
    }
}

pub open spec fn lesser(a: int, b: int) -> int {
    if a < b {
        a
    } else {
        b
    }
}

/// Is `topology` what the readings say? The CPUs of the performance level come first.
pub open spec fn is_macos_topology(
    topology: CpuTopology,
    readings: MacosReadings,
    parallelism: usize,
) -> bool {
    let logical = or_else(readings.logical, parallelism);
    let physical = or_else(readings.physical, logical);
    let performance = or_else(readings.performance, logical);
    let efficiency = or_else(readings.efficiency, 0);
    let two = efficiency > 0 && performance < logical;
    let classes = topology.core_classes@;
    &&& topology.logical_cpus@ == first_cpus(logical as nat)
    &&& topology.physical_cores == physical
    &&& topology.smt_threads_per_core == ceil_div(
        logical as nat,
        if physical == 0 {
            1
        } else {
            physical as nat
        },
    )
    &&& classes.len() == if two {
        2int
    } else {
        1
    }
    &&& classes[0].id@ == "performance"@
    &&& classes[0].logical_cpus@ == first_cpus(lesser(performance as int, logical as int) as nat)
    &&& classes[0].physical_cores == lesser(performance as int, physical as int)
    &&& two ==> {
        &&& classes[1].id@ == "efficiency"@
        &&& classes[1].logical_cpus@ == cpus_between(performance as nat, logical as nat)
        &&& classes[1].physical_cores == lesser(
            efficiency as int,
            if physical > performance {
                physical - performance
            } else {
                0
            },
        )
    }
    &&& topology.source@ == "macOS sysctl perflevel topology; placement is QoS advisory"@
    &&& group_views(topology.core_groups@) == single_groups(logical as nat)
}

fn smaller(a: usize, b: usize) -> (r: usize)
    ensures
        r == lesser(a as int, b as int),
{
    if a < b {
        a
    } else {
        b
    }
}

/// The topology that the readings describe. `sysctl` does not name the CPUs that share a core, so
/// each CPU is a core group of its own, and no stage leaves out SMT siblings.
pub fn macos_cpu_topology(readings: &MacosReadings, parallelism: usize) -> (r: CpuTopology)
    ensures
        is_macos_topology(r, *readings, parallelism),
{
    let logical: usize = readings.logical.unwrap_or(parallelism);
    let physical: usize = readings.physical.unwrap_or(logical);
    let performance: usize = readings.performance.unwrap_or(logical);
    let efficiency: usize = readings.efficiency.unwrap_or(0);
    let mut core_classes: Vec<CpuCoreClass> = Vec::new();
    core_classes.push(
        CpuCoreClass {
            id: "performance".to_string(),
            logical_cpus: cpus_below(smaller(performance, logical)),
            physical_cores: smaller(performance, physical),
        },
    );
    if efficiency > 0 && performance < logical {
        core_classes.push(
            CpuCoreClass {
                id: "efficiency".to_string(),
                logical_cpus: cpus_from(performance, logical),
                physical_cores: smaller(efficiency, physical.saturating_sub(performance)),
            },
        );
    }
    let per_core: usize = if physical == 0 {
        1
    } else {
        physical
    };
    CpuTopology {
        logical_cpus: cpus_below(logical),
        physical_cores: physical,
        smt_threads_per_core: div_rounded_up(logical, per_core),
        core_classes,
        source: "macOS sysctl perflevel topology; placement is QoS advisory".to_string(),
        core_groups: groups_of_one(logical),
    }
}

/// Every CPU is used where there is no limit, if the performance level has them all or there is
/// an efficiency level.
pub proof fn macos_uses_every_cpu(
    topology: CpuTopology,
    readings: MacosReadings,
    parallelism: usize,
)
    requires
        is_macos_topology(topology, readings, parallelism),
        ({
            let logical = or_else(readings.logical, parallelism);
            or_else(readings.performance, logical) >= logical || or_else(readings.efficiency, 0) > 0
        }),
    ensures
        selected_cpus(topology, 0) == topology.logical_cpus@,
{
    let logical = or_else(readings.logical, parallelism);
    let classes = topology.core_classes@;
    let all = first_cpus(logical as nat);
    reveal_with_fuel(classes_cpus, 3);
    if classes.len() == 1 {
        assert(classes.drop_last() == Seq::<CpuCoreClass>::empty());
    } else {
        assert(classes.drop_last().drop_last() == Seq::<CpuCoreClass>::empty());
        assert(classes.drop_last().last() == classes[0]);
    }
    assert(classes_cpus(classes) =~= all);
    lemma_nothing_to_drop(all);
}

/// What the topology says: the CPUs are numbered from 0, each is a core group of its own, as many
/// threads as are needed are on each core, and the performance class has the first CPUs. Where there
/// are efficiency cores and CPUs are left, the efficiency class has the rest.
pub proof fn macos_classes_share_out_the_cpus(
    topology: CpuTopology,
    readings: MacosReadings,
    parallelism: usize,
    i: int,
)
    requires
        is_macos_topology(topology, readings, parallelism),
    ensures
        ({
            let logical = match readings.logical {
                Some(n) => n,
                None => parallelism,
            };
            let physical = match readings.physical {
                Some(n) => n,
                None => logical,
            };
            let performance = match readings.performance {
                Some(n) => n,
                None => logical,
            };
            let efficiency = match readings.efficiency {
                Some(n) => n,
                None => 0,
            };
            let classes = topology.core_classes@;
            &&& topology.logical_cpus@.len() == logical
            &&& 0 <= i < logical ==> topology.logical_cpus@[i] == i
            &&& topology.physical_cores == physical
            &&& topology.core_groups@.len() == logical
            &&& 0 <= i < logical ==> topology.core_groups@[i]@ == seq![i as usize]
            &&& physical > 0 ==> logical <= topology.smt_threads_per_core * physical
            &&& physical > 0 && logical > 0 ==> (topology.smt_threads_per_core - 1) * physical
                < logical
            &&& physical == 0 || logical == 0 ==> topology.smt_threads_per_core == logical
            &&& classes[0].id@ == "performance"@
            &&& classes[0].logical_cpus@.len() <= performance
            &&& classes[0].logical_cpus@.len() <= logical
            &&& classes[0].logical_cpus@.len() == logical || classes[0].logical_cpus@.len()
                == performance
            &&& 0 <= i < classes[0].logical_cpus@.len() ==> classes[0].logical_cpus@[i] == i
            &&& classes[0].physical_cores <= performance && classes[0].physical_cores <= physical
            &&& classes[0].physical_cores == performance || classes[0].physical_cores == physical
            &&& classes.len() == 2 <==> efficiency > 0 && performance < logical
            &&& classes.len() == 1 || classes.len() == 2
            &&& classes.len() == 2 ==> {
                &&& classes[1].id@ == "efficiency"@
                &&& classes[0].logical_cpus@.len() + classes[1].logical_cpus@.len() == logical
                &&& performance <= i < logical ==> classes[1].logical_cpus@[i - performance] == i
                &&& classes[1].physical_cores <= efficiency
                &&& physical >= performance ==> classes[1].physical_cores <= physical - performance
                &&& physical < performance ==> classes[1].physical_cores == 0
                &&& classes[1].physical_cores == efficiency || classes[1].physical_cores
                    == physical - performance || physical < performance
            }
            &&& topology.source@
                == "macOS sysctl perflevel topology; placement is QoS advisory"@
        }),
{
    let groups = topology.core_groups@;
    assert(group_views(groups).len() == groups.len());
    if 0 <= i < groups.len() {
        assert(group_views(groups)[i] == groups[i]@);
    }
    let cores: nat = if topology.physical_cores == 0 {
        1
    } else {
        topology.physical_cores as nat
    };
    threads_per_core_suffice(topology.logical_cpus@.len(), cores);
    vstd::arithmetic::div_mod::lemma_basic_div(0, cores as int);
    vstd::arithmetic::div_mod::lemma_small_mod(0, cores);
}

/// Seventeen settings are reported, and all of the performance levels.
pub proof fn settings_are_reported(key: Seq<char>)
    ensures
        is_reported(key) <==> seq![
            "machdep.cpu.brand_string"@,
            "machdep.cpu.vendor"@,
            "machdep.cpu.family"@,
            "machdep.cpu.model"@,
            "machdep.cpu.stepping"@,
            "hw.cpufrequency"@,
            "hw.tbfrequency"@,
            "hw.cachelinesize"@,
            "hw.l1dcachesize"@,
            "hw.l1icachesize"@,
            "hw.l2cachesize"@,
            "hw.l3cachesize"@,
            "hw.model"@,
            "hw.machine"@,
            "hw.machine_arch"@,
            "hw.physicalcpu"@,
            "hw.logicalcpu"@,
        ].contains(key) || exists|rest: Seq<char>| key == #[trigger] ("hw.perflevel"@ + rest),
{
    let keys = seq![
        "machdep.cpu.brand_string"@,
        "machdep.cpu.vendor"@,
        "machdep.cpu.family"@,
        "machdep.cpu.model"@,
        "machdep.cpu.stepping"@,
        "hw.cpufrequency"@,
        "hw.tbfrequency"@,
        "hw.cachelinesize"@,
        "hw.l1dcachesize"@,
        "hw.l1icachesize"@,
        "hw.l2cachesize"@,
        "hw.l3cachesize"@,
        "hw.model"@,
        "hw.machine"@,
        "hw.machine_arch"@,
        "hw.physicalcpu"@,
        "hw.logicalcpu"@,
    ];
    assert(keys[0] == "machdep.cpu.brand_string"@ && keys[1] == "machdep.cpu.vendor"@);
    assert(keys[2] == "machdep.cpu.family"@ && keys[3] == "machdep.cpu.model"@);
    assert(keys[4] == "machdep.cpu.stepping"@ && keys[5] == "hw.cpufrequency"@);
    assert(keys[6] == "hw.tbfrequency"@ && keys[7] == "hw.cachelinesize"@);
    assert(keys[8] == "hw.l1dcachesize"@ && keys[9] == "hw.l1icachesize"@);
    assert(keys[10] == "hw.l2cachesize"@ && keys[11] == "hw.l3cachesize"@);
    assert(keys[12] == "hw.model"@ && keys[13] == "hw.machine"@);
    assert(keys[14] == "hw.machine_arch"@ && keys[15] == "hw.physicalcpu"@);
    assert(keys[16] == "hw.logicalcpu"@);
    prefix_and_rest_are_the_text(key, "hw.perflevel"@, Seq::empty());
}

/// The number of cores is the number that the last line for it gives, where that is a number.
pub proof fn last_line_gives_the_cores(earlier: Seq<Seq<char>>, line: Seq<char>)
    ensures
        match split_once(line, ':') {
            Some((name, value)) => physical_cpus(earlier.push(line)) == if trim(name)
                == "hw.physicalcpu"@ {
                parse_up_to(trim(value), usize::MAX as nat)
            } else {
                physical_cpus(earlier)
            },
            None => physical_cpus(earlier.push(line)) == physical_cpus(earlier),
        },
{
    last_line_gives_the_field(earlier, line, "hw.physicalcpu"@);
}

} // verus!
