//! The CPU topology of Linux, from sysfs and the affinity mask.

use vstd::prelude::*;
use crate::cpulist::parse_cpu_list;
use crate::order::cpus_before;
use crate::sorted::TextSet;
use crate::text::{
    after_prefix, chars_of, decimal_of, lowered, parse_u64, string_of, text_is, trimmed,
};
use crate::topology::{
    CpuCoreClass, CpuTopology, append_cpus, copy_cpus, cpus_below, div_rounded_up, keep_cpus,
};
#[allow(unused_imports)]
use crate::cpulist::cpu_list;
#[allow(unused_imports)]
use crate::order::{
    ascending_cpus, ascending_is_determined, ascending_texts, ascending_where_every_two_are,
    cpu_codes, lemma_absent, lemma_cpu_codes_injective, lemma_insert_ascending, lex_irreflexive,
    lex_less, lex_total, text_less,
};
#[allow(unused_imports)]
use crate::text::{
    decimal, decimal_reads_back, lower, parse_nat, parse_up_to, strip_prefix, trim,
};
#[allow(unused_imports)]
use crate::topology::{
    ceil_div, class_ids, classes_cpus, first_cpus, group_views, keeping_goes_cpu_by_cpu, kept_cpus,
    lemma_kept_members, selected_cpus, selection_covers_classes, threads_per_core_suffice,
    usable_cpus, without_repeats, without_repeats_keeps_members,
};
#[allow(unused_imports)]
use crate::sorted::ascending_repeats_none;

verus! {

/// What sysfs says of one CPU: the contents of the files that could be read.
pub struct CpuReading {
    /// `topology/core_cpus_list`
    pub core_cpus_list: Option<String>,
    /// `topology/core_type`
    pub core_type: Option<String>,
    /// `cpu_capacity`
    pub cpu_capacity: Option<String>,
}

/// The class that a core type stands for.
pub open spec fn core_type_class(value: Seq<char>) -> Seq<char> {
    let name = lower(trim(value));
    if name == "atom"@ || name == "32"@ || name == "0x20"@ {
        "efficiency"@
    } else if name == "core"@ || name == "64"@ || name == "0x40"@ {
        "performance"@
    } else {
        "core-type-"@ + name
    }
}

/// The class that a core type stands for.
pub fn linux_core_type_name(value: &str) -> (r: String)
    ensures
        r@ == core_type_class(value@),
{
    let chars = chars_of(value);
    let name = lowered(trimmed(chars.as_slice()));
    let cs = name.as_slice();
    if text_is(cs, "atom") || text_is(cs, "32") || text_is(cs, "0x20") {
        "efficiency".to_string()
    } else if text_is(cs, "core") || text_is(cs, "64") || text_is(cs, "0x40") {
        "performance".to_string()
    } else {
        let mut out = "core-type-".to_string();
        out.append(string_of(cs).as_str());
        out
    }
}

/// The class of a CPU before capacities are compared.
pub open spec fn reading_class(reading: CpuReading) -> Seq<char> {
    match reading.core_type {
        Some(value) => core_type_class(trim(value@)),
        None => match reading.cpu_capacity {
            Some(value) => "capacity-"@ + trim(value@),
            None => "default"@,
        },
    }
}

/// The class of a CPU before capacities are compared.
fn class_of_reading(reading: &CpuReading) -> (r: String)
    ensures
        r@ == reading_class(*reading),
{
    match &reading.core_type {
        Some(value) => {
            let chars = chars_of(value.as_str());
            let name = string_of(trimmed(chars.as_slice()));
            linux_core_type_name(name.as_str())
        },
        None => match &reading.cpu_capacity {
            Some(value) => {
                let chars = chars_of(value.as_str());
                let mut out = "capacity-".to_string();
                out.append(string_of(trimmed(chars.as_slice())).as_str());
                out
            },
            None => "default".to_string(),
        },
    }
}

/// The CPUs that sysfs names as sharing a core with `cpu`, or `cpu` alone where it names none.
pub open spec fn siblings(reading: CpuReading, cpu: usize) -> Seq<usize> {
    match reading.core_cpus_list {
        Some(value) if cpu_list(value@).len() > 0 => cpu_list(value@),
        _ => seq![cpu],
    }
}

/// The core of the `i`th allowed CPU: the allowed CPUs that share it.
pub open spec fn core_of(allowed: Seq<usize>, readings: Seq<CpuReading>, i: int) -> Seq<usize> {
    kept_cpus(siblings(readings[i], allowed[i]), allowed)
}

/// The core of one allowed CPU: the allowed CPUs that share it.
fn read_core(allowed: &Vec<usize>, reading: &CpuReading, cpu: usize) -> (r: Vec<usize>)
    ensures
        r@ == kept_cpus(siblings(*reading, cpu), allowed@),
{
    let mut named: Vec<usize> = Vec::new();
    if let Some(value) = &reading.core_cpus_list {
        named = parse_cpu_list(value.as_str());
    }
    if named.len() == 0 {
        named.push(cpu);
        assert(named@ == seq![cpu]);
    }
    assert(named@ == siblings(*reading, cpu));
    keep_cpus(&named, allowed)
}

/// A core: the CPUs that share it, and its class.
pub struct CoreEntry {
    pub cpus: Vec<usize>,
    pub class: String,
}

/// The cores of a table, each as its CPUs and its class.
pub open spec fn core_views(entries: Seq<CoreEntry>) -> Seq<(Seq<usize>, Seq<char>)> {
    entries.map_values(|e: CoreEntry| (e.cpus@, e.class@))
}

/// The CPU lists of the cores.
pub open spec fn core_keys(cores: Seq<(Seq<usize>, Seq<char>)>) -> Seq<Seq<usize>> {
    cores.map_values(|c: (Seq<usize>, Seq<char>)| c.0)
}

/// Is `i` the first allowed CPU whose core is `cpus`?
pub open spec fn first_with_core(
    allowed: Seq<usize>,
    readings: Seq<CpuReading>,
    cpus: Seq<usize>,
    i: int,
) -> bool {
    &&& core_of(allowed, readings, i) == cpus
    &&& forall|j: int| 0 <= j < i ==> #[trigger] core_of(allowed, readings, j) != cpus
}

/// Is `core` the core of one of the first `n` allowed CPUs, with the class of the first of them?
pub open spec fn is_core(
    core: (Seq<usize>, Seq<char>),
    allowed: Seq<usize>,
    readings: Seq<CpuReading>,
    n: int,
) -> bool {
    exists|i: int|
        0 <= i < n && #[trigger] first_with_core(allowed, readings, core.0, i) && core.1
            == reading_class(readings[i])
}

/// Are `cores` the cores of the first `n` allowed CPUs? Each core stands there once, the cores
/// are in ascending order, and a core has the class of the first CPU that is on it.
pub open spec fn is_core_table(
    cores: Seq<(Seq<usize>, Seq<char>)>,
    allowed: Seq<usize>,
    readings: Seq<CpuReading>,
    n: int,
) -> bool {
    &&& ascending_cpus(core_keys(cores))
    &&& forall|i: int|
        0 <= i < n ==> core_keys(cores).contains(#[trigger] core_of(allowed, readings, i))
    &&& forall|e: int|
        0 <= e < cores.len() ==> is_core(#[trigger] cores[e], allowed, readings, n)
}

/// Adds a core unless one with the same CPUs is there; says whether it was added, and where.
fn add_core(entries: &mut Vec<CoreEntry>, cpus: Vec<usize>, class: String) -> (r: Option<usize>)
    requires
        ascending_cpus(core_keys(core_views(old(entries)@))),
    ensures
        ascending_cpus(core_keys(core_views(final(entries)@))),
        match r {
            Some(p) => {
                &&& p <= old(entries)@.len()
                &&& !core_keys(core_views(old(entries)@)).contains(cpus@)
                &&& core_views(final(entries)@) == core_views(old(entries)@).insert(
                    p as int,
                    (cpus@, class@),
                )
            },
            None => {
                &&& core_keys(core_views(old(entries)@)).contains(cpus@)
                &&& core_views(final(entries)@) == core_views(old(entries)@)
            },
        },
{
    let ghost before = entries@;
    let ghost keys = core_keys(core_views(before));
    let ghost codes = keys.map_values(|k: Seq<usize>| cpu_codes(k));
    let ghost x = cpu_codes(cpus@);
    let mut p: usize = 0;
    while p < entries.len() && cpus_before(&entries[p].cpus, &cpus)
        invariant
            p <= entries.len(),
            entries@ == before,
            keys == core_keys(core_views(before)),
            codes == keys.map_values(|k: Seq<usize>| cpu_codes(k)),
            x == cpu_codes(cpus@),
            forall|i: int| 0 <= i < p ==> lex_less(#[trigger] codes[i], x),
        decreases entries.len() - p,
    {
        assert(codes[p as int] == cpu_codes(entries@[p as int].cpus@));
        p = p + 1;
    }
    if p < entries.len() && !cpus_before(&cpus, &entries[p].cpus) {
        proof {
            assert(codes[p as int] == cpu_codes(entries@[p as int].cpus@));
            lex_total(codes[p as int], x);
            lemma_cpu_codes_injective(keys[p as int], cpus@);
        }
        return None;
    }
    proof {
        if p < before.len() {
            assert(codes[p as int] == cpu_codes(entries@[p as int].cpus@));
        }
        lemma_insert_ascending(codes, x, p as int);
        lemma_absent(codes, x, p as int);
        if keys.contains(cpus@) {
            let k = choose|k: int| 0 <= k < keys.len() && keys[k] == cpus@;
            assert(codes[k] == x);
        }
    }
    let ghost added = (cpus@, class@);
    entries.insert(p, CoreEntry { cpus, class });
    proof {
        assert(core_views(entries@) =~= core_views(before).insert(p as int, added));
        assert(core_keys(core_views(entries@)) =~= keys.insert(p as int, added.0));
        assert(core_keys(core_views(entries@)).map_values(|k: Seq<usize>| cpu_codes(k))
            =~= codes.insert(p as int, x));
    }
    Some(p)
}

proof fn lemma_table_grows(
    before: Seq<(Seq<usize>, Seq<char>)>,
    after: Seq<(Seq<usize>, Seq<char>)>,
    allowed: Seq<usize>,
    readings: Seq<CpuReading>,
    n: int,
    p: int,
)
    requires
        is_core_table(before, allowed, readings, n),
        0 <= n,
        0 <= p <= before.len(),
        ascending_cpus(core_keys(after)),
        !core_keys(before).contains(core_of(allowed, readings, n)),
        after == before.insert(p, (core_of(allowed, readings, n), reading_class(readings[n]))),
    ensures
        is_core_table(after, allowed, readings, n + 1),
{
    let new = core_of(allowed, readings, n);
    assert forall|i: int| 0 <= i < n + 1 implies core_keys(after).contains(
        #[trigger] core_of(allowed, readings, i),
    ) by {
        if i < n {
            assert(core_keys(before).contains(core_of(allowed, readings, i)));
            let k = choose|k: int|
                0 <= k < before.len() && core_keys(before)[k] == core_of(allowed, readings, i);
            let m = if k < p { k } else { k + 1 };
            assert(core_keys(after)[m] == core_keys(before)[k]);
        } else {
            assert(core_keys(after)[p] == new);
        }
    }
    assert forall|e: int| 0 <= e < after.len() implies is_core(
        #[trigger] after[e],
        allowed,
        readings,
        n + 1,
    ) by {
        if e == p {
            assert forall|j: int| 0 <= j < n implies #[trigger] core_of(allowed, readings, j) != new by {
                assert(core_keys(before).contains(core_of(allowed, readings, j)));
            }
            assert(first_with_core(allowed, readings, after[e].0, n));
        } else {
            let k = if e < p { e } else { e - 1 };
            assert(after[e] == before[k]);
            assert(is_core(before[k], allowed, readings, n));
            let i = choose|i: int|
                0 <= i < n && #[trigger] first_with_core(allowed, readings, before[k].0, i)
                    && before[k].1 == reading_class(readings[i]);
            assert(first_with_core(allowed, readings, after[e].0, i));
        }
    }
}

proof fn lemma_table_stays(
    cores: Seq<(Seq<usize>, Seq<char>)>,
    allowed: Seq<usize>,
    readings: Seq<CpuReading>,
    n: int,
)
    requires
        is_core_table(cores, allowed, readings, n),
        0 <= n,
        core_keys(cores).contains(core_of(allowed, readings, n)),
    ensures
        is_core_table(cores, allowed, readings, n + 1),
{
    assert forall|e: int| 0 <= e < cores.len() implies is_core(
        #[trigger] cores[e],
        allowed,
        readings,
        n + 1,
    ) by {
        assert(is_core(cores[e], allowed, readings, n));
        let i = choose|i: int|
            0 <= i < n && #[trigger] first_with_core(allowed, readings, cores[e].0, i)
                && cores[e].1 == reading_class(readings[i]);
        assert(first_with_core(allowed, readings, cores[e].0, i));
    }
}

/// The cores of the allowed CPUs.
fn read_cores(allowed: &Vec<usize>, readings: &Vec<CpuReading>) -> (r: Vec<CoreEntry>)
    requires
        readings.len() == allowed.len(),
    ensures
        is_core_table(core_views(r@), allowed@, readings@, allowed@.len() as int),
{
    let mut entries: Vec<CoreEntry> = Vec::new();
    assert(core_views(entries@) =~= Seq::<(Seq<usize>, Seq<char>)>::empty());
    for i in 0..allowed.len()
        invariant
            readings.len() == allowed.len(),
            is_core_table(core_views(entries@), allowed@, readings@, i as int),
    {
        let cpus = read_core(allowed, &readings[i], allowed[i]);
        let class = class_of_reading(&readings[i]);
        let ghost before = core_views(entries@);
        assert(cpus@ == core_of(allowed@, readings@, i as int));
        match add_core(&mut entries, cpus, class) {
            Some(p) => {
                proof {
                    lemma_table_grows(
                        before,
                        core_views(entries@),
                        allowed@,
                        readings@,
                        i as int,
                        p as int,
                    );
                }
            },
            None => {
                proof {
                    lemma_table_stays(before, allowed@, readings@, i as int);
                }
            },
        }
    }
    entries
}

/// The classes of the cores.
pub open spec fn core_classes(cores: Seq<(Seq<usize>, Seq<char>)>) -> Seq<Seq<char>> {
    cores.map_values(|c: (Seq<usize>, Seq<char>)| c.1)
}

/// The capacity that a class names.
pub open spec fn class_capacity(class: Seq<char>) -> Option<nat> {
    match strip_prefix(class, "capacity-"@) {
        Some(value) => parse_up_to(value, u64::MAX as nat),
        None => None,
    }
}

/// The lowest capacity that one of the classes names.
pub open spec fn lowest_capacity(classes: Seq<Seq<char>>) -> Option<nat>
    decreases classes.len(),
{
    if classes.len() == 0 {
        None
    } else {
        match (lowest_capacity(classes.drop_last()), class_capacity(classes.last())) {
            (Some(a), Some(b)) => Some(
                if b < a {
                    b
                } else {
                    a
                },
            ),
            (Some(a), None) => Some(a),
            (None, c) => c,
        }
    }
}

/// The highest capacity that one of the classes names.
pub open spec fn highest_capacity(classes: Seq<Seq<char>>) -> Option<nat>
    decreases classes.len(),
{
    if classes.len() == 0 {
        None
    } else {
        match (highest_capacity(classes.drop_last()), class_capacity(classes.last())) {
            (Some(a), Some(b)) => Some(
                if b > a {
                    b
                } else {
                    a
                },
            ),
            (Some(a), None) => Some(a),
            (None, c) => c,
        }
    }
}

/// `class` as it is called among `classes`: where these name two capacities or more, the lowest
/// is `efficiency` and the highest `performance`.
pub open spec fn normal_class(classes: Seq<Seq<char>>, class: Seq<char>) -> Seq<char> {
    match (lowest_capacity(classes), highest_capacity(classes), class_capacity(class)) {
        (Some(low), Some(high), Some(c)) if low < high => if c == low {
            "efficiency"@
        } else if c == high {
            "performance"@
        } else {
            "capacity-"@ + decimal(c)
        },
        _ => class,
    }
}

/// The cores with their classes as they are called among each other.
pub open spec fn normal_cores(cores: Seq<(Seq<usize>, Seq<char>)>) -> Seq<(Seq<usize>, Seq<char>)> {
    cores.map_values(
        |c: (Seq<usize>, Seq<char>)| (c.0, normal_class(core_classes(cores), c.1)),
    )
}

/// The capacity that a class names.
fn capacity_of_class(class: &String) -> (r: Option<u64>)
    ensures
        match r {
            Some(c) => class_capacity(class@) == Some(c as nat),
            None => class_capacity(class@) is None,
        },
{
    let chars = chars_of(class.as_str());
    let prefix = chars_of("capacity-");
    match after_prefix(chars.as_slice(), prefix.as_slice()) {
        Some(value) => parse_u64(value),
        None => None,
    }
}

/// Where the cores name two capacities or more, calls the lowest `efficiency` and the highest
/// `performance`.
pub fn normalize_linux_capacity_classes(cores: &mut Vec<CoreEntry>)
    ensures
        core_views(final(cores)@) == normal_cores(core_views(old(cores)@)),
{
    let ghost before = core_views(cores@);
    let ghost classes = core_classes(before);
    let mut lowest: Option<u64> = None;
    let mut highest: Option<u64> = None;
    for i in 0..cores.len()
        invariant
            cores@ == old(cores)@,
            before == core_views(cores@),
            classes == core_classes(before),
            match lowest {
                Some(c) => lowest_capacity(classes.take(i as int)) == Some(c as nat),
                None => lowest_capacity(classes.take(i as int)) is None,
            },
            match highest {
                Some(c) => highest_capacity(classes.take(i as int)) == Some(c as nat),
                None => highest_capacity(classes.take(i as int)) is None,
            },
    {
        assert(classes.take(i + 1).drop_last() == classes.take(i as int));
        assert(classes.take(i + 1).last() == cores@[i as int].class@);
        if let Some(c) = capacity_of_class(&cores[i].class) {
            lowest = match lowest {
                Some(a) if a <= c => Some(a),
                _ => Some(c),
            };
            highest = match highest {
                Some(a) if a >= c => Some(a),
                _ => Some(c),
            };
        }
    }
    assert(classes.take(classes.len() as int) == classes);
    if let (Some(low), Some(high)) = (lowest, highest) {
        if low < high {
            let count: usize = cores.len();
            for i in 0..count
                invariant
                    low < high,
                    count == cores@.len(),
                    before == core_views(old(cores)@),
                    classes == core_classes(before),
                    lowest_capacity(classes) == Some(low as nat),
                    highest_capacity(classes) == Some(high as nat),
                    cores@.len() == old(cores)@.len(),
                    forall|k: int|
                        0 <= k < i ==> core_views(cores@)[k] == #[trigger] normal_cores(before)[k],
                    forall|k: int| i <= k < cores@.len() ==> cores@[k] == #[trigger] old(cores)@[k],
            {
                let ghost earlier = cores@;
                assert(cores@[i as int] == old(cores)@[i as int]);
                assert(before[i as int].1 == cores@[i as int].class@);
                if let Some(c) = capacity_of_class(&cores[i].class) {
                    let class = if c == low {
                        "efficiency".to_string()
                    } else if c == high {
                        "performance".to_string()
                    } else {
                        let mut name = "capacity-".to_string();
                        name.append(decimal_of(c).as_str());
                        name
                    };
                    cores[i].class = class;
                }
                assert(core_views(cores@)[i as int] == normal_cores(before)[i as int]);
                assert forall|k: int| 0 <= k < i implies core_views(cores@)[k]
                    == #[trigger] normal_cores(before)[k] by {
                    assert(cores@[k] == earlier[k]);
                    assert(core_views(earlier)[k] == normal_cores(before)[k]);
                }
            }
        } else {
            assert(normal_cores(before) =~= before);
        }
    } else {
        assert(normal_cores(before) =~= before);
    }
    assert(core_views(cores@) =~= normal_cores(before));
}

/// The CPUs of the cores of class `id`, core by core.
pub open spec fn class_cpus(cores: Seq<(Seq<usize>, Seq<char>)>, id: Seq<char>) -> Seq<usize>
    decreases cores.len(),
{
    if cores.len() == 0 {
        Seq::empty()
    } else if cores.last().1 == id {
        class_cpus(cores.drop_last(), id) + cores.last().0
    } else {
        class_cpus(cores.drop_last(), id)
    }
}

/// The number of cores of class `id`.
pub open spec fn class_core_count(cores: Seq<(Seq<usize>, Seq<char>)>, id: Seq<char>) -> nat
    decreases cores.len(),
{
    if cores.len() == 0 {
        0
    } else if cores.last().1 == id {
        class_core_count(cores.drop_last(), id) + 1
    } else {
        class_core_count(cores.drop_last(), id)
    }
}

/// Are `classes` the classes of `cores`, in ascending order of their identifiers?
pub open spec fn are_classes_of(
    classes: Seq<CpuCoreClass>,
    cores: Seq<(Seq<usize>, Seq<char>)>,
) -> bool {
    &&& ascending_texts(class_ids(classes))
    &&& class_ids(classes).to_set() == core_classes(cores).to_set()
    &&& forall|k: int|
        0 <= k < classes.len() ==> (#[trigger] classes[k]).logical_cpus@ == class_cpus(
            cores,
            classes[k].id@,
        ) && classes[k].physical_cores == class_core_count(cores, classes[k].id@)
}

/// Is `topology` that of the allowed CPUs with the given cores?
pub open spec fn is_linux_topology(
    topology: CpuTopology,
    allowed: Seq<usize>,
    cores: Seq<(Seq<usize>, Seq<char>)>,
) -> bool {
    let physical = if cores.len() == 0 {
        1
    } else {
        cores.len()
    };
    &&& topology.logical_cpus@ == allowed
    &&& group_views(topology.core_groups@) == core_keys(cores)
    &&& topology.physical_cores == physical
    &&& topology.smt_threads_per_core == ceil_div(allowed.len(), physical)
    &&& are_classes_of(topology.core_classes@, cores)
    &&& topology.source@ == "Linux sysfs topology intersected with sched_getaffinity"@
}

/// The class `id` of the given cores.
fn class_of_cores(entries: &Vec<CoreEntry>, id: &String) -> (r: CpuCoreClass)
    ensures
        r.id@ == id@,
        r.logical_cpus@ == class_cpus(core_views(entries@), id@),
        r.physical_cores == class_core_count(core_views(entries@), id@),
{
    let ghost cores = core_views(entries@);
    let mut logical_cpus: Vec<usize> = Vec::new();
    let mut physical_cores: usize = 0;
    for i in 0..entries.len()
        invariant
            cores == core_views(entries@),
            logical_cpus@ == class_cpus(cores.take(i as int), id@),
            physical_cores == class_core_count(cores.take(i as int), id@),
            physical_cores <= i,
    {
        assert(cores.take(i + 1).drop_last() == cores.take(i as int));
        assert(cores.take(i + 1).last() == (entries@[i as int].cpus@, entries@[i as int].class@));
        if entries[i].class == *id {
            append_cpus(&mut logical_cpus, &entries[i].cpus);
            physical_cores = physical_cores + 1;
        }
    }
    assert(cores.take(cores.len() as int) == cores);
    CpuCoreClass { id: id.clone(), logical_cpus, physical_cores }
}

/// The classes of the given cores, in ascending order of their identifiers.
fn classes_of_cores(entries: &Vec<CoreEntry>) -> (r: Vec<CpuCoreClass>)
    ensures
        are_classes_of(r@, core_views(entries@)),
{
    let ghost cores = core_views(entries@);
    let mut ids = TextSet::new();
    assert(core_classes(cores).take(0).to_set() =~= Set::<Seq<char>>::empty());
    for i in 0..entries.len()
        invariant
            ids.wf(),
            cores == core_views(entries@),
            ids.members() == core_classes(cores).take(i as int).to_set(),
    {
        ids.insert(entries[i].class.clone());
        proof {
            let classes = core_classes(cores);
            assert(classes[i as int] == entries@[i as int].class@);
            assert(classes.take(i + 1) =~= classes.take(i as int).push(classes[i as int]));
            classes.take(i as int).lemma_push_to_set_commute(classes[i as int]);
        }
    }
    assert(core_classes(cores).take(cores.len() as int) == core_classes(cores));
    let mut classes: Vec<CpuCoreClass> = Vec::new();
    for i in 0..ids.items.len()
        invariant
            cores == core_views(entries@),
            class_ids(classes@) == ids.sequence().take(i as int),
            forall|k: int|
                0 <= k < classes@.len() ==> (#[trigger] classes@[k]).logical_cpus@ == class_cpus(
                    cores,
                    classes@[k].id@,
                ) && classes@[k].physical_cores == class_core_count(cores, classes@[k].id@),
    {
        let class = class_of_cores(entries, &ids.items[i]);
        let ghost before = classes@;
        classes.push(class);
        assert(class_ids(classes@) =~= class_ids(before).push(class.id@));
        assert(ids.sequence().take(i + 1) =~= ids.sequence().take(i as int).push(
            ids.sequence()[i as int],
        ));
    }
    assert(ids.sequence().take(ids.items@.len() as int) == ids.sequence());
    classes
}

/// The topology of the allowed CPUs, from what sysfs says of each of them.
pub fn linux_cpu_topology(allowed: Vec<usize>, readings: &Vec<CpuReading>) -> (r: CpuTopology)
    requires
        readings.len() == allowed.len(),
    ensures
        exists|cores: Seq<(Seq<usize>, Seq<char>)>|
            #![trigger is_core_table(cores, allowed@, readings@, allowed@.len() as int)]
            is_core_table(cores, allowed@, readings@, allowed@.len() as int)
                && is_linux_topology(r, allowed@, normal_cores(cores)),
{
    let mut cores = read_cores(&allowed, readings);
    let ghost table = core_views(cores@);
    normalize_linux_capacity_classes(&mut cores);
    let ghost named = core_views(cores@);
    let mut core_groups: Vec<Vec<usize>> = Vec::new();
    for i in 0..cores.len()
        invariant
            named == core_views(cores@),
            group_views(core_groups@) == core_keys(named).take(i as int),
    {
        let ghost before = core_groups@;
        core_groups.push(copy_cpus(&cores[i].cpus));
        assert(group_views(core_groups@) =~= group_views(before).push(named[i as int].0));
        assert(core_keys(named).take(i + 1) =~= core_keys(named).take(i as int).push(
            named[i as int].0,
        ));
    }
    assert(core_keys(named).take(named.len() as int) == core_keys(named));
    let physical_cores: usize = if core_groups.len() == 0 {
        1
    } else {
        core_groups.len()
    };
    assert(core_groups@.len() == group_views(core_groups@).len());
    let smt_threads_per_core: usize = div_rounded_up(allowed.len(), physical_cores);
    let core_classes = classes_of_cores(&cores);
    let topology = CpuTopology {
        logical_cpus: allowed,
        physical_cores,
        smt_threads_per_core,
        core_classes,
        source: "Linux sysfs topology intersected with sched_getaffinity".to_string(),
        core_groups,
    };
    assert(is_linux_topology(topology, allowed@, normal_cores(table)));
    topology
}

/// The CPUs whose bit is set in an affinity mask, ascending.
pub open spec fn mask_cpus(mask: Seq<bool>) -> Seq<usize>
    decreases mask.len(),
{
    if mask.len() == 0 {
        Seq::empty()
    } else if mask.last() {
        mask_cpus(mask.drop_last()).push((mask.len() - 1) as usize)
    } else {
        mask_cpus(mask.drop_last())
    }
}

/// The CPUs of the affinity mask, or, where it could not be had or is empty, as many CPUs as the
/// process may run in parallel.
pub fn linux_allowed_cpus(mask: &Option<Vec<bool>>, parallelism: usize) -> (r: Vec<usize>)
    ensures
        r@ == match *mask {
            Some(bits) if mask_cpus(bits@).len() > 0 => mask_cpus(bits@),
            _ => first_cpus(parallelism as nat),
        },
        match *mask {
            Some(bits) if exists|c: int| 0 <= c < bits@.len() && #[trigger] bits@[c] => {
                &&& forall|c: usize| #[trigger] r@.contains(c) <==> c < bits@.len() && bits@[c as int]
                &&& forall|i: int, j: int|
                    0 <= i < j < r@.len() ==> #[trigger] r@[i] < #[trigger] r@[j]
            },
            _ => {
                &&& r@.len() == parallelism
                &&& forall|i: int| 0 <= i < parallelism ==> #[trigger] r@[i] == i
            },
        },
{
    if let Some(bits) = mask {
        let mut cpus: Vec<usize> = Vec::new();
        for i in 0..bits.len()
            invariant
                cpus@ == mask_cpus(bits@.take(i as int)),
        {
            assert(bits@.take(i + 1).drop_last() == bits@.take(i as int));
            if bits[i] {
                cpus.push(i);
            }
        }
        assert(bits@.take(bits@.len() as int) == bits@);
        proof {
            mask_allows_the_set_bits(bits@);
            if cpus@.len() > 0 {
                assert(cpus@.contains(cpus@[0]));
            }
            if exists|c: int| 0 <= c < bits@.len() && #[trigger] bits@[c] {
                let c = choose|c: int| 0 <= c < bits@.len() && #[trigger] bits@[c];
                assert(cpus@.contains(c as usize));
            }
        }
        if cpus.len() > 0 {
            return cpus;
        }
    }
    cpus_below(parallelism)
}

proof fn lemma_key_read(
    cores: Seq<(Seq<usize>, Seq<char>)>,
    allowed: Seq<usize>,
    readings: Seq<CpuReading>,
    n: int,
    key: Seq<usize>,
)
    requires
        is_core_table(cores, allowed, readings, n),
    ensures
        core_keys(cores).contains(key) <==> exists|i: int|
            0 <= i < n && #[trigger] core_of(allowed, readings, i) == key,
{
    if core_keys(cores).contains(key) {
        let e = choose|e: int| 0 <= e < core_keys(cores).len() && core_keys(cores)[e] == key;
        assert(is_core(cores[e], allowed, readings, n));
        let i = choose|i: int|
            0 <= i < n && #[trigger] first_with_core(allowed, readings, cores[e].0, i) && cores[e].1
                == reading_class(readings[i]);
        assert(core_of(allowed, readings, i) == key);
    }
}

/// The readings determine the table of cores.
pub proof fn core_table_is_determined(
    a: Seq<(Seq<usize>, Seq<char>)>,
    b: Seq<(Seq<usize>, Seq<char>)>,
    allowed: Seq<usize>,
    readings: Seq<CpuReading>,
    n: int,
)
    requires
        is_core_table(a, allowed, readings, n),
        is_core_table(b, allowed, readings, n),
    ensures
        a == b,
{
    let f = |k: Seq<usize>| cpu_codes(k);
    let ka = core_keys(a);
    let kb = core_keys(b);
    assert forall|key: Seq<usize>| #[trigger] ka.to_set().contains(key) == kb.to_set().contains(key) by {
        lemma_key_read(a, allowed, readings, n, key);
        lemma_key_read(b, allowed, readings, n, key);
    }
    assert(ka.to_set() =~= kb.to_set());
    ka.lemma_to_set_map_commutes(f);
    kb.lemma_to_set_map_commutes(f);
    ascending_is_determined(ka.map_values(f), kb.map_values(f));
    assert(ka.map_values(f).len() == a.len());
    assert(kb.map_values(f).len() == b.len());
    assert forall|e: int| 0 <= e < a.len() implies a[e] == b[e] by {
        assert(ka.map_values(f)[e] == cpu_codes(a[e].0));
        assert(kb.map_values(f)[e] == cpu_codes(b[e].0));
        lemma_cpu_codes_injective(a[e].0, b[e].0);
        assert(is_core(a[e], allowed, readings, n));
        assert(is_core(b[e], allowed, readings, n));
        let i = choose|i: int|
            0 <= i < n && #[trigger] first_with_core(allowed, readings, a[e].0, i) && a[e].1
                == reading_class(readings[i]);
        let j = choose|j: int|
            0 <= j < n && #[trigger] first_with_core(allowed, readings, b[e].0, j) && b[e].1
                == reading_class(readings[j]);
        if i < j {
            assert(core_of(allowed, readings, i) == a[e].0);
        } else if j < i {
            assert(core_of(allowed, readings, j) == a[e].0);
        }
    }
    assert(a =~= b);
}

proof fn lemma_class_cpus_members(cores: Seq<(Seq<usize>, Seq<char>)>, id: Seq<char>, c: usize)
    ensures
        class_cpus(cores, id).contains(c) <==> exists|e: int|
            0 <= e < cores.len() && (#[trigger] cores[e]).1 == id && cores[e].0.contains(c),
    decreases cores.len(),
{
    if cores.len() > 0 {
        let init = cores.drop_last();
        lemma_class_cpus_members(init, id, c);
        let earlier = class_cpus(init, id);
        let last = cores.last();
        if class_cpus(cores, id).contains(c) {
            let all = class_cpus(cores, id);
            let k = choose|k: int| 0 <= k < all.len() && all[k] == c;
            if k < earlier.len() {
                assert(earlier[k] == c);
                let e = choose|e: int|
                    0 <= e < init.len() && (#[trigger] init[e]).1 == id && init[e].0.contains(c);
                assert(cores[e] == init[e]);
            } else {
                assert(last.0[k - earlier.len()] == c);
                assert(cores[cores.len() - 1] == last);
            }
        }
        if exists|e: int| 0 <= e < cores.len() && (#[trigger] cores[e]).1 == id && cores[e].0.contains(c) {
            let e = choose|e: int|
                0 <= e < cores.len() && (#[trigger] cores[e]).1 == id && cores[e].0.contains(c);
            if e < init.len() {
                assert(init[e] == cores[e]);
                let k = choose|k: int| 0 <= k < earlier.len() && earlier[k] == c;
                assert(class_cpus(cores, id)[k] == c);
            } else {
                let k = choose|k: int| 0 <= k < last.0.len() && last.0[k] == c;
                assert(class_cpus(cores, id)[earlier.len() + k] == c);
            }
        }
    }
}

proof fn lemma_classes_cpus_members(classes: Seq<CpuCoreClass>, c: usize)
    ensures
        classes_cpus(classes).contains(c) <==> exists|k: int|
            0 <= k < classes.len() && (#[trigger] classes[k]).logical_cpus@.contains(c),
    decreases classes.len(),
{
    if classes.len() > 0 {
        let init = classes.drop_last();
        lemma_classes_cpus_members(init, c);
        let earlier = classes_cpus(init);
        let last = classes.last().logical_cpus@;
        let all = classes_cpus(classes);
        if all.contains(c) {
            let k = choose|k: int| 0 <= k < all.len() && all[k] == c;
            if k < earlier.len() {
                assert(earlier[k] == c);
                let m = choose|m: int|
                    0 <= m < init.len() && (#[trigger] init[m]).logical_cpus@.contains(c);
                assert(classes[m] == init[m]);
            } else {
                assert(last[k - earlier.len()] == c);
                assert(classes[classes.len() - 1].logical_cpus@.contains(c));
            }
        }
        if exists|k: int| 0 <= k < classes.len() && (#[trigger] classes[k]).logical_cpus@.contains(c) {
            let m = choose|k: int|
                0 <= k < classes.len() && (#[trigger] classes[k]).logical_cpus@.contains(c);
            if m < init.len() {
                assert(init[m] == classes[m]);
                let k = choose|k: int| 0 <= k < earlier.len() && earlier[k] == c;
                assert(all[k] == c);
            } else {
                let k = choose|k: int| 0 <= k < last.len() && last[k] == c;
                assert(all[earlier.len() + k] == c);
            }
        }
    }
}

proof fn lemma_topology_members(
    topology: CpuTopology,
    allowed: Seq<usize>,
    cores: Seq<(Seq<usize>, Seq<char>)>,
    c: usize,
)
    requires
        is_linux_topology(topology, allowed, cores),
    ensures
        classes_cpus(topology.core_classes@).contains(c) <==> exists|e: int|
            0 <= e < cores.len() && (#[trigger] cores[e]).0.contains(c),
{
    let classes = topology.core_classes@;
    lemma_classes_cpus_members(classes, c);
    if classes_cpus(classes).contains(c) {
        let k = choose|k: int|
            0 <= k < classes.len() && (#[trigger] classes[k]).logical_cpus@.contains(c);
        lemma_class_cpus_members(cores, classes[k].id@, c);
    }
    if exists|e: int| 0 <= e < cores.len() && (#[trigger] cores[e]).0.contains(c) {
        let e = choose|e: int| 0 <= e < cores.len() && (#[trigger] cores[e]).0.contains(c);
        let id = cores[e].1;
        assert(core_classes(cores)[e] == id);
        assert(core_classes(cores).to_set().contains(id));
        assert(class_ids(classes).to_set().contains(id));
        let k = choose|k: int| 0 <= k < class_ids(classes).len() && class_ids(classes)[k] == id;
        assert(classes[k].id@ == id);
        lemma_class_cpus_members(cores, id, c);
        assert(classes[k].logical_cpus@.contains(c));
    }
}

/// No benchmark uses a CPU that the process may not run on.
pub proof fn only_allowed_cpus_are_selected(
    topology: CpuTopology,
    allowed: Seq<usize>,
    readings: Seq<CpuReading>,
    cores: Seq<(Seq<usize>, Seq<char>)>,
    requested: nat,
    cpu: usize,
)
    requires
        is_core_table(cores, allowed, readings, allowed.len() as int),
        is_linux_topology(topology, allowed, normal_cores(cores)),
        selected_cpus(topology, requested).contains(cpu),
    ensures
        allowed.contains(cpu),
{
    let all = classes_cpus(topology.core_classes@);
    let usable = usable_cpus(topology);
    let selected = selected_cpus(topology, requested);
    let k = choose|k: int| 0 <= k < selected.len() && selected[k] == cpu;
    assert(usable[k] == cpu);
    assert(usable.contains(cpu));
    without_repeats_keeps_members(all);
    if without_repeats(all).len() > 0 {
        assert(all.contains(cpu));
        lemma_topology_members(topology, allowed, normal_cores(cores), cpu);
        let e = choose|e: int|
            0 <= e < normal_cores(cores).len() && (#[trigger] normal_cores(cores)[e]).0.contains(cpu);
        assert(normal_cores(cores)[e].0 == cores[e].0);
        assert(is_core(cores[e], allowed, readings, allowed.len() as int));
        let i = choose|i: int|
            0 <= i < allowed.len() && #[trigger] first_with_core(allowed, readings, cores[e].0, i)
                && cores[e].1 == reading_class(readings[i]);
        lemma_kept_members(siblings(readings[i], allowed[i]), allowed);
        assert(core_of(allowed, readings, i).contains(cpu));
    }
}

/// Without a limit every CPU that the process may run on is used, where sysfs lists each CPU
/// among those that share its core.
pub proof fn every_allowed_cpu_is_selected(
    topology: CpuTopology,
    allowed: Seq<usize>,
    readings: Seq<CpuReading>,
    cores: Seq<(Seq<usize>, Seq<char>)>,
    i: int,
)
    requires
        is_core_table(cores, allowed, readings, allowed.len() as int),
        is_linux_topology(topology, allowed, normal_cores(cores)),
        0 <= i < allowed.len(),
        siblings(readings[i], allowed[i]).contains(allowed[i]),
    ensures
        selected_cpus(topology, 0).contains(allowed[i]),
{
    let cpu = allowed[i];
    let key = core_of(allowed, readings, i);
    lemma_kept_members(siblings(readings[i], cpu), allowed);
    assert(allowed.contains(cpu));
    assert(key.contains(cpu));
    assert(core_keys(cores).contains(key));
    let e = choose|e: int| 0 <= e < core_keys(cores).len() && core_keys(cores)[e] == key;
    assert(normal_cores(cores)[e].0 == key);
    lemma_topology_members(topology, allowed, normal_cores(cores), cpu);
    assert(classes_cpus(topology.core_classes@).contains(cpu));
    selection_covers_classes(topology);
}

/// Do the sibling lists agree? Each CPU is on its own core, and CPUs that share a core name the same
/// core.
pub open spec fn siblings_agree(allowed: Seq<usize>, readings: Seq<CpuReading>) -> bool {
    &&& forall|i: int|
        0 <= i < allowed.len() ==> (#[trigger] core_of(allowed, readings, i)).contains(allowed[i])
    &&& forall|i: int, j: int|
        0 <= i < allowed.len() && 0 <= j < allowed.len() && (#[trigger] core_of(
            allowed,
            readings,
            i,
        )).contains(allowed[j]) ==> #[trigger] core_of(allowed, readings, j) == core_of(
            allowed,
            readings,
            i,
        )
}

/// Where the sibling lists agree, the core groups share out the allowed CPUs: each allowed CPU is in
/// a group, no CPU is in two, and no other CPU is in any.
pub proof fn core_groups_share_out_the_cpus(
    topology: CpuTopology,
    allowed: Seq<usize>,
    readings: Seq<CpuReading>,
    cores: Seq<(Seq<usize>, Seq<char>)>,
)
    requires
        is_core_table(cores, allowed, readings, allowed.len() as int),
        is_linux_topology(topology, allowed, normal_cores(cores)),
        siblings_agree(allowed, readings),
    ensures
        forall|c: usize| #[trigger]
            allowed.contains(c) ==> exists|e: int|
                0 <= e < topology.core_groups@.len() && (#[trigger] topology.core_groups@[e])@.contains(
                    c,
                ),
        forall|e: int, c: usize|
            0 <= e < topology.core_groups@.len()
                && #[trigger] topology.core_groups@[e]@.contains(c) ==> allowed.contains(c),
        forall|a: int, b: int, c: usize|
            0 <= a < topology.core_groups@.len() && 0 <= b < topology.core_groups@.len()
                && #[trigger] topology.core_groups@[a]@.contains(c)
                && #[trigger] topology.core_groups@[b]@.contains(c) ==> a == b,
{
    let groups = topology.core_groups@;
    let keys = core_keys(cores);
    lemma_groups_are_keys(topology, allowed, cores);
    assert forall|c: usize| #[trigger] allowed.contains(c) implies exists|e: int|
        0 <= e < groups.len() && (#[trigger] groups[e])@.contains(c) by {
        let i = choose|i: int| 0 <= i < allowed.len() && allowed[i] == c;
        let key = core_of(allowed, readings, i);
        assert(key.contains(c));
        assert(keys.contains(key));
        let e = choose|e: int| 0 <= e < keys.len() && keys[e] == key;
        assert(groups[e]@ == key);
    }
    assert forall|e: int, c: usize|
        0 <= e < groups.len() && #[trigger] groups[e]@.contains(c) implies allowed.contains(c) by {
        lemma_group_is_core(cores, allowed, readings, e, c);
    }
    assert forall|a: int, b: int, c: usize|
        0 <= a < groups.len() && 0 <= b < groups.len() && #[trigger] groups[a]@.contains(c)
            && #[trigger] groups[b]@.contains(c) implies a == b by {
        lemma_groups_apart(cores, allowed, readings, a, b, c);
    }
}

proof fn lemma_groups_are_keys(
    topology: CpuTopology,
    allowed: Seq<usize>,
    cores: Seq<(Seq<usize>, Seq<char>)>,
)
    requires
        is_linux_topology(topology, allowed, normal_cores(cores)),
    ensures
        topology.core_groups@.len() == cores.len(),
        forall|e: int|
            0 <= e < cores.len() ==> (#[trigger] topology.core_groups@[e])@ == core_keys(cores)[e],
{
    let groups = topology.core_groups@;
    assert(core_keys(normal_cores(cores)) =~= core_keys(cores));
    assert(groups.len() == group_views(groups).len());
    assert forall|e: int| 0 <= e < cores.len() implies (#[trigger] groups[e])@ == core_keys(
        cores,
    )[e] by {
        assert(group_views(groups)[e] == groups[e]@);
    }
}

/// A CPU is on one core only.
proof fn lemma_groups_apart(
    cores: Seq<(Seq<usize>, Seq<char>)>,
    allowed: Seq<usize>,
    readings: Seq<CpuReading>,
    a: int,
    b: int,
    c: usize,
)
    requires
        is_core_table(cores, allowed, readings, allowed.len() as int),
        siblings_agree(allowed, readings),
        0 <= a < cores.len(),
        0 <= b < cores.len(),
        core_keys(cores)[a].contains(c),
        core_keys(cores)[b].contains(c),
    ensures
        a == b,
{
    let keys = core_keys(cores);
    lemma_group_is_core(cores, allowed, readings, a, c);
    lemma_group_is_core(cores, allowed, readings, b, c);
    let k = choose|k: int| 0 <= k < allowed.len() && allowed[k] == c;
    let i = choose|i: int|
        0 <= i < allowed.len() && #[trigger] core_of(allowed, readings, i) == keys[a];
    let j = choose|j: int|
        0 <= j < allowed.len() && #[trigger] core_of(allowed, readings, j) == keys[b];
    assert(core_of(allowed, readings, i).contains(allowed[k]));
    assert(core_of(allowed, readings, j).contains(allowed[k]));
    assert(core_of(allowed, readings, k) == keys[a]);
    assert(core_of(allowed, readings, k) == keys[b]);
    lemma_keys_differ(keys, a, b);
}

proof fn lemma_keys_differ(keys: Seq<Seq<usize>>, a: int, b: int)
    requires
        ascending_cpus(keys),
        0 <= a < keys.len(),
        0 <= b < keys.len(),
        keys[a] == keys[b],
    ensures
        a == b,
{
    let codes = keys.map_values(|key: Seq<usize>| cpu_codes(key));
    assert(codes[a] == cpu_codes(keys[a]));
    assert(codes[b] == cpu_codes(keys[b]));
    lex_irreflexive(codes[a]);
    if a < b {
        assert(lex_less(codes[a], codes[b]));
    } else if b < a {
        assert(lex_less(codes[b], codes[a]));
    }
}

proof fn lemma_group_is_core(
    cores: Seq<(Seq<usize>, Seq<char>)>,
    allowed: Seq<usize>,
    readings: Seq<CpuReading>,
    e: int,
    c: usize,
)
    requires
        is_core_table(cores, allowed, readings, allowed.len() as int),
        0 <= e < cores.len(),
        core_keys(cores)[e].contains(c),
    ensures
        allowed.contains(c),
        exists|i: int|
            0 <= i < allowed.len() && #[trigger] core_of(allowed, readings, i) == core_keys(
                cores,
            )[e],
{
    let key = core_keys(cores)[e];
    assert(core_keys(cores).contains(key));
    lemma_key_read(cores, allowed, readings, allowed.len() as int, key);
    let i = choose|i: int|
        0 <= i < allowed.len() && #[trigger] core_of(allowed, readings, i) == key;
    lemma_kept_members(siblings(readings[i], allowed[i]), allowed);
}

/// Every capacity that a class names lies between the lowest and the highest.
pub proof fn capacities_lie_within(classes: Seq<Seq<char>>, i: int)
    requires
        0 <= i < classes.len(),
        class_capacity(classes[i]) is Some,
    ensures
        lowest_capacity(classes) is Some,
        highest_capacity(classes) is Some,
        lowest_capacity(classes)->0 <= class_capacity(classes[i])->0 <= highest_capacity(classes)->0,
    decreases classes.len(),
{
    if i < classes.len() - 1 {
        capacities_lie_within(classes.drop_last(), i);
    }
}

proof fn lemma_lowest_attained(classes: Seq<Seq<char>>)
    requires
        lowest_capacity(classes) is Some,
    ensures
        exists|i: int|
            0 <= i < classes.len() && class_capacity(#[trigger] classes[i]) == lowest_capacity(
                classes,
            ),
    decreases classes.len(),
{
    if class_capacity(classes.last()) == lowest_capacity(classes) {
        assert(classes[classes.len() - 1] == classes.last());
    } else {
        let init = classes.drop_last();
        lemma_lowest_attained(init);
        let i = choose|i: int|
            0 <= i < init.len() && class_capacity(#[trigger] init[i]) == lowest_capacity(init);
        assert(classes[i] == init[i]);
    }
}

proof fn lemma_highest_attained(classes: Seq<Seq<char>>)
    requires
        highest_capacity(classes) is Some,
    ensures
        exists|i: int|
            0 <= i < classes.len() && class_capacity(#[trigger] classes[i]) == highest_capacity(
                classes,
            ),
    decreases classes.len(),
{
    if class_capacity(classes.last()) == highest_capacity(classes) {
        assert(classes[classes.len() - 1] == classes.last());
    } else {
        let init = classes.drop_last();
        lemma_highest_attained(init);
        let i = choose|i: int|
            0 <= i < init.len() && class_capacity(#[trigger] init[i]) == highest_capacity(init);
        assert(classes[i] == init[i]);
    }
}

/// Cores of two different capacities give an efficiency and a performance class.
pub proof fn two_capacities_make_two_classes(
    cores: Seq<(Seq<usize>, Seq<char>)>,
    i: int,
    j: int,
)
    requires
        0 <= i < cores.len(),
        0 <= j < cores.len(),
        class_capacity(cores[i].1) is Some,
        class_capacity(cores[j].1) is Some,
        class_capacity(cores[i].1) != class_capacity(cores[j].1),
    ensures
        core_classes(normal_cores(cores)).contains("efficiency"@),
        core_classes(normal_cores(cores)).contains("performance"@),
{
    let classes = core_classes(cores);
    assert(classes[i] == cores[i].1 && classes[j] == cores[j].1);
    capacities_lie_within(classes, i);
    capacities_lie_within(classes, j);
    lemma_lowest_attained(classes);
    lemma_highest_attained(classes);
    let low = choose|k: int|
        0 <= k < classes.len() && class_capacity(#[trigger] classes[k]) == lowest_capacity(classes);
    let high = choose|k: int|
        0 <= k < classes.len() && class_capacity(#[trigger] classes[k]) == highest_capacity(classes);
    assert(core_classes(normal_cores(cores))[low] == "efficiency"@);
    assert(core_classes(normal_cores(cores))[high] == "performance"@);
}

/// The cores of the classes, added up.
pub open spec fn class_core_sum(classes: Seq<CpuCoreClass>) -> nat
    decreases classes.len(),
{
    if classes.len() == 0 {
        0
    } else {
        class_core_sum(classes.drop_last()) + classes.last().physical_cores as nat
    }
}

spec fn count_sum(ids: Seq<Seq<char>>, cores: Seq<(Seq<usize>, Seq<char>)>) -> nat
    decreases ids.len(),
{
    if ids.len() == 0 {
        0
    } else {
        count_sum(ids.drop_last(), cores) + class_core_count(cores, ids.last())
    }
}

proof fn lemma_one_more_core(ids: Seq<Seq<char>>, cores: Seq<(Seq<usize>, Seq<char>)>)
    requires
        ids.no_duplicates(),
        cores.len() > 0,
    ensures
        count_sum(ids, cores) == count_sum(ids, cores.drop_last()) + if ids.contains(
            cores.last().1,
        ) {
            1nat
        } else {
            0nat
        },
    decreases ids.len(),
{
    if ids.len() > 0 {
        let earlier = ids.drop_last();
        let id = cores.last().1;
        lemma_one_more_core(earlier, cores);
        if ids.contains(id) {
            let i = choose|i: int| 0 <= i < ids.len() && ids[i] == id;
            if i < earlier.len() {
                assert(earlier[i] == id);
                assert(ids[i] != ids.last());
            } else {
                assert forall|k: int| 0 <= k < earlier.len() implies earlier[k] != id by {
                    assert(earlier[k] == ids[k]);
                }
            }
        } else {
            assert(ids.last() == ids[ids.len() - 1]);
            assert forall|k: int| 0 <= k < earlier.len() implies earlier[k] != id by {
                assert(earlier[k] == ids[k]);
            }
        }
    }
}

proof fn lemma_every_core_counts(ids: Seq<Seq<char>>, cores: Seq<(Seq<usize>, Seq<char>)>)
    requires
        ids.no_duplicates(),
        forall|i: int| 0 <= i < cores.len() ==> ids.contains((#[trigger] cores[i]).1),
    ensures
        count_sum(ids, cores) == cores.len(),
    decreases cores.len(),
{
    if cores.len() == 0 {
        lemma_no_core_counts(ids, cores);
    } else {
        let earlier = cores.drop_last();
        assert forall|i: int| 0 <= i < earlier.len() implies ids.contains(
            (#[trigger] earlier[i]).1,
        ) by {
            assert(earlier[i] == cores[i]);
        }
        assert(ids.contains(cores[cores.len() - 1].1));
        lemma_every_core_counts(ids, earlier);
        lemma_one_more_core(ids, cores);
    }
}

proof fn lemma_no_core_counts(ids: Seq<Seq<char>>, cores: Seq<(Seq<usize>, Seq<char>)>)
    requires
        cores.len() == 0,
    ensures
        count_sum(ids, cores) == 0,
    decreases ids.len(),
{
    if ids.len() > 0 {
        lemma_no_core_counts(ids.drop_last(), cores);
    }
}

proof fn lemma_sums_agree(classes: Seq<CpuCoreClass>, cores: Seq<(Seq<usize>, Seq<char>)>)
    requires
        forall|k: int|
            0 <= k < classes.len() ==> (#[trigger] classes[k]).physical_cores == class_core_count(
                cores,
                classes[k].id@,
            ),
    ensures
        class_core_sum(classes) == count_sum(class_ids(classes), cores),
    decreases classes.len(),
{
    if classes.len() > 0 {
        let earlier = classes.drop_last();
        assert forall|k: int| 0 <= k < earlier.len() implies (#[trigger] earlier[k]).physical_cores
            == class_core_count(cores, earlier[k].id@) by {
            assert(earlier[k] == classes[k]);
        }
        lemma_sums_agree(earlier, cores);
        assert(class_ids(classes).drop_last() =~= class_ids(earlier));
        assert(class_ids(classes).last() == classes.last().id@);
    }
}

/// Every core is of exactly one class: the cores of the classes add up to all cores.
pub proof fn classes_share_out_the_cores(
    topology: CpuTopology,
    allowed: Seq<usize>,
    cores: Seq<(Seq<usize>, Seq<char>)>,
)
    requires
        is_linux_topology(topology, allowed, cores),
    ensures
        class_core_sum(topology.core_classes@) == topology.core_groups@.len(),
        topology.core_groups@.len() > 0 ==> class_core_sum(topology.core_classes@)
            == topology.physical_cores,
{
    let classes = topology.core_classes@;
    let ids = class_ids(classes);
    ascending_repeats_none(ids);
    assert forall|i: int| 0 <= i < cores.len() implies ids.contains((#[trigger] cores[i]).1) by {
        assert(core_classes(cores)[i] == cores[i].1);
        assert(core_classes(cores).to_set().contains(cores[i].1));
        assert(ids.to_set().contains(cores[i].1));
    }
    lemma_sums_agree(classes, cores);
    lemma_every_core_counts(ids, cores);
    assert(group_views(topology.core_groups@).len() == topology.core_groups@.len());
    assert(core_keys(cores).len() == cores.len());
}

/// An affinity mask allows exactly the CPUs whose bits are set, in ascending order.
pub proof fn mask_allows_the_set_bits(mask: Seq<bool>)
    requires
        mask.len() <= usize::MAX,
    ensures
        forall|c: usize| #[trigger] mask_cpus(mask).contains(c) <==> c < mask.len() && mask[c as int],
        forall|i: int, j: int|
            0 <= i < j < mask_cpus(mask).len() ==> #[trigger] mask_cpus(mask)[i]
                < #[trigger] mask_cpus(mask)[j],
    decreases mask.len(),
{
    if mask.len() > 0 {
        let init = mask.drop_last();
        let earlier = mask_cpus(init);
        let all = mask_cpus(mask);
        let n = (mask.len() - 1) as usize;
        mask_allows_the_set_bits(init);
        assert forall|i: int| 0 <= i < earlier.len() implies #[trigger] earlier[i] < n by {
            assert(earlier.contains(earlier[i]));
        }
        assert forall|c: usize| #[trigger] all.contains(c) <==> c < mask.len() && mask[c as int] by {
            assert(earlier.contains(c) <==> c < init.len() && init[c as int]);
            if earlier.contains(c) {
                let k = choose|k: int| 0 <= k < earlier.len() && earlier[k] == c;
                assert(all[k] == c);
            }
            if mask.last() {
                assert(all[earlier.len() as int] == n);
            }
            if all.contains(c) {
                let k = choose|k: int| 0 <= k < all.len() && all[k] == c;
                if k < earlier.len() {
                    assert(earlier[k] == c);
                }
            }
        }
        assert forall|i: int, j: int| 0 <= i < j < all.len() implies #[trigger] all[i]
            < #[trigger] all[j] by {
            assert(all[i] == earlier[i]);
            if j < earlier.len() {
                assert(all[j] == earlier[j]);
            }
        }
    }
}

/// The classes of core types: three names each for efficiency and performance cores, in any case
/// and with white space around them; every other type has a class of its own.
pub proof fn core_types_have_classes(value: Seq<char>)
    ensures
        ({
            let name = lower(trim(value));
            let class = core_type_class(value);
            &&& class == "efficiency"@ <==> (name == "atom"@ || name == "32"@ || name == "0x20"@)
            &&& class == "performance"@ <==> (name == "core"@ || name == "64"@ || name == "0x40"@)
            &&& class != "efficiency"@ && class != "performance"@ ==> class == "core-type-"@ + name
        }),
{
    reveal_strlit("efficiency");
    reveal_strlit("performance");
    reveal_strlit("core-type-");
    let name = lower(trim(value));
    let own = "core-type-"@ + name;
    assert(own[0] == 'c');
    assert("efficiency"@[0] == 'e');
    assert("performance"@[0] == 'p');
    reveal_strlit("atom");
    reveal_strlit("32");
    reveal_strlit("0x20");
    reveal_strlit("core");
    reveal_strlit("64");
    reveal_strlit("0x40");
    assert("atom"@[0] == 'a');
    assert("32"@[0] == '3' && "32"@.len() == 2);
    assert("0x20"@[2] == '2');
    assert("core"@[0] == 'c');
    assert("64"@[0] == '6' && "64"@.len() == 2);
    assert("0x40"@[2] == '4' && "0x40"@[0] == '0');
    assert("0x20"@[0] == '0');
}

/// The class of a CPU is that of its core type, whatever its capacity; without a core type it names
/// the capacity, and without both it is `default`.
pub proof fn core_type_comes_before_capacity(reading: CpuReading)
    ensures
        match (reading.core_type, reading.cpu_capacity) {
            (Some(core_type), _) => reading_class(reading) == core_type_class(trim(core_type@)),
            (None, Some(capacity)) => strip_prefix(reading_class(reading), "capacity-"@) == Some(
                trim(capacity@),
            ),
            (None, None) => reading_class(reading) == "default"@,
        },
{
    if let Some(capacity) = reading.cpu_capacity {
        let rest = trim(capacity@);
        let text = "capacity-"@ + rest;
        assert(text.take("capacity-"@.len() as int) =~= "capacity-"@);
        assert(text.skip("capacity-"@.len() as int) =~= rest);
    }
}

/// The core of a CPU: the allowed ones among the CPUs that its sibling list names, in the order of the
/// list; the CPU itself where the list could not be read or names none.
pub proof fn core_is_the_allowed_siblings(
    allowed: Seq<usize>,
    readings: Seq<CpuReading>,
    i: int,
)
    requires
        0 <= i < allowed.len(),
    ensures
        match readings[i].core_cpus_list {
            Some(list) => if cpu_list(list@).len() > 0 {
                core_of(allowed, readings, i) == kept_cpus(cpu_list(list@), allowed)
            } else {
                core_of(allowed, readings, i) == seq![allowed[i]]
            },
            None => core_of(allowed, readings, i) == seq![allowed[i]],
        },
{
    assert(allowed.contains(allowed[i]));
    keeping_goes_cpu_by_cpu(Seq::empty(), Seq::empty(), allowed[i], allowed);
}

/// The table of cores holds the core of every allowed CPU, each core once, in ascending order, with
/// the class of the first CPU that is on it, and no other core.
pub proof fn core_table_holds_each_core_once(
    cores: Seq<(Seq<usize>, Seq<char>)>,
    allowed: Seq<usize>,
    readings: Seq<CpuReading>,
    i: int,
    e: int,
)
    requires
        is_core_table(cores, allowed, readings, allowed.len() as int),
    ensures
        ascending_cpus(core_keys(cores)),
        0 <= i < allowed.len() ==> exists|k: int|
            0 <= k < cores.len() && (#[trigger] cores[k]).0 == core_of(allowed, readings, i),
        0 <= e < cores.len() ==> exists|k: int|
            {
                &&& 0 <= k < allowed.len()
                &&& #[trigger] core_of(allowed, readings, k) == cores[e].0
                &&& cores[e].1 == reading_class(readings[k])
                &&& forall|j: int| 0 <= j < k ==> #[trigger] core_of(allowed, readings, j) != cores[e].0
            },
        core_keys(cores).len() == cores.len(),
        0 <= e < cores.len() ==> core_keys(cores)[e] == cores[e].0,
{
    let keys = core_keys(cores);
    let n = allowed.len() as int;
    if 0 <= i < n {
        assert(keys.contains(core_of(allowed, readings, i)));
        let k = choose|k: int| 0 <= k < keys.len() && keys[k] == core_of(allowed, readings, i);
        assert(cores[k].0 == keys[k]);
    }
    if 0 <= e < cores.len() {
        assert(is_core(cores[e], allowed, readings, n));
        let k = choose|k: int|
            0 <= k < n && #[trigger] first_with_core(allowed, readings, cores[e].0, k) && cores[e].1
                == reading_class(readings[k]);
        assert(core_of(allowed, readings, k) == cores[e].0);
    }
}

/// A class names a capacity where it is `capacity-` and a number of 64 bits.
pub proof fn class_names_its_capacity(value: Seq<char>, class: Seq<char>)
    ensures
        class_capacity("capacity-"@ + value) == parse_up_to(value, u64::MAX as nat),
        class_capacity(class) is Some ==> exists|v: Seq<char>| class == #[trigger] ("capacity-"@ + v),
{
    let text = "capacity-"@ + value;
    assert(text.take("capacity-"@.len() as int) =~= "capacity-"@);
    assert(text.skip("capacity-"@.len() as int) =~= value);
    if class_capacity(class) is Some {
        assert(class =~= "capacity-"@ + class.skip("capacity-"@.len() as int));
    }
}

/// Among classes, a class that names a capacity is `efficiency` where some class names a higher one
/// and none a lower one, `performance` where some names a lower one and none a higher one, and names
/// its capacity in plain digits where it lies between; where all capacities are the same, and where
/// it names none, it is called as before.
pub proof fn capacities_are_told_apart(classes: Seq<Seq<char>>, i: int)
    requires
        0 <= i < classes.len(),
    ensures
        ({
            let class = classes[i];
            let higher = exists|k: int|
                0 <= k < classes.len() && class_capacity(#[trigger] classes[k]) is Some
                    && class_capacity(class) is Some && class_capacity(classes[k])->0
                    > class_capacity(class)->0;
            let lower = exists|k: int|
                0 <= k < classes.len() && class_capacity(#[trigger] classes[k]) is Some
                    && class_capacity(class) is Some && class_capacity(classes[k])->0
                    < class_capacity(class)->0;
            let name = normal_class(classes, class);
            &&& higher && !lower ==> name == "efficiency"@
            &&& lower && !higher ==> name == "performance"@
            &&& lower && higher ==> exists|digits: Seq<char>|
                name == #[trigger] ("capacity-"@ + digits) && parse_nat(digits) == Some(
                    class_capacity(class)->0,
                )
            &&& !lower && !higher ==> name == class
        }),
{
    let class = classes[i];
    if class_capacity(class) is Some {
        let c = class_capacity(class)->0;
        capacities_lie_within(classes, i);
        lemma_lowest_attained(classes);
        lemma_highest_attained(classes);
        let low = choose|k: int|
            0 <= k < classes.len() && class_capacity(#[trigger] classes[k]) == lowest_capacity(
                classes,
            );
        let high = choose|k: int|
            0 <= k < classes.len() && class_capacity(#[trigger] classes[k]) == highest_capacity(
                classes,
            );
        assert forall|k: int|
            0 <= k < classes.len() && class_capacity(
                #[trigger] classes[k],
            ) is Some implies class_capacity(classes[low])->0 <= class_capacity(classes[k])->0
            <= class_capacity(classes[high])->0 by {
            capacities_lie_within(classes, k);
        }
        decimal_reads_back(c);
        assert(normal_class(classes, class) == class || normal_class(classes, class)
            == "efficiency"@ || normal_class(classes, class) == "performance"@ || normal_class(
            classes,
            class,
        ) == "capacity-"@ + decimal(c));
    }
}

/// Classes are told apart core by core: a core keeps its CPUs, and its class is called as it is
/// among all of them.
pub proof fn cores_keep_their_cpus(cores: Seq<(Seq<usize>, Seq<char>)>, i: int)
    requires
        0 <= i < cores.len(),
    ensures
        normal_cores(cores).len() == cores.len(),
        normal_cores(cores)[i].0 == cores[i].0,
        normal_cores(cores)[i].1 == normal_class(
            cores.map_values(|c: (Seq<usize>, Seq<char>)| c.1),
            cores[i].1,
        ),
{
}

/// The CPUs and the number of the cores of a class: core after core, those of that class and no
/// others.
pub proof fn class_is_made_of_its_cores(
    cores: Seq<(Seq<usize>, Seq<char>)>,
    core: (Seq<usize>, Seq<char>),
    id: Seq<char>,
)
    ensures
        class_cpus(cores.push(core), id) == class_cpus(cores, id) + if core.1 == id {
            core.0
        } else {
            Seq::empty()
        },
        class_core_count(cores.push(core), id) == class_core_count(cores, id) + if core.1 == id {
            1nat
        } else {
            0nat
        },
        class_cpus(Seq::empty(), id).len() == 0,
        class_core_count(Seq::empty(), id) == 0,
{
    assert(cores.push(core).drop_last() =~= cores);
    assert(class_cpus(cores, id) + Seq::<usize>::empty() =~= class_cpus(cores, id));
}

/// What the topology says of the cores: as many as there are, at least one; their CPUs as the
/// groups; as many threads on each as are needed for all allowed CPUs; and the classes that the cores
/// have, in ascending order, with the CPUs and the cores of each.
pub proof fn topology_tells_of_the_cores(
    topology: CpuTopology,
    allowed: Seq<usize>,
    cores: Seq<(Seq<usize>, Seq<char>)>,
    k: int,
    e: int,
)
    requires
        is_linux_topology(topology, allowed, cores),
    ensures
        topology.logical_cpus@ == allowed,
        cores.len() > 0 ==> topology.physical_cores == cores.len(),
        cores.len() == 0 ==> topology.physical_cores == 1 && topology.core_classes@.len() == 0,
        topology.core_groups@.len() == cores.len(),
        0 <= e < cores.len() ==> topology.core_groups@[e]@ == cores[e].0,
        allowed.len() <= topology.smt_threads_per_core * topology.physical_cores,
        allowed.len() > 0 ==> (topology.smt_threads_per_core - 1) * topology.physical_cores
            < allowed.len(),
        allowed.len() == 0 ==> topology.smt_threads_per_core == 0,
        0 <= e < cores.len() ==> exists|j: int|
            0 <= j < topology.core_classes@.len() && (#[trigger] topology.core_classes@[j]).id@
                == cores[e].1,
        0 <= k < topology.core_classes@.len() ==> exists|j: int|
            0 <= j < cores.len() && (#[trigger] cores[j]).1 == topology.core_classes@[k].id@,
        0 < k < topology.core_classes@.len() ==> text_less(
            topology.core_classes@[k - 1].id@,
            topology.core_classes@[k].id@,
        ),
        0 <= k < topology.core_classes@.len() ==> topology.core_classes@[k].logical_cpus@
            == class_cpus(cores, topology.core_classes@[k].id@),
        0 <= k < topology.core_classes@.len() ==> topology.core_classes@[k].physical_cores
            == class_core_count(cores, topology.core_classes@[k].id@),
        topology.source@ == "Linux sysfs topology intersected with sched_getaffinity"@,
{
    let groups = topology.core_groups@;
    let classes = topology.core_classes@;
    let ids = class_ids(classes);
    assert(group_views(groups).len() == groups.len());
    threads_per_core_suffice(allowed.len(), topology.physical_cores as nat);
    if allowed.len() == 0 {
        vstd::arithmetic::div_mod::lemma_basic_div(0, topology.physical_cores as int);
        vstd::arithmetic::div_mod::lemma_small_mod(0, topology.physical_cores as nat);
    }
    if cores.len() == 0 && classes.len() > 0 {
        assert(ids[0] == classes[0].id@);
        assert(ids.to_set().contains(ids[0]));
        assert(core_classes(cores).to_set().contains(ids[0]));
    }
    if 0 <= e < cores.len() {
        assert(group_views(groups)[e] == core_keys(cores)[e]);
        assert(groups[e]@ == group_views(groups)[e]);
        assert(core_classes(cores)[e] == cores[e].1);
        assert(core_classes(cores).to_set().contains(cores[e].1));
        assert(ids.to_set().contains(cores[e].1));
        let j = choose|j: int| 0 <= j < ids.len() && ids[j] == cores[e].1;
        assert(classes[j].id@ == cores[e].1);
    }
    if 0 <= k < classes.len() {
        assert(ids[k] == classes[k].id@);
        assert(ids.to_set().contains(ids[k]));
        assert(core_classes(cores).to_set().contains(ids[k]));
        let m = choose|m: int|
            0 <= m < core_classes(cores).len() && core_classes(cores)[m] == ids[k];
        assert(cores[m].1 == ids[k]);
    }
    if 0 < k < classes.len() {
        assert(ids[k - 1] == classes[k - 1].id@);
        ascending_where_every_two_are(ids, Seq::empty());
        assert(text_less(ids[k - 1], ids[k]));
    }
}

/// The cores of a table are seen as their CPUs and their classes, one for one.
pub proof fn cores_are_seen_whole(
    entries: Seq<CoreEntry>,
    cores: Seq<(Seq<usize>, Seq<char>)>,
    i: int,
)
    ensures
        core_views(entries).len() == entries.len(),
        0 <= i < entries.len() ==> core_views(entries)[i] == (entries[i].cpus@, entries[i].class@),
        core_classes(cores).len() == cores.len(),
        0 <= i < cores.len() ==> core_classes(cores)[i] == cores[i].1,
{
}

} // verus!
