//! The CPUs of a machine and the stages in which they are benchmarked.

use vstd::prelude::*;
use crate::text::decimal_of;
#[allow(unused_imports)]
use crate::text::{decimal, decimal_reads_back, parse_nat};

verus! {

/// A class of cores with the same throughput.
#[derive(Debug, Clone)]
pub struct CpuCoreClass {
    pub id: String,
    pub logical_cpus: Vec<usize>,
    pub physical_cores: usize,
}

/// The CPUs that the process may use, and how they share cores.
#[derive(Debug, Clone)]
pub struct CpuTopology {
    pub logical_cpus: Vec<usize>,
    pub physical_cores: usize,
    pub smt_threads_per_core: usize,
    pub core_classes: Vec<CpuCoreClass>,
    pub source: String,
    pub core_groups: Vec<Vec<usize>>,
}

/// The identifiers of the core classes.
pub open spec fn class_ids(classes: Seq<CpuCoreClass>) -> Seq<Seq<char>> {
    classes.map_values(|c: CpuCoreClass| c.id@)
}

/// The contents of a list of CPU lists.
pub open spec fn group_views(groups: Seq<Vec<usize>>) -> Seq<Seq<usize>> {
    groups.map_values(|g: Vec<usize>| g@)
}

/// `a` divided by `b`, rounded up.
pub open spec fn ceil_div(a: nat, b: nat) -> nat {
    if a % b == 0 {
        a / b
    } else {
        a / b + 1
    }
}

/// `a` divided by `b`, rounded up.
pub fn div_rounded_up(a: usize, b: usize) -> (r: usize)
    requires
        b > 0,
    ensures
        r == ceil_div(a as nat, b as nat),
{
    let q: usize = a / b;
    if a % b == 0 {
        q
    } else {
        assert(q < usize::MAX) by (nonlinear_arith)
            requires
                b > 0,
                a % b != 0,
                q == a / b,
        ;
        q + 1
    }
}

/// As many threads on each core as the quotient of CPUs and cores, rounded up, are enough for all
/// CPUs, and one thread fewer is not.
pub proof fn threads_per_core_suffice(cpus: nat, cores: nat)
    requires
        cores > 0,
    ensures
        cpus <= ceil_div(cpus, cores) * cores,
        cpus > 0 ==> (ceil_div(cpus, cores) - 1) * cores < cpus,
{
    let q = cpus / cores;
    vstd::arithmetic::div_mod::lemma_fundamental_div_mod(cpus as int, cores as int);
    vstd::arithmetic::div_mod::lemma_mod_bound(cpus as int, cores as int);
    assert(cores * q == q * cores) by (nonlinear_arith);
    assert((q + 1) * cores == q * cores + cores) by (nonlinear_arith);
    assert((q - 1) * cores == q * cores - cores) by (nonlinear_arith);
}

/// The numbers below `n`, ascending.
pub open spec fn first_cpus(n: nat) -> Seq<usize> {
    Seq::new(n, |i: int| i as usize)
}

/// The numbers below `n`, ascending.
pub fn cpus_below(n: usize) -> (r: Vec<usize>)
    ensures
        r@ == first_cpus(n as nat),
{
    let mut out: Vec<usize> = Vec::new();
    for i in 0..n
        invariant
            out@ == first_cpus(i as nat),
    {
        out.push(i);
        assert(first_cpus(i as nat).push(i) =~= first_cpus((i + 1) as nat));
    }
    out
}

/// A copy of `cpus`.
pub fn copy_cpus(cpus: &Vec<usize>) -> (r: Vec<usize>)
    ensures
        r@ == cpus@,
{
    let mut out: Vec<usize> = Vec::new();
    append_cpus(&mut out, cpus);
    assert(Seq::<usize>::empty() + cpus@ == cpus@);
    out
}

/// Appends `more` to `out`.
pub fn append_cpus(out: &mut Vec<usize>, more: &Vec<usize>)
    ensures
        final(out)@ == old(out)@ + more@,
{
    for i in 0..more.len()
        invariant
            out@ == old(out)@ + more@.take(i as int),
    {
        out.push(more[i]);
        assert((old(out)@ + more@.take(i as int)).push(more@[i as int]) =~= old(out)@ + more@.take(
            i + 1,
        ));
    }
    assert(more@.take(more@.len() as int) == more@);
    assert(old(out)@ + more@.take(0) =~= old(out)@);
}

/// The members of `cpus` that are among `chosen`, in order.
pub open spec fn kept_cpus(cpus: Seq<usize>, chosen: Seq<usize>) -> Seq<usize>
    decreases cpus.len(),
{
    if cpus.len() == 0 {
        Seq::empty()
    } else if chosen.contains(cpus.last()) {
        kept_cpus(cpus.drop_last(), chosen).push(cpus.last())
    } else {
        kept_cpus(cpus.drop_last(), chosen)
    }
}

/// Is `cpu` in the list?
pub fn has_cpu(cpus: &Vec<usize>, cpu: usize) -> (r: bool)
    ensures
        r == cpus@.contains(cpu),
{
    let mut i: usize = 0;
    while i < cpus.len()
        invariant
            i <= cpus.len(),
            forall|k: int| 0 <= k < i ==> cpus@[k] != cpu,
        decreases cpus.len() - i,
    {
        if cpus[i] == cpu {
            return true;
        }
        i = i + 1;
    }
    false
}

/// The members of `cpus` that are among `chosen`, in order.
pub fn keep_cpus(cpus: &Vec<usize>, chosen: &Vec<usize>) -> (r: Vec<usize>)
    ensures
        r@ == kept_cpus(cpus@, chosen@),
{
    let mut out: Vec<usize> = Vec::new();
    for i in 0..cpus.len()
        invariant
            out@ == kept_cpus(cpus@.take(i as int), chosen@),
    {
        assert(cpus@.take(i + 1).drop_last() == cpus@.take(i as int));
        if has_cpu(chosen, cpus[i]) {
            out.push(cpus[i]);
        }
    }
    assert(cpus@.take(cpus@.len() as int) == cpus@);
    out
}

/// The CPUs of the classes, class by class.
pub open spec fn classes_cpus(classes: Seq<CpuCoreClass>) -> Seq<usize>
    decreases classes.len(),
{
    if classes.len() == 0 {
        Seq::empty()
    } else {
        classes_cpus(classes.drop_last()) + classes.last().logical_cpus@
    }
}

/// The first occurrences of the members of `s`, in order.
pub open spec fn without_repeats(s: Seq<usize>) -> Seq<usize>
    decreases s.len(),
{
    if s.len() == 0 {
        Seq::empty()
    } else if s.drop_last().contains(s.last()) {
        without_repeats(s.drop_last())
    } else {
        without_repeats(s.drop_last()).push(s.last())
    }
}

/// Every CPU that a benchmark may use, in topology order.
pub open spec fn usable_cpus(topology: CpuTopology) -> Seq<usize> {
    let cpus = without_repeats(classes_cpus(topology.core_classes@));
    if cpus.len() == 0 {
        topology.logical_cpus@
    } else {
        cpus
    }
}

/// The first `requested` of the usable CPUs; all of them where `requested` is 0.
pub open spec fn selected_cpus(topology: CpuTopology, requested: nat) -> Seq<usize> {
    let cpus = usable_cpus(topology);
    if 0 < requested < cpus.len() {
        cpus.take(requested as int)
    } else {
        cpus
    }
}

/// The CPUs of the classes, class by class.
fn cpus_of_classes(classes: &Vec<CpuCoreClass>) -> (r: Vec<usize>)
    ensures
        r@ == classes_cpus(classes@),
{
    let mut out: Vec<usize> = Vec::new();
    for i in 0..classes.len()
        invariant
            out@ == classes_cpus(classes@.take(i as int)),
    {
        assert(classes@.take(i + 1).drop_last() == classes@.take(i as int));
        append_cpus(&mut out, &classes[i].logical_cpus);
    }
    assert(classes@.take(classes@.len() as int) == classes@);
    out
}

/// The members of a sequence and of its first occurrences are the same.
pub proof fn without_repeats_keeps_members(s: Seq<usize>)
    ensures
        forall|c: usize| #[trigger] without_repeats(s).contains(c) <==> s.contains(c),
    decreases s.len(),
{
    if s.len() > 0 {
        let init = s.drop_last();
        without_repeats_keeps_members(init);
        assert forall|c: usize| #[trigger] without_repeats(s).contains(c) <==> s.contains(c) by {
            let rest = without_repeats(init);
            assert(rest.contains(c) <==> init.contains(c));
            assert(s.contains(c) <==> init.contains(c) || c == s.last()) by {
                if init.contains(c) {
                    let k = choose|k: int| 0 <= k < init.len() && init[k] == c;
                    assert(s[k] == c);
                }
                if c == s.last() {
                    assert(s[s.len() - 1] == c);
                }
                if s.contains(c) && c != s.last() {
                    let k = choose|k: int| 0 <= k < s.len() && s[k] == c;
                    assert(init[k] == c);
                }
            }
            if !init.contains(s.last()) {
                let grown = rest.push(s.last());
                if rest.contains(c) {
                    let k = choose|k: int| 0 <= k < rest.len() && rest[k] == c;
                    assert(grown[k] == c);
                }
                if c == s.last() {
                    assert(grown[rest.len() as int] == c);
                }
                if grown.contains(c) && c != s.last() {
                    let k = choose|k: int| 0 <= k < grown.len() && grown[k] == c;
                    assert(rest[k] == c);
                }
            }
        }
    }
}

/// The CPUs to benchmark: the first `requested` in topology order, or all where it is 0.
pub fn select_cpus(topology: &CpuTopology, requested: usize) -> (r: Vec<usize>)
    ensures
        r@ == selected_cpus(*topology, requested as nat),
{
    let named = cpus_of_classes(&topology.core_classes);
    let mut cpus: Vec<usize> = Vec::new();
    for i in 0..named.len()
        invariant
            cpus@ == without_repeats(named@.take(i as int)),
    {
        assert(named@.take(i + 1).drop_last() == named@.take(i as int));
        proof {
            without_repeats_keeps_members(named@.take(i as int));
        }
        if !has_cpu(&cpus, named[i]) {
            cpus.push(named[i]);
        }
    }
    assert(named@.take(named@.len() as int) == named@);
    if cpus.len() == 0 {
        cpus = copy_cpus(&topology.logical_cpus);
    }
    if requested != 0 && requested < cpus.len() {
        cpus.truncate(requested);
    }
    cpus
}

/// A stage of the benchmark: the CPUs that it loads, and their class where they are one class.
#[derive(Debug, Clone)]
pub struct CpuStage {
    pub id: String,
    pub cpu_class: Option<String>,
    pub cpus: Vec<usize>,
}

/// A stage as its identifier, its class and its CPUs.
pub open spec fn stage_view(stage: CpuStage) -> (Seq<char>, Option<Seq<char>>, Seq<usize>) {
    (
        stage.id@,
        match stage.cpu_class {
            Some(class) => Some(class@),
            None => None,
        },
        stage.cpus@,
    )
}

pub open spec fn stage_views(stages: Seq<CpuStage>) -> Seq<
    (Seq<char>, Option<Seq<char>>, Seq<usize>),
> {
    stages.map_values(|s: CpuStage| stage_view(s))
}

/// The stages of the classes that are a genuine part of the selection: more than one CPU, and
/// fewer than all.
pub open spec fn class_stages(classes: Seq<CpuCoreClass>, selected: Seq<usize>) -> Seq<
    (Seq<char>, Option<Seq<char>>, Seq<usize>),
>
    decreases classes.len(),
{
    if classes.len() == 0 {
        Seq::empty()
    } else {
        let earlier = class_stages(classes.drop_last(), selected);
        let class = classes.last();
        let cpus = kept_cpus(class.logical_cpus@, selected);
        if 1 < cpus.len() < selected.len() {
            earlier.push((class.id@ + "-cores"@, Some(class.id@), cpus))
        } else {
            earlier
        }
    }
}

/// The first group that holds `cpu`, or the number of groups where none does.
pub open spec fn first_group(groups: Seq<Vec<usize>>, cpu: usize) -> nat
    decreases groups.len(),
{
    if groups.len() == 0 || groups[0]@.contains(cpu) {
        0
    } else {
        1 + first_group(groups.skip(1), cpu)
    }
}

/// The number by which the core of `cpu` is known: that of its group, or its own.
pub open spec fn core_number(topology: CpuTopology, cpu: usize) -> nat {
    let group = first_group(topology.core_groups@, cpu);
    if group < topology.core_groups@.len() {
        group
    } else {
        cpu as nat
    }
}

/// The first CPU of each core, in the order of `cpus`.
pub open spec fn one_per_core(topology: CpuTopology, cpus: Seq<usize>) -> Seq<usize>
    decreases cpus.len(),
{
    if cpus.len() == 0 {
        Seq::empty()
    } else {
        let earlier = one_per_core(topology, cpus.drop_last());
        if exists|i: int|
            0 <= i < cpus.len() - 1 && core_number(topology, #[trigger] cpus[i]) == core_number(
                topology,
                cpus.last(),
            ) {
            earlier
        } else {
            earlier.push(cpus.last())
        }
    }
}

/// The stages in which the selected CPUs are benchmarked.
pub open spec fn stage_plan(topology: CpuTopology, selected: Seq<usize>) -> Seq<
    (Seq<char>, Option<Seq<char>>, Seq<usize>),
> {
    let single = seq![("single-thread"@, None::<Seq<char>>, selected.take(1))];
    let classes = class_stages(topology.core_classes@, selected);
    let cores = one_per_core(topology, kept_cpus(classes_cpus(topology.core_classes@), selected));
    let physical = if 1 < cores.len() < selected.len() {
        seq![("physical-cores"@, None::<Seq<char>>, cores)]
    } else {
        Seq::empty()
    };
    let all = if selected.len() > 1 {
        seq![("all-logical"@, None::<Seq<char>>, selected)]
    } else {
        Seq::empty()
    };
    single + classes + physical + all
}

/// The number by which the core of `cpu` is known.
pub fn core_key(topology: &CpuTopology, cpu: usize) -> (r: usize)
    ensures
        r == core_number(*topology, cpu),
{
    let groups = &topology.core_groups;
    let mut i: usize = 0;
    assert(groups@.skip(0) == groups@);
    while i < groups.len()
        invariant
            i <= groups.len(),
            *groups == topology.core_groups,
            first_group(groups@, cpu) == i + first_group(groups@.skip(i as int), cpu),
        decreases groups.len() - i,
    {
        if has_cpu(&groups[i], cpu) {
            return i;
        }
        assert(groups@.skip(i as int).skip(1) == groups@.skip(i + 1));
        i = i + 1;
    }
    cpu
}

/// The first CPU of each core, in the order of `cpus`.
fn first_of_cores(topology: &CpuTopology, cpus: &Vec<usize>) -> (r: Vec<usize>)
    ensures
        r@ == one_per_core(*topology, cpus@),
{
    let mut out: Vec<usize> = Vec::new();
    let mut seen: Vec<usize> = Vec::new();
    for i in 0..cpus.len()
        invariant
            seen@.len() == i,
            forall|k: int|
                0 <= k < i ==> #[trigger] seen@[k] == core_number(*topology, cpus@[k]),
            out@ == one_per_core(*topology, cpus@.take(i as int)),
    {
        let key: usize = core_key(topology, cpus[i]);
        let ghost upto = cpus@.take(i + 1);
        assert(upto.drop_last() == cpus@.take(i as int));
        if has_cpu(&seen, key) {
            proof {
                let k = choose|k: int| 0 <= k < seen@.len() && seen@[k] == key;
                assert(core_number(*topology, upto[k]) == core_number(*topology, upto.last()));
            }
        } else {
            proof {
                assert forall|k: int| 0 <= k < upto.len() - 1 implies core_number(
                    *topology,
                    #[trigger] upto[k],
                ) != core_number(*topology, upto.last()) by {
                    assert(seen@[k] == core_number(*topology, cpus@[k]));
                }
            }
            out.push(cpus[i]);
        }
        seen.push(key);
    }
    assert(cpus@.take(cpus@.len() as int) == cpus@);
    out
}

/// The stages in which the selected CPUs are benchmarked: one CPU, each class that is a genuine
/// part of the selection, one CPU per core, and all of them.
pub fn topology_stages(topology: &CpuTopology, selected: &Vec<usize>) -> (r: Vec<CpuStage>)
    requires
        selected.len() > 0,
    ensures
        stage_views(r@) == stage_plan(*topology, selected@),
{
    let mut stages: Vec<CpuStage> = Vec::new();
    let mut first: Vec<usize> = Vec::new();
    first.push(selected[0]);
    assert(first@ =~= selected@.take(1));
    stages.push(CpuStage { id: "single-thread".to_string(), cpu_class: None, cpus: first });
    let ghost single = seq![("single-thread"@, None::<Seq<char>>, selected@.take(1))];
    let classes = &topology.core_classes;
    assert(stage_views(stages@) =~= single + class_stages(classes@.take(0), selected@));
    for i in 0..classes.len()
        invariant
            *classes == topology.core_classes,
            stage_views(stages@) == single + class_stages(classes@.take(i as int), selected@),
    {
        assert(classes@.take(i + 1).drop_last() == classes@.take(i as int));
        let cpus = keep_cpus(&classes[i].logical_cpus, selected);
        if cpus.len() > 1 && cpus.len() < selected.len() {
            let ghost before = stages@;
            let mut id = classes[i].id.clone();
            id.append("-cores");
            let stage = CpuStage { id, cpu_class: Some(classes[i].id.clone()), cpus };
            stages.push(stage);
            proof {
                assert(stage_views(stages@) =~= stage_views(before).push(stage_view(stage)));
                assert((single + class_stages(classes@.take(i as int), selected@)).push(
                    stage_view(stage),
                ) =~= single + class_stages(classes@.take(i as int), selected@).push(
                    stage_view(stage),
                ));
            }
        }
    }
    assert(classes@.take(classes@.len() as int) == classes@);
    let named = cpus_of_classes(classes);
    let physical = keep_cpus(&named, selected);
    let cores = first_of_cores(topology, &physical);
    let ghost so_far = stage_views(stages@);
    if cores.len() > 1 && cores.len() < selected.len() {
        let ghost before = stages@;
        let stage = CpuStage { id: "physical-cores".to_string(), cpu_class: None, cpus: cores };
        stages.push(stage);
        assert(stage_views(stages@) =~= stage_views(before).push(stage_view(stage)));
        assert(stage_views(stages@) =~= so_far + seq![stage_view(stage)]);
    } else {
        assert(stage_views(stages@) =~= so_far + Seq::empty());
    }
    let ghost so_far = stage_views(stages@);
    if selected.len() > 1 {
        let ghost before = stages@;
        let stage = CpuStage {
            id: "all-logical".to_string(),
            cpu_class: None,
            cpus: copy_cpus(selected),
        };
        stages.push(stage);
        assert(stage_views(stages@) =~= stage_views(before).push(stage_view(stage)));
        assert(stage_views(stages@) =~= so_far + seq![stage_view(stage)]);
    } else {
        assert(stage_views(stages@) =~= so_far + Seq::empty());
    }
    stages
}

/// A CPU limit takes the first CPUs in topology order: no more than the limit, all of them where
/// it is 0, and never fewer than asked for while there are more.
pub proof fn limit_takes_a_prefix(topology: CpuTopology, requested: nat)
    ensures
        selected_cpus(topology, requested).is_prefix_of(usable_cpus(topology)),
        requested == 0 ==> selected_cpus(topology, requested) == usable_cpus(topology),
        requested > 0 ==> selected_cpus(topology, requested).len() == if requested
            < usable_cpus(topology).len() {
            requested
        } else {
            usable_cpus(topology).len()
        },
{
    let cpus = usable_cpus(topology);
    assert(cpus.subrange(0, cpus.len() as int) == cpus);
}

/// A higher limit keeps the CPUs of a lower one, in front.
pub proof fn higher_limit_extends(topology: CpuTopology, low: nat, high: nat)
    requires
        0 < low <= high,
    ensures
        selected_cpus(topology, low).is_prefix_of(selected_cpus(topology, high)),
{
    let cpus = usable_cpus(topology);
    assert(cpus.take(cpus.len() as int) == cpus);
    if low < cpus.len() {
        if high < cpus.len() {
            assert(cpus.take(high as int).take(low as int) == cpus.take(low as int));
        }
    }
}

proof fn lemma_without_repeats_distinct(s: Seq<usize>)
    ensures
        without_repeats(s).no_duplicates(),
    decreases s.len(),
{
    if s.len() > 0 {
        lemma_without_repeats_distinct(s.drop_last());
        without_repeats_keeps_members(s.drop_last());
        if !s.drop_last().contains(s.last()) {
            let rest = without_repeats(s.drop_last());
            assert(!rest.contains(s.last()));
        }
    }
}

/// No CPU is selected twice, where the list of logical CPUs repeats none.
pub proof fn selection_repeats_none(topology: CpuTopology, requested: nat)
    requires
        topology.logical_cpus@.no_duplicates(),
    ensures
        selected_cpus(topology, requested).no_duplicates(),
{
    lemma_without_repeats_distinct(classes_cpus(topology.core_classes@));
}

/// Without a limit the CPUs of all classes are selected, and no others, where the classes have any.
pub proof fn selection_covers_classes(topology: CpuTopology)
    requires
        classes_cpus(topology.core_classes@).len() > 0,
    ensures
        forall|c: usize| #[trigger]
            selected_cpus(topology, 0).contains(c) <==> classes_cpus(
                topology.core_classes@,
            ).contains(c),
{
    let all = classes_cpus(topology.core_classes@);
    without_repeats_keeps_members(all);
    assert(all.contains(all[0]));
    assert(without_repeats(all).contains(all[0]));
}

/// `kept_cpus` keeps exactly the members that are among the chosen.
pub proof fn lemma_kept_members(cpus: Seq<usize>, chosen: Seq<usize>)
    ensures
        forall|c: usize| #[trigger]
            kept_cpus(cpus, chosen).contains(c) <==> cpus.contains(c) && chosen.contains(c),
    decreases cpus.len(),
{
    if cpus.len() > 0 {
        let init = cpus.drop_last();
        lemma_kept_members(init, chosen);
        assert forall|c: usize| #[trigger]
            kept_cpus(cpus, chosen).contains(c) <==> cpus.contains(c) && chosen.contains(c) by {
            let rest = kept_cpus(init, chosen);
            assert(rest.contains(c) <==> init.contains(c) && chosen.contains(c));
            assert(cpus.contains(c) <==> init.contains(c) || c == cpus.last()) by {
                if init.contains(c) {
                    let k = choose|k: int| 0 <= k < init.len() && init[k] == c;
                    assert(cpus[k] == c);
                }
                if c == cpus.last() {
                    assert(cpus[cpus.len() - 1] == c);
                }
                if cpus.contains(c) && c != cpus.last() {
                    let k = choose|k: int| 0 <= k < cpus.len() && cpus[k] == c;
                    assert(init[k] == c);
                }
            }
            if chosen.contains(cpus.last()) {
                let grown = rest.push(cpus.last());
                if rest.contains(c) {
                    let k = choose|k: int| 0 <= k < rest.len() && rest[k] == c;
                    assert(grown[k] == c);
                }
                if c == cpus.last() {
                    assert(grown[rest.len() as int] == c);
                }
                if grown.contains(c) && c != cpus.last() {
                    let k = choose|k: int| 0 <= k < grown.len() && grown[k] == c;
                    assert(rest[k] == c);
                }
            }
        }
    }
}

proof fn lemma_class_stages(classes: Seq<CpuCoreClass>, selected: Seq<usize>)
    ensures
        forall|i: int|
            0 <= i < class_stages(classes, selected).len() ==> {
                let stage = #[trigger] class_stages(classes, selected)[i];
                &&& 1 < stage.2.len() < selected.len()
                &&& stage.1 is Some
                &&& stage.0 == stage.1->0 + "-cores"@
                &&& forall|c: usize| stage.2.contains(c) ==> selected.contains(c)
            },
    decreases classes.len(),
{
    if classes.len() > 0 {
        lemma_class_stages(classes.drop_last(), selected);
        lemma_kept_members(classes.last().logical_cpus@, selected);
        let earlier = class_stages(classes.drop_last(), selected);
        let stages = class_stages(classes, selected);
        assert forall|i: int| 0 <= i < stages.len() implies {
            let stage = #[trigger] stages[i];
            &&& 1 < stage.2.len() < selected.len()
            &&& stage.1 is Some
            &&& stage.0 == stage.1->0 + "-cores"@
            &&& forall|c: usize| stage.2.contains(c) ==> selected.contains(c)
        } by {
            if i < earlier.len() {
                assert(stages[i] == earlier[i]);
            }
        }
    }
}

/// What `one_per_core` keeps: CPUs of pairwise different cores, and one for every core.
pub proof fn lemma_one_per_core(topology: CpuTopology, cpus: Seq<usize>)
    ensures
        forall|i: int, j: int|
            0 <= i < j < one_per_core(topology, cpus).len() ==> core_number(
                topology,
                #[trigger] one_per_core(topology, cpus)[i],
            ) != core_number(topology, #[trigger] one_per_core(topology, cpus)[j]),
        forall|i: int|
            0 <= i < one_per_core(topology, cpus).len() ==> cpus.contains(
                #[trigger] one_per_core(topology, cpus)[i],
            ),
        forall|c: usize| #[trigger]
            cpus.contains(c) ==> exists|i: int|
                0 <= i < one_per_core(topology, cpus).len() && core_number(
                    topology,
                    #[trigger] one_per_core(topology, cpus)[i],
                ) == core_number(topology, c),
    decreases cpus.len(),
{
    if cpus.len() > 0 {
        let init = cpus.drop_last();
        lemma_one_per_core(topology, init);
        let earlier = one_per_core(topology, init);
        let kept = one_per_core(topology, cpus);
        assert forall|i: int| 0 <= i < kept.len() implies cpus.contains(#[trigger] kept[i]) by {
            if i < earlier.len() {
                assert(kept[i] == earlier[i]);
                let k = choose|k: int| 0 <= k < init.len() && init[k] == earlier[i];
                assert(cpus[k] == kept[i]);
            } else {
                assert(cpus[cpus.len() - 1] == kept[i]);
            }
        }
        assert forall|i: int, j: int| 0 <= i < j < kept.len() implies core_number(
            topology,
            #[trigger] kept[i],
        ) != core_number(topology, #[trigger] kept[j]) by {
            assert(kept[i] == earlier[i]);
            if j < earlier.len() {
                assert(kept[j] == earlier[j]);
            } else {
                let k = choose|k: int| 0 <= k < init.len() && init[k] == earlier[i];
                assert(cpus[k] == kept[i]);
            }
        }
        assert forall|c: usize| #[trigger] cpus.contains(c) implies exists|i: int|
            0 <= i < kept.len() && core_number(topology, #[trigger] kept[i]) == core_number(
                topology,
                c,
            ) by {
            let m = choose|m: int| 0 <= m < cpus.len() && cpus[m] == c;
            if m < init.len() {
                assert(init[m] == c);
                assert(init.contains(c));
                let i = choose|i: int|
                    0 <= i < earlier.len() && core_number(topology, #[trigger] earlier[i])
                        == core_number(topology, c);
                assert(kept[i] == earlier[i]);
            } else if exists|i: int|
                0 <= i < cpus.len() - 1 && core_number(topology, #[trigger] cpus[i])
                    == core_number(topology, cpus.last()) {
                let k = choose|i: int|
                    0 <= i < cpus.len() - 1 && core_number(topology, #[trigger] cpus[i])
                        == core_number(topology, cpus.last());
                assert(init[k] == cpus[k]);
                assert(init.contains(cpus[k]));
                let i = choose|i: int|
                    0 <= i < earlier.len() && core_number(topology, #[trigger] earlier[i])
                        == core_number(topology, cpus[k]);
                assert(kept[i] == earlier[i]);
            } else {
                assert(kept[earlier.len() as int] == c);
            }
        }
    }
}

/// The first stage is `single-thread` on one CPU, and every other stage loads more than one.
pub proof fn only_the_first_stage_is_single(topology: CpuTopology, selected: Seq<usize>)
    requires
        selected.len() > 0,
    ensures
        stage_plan(topology, selected).len() > 0,
        stage_plan(topology, selected)[0] == ("single-thread"@, None::<Seq<char>>, selected.take(1)),
        forall|i: int|
            1 <= i < stage_plan(topology, selected).len() ==> (#[trigger] stage_plan(
                topology,
                selected,
            )[i]).2.len() > 1,
{
    lemma_class_stages(topology.core_classes@, selected);
    let classes = class_stages(topology.core_classes@, selected);
    let plan = stage_plan(topology, selected);
    assert forall|i: int| 1 <= i < plan.len() implies (#[trigger] plan[i]).2.len() > 1 by {
        if i < 1 + classes.len() {
            assert(plan[i] == classes[i - 1]);
        }
    }
}

/// A stage of one class is named after it; the first of the others is `single-thread`, and the
/// last two can be `physical-cores` and `all-logical`.
pub proof fn class_stages_are_named_after_the_class(
    topology: CpuTopology,
    selected: Seq<usize>,
    i: int,
)
    requires
        selected.len() > 0,
        0 <= i < stage_plan(topology, selected).len(),
    ensures
        match stage_plan(topology, selected)[i].1 {
            Some(class) => stage_plan(topology, selected)[i].0 == class + "-cores"@,
            None => {
                ||| i == 0 && stage_plan(topology, selected)[i].0 == "single-thread"@
                ||| i == stage_plan(topology, selected).len() - 2 && stage_plan(
                    topology,
                    selected,
                )[i].0 == "physical-cores"@
                ||| i == stage_plan(topology, selected).len() - 1 && stage_plan(
                    topology,
                    selected,
                )[i].0 == "all-logical"@
            },
        },
{
    lemma_class_stages(topology.core_classes@, selected);
    let classes = class_stages(topology.core_classes@, selected);
    if 1 <= i < 1 + classes.len() {
        assert(stage_plan(topology, selected)[i] == classes[i - 1]);
    }
}

/// With more than one CPU selected the last stage is `all-logical` on all of them; with one CPU
/// there is a single stage.
pub proof fn last_stage_loads_all(topology: CpuTopology, selected: Seq<usize>)
    requires
        selected.len() > 0,
    ensures
        selected.len() > 1 ==> stage_plan(topology, selected).last() == (
            "all-logical"@,
            None::<Seq<char>>,
            selected,
        ),
        selected.len() == 1 ==> stage_plan(topology, selected).len() == 1,
        stage_plan(topology, selected).last().2 == selected,
{
    lemma_class_stages(topology.core_classes@, selected);
    let classes = class_stages(topology.core_classes@, selected);
    if selected.len() == 1 {
        if classes.len() > 0 {
            assert(classes[0].2.len() < 1);
        }
        assert(selected.take(1) == selected);
    }
}

/// Every stage loads CPUs of the selection only, and at least one.
pub proof fn stages_load_selected_cpus(topology: CpuTopology, selected: Seq<usize>)
    requires
        selected.len() > 0,
    ensures
        forall|i: int|
            0 <= i < stage_plan(topology, selected).len() ==> {
                let cpus = (#[trigger] stage_plan(topology, selected)[i]).2;
                &&& 0 < cpus.len() <= selected.len()
                &&& forall|c: usize| cpus.contains(c) ==> selected.contains(c)
            },
{
    lemma_class_stages(topology.core_classes@, selected);
    let classes = class_stages(topology.core_classes@, selected);
    let named = kept_cpus(classes_cpus(topology.core_classes@), selected);
    let cores = one_per_core(topology, named);
    lemma_kept_members(classes_cpus(topology.core_classes@), selected);
    lemma_one_per_core(topology, named);
    let plan = stage_plan(topology, selected);
    assert forall|i: int| 0 <= i < plan.len() implies {
        let cpus = (#[trigger] plan[i]).2;
        &&& 0 < cpus.len() <= selected.len()
        &&& forall|c: usize| cpus.contains(c) ==> selected.contains(c)
    } by {
        let cpus = plan[i].2;
        if i == 0 {
            assert forall|c: usize| cpus.contains(c) implies selected.contains(c) by {
                assert(cpus == selected.take(1));
                assert(selected[0] == c);
            }
        } else if i < 1 + classes.len() {
            assert(plan[i] == classes[i - 1]);
        } else if cpus == cores {
            assert forall|c: usize| cpus.contains(c) implies selected.contains(c) by {
                let k = choose|k: int| 0 <= k < cores.len() && cores[k] == c;
                assert(named.contains(cores[k]));
            }
        } else {
            assert(cpus == selected);
        }
    }
}

/// The `physical-cores` stage loads one CPU of each core that the selected CPUs of the classes are
/// on. Where it is, `all-logical` follows it, with more CPUs.
pub proof fn physical_stage_takes_one_cpu_per_core(
    topology: CpuTopology,
    selected: Seq<usize>,
    i: int,
)
    requires
        selected.len() > 0,
        0 <= i < stage_plan(topology, selected).len(),
        stage_plan(topology, selected)[i].1 is None,
        stage_plan(topology, selected)[i].0 == "physical-cores"@,
    ensures
        i == stage_plan(topology, selected).len() - 2,
        stage_plan(topology, selected)[i].2.len() < selected.len(),
        forall|a: int, b: int|
            0 <= a < b < stage_plan(topology, selected)[i].2.len() ==> core_number(
                topology,
                #[trigger] stage_plan(topology, selected)[i].2[a],
            ) != core_number(topology, #[trigger] stage_plan(topology, selected)[i].2[b]),
        forall|c: usize|
            selected.contains(c) && #[trigger] classes_cpus(topology.core_classes@).contains(c)
                ==> exists|a: int|
                0 <= a < stage_plan(topology, selected)[i].2.len() && core_number(
                    topology,
                    #[trigger] stage_plan(topology, selected)[i].2[a],
                ) == core_number(topology, c),
{
    lemma_class_stages(topology.core_classes@, selected);
    let classes = class_stages(topology.core_classes@, selected);
    let all = classes_cpus(topology.core_classes@);
    let named = kept_cpus(all, selected);
    lemma_kept_members(all, selected);
    lemma_one_per_core(topology, named);
    let plan = stage_plan(topology, selected);
    reveal_strlit("single-thread");
    reveal_strlit("physical-cores");
    reveal_strlit("all-logical");
    assert("single-thread"@.len() == 13);
    assert("physical-cores"@.len() == 14);
    assert("all-logical"@.len() == 11);
    if 1 <= i < 1 + classes.len() {
        assert(plan[i] == classes[i - 1]);
    }
    let cores = one_per_core(topology, named);
    assert(plan[i].2 == cores);
    assert forall|c: usize| selected.contains(c) && #[trigger] all.contains(c) implies exists|a: int|
        0 <= a < cores.len() && core_number(topology, #[trigger] cores[a]) == core_number(
            topology,
            c,
        ) by {
        assert(named.contains(c));
    }
}

/// Each CPU as a group of its own.
pub open spec fn single_groups(n: nat) -> Seq<Seq<usize>> {
    Seq::new(n, |i: int| seq![i as usize])
}

/// Each of the first `n` CPUs as a group of its own.
pub fn groups_of_one(n: usize) -> (r: Vec<Vec<usize>>)
    ensures
        group_views(r@) == single_groups(n as nat),
{
    let mut out: Vec<Vec<usize>> = Vec::new();
    assert(group_views(out@) =~= single_groups(0));
    for i in 0..n
        invariant
            group_views(out@) == single_groups(i as nat),
    {
        let ghost before = out@;
        let mut group: Vec<usize> = Vec::new();
        group.push(i);
        assert(group@ =~= seq![i]);
        out.push(group);
        assert(group_views(out@) =~= group_views(before).push(seq![i]));
        assert(single_groups((i + 1) as nat) =~= single_groups(i as nat).push(seq![i]));
    }
    out
}

/// Is `topology` that of `parallelism` CPUs of which nothing more is known?
pub open spec fn is_fallback_topology(
    topology: CpuTopology,
    source: Seq<char>,
    parallelism: nat,
) -> bool {
    &&& topology.logical_cpus@ == first_cpus(parallelism)
    &&& topology.physical_cores == parallelism
    &&& topology.smt_threads_per_core == 1
    &&& topology.core_classes@.len() == 1
    &&& topology.core_classes@[0].id@ == "default"@
    &&& topology.core_classes@[0].logical_cpus@ == first_cpus(parallelism)
    &&& topology.core_classes@[0].physical_cores == parallelism
    &&& topology.source@ == source
    &&& group_views(topology.core_groups@) == single_groups(parallelism)
}

/// The topology of `parallelism` CPUs of which nothing more is known.
pub fn fallback_cpu_topology(source: &str, parallelism: usize) -> (r: CpuTopology)
    ensures
        is_fallback_topology(r, source@, parallelism as nat),
{
    let mut core_classes: Vec<CpuCoreClass> = Vec::new();
    core_classes.push(
        CpuCoreClass {
            id: "default".to_string(),
            logical_cpus: cpus_below(parallelism),
            physical_cores: parallelism,
        },
    );
    CpuTopology {
        logical_cpus: cpus_below(parallelism),
        physical_cores: parallelism,
        smt_threads_per_core: 1,
        core_classes,
        source: source.to_string(),
        core_groups: groups_of_one(parallelism),
    }
}

/// One stage for each number of CPUs, from 1 through all of them.
pub open spec fn sequence_plan(selected: Seq<usize>) -> Seq<
    (Seq<char>, Option<Seq<char>>, Seq<usize>),
> {
    Seq::new(
        selected.len(),
        |i: int| ("threads-"@ + decimal((i + 1) as nat), None::<Seq<char>>, selected.take(i + 1)),
    )
}

/// One stage for each number of CPUs, from 1 through all of them.
pub fn sequence_stages(selected: &Vec<usize>) -> (r: Vec<CpuStage>)
    ensures
        stage_views(r@) == sequence_plan(selected@),
{
    let mut stages: Vec<CpuStage> = Vec::new();
    let ghost plan = sequence_plan(selected@);
    for i in 0..selected.len()
        invariant
            plan == sequence_plan(selected@),
            stage_views(stages@) == plan.take(i as int),
    {
        let ghost before = stages@;
        let mut id = "threads-".to_string();
        id.append(decimal_of(i as u64 + 1).as_str());
        let mut cpus = copy_cpus(selected);
        cpus.truncate(i + 1);
        assert(cpus@ =~= selected@.take(i + 1));
        let stage = CpuStage { id, cpu_class: None, cpus };
        stages.push(stage);
        assert(stage_views(stages@) =~= stage_views(before).push(stage_view(stage)));
        assert(plan.take(i + 1) =~= plan.take(i as int).push(plan[i as int]));
    }
    assert(plan.take(plan.len() as int) == plan);
    stages
}

/// A sequence that repeats nothing is its own first occurrences.
pub proof fn lemma_nothing_to_drop(s: Seq<usize>)
    requires
        s.no_duplicates(),
    ensures
        without_repeats(s) == s,
    decreases s.len(),
{
    if s.len() > 0 {
        lemma_nothing_to_drop(s.drop_last());
        if s.drop_last().contains(s.last()) {
            let k = choose|k: int| 0 <= k < s.drop_last().len() && s.drop_last()[k] == s.last();
            assert(s[k] == s[s.len() - 1]);
        }
        assert(s.drop_last().push(s.last()) == s);
    }
}

/// Of a machine of which nothing more is known, every CPU is used where there is no limit.
pub proof fn fallback_uses_every_cpu(topology: CpuTopology, source: Seq<char>, parallelism: nat)
    requires
        is_fallback_topology(topology, source, parallelism),
        parallelism <= usize::MAX,
    ensures
        selected_cpus(topology, 0) == first_cpus(parallelism),
{
    let classes = topology.core_classes@;
    assert(classes.drop_last() == Seq::<CpuCoreClass>::empty());
    reveal_with_fuel(classes_cpus, 2);
    assert(classes_cpus(classes) =~= first_cpus(parallelism));
    lemma_nothing_to_drop(first_cpus(parallelism));
}

/// The stages of a scaling sequence: the `i`th loads `i + 1` CPUs, those of the stage before it
/// and the next; the last loads all.
pub proof fn sequence_grows_by_one(selected: Seq<usize>, i: int)
    requires
        0 <= i < selected.len(),
    ensures
        sequence_plan(selected).len() == selected.len(),
        sequence_plan(selected)[i].2.len() == i + 1,
        i > 0 ==> sequence_plan(selected)[i].2 == sequence_plan(selected)[i - 1].2.push(selected[i]),
        i == selected.len() - 1 ==> sequence_plan(selected)[i].2 == selected,
{
    if i > 0 {
        assert(selected.take(i + 1) =~= selected.take(i).push(selected[i]));
    }
    if i == selected.len() - 1 {
        assert(selected.take(i + 1) =~= selected);
    }
}

/// The CPUs below a number are all the numbers below it, each at its own place; grouped one by one,
/// each is a group.
pub proof fn cpus_below_are_numbered_from_zero(n: nat, i: int)
    requires
        n <= usize::MAX,
    ensures
        first_cpus(n).len() == n,
        single_groups(n).len() == n,
        0 <= i < n ==> first_cpus(n)[i] == i,
        0 <= i < n ==> single_groups(n)[i].len() == 1 && single_groups(n)[i][0] == i,
{
}

/// What is kept of CPUs is decided CPU by CPU: one is kept where it is among the chosen, in its
/// place.
pub proof fn keeping_goes_cpu_by_cpu(a: Seq<usize>, b: Seq<usize>, c: usize, chosen: Seq<usize>)
    ensures
        kept_cpus(a + b, chosen) == kept_cpus(a, chosen) + kept_cpus(b, chosen),
        chosen.contains(c) ==> kept_cpus(seq![c], chosen) == seq![c],
        !chosen.contains(c) ==> kept_cpus(seq![c], chosen).len() == 0,
        kept_cpus(Seq::<usize>::empty(), chosen).len() == 0,
    decreases b.len(),
{
    assert(seq![c].drop_last() =~= Seq::<usize>::empty());
    reveal_with_fuel(kept_cpus, 2);
    assert(kept_cpus(seq![c], chosen) =~= if chosen.contains(c) {
        seq![c]
    } else {
        Seq::<usize>::empty()
    });
    if b.len() == 0 {
        assert(a + b =~= a);
        assert(kept_cpus(a, chosen) + kept_cpus(b, chosen) =~= kept_cpus(a, chosen));
    } else {
        keeping_goes_cpu_by_cpu(a, b.drop_last(), c, chosen);
        assert((a + b).drop_last() =~= a + b.drop_last());
        assert(kept_cpus(a + b, chosen) =~= kept_cpus(a, chosen) + kept_cpus(b, chosen));
    }
}

/// The CPUs of classes are those of each class, class after class.
pub proof fn classes_cpus_go_class_by_class(a: Seq<CpuCoreClass>, b: Seq<CpuCoreClass>)
    ensures
        classes_cpus(a + b) == classes_cpus(a) + classes_cpus(b),
        a.len() == 0 ==> classes_cpus(a).len() == 0,
        a.len() == 1 ==> classes_cpus(a) == a[0].logical_cpus@,
    decreases b.len(),
{
    if a.len() == 1 {
        assert(a.drop_last() =~= Seq::<CpuCoreClass>::empty());
        reveal_with_fuel(classes_cpus, 2);
        assert(classes_cpus(a) =~= a[0].logical_cpus@);
    }
    if b.len() == 0 {
        assert(a + b =~= a);
        assert(classes_cpus(a) + classes_cpus(b) =~= classes_cpus(a));
    } else {
        classes_cpus_go_class_by_class(a, b.drop_last());
        assert((a + b).drop_last() =~= a + b.drop_last());
        assert(classes_cpus(a + b) =~= classes_cpus(a) + classes_cpus(b));
    }
}

/// Leaving out repeats keeps the first occurrences in front: more CPUs behind change nothing there,
/// and none is left twice.
pub proof fn first_occurrences_stay_in_front(a: Seq<usize>, b: Seq<usize>)
    ensures
        without_repeats(a).is_prefix_of(without_repeats(a + b)),
        without_repeats(a).no_duplicates(),
    decreases b.len(),
{
    lemma_without_repeats_distinct(a);
    if b.len() == 0 {
        assert(a + b =~= a);
        assert(without_repeats(a).take(without_repeats(a).len() as int) =~= without_repeats(a));
    } else {
        first_occurrences_stay_in_front(a, b.drop_last());
        let s = a + b;
        assert(s.drop_last() =~= a + b.drop_last());
        let short = without_repeats(a);
        let middle = without_repeats(a + b.drop_last());
        let long = without_repeats(s);
        assert(long.take(short.len() as int) =~= middle.take(short.len() as int));
    }
}

/// Where the classes name CPUs, the usable CPUs are those, each once, in the order in which the
/// classes name them first; where they name none, they are the logical CPUs.
pub proof fn usable_cpus_follow_the_classes(topology: CpuTopology)
    ensures
        ({
            let named = classes_cpus(topology.core_classes@);
            let usable = usable_cpus(topology);
            if named.len() == 0 {
                usable == topology.logical_cpus@
            } else {
                &&& usable.no_duplicates()
                &&& forall|c: usize| #[trigger] usable.contains(c) <==> named.contains(c)
                &&& forall|i: int, j: int, q: int|
                    0 <= i < j < usable.len() && 0 <= q < named.len() && #[trigger] named[q]
                        == #[trigger] usable[j] ==> named.take(q).contains(#[trigger] usable[i])
            }
        }),
{
    let named = classes_cpus(topology.core_classes@);
    let usable = usable_cpus(topology);
    if named.len() > 0 {
        without_repeats_keeps_members(named);
        lemma_without_repeats_distinct(named);
        assert(named.contains(named[0]));
        assert(without_repeats(named).contains(named[0]));
        assert(usable == without_repeats(named));
        assert forall|i: int, j: int, q: int|
            0 <= i < j < usable.len() && 0 <= q < named.len() && #[trigger] named[q]
                == #[trigger] usable[j] implies named.take(q).contains(#[trigger] usable[i]) by {
            lemma_named_earlier(named, i, j, q);
        }
    }
}

proof fn lemma_named_earlier(named: Seq<usize>, i: int, j: int, q: int)
    requires
        0 <= i < j < without_repeats(named).len(),
        0 <= q < named.len(),
        named[q] == without_repeats(named)[j],
    ensures
        named.take(q).contains(without_repeats(named)[i]),
    decreases named.len(),
{
    let init = named.drop_last();
    let all = without_repeats(named);
    let earlier = without_repeats(init);
    lemma_without_repeats_distinct(named);
    if j < earlier.len() {
        assert(all[j] == earlier[j] && all[i] == earlier[i]);
        if q < init.len() {
            assert(init[q] == named[q]);
            lemma_named_earlier(init, i, j, q);
            assert(init.take(q) =~= named.take(q));
        } else {
            assert(named.take(q) =~= init);
            without_repeats_keeps_members(init);
            assert(earlier.contains(earlier[i]));
        }
    } else {
        assert(!init.contains(named.last()));
        assert(all[j] == named.last());
        if q < init.len() {
            assert(init[q] == named[q]);
            assert(init.contains(named[q]));
        }
        assert(named.take(q) =~= init);
        without_repeats_keeps_members(init);
        assert(earlier.contains(earlier[i]));
    }
}

/// A CPU is known by the first core group that holds it, and by its own number where none does.
pub proof fn cpus_are_known_by_their_first_group(topology: CpuTopology, cpu: usize)
    ensures
        ({
            let groups = topology.core_groups@;
            let k = core_number(topology, cpu);
            if exists|g: int| 0 <= g < groups.len() && (#[trigger] groups[g])@.contains(cpu) {
                &&& k < groups.len()
                &&& groups[k as int]@.contains(cpu)
                &&& forall|g: int| 0 <= g < k ==> !(#[trigger] groups[g])@.contains(cpu)
            } else {
                k == cpu
            }
        }),
{
    lemma_first_group(topology.core_groups@, cpu);
}

proof fn lemma_first_group(groups: Seq<Vec<usize>>, cpu: usize)
    ensures
        first_group(groups, cpu) <= groups.len(),
        forall|g: int| 0 <= g < first_group(groups, cpu) ==> !(#[trigger] groups[g])@.contains(cpu),
        first_group(groups, cpu) < groups.len() ==> groups[first_group(groups, cpu) as int]@.contains(
            cpu,
        ),
    decreases groups.len(),
{
    if groups.len() > 0 && !groups[0]@.contains(cpu) {
        let rest = groups.skip(1);
        lemma_first_group(rest, cpu);
        assert forall|g: int| 0 <= g < first_group(groups, cpu) implies !(
        #[trigger] groups[g])@.contains(cpu) by {
            if g > 0 {
                assert(rest[g - 1] == groups[g]);
            }
        }
    }
}

/// The CPU taken of each core is the first one: more CPUs behind change nothing in front, and a CPU
/// is added exactly where its core is new.
pub proof fn first_cpu_of_each_core_is_taken(
    topology: CpuTopology,
    a: Seq<usize>,
    b: Seq<usize>,
    c: usize,
)
    ensures
        one_per_core(topology, a).is_prefix_of(one_per_core(topology, a + b)),
        one_per_core(topology, a.push(c)) == if exists|i: int|
            0 <= i < a.len() && core_number(topology, #[trigger] a[i]) == core_number(topology, c) {
            one_per_core(topology, a)
        } else {
            one_per_core(topology, a).push(c)
        },
        one_per_core(topology, Seq::<usize>::empty()).len() == 0,
    decreases b.len(),
{
    let t = a.push(c);
    assert(t.drop_last() =~= a);
    if exists|i: int|
        0 <= i < a.len() && core_number(topology, #[trigger] a[i]) == core_number(topology, c) {
        let i = choose|i: int|
            0 <= i < a.len() && core_number(topology, #[trigger] a[i]) == core_number(topology, c);
        assert(t[i] == a[i]);
    } else {
        assert forall|i: int| 0 <= i < t.len() - 1 implies core_number(topology, #[trigger] t[i])
            != core_number(topology, c) by {
            assert(a[i] == t[i]);
        }
    }
    let short = one_per_core(topology, a);
    if b.len() == 0 {
        assert(a + b =~= a);
        assert(short.take(short.len() as int) =~= short);
    } else {
        first_cpu_of_each_core_is_taken(topology, a, b.drop_last(), c);
        let s = a + b;
        assert(s.drop_last() =~= a + b.drop_last());
        let middle = one_per_core(topology, a + b.drop_last());
        let long = one_per_core(topology, s);
        assert(long.take(short.len() as int) =~= middle.take(short.len() as int));
    }
}

/// As many CPUs are taken as the CPUs have cores.
pub proof fn one_cpu_is_taken_for_each_core(topology: CpuTopology, cpus: Seq<usize>)
    ensures
        one_per_core(topology, cpus).len() == cpus.map_values(
            |c: usize| core_number(topology, c),
        ).to_set().len(),
{
    lemma_one_per_core(topology, cpus);
    let taken = one_per_core(topology, cpus);
    let f = |c: usize| core_number(topology, c);
    let taken_numbers = taken.map_values(f);
    let numbers = cpus.map_values(f);
    assert(taken_numbers.no_duplicates()) by {
        assert forall|i: int, j: int|
            0 <= i < taken_numbers.len() && 0 <= j < taken_numbers.len() && i
                != j implies taken_numbers[i] != taken_numbers[j] by {
            assert(taken_numbers[i] == core_number(topology, taken[i]));
            assert(taken_numbers[j] == core_number(topology, taken[j]));
            if i < j {
                assert(core_number(topology, taken[i]) != core_number(topology, taken[j]));
            } else {
                assert(core_number(topology, taken[j]) != core_number(topology, taken[i]));
            }
        }
    }
    taken_numbers.unique_seq_to_set();
    assert forall|n: nat| taken_numbers.to_set().contains(n) <==> numbers.to_set().contains(n) by {
        if taken_numbers.contains(n) {
            let i = choose|i: int| 0 <= i < taken_numbers.len() && taken_numbers[i] == n;
            assert(cpus.contains(taken[i]));
            let k = choose|k: int| 0 <= k < cpus.len() && cpus[k] == taken[i];
            assert(numbers[k] == n);
        }
        if numbers.contains(n) {
            let k = choose|k: int| 0 <= k < numbers.len() && numbers[k] == n;
            assert(cpus.contains(cpus[k]));
            let i = choose|i: int|
                0 <= i < taken.len() && core_number(topology, #[trigger] taken[i]) == core_number(
                    topology,
                    cpus[k],
                );
            assert(taken_numbers[i] == n);
        }
    }
    assert(taken_numbers.to_set() =~= numbers.to_set());
}

/// Classes have their stages class by class; a class has one where more than one of its CPUs, and
/// fewer CPUs than are selected, are selected, and that stage loads just those of its CPUs, in their
/// order.
pub proof fn class_stages_go_class_by_class(
    a: Seq<CpuCoreClass>,
    b: Seq<CpuCoreClass>,
    selected: Seq<usize>,
)
    ensures
        class_stages(a + b, selected) == class_stages(a, selected) + class_stages(b, selected),
        a.len() == 0 ==> class_stages(a, selected).len() == 0,
        a.len() == 1 ==> {
            let stages = class_stages(a, selected);
            let cpus = kept_cpus(a[0].logical_cpus@, selected);
            if 1 < cpus.len() < selected.len() {
                &&& stages.len() == 1
                &&& stages[0].0 == a[0].id@ + "-cores"@
                &&& stages[0].1 == Some(a[0].id@)
                &&& stages[0].2 == cpus
            } else {
                stages.len() == 0
            }
        },
    decreases b.len(),
{
    if a.len() == 1 {
        assert(a.drop_last() =~= Seq::<CpuCoreClass>::empty());
        reveal_with_fuel(class_stages, 2);
    }
    let one = class_stages(a, selected);
    if b.len() == 0 {
        assert(a + b =~= a);
        assert(one + class_stages(b, selected) =~= one);
    } else {
        class_stages_go_class_by_class(a, b.drop_last(), selected);
        assert((a + b).drop_last() =~= a + b.drop_last());
        assert(class_stages(a + b, selected) =~= one + class_stages(b, selected));
    }
}

/// Which stages a plan has: the single-thread one, those of the classes, `physical-cores` exactly
/// where the selected CPUs of the classes lie on more than one core and on fewer cores than CPUs are
/// selected, and `all-logical` exactly where more than one CPU is selected.
pub proof fn plan_has_its_stages(topology: CpuTopology, selected: Seq<usize>)
    requires
        selected.len() > 0,
    ensures
        ({
            let plan = stage_plan(topology, selected);
            let classes = class_stages(topology.core_classes@, selected);
            let named = kept_cpus(classes_cpus(topology.core_classes@), selected);
            let cores = named.map_values(|c: usize| core_number(topology, c)).to_set().len();
            let physical: int = if 1 < cores < selected.len() {
                1
            } else {
                0
            };
            let all: int = if selected.len() > 1 {
                1
            } else {
                0
            };
            &&& plan.len() == 1 + classes.len() + physical + all
            &&& plan[0].0 == "single-thread"@ && plan[0].1 is None && plan[0].2 == seq![selected[0]]
            &&& forall|k: int| 0 <= k < classes.len() ==> plan[1 + k] == #[trigger] classes[k]
            &&& physical == 1 ==> {
                let stage = plan[1 + classes.len() as int];
                stage.0 == "physical-cores"@ && stage.1 is None && stage.2 == one_per_core(
                    topology,
                    named,
                )
            }
            &&& all == 1 ==> plan.last().0 == "all-logical"@ && plan.last().1 is None
                && plan.last().2 == selected
        }),
{
    let named = kept_cpus(classes_cpus(topology.core_classes@), selected);
    one_cpu_is_taken_for_each_core(topology, named);
    assert(selected.take(1) =~= seq![selected[0]]);
}

/// The stages of a scaling sequence bear the number of their threads, and no class.
pub proof fn sequence_stages_are_numbered(selected: Seq<usize>, i: int)
    requires
        0 <= i < selected.len(),
    ensures
        exists|digits: Seq<char>|
            sequence_plan(selected)[i].0 == #[trigger] ("threads-"@ + digits) && parse_nat(digits)
                == Some((i + 1) as nat),
        sequence_plan(selected)[i].1 is None,
        sequence_plan(selected)[i].2[0] == selected[0],
{
    decimal_reads_back((i + 1) as nat);
    let digits = decimal((i + 1) as nat);
    assert(sequence_plan(selected)[i].0 == "threads-"@ + digits);
}

/// Of a machine of which nothing more is known, each CPU is taken for a core without SMT: there are
/// as many cores as CPUs, in one class, and no two CPUs are on one core.
pub proof fn fallback_takes_each_cpu_for_a_core(
    topology: CpuTopology,
    source: Seq<char>,
    parallelism: nat,
    i: int,
)
    requires
        is_fallback_topology(topology, source, parallelism),
        parallelism <= usize::MAX,
    ensures
        topology.logical_cpus@.len() == parallelism,
        0 <= i < parallelism ==> topology.logical_cpus@[i] == i,
        topology.physical_cores == parallelism,
        topology.smt_threads_per_core == 1,
        topology.core_classes@.len() == 1,
        topology.core_classes@[0].id@ == "default"@,
        topology.core_classes@[0].logical_cpus@ == topology.logical_cpus@,
        topology.core_classes@[0].physical_cores == topology.physical_cores,
        topology.core_groups@.len() == parallelism,
        0 <= i < parallelism ==> topology.core_groups@[i]@ == seq![i as usize],
        0 <= i < parallelism ==> core_number(topology, i as usize) == i,
        topology.source@ == source,
{
    let groups = topology.core_groups@;
    assert(group_views(groups).len() == groups.len());
    assert forall|g: int| 0 <= g < groups.len() implies (#[trigger] groups[g])@ == seq![
        g as usize,
    ] by {
        assert(group_views(groups)[g] == groups[g]@);
    }
    if 0 <= i < parallelism {
        cpus_are_known_by_their_first_group(topology, i as usize);
        assert(groups[i]@[0] == i as usize);
        assert(groups[i]@.contains(i as usize));
        let k = core_number(topology, i as usize) as int;
        assert(groups[k]@.contains(i as usize));
        assert(groups[k]@ == seq![k as usize]);
    }
}

/// A stage is seen as its name, its class and its CPUs.
pub proof fn stages_are_seen_whole(stages: Seq<CpuStage>, i: int)
    requires
        0 <= i < stages.len(),
    ensures
        stage_views(stages).len() == stages.len(),
        stage_view(stages[i]) == stage_views(stages)[i],
        stage_views(stages)[i].0 == stages[i].id@,
        stage_views(stages)[i].2 == stages[i].cpus@,
        match stages[i].cpu_class {
            Some(class) => stage_views(stages)[i].1 == Some(class@),
            None => stage_views(stages)[i].1 is None,
        },
{
}

/// Core groups and the names of classes are seen one for one.
pub proof fn groups_and_classes_are_seen_whole(
    groups: Seq<Vec<usize>>,
    classes: Seq<CpuCoreClass>,
    i: int,
)
    ensures
        group_views(groups).len() == groups.len(),
        class_ids(classes).len() == classes.len(),
        0 <= i < groups.len() ==> group_views(groups)[i] == groups[i]@,
        0 <= i < classes.len() ==> class_ids(classes)[i] == classes[i].id@,
{
}

} // verus!
