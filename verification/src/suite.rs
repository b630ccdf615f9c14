//! The suite: which benchmarks it runs, with which settings, and which scores it adds up.

use vstd::prelude::*;
use crate::memory::MemoryArgs;
use crate::network::NetworkArgs;
use crate::results::SuiteResult;

verus! {

/// What the CPU benchmark is asked for.
#[derive(Debug, Clone, Copy, PartialEq, Eq, Structural)]
pub struct CpuArgs {
    /// The limit of the worker threads; 0 for every CPU.
    pub threads: usize,
    pub duration: u64,
    pub sequence: bool,
    /// The bound up to which the primes workload counts.
    pub cpu_max_prime: u64,
}

/// What the storage benchmark is asked for, on a path of type `P`.
#[derive(Debug, Clone)]
pub struct IoArgs<P> {
    pub path: P,
    pub block_kb: usize,
    pub file_size_mb: usize,
    pub duration: u64,
}

/// What the suite is asked for.
#[derive(Debug, Clone)]
pub struct RunArgs<P> {
    pub threads: Option<usize>,
    pub duration: u64,
    pub memory_mb: usize,
    pub io_path: P,
    pub target: Option<String>,
}

/// The bound of the primes workload where none is given.
pub const DEFAULT_MAX_PRIME: u64 = 10_000;

impl Default for RunArgs<String> {
    /// What is run where nothing is asked for.
    fn default() -> (r: Self)
        ensures
            r.threads == Some(0usize),
            r.duration == 5,
            r.memory_mb == 128,
            r.io_path@ == "."@,
            r.target is None,
    {
        RunArgs {
            threads: Some(0),
            duration: 5,
            memory_mb: 128,
            io_path: ".".to_string(),
            target: None,
        }
    }
}

/// The settings of the benchmarks of a suite.
#[derive(Debug)]
pub struct SuitePlan<P> {
    pub cpu: CpuArgs,
    pub memory: MemoryArgs,
    pub io: IoArgs<P>,
    /// None where the network is not benchmarked.
    pub network: Option<NetworkArgs>,
}

/// A duration, or four seconds where it is shorter.
pub open spec fn at_least_four(duration: u64) -> u64 {
    if duration < 4 {
        4
    } else {
        duration
    }
}

/// The settings of the benchmarks of a suite: one worker thread where no number is given, four
/// seconds at least for memory and storage, and the network only where a target is given.
pub fn suite_plan<P>(args: RunArgs<P>) -> (r: SuitePlan<P>)
    ensures
        r.cpu == (CpuArgs {
            threads: match args.threads {
                Some(threads) => threads,
                None => 1,
            },
            duration: args.duration,
            sequence: false,
            cpu_max_prime: DEFAULT_MAX_PRIME,
        }),
        r.cpu.cpu_max_prime == 10_000,
        r.memory == (MemoryArgs {
            size_mb: args.memory_mb,
            duration: at_least_four(args.duration),
        }),
        r.io == (IoArgs {
            path: args.io_path,
            block_kb: 4,
            file_size_mb: 64,
            duration: at_least_four(args.duration),
        }),
        r.network == match args.target {
            Some(target) => Some(NetworkArgs { target, duration: args.duration }),
            None => None,
        },
{
    let threads: usize = match args.threads {
        Some(threads) => threads,
        None => 1,
    };
    let duration: u64 = if args.duration < 4 {
        4
    } else {
        args.duration
    };
    SuitePlan {
        cpu: CpuArgs {
            threads,
            duration: args.duration,
            sequence: false,
            cpu_max_prime: DEFAULT_MAX_PRIME,
        },
        memory: MemoryArgs { size_mb: args.memory_mb, duration },
        io: IoArgs { path: args.io_path, block_kb: 4, file_size_mb: 64, duration },
        network: match args.target {
            Some(target) => Some(NetworkArgs { target, duration: args.duration }),
            None => None,
        },
    }
}

/// The values that are there, in their order.
pub open spec fn present<V>(values: Seq<Option<V>>) -> Seq<V>
    decreases values.len(),
{
    if values.len() == 0 {
        Seq::empty()
    } else {
        let earlier = present(values.drop_last());
        match values.last() {
            Some(value) => earlier.push(value),
            None => earlier,
        }
    }
}

/// The scores of the four benchmarks, where they ran.
pub open spec fn category_scores<V>(suite: SuiteResult<V>) -> Seq<Option<V>> {
    seq![
        match suite.cpu {
            Some(cpu) => Some(cpu.score),
            None => None,
        },
        match suite.memory {
            Some(memory) => Some(memory.score),
            None => None,
        },
        match suite.io {
            Some(io) => Some(io.score),
            None => None,
        },
        match suite.network {
            Some(network) => Some(network.score),
            None => None,
        },
    ]
}

/// The scores of the four benchmarks, where they ran.
pub fn suite_scores<V: Copy>(suite: &SuiteResult<V>) -> (r: [Option<V>; 4])
    ensures
        r@ == category_scores(*suite),
{
    let cpu = match &suite.cpu {
        Some(cpu) => Some(cpu.score),
        None => None,
    };
    let memory = match &suite.memory {
        Some(memory) => Some(memory.score),
        None => None,
    };
    let io = match &suite.io {
        Some(io) => Some(io.score),
        None => None,
    };
    let network = match &suite.network {
        Some(network) => Some(network.score),
        None => None,
    };
    let r = [cpu, memory, io, network];
    assert(r@ =~= category_scores(*suite));
    r
}

/// The scores that are added up: those of the benchmarks that ran.
pub fn available_scores<V: Copy>(scores: &[Option<V>]) -> (r: Vec<V>)
    ensures
        r@ == present(scores@),
{
    let mut out: Vec<V> = Vec::new();
    for i in 0..scores.len()
        invariant
            out@ == present(scores@.take(i as int)),
    {
        assert(scores@.take(i + 1).drop_last() == scores@.take(i as int));
        if let Some(score) = scores[i] {
            out.push(score);
        }
    }
    assert(scores@.take(scores@.len() as int) == scores@);
    out
}

/// What did not run takes no part in the total: it is left out, wherever it stands.
pub proof fn absent_scores_are_left_out<V>(before: Seq<Option<V>>, after: Seq<Option<V>>)
    ensures
        present(before + seq![None::<V>] + after) == present(before + after),
    decreases after.len(),
{
    if after.len() == 0 {
        assert(before + seq![None::<V>] + after =~= before.push(None));
        assert(before.push(None).drop_last() =~= before);
        assert(before + after =~= before);
    } else {
        absent_scores_are_left_out(before, after.drop_last());
        assert((before + seq![None::<V>] + after).drop_last() =~= before + seq![None::<V>]
            + after.drop_last());
        assert((before + after).drop_last() =~= before + after.drop_last());
    }
}

/// A duration is raised to four seconds and otherwise kept.
pub proof fn short_durations_are_raised(duration: u64)
    ensures
        at_least_four(duration) >= 4 && at_least_four(duration) >= duration,
        at_least_four(duration) == 4 || at_least_four(duration) == duration,
{
}

/// What is there stays, in its order: the values of two lists are those of the one and then those of
/// the other, and a single value is kept where it is there.
pub proof fn present_values_stay_in_order<V>(a: Seq<Option<V>>, b: Seq<Option<V>>, value: V)
    ensures
        present(a + b) == present(a) + present(b),
        present(seq![Some(value)]) == seq![value],
        present(seq![None::<V>]).len() == 0,
        present(Seq::<Option<V>>::empty()).len() == 0,
    decreases b.len(),
{
    assert(seq![Some(value)].drop_last() =~= Seq::<Option<V>>::empty());
    assert(seq![None::<V>].drop_last() =~= Seq::<Option<V>>::empty());
    reveal_with_fuel(present, 2);
    if b.len() == 0 {
        assert(a + b =~= a);
    } else {
        present_values_stay_in_order(a, b.drop_last(), value);
        assert((a + b).drop_last() =~= a + b.drop_last());
        assert((a + b).last() == b.last());
    }
}

/// The scores are those of the CPU, the memory, the storage and the network, in this order, where
/// these ran.
pub proof fn scores_are_those_of_the_benchmarks<V>(suite: SuiteResult<V>)
    ensures
        category_scores(suite).len() == 4,
        match suite.cpu {
            Some(cpu) => category_scores(suite)[0] == Some(cpu.score),
            None => category_scores(suite)[0] is None,
        },
        match suite.memory {
            Some(memory) => category_scores(suite)[1] == Some(memory.score),
            None => category_scores(suite)[1] is None,
        },
        match suite.io {
            Some(io) => category_scores(suite)[2] == Some(io.score),
            None => category_scores(suite)[2] is None,
        },
        match suite.network {
            Some(network) => category_scores(suite)[3] == Some(network.score),
            None => category_scores(suite)[3] is None,
        },
{
}

} // verus!
