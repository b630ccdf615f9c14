//! The compute kernels, the accounting of the workers that run them, and the random sequence.

use vstd::prelude::*;
use crate::platform::SimdPath;

verus! {

/// `std::hint::black_box` is an identity function: it returns its argument.
pub assume_specification<T>[ std::hint::black_box::<T> ](dummy: T) -> (r: T)
    ensures
        r == dummy,
;

/// The number of 64-bit words.
pub open spec fn words64() -> nat {
    0x1_0000_0000_0000_0000
}

/// The successor of `state` in the random sequence.
pub open spec fn lcg(state: u64) -> u64 {
    ((state * 6364136223846793005 + 1) % words64() as int) as u64
}

/// The state after `n` steps of the random sequence.
pub open spec fn lcg_after(state: u64, n: nat) -> u64
    decreases n,
{
    if n == 0 {
        state
    } else {
        lcg(lcg_after(state, (n - 1) as nat))
    }
}

/// The next state of the random sequence.
pub fn lcg_next(state: u64) -> (r: u64)
    ensures
        r == lcg(state),
{
    let product: u64 = state.wrapping_mul(6364136223846793005);
    proof {
        let m = words64() as int;
        let x = state as int * 6364136223846793005;
        assert(product == x % m);
        vstd::arithmetic::div_mod::lemma_add_mod_noop(x, 1, m);
    }
    product.wrapping_add(1)
}

/// The random sequence goes on where it was left.
pub proof fn random_sequence_continues(state: u64, a: nat, b: nat)
    ensures
        lcg_after(lcg_after(state, a), b) == lcg_after(state, a + b),
    decreases b,
{
    if b > 0 {
        random_sequence_continues(state, a, (b - 1) as nat);
        assert(a + b - 1 == a + (b - 1) as nat);
    }
}

proof fn lemma_odd_factor_injective(a: int, b: int, factor: int, inverse: int)
    requires
        0 <= a < words64(),
        0 <= b < words64(),
        (factor * inverse) % words64() as int == 1,
        (a * factor) % words64() as int == (b * factor) % words64() as int,
    ensures
        a == b,
{
    let m = words64() as int;
    lemma_undo_factor(a, factor, inverse);
    lemma_undo_factor(b, factor, inverse);
}

proof fn lemma_undo_factor(a: int, factor: int, inverse: int)
    requires
        0 <= a < words64(),
        (factor * inverse) % words64() as int == 1,
    ensures
        (((a * factor) % words64() as int) * inverse) % words64() as int == a,
{
    let m = words64() as int;
    vstd::arithmetic::div_mod::lemma_mul_mod_noop(a * factor, inverse, m);
    vstd::arithmetic::div_mod::lemma_mul_mod_noop_left(a * factor, inverse, m);
    assert((a * factor) * inverse == a * (factor * inverse)) by (nonlinear_arith);
    vstd::arithmetic::div_mod::lemma_mul_mod_noop_right(a, factor * inverse, m);
    vstd::arithmetic::div_mod::lemma_small_mod(a as nat, m as nat);
}

/// Different states have different successors, so the random sequence never merges.
pub proof fn lcg_is_injective(a: u64, b: u64)
    requires
        lcg(a) == lcg(b),
    ensures
        a == b,
{
    let m = words64() as int;
    let x = a as int * 6364136223846793005;
    let y = b as int * 6364136223846793005;
    vstd::arithmetic::div_mod::lemma_mod_equivalence(x + 1, y + 1, m);
    vstd::arithmetic::div_mod::lemma_mod_equivalence(x, y, m);
    assert(6364136223846793005int * 13877824140714322085 % m == 1);
    lemma_odd_factor_injective(a as int, b as int, 6364136223846793005, 13877824140714322085);
}

/// `x` with its bits rotated left by `n` places.
pub open spec fn rotated_left(x: u64, n: u64) -> u64 {
    (x << n) | (x >> ((64 - n) as u64))
}

/// `x` with its bits rotated right by `n` places.
pub open spec fn rotated_right(x: u64, n: u64) -> u64 {
    (x >> n) | (x << ((64 - n) as u64))
}

fn rotate_left(x: u64, n: u64) -> (r: u64)
    requires
        0 < n < 64,
    ensures
        r == rotated_left(x, n),
{
    (x << n) | (x >> (64 - n))
}

fn rotate_right(x: u64, n: u64) -> (r: u64)
    requires
        0 < n < 64,
    ensures
        r == rotated_right(x, n),
{
    (x >> n) | (x << (64 - n))
}

/// The lanes of the integer kernel before its first round.
pub open spec fn integer_start(seed: u64) -> (u64, u64, u64, u64) {
    (seed, rotated_left(seed, 17), !seed, seed.wrapping_mul(0xD6E8_FEB8_6659_FD93))
}

/// One round of the integer kernel.
pub open spec fn integer_round(lanes: (u64, u64, u64, u64)) -> (u64, u64, u64, u64) {
    let a = rotated_left(lanes.0.wrapping_mul(0x9E37_79B1), 13) ^ lanes.1;
    let b = rotated_right(lanes.1.wrapping_add(0xC2B2_AE3D), 11) ^ lanes.2;
    let c = rotated_left(lanes.2.wrapping_mul(0x1656_67B1), 7) ^ lanes.3;
    let d = rotated_right(lanes.3.wrapping_add(a), 19) ^ b;
    (a, b, c, d)
}

/// The lanes of the integer kernel after `n` rounds.
pub open spec fn integer_rounds(seed: u64, n: nat) -> (u64, u64, u64, u64)
    decreases n,
{
    if n == 0 {
        integer_start(seed)
    } else {
        integer_round(integer_rounds(seed, (n - 1) as nat))
    }
}

/// The rounds of a kernel that make a block.
pub const ROUNDS_PER_BLOCK: u64 = 20_000;

/// The operations that a round of a scalar kernel counts for.
pub const SCALAR_OPERATIONS_PER_ROUND: u64 = 12;

/// The lanes that a block of the integer kernel computes.
pub fn integer_lanes(seed: u64) -> (r: (u64, u64, u64, u64))
    ensures
        r == integer_rounds(seed, ROUNDS_PER_BLOCK as nat),
        r == integer_rounds(seed, 20_000),
{
    let mut a: u64 = seed;
    let mut b: u64 = rotate_left(seed, 17);
    let mut c: u64 = !seed;
    let mut d: u64 = seed.wrapping_mul(0xD6E8_FEB8_6659_FD93);
    for i in 0..ROUNDS_PER_BLOCK
        invariant
            (a, b, c, d) == integer_rounds(seed, i as nat),
    {
        a = rotate_left(a.wrapping_mul(0x9E37_79B1), 13) ^ b;
        b = rotate_right(b.wrapping_add(0xC2B2_AE3D), 11) ^ c;
        c = rotate_left(c.wrapping_mul(0x1656_67B1), 7) ^ d;
        d = rotate_right(d.wrapping_add(a), 19) ^ b;
    }
    (a, b, c, d)
}

/// Runs a block of the integer kernel; returns the operations that it counts for. The lanes are
/// thrown away, so the contract does not speak of them; `integer_lanes` fixes them.
pub fn integer_block(seed: u64) -> (r: u64)
    ensures
        r == 240_000,
{
    std::hint::black_box(integer_lanes(seed));
    ROUNDS_PER_BLOCK * SCALAR_OPERATIONS_PER_ROUND
}

/// Does each member of `trace` come from the one before it by `step`?
pub open spec fn is_trace<L, S: Fn(L) -> L>(step: S, trace: Seq<L>) -> bool {
    forall|i: int|
        0 <= i < trace.len() - 1 ==> call_ensures(step, (#[trigger] trace[i],), trace[i + 1])
}

/// Is `end` reached from `start` in `n` steps?
pub open spec fn reached<L, S: Fn(L) -> L>(step: S, start: L, end: L, n: nat) -> bool {
    exists|trace: Seq<L>|
        #[trigger] is_trace(step, trace) && trace.len() == n + 1 && trace[0] == start
            && trace.last() == end
}

/// The lanes that a block of a kernel computes: `ROUNDS_PER_BLOCK` rounds from the start.
pub fn kernel_lanes<L, S: Fn(L) -> L>(start: L, round: S) -> (end: L)
    requires
        forall|lanes: L| call_requires(round, (lanes,)),
    ensures
        reached(round, start, end, ROUNDS_PER_BLOCK as nat),
        reached(round, start, end, 20_000),
{
    let ghost mut trace = seq![start];
    let mut lanes = start;
    for i in 0..ROUNDS_PER_BLOCK
        invariant
            forall|lanes: L| call_requires(round, (lanes,)),
            is_trace(round, trace),
            trace.len() == i + 1,
            trace[0] == start,
            trace.last() == lanes,
    {
        lanes = round(lanes);
        proof {
            trace = trace.push(lanes);
        }
    }
    lanes
}

/// Runs a block of the scalar floating-point kernel, whose arithmetic the caller gives: `start`
/// makes the lanes of a seed, `round` is one round of the kernel. Returns the operations that the
/// block counts for. The lanes are thrown away, so the contract does not speak of them;
/// `kernel_lanes` says what they are.
pub fn floating_point_block<L, I: FnOnce(u64) -> L, S: Fn(L) -> L>(
    seed: u64,
    start: I,
    round: S,
) -> (r: u64)
    requires
        call_requires(start, (seed,)),
        forall|lanes: L| call_requires(round, (lanes,)),
    ensures
        r == 240_000,
{
    std::hint::black_box(kernel_lanes(start(seed), round));
    ROUNDS_PER_BLOCK * SCALAR_OPERATIONS_PER_ROUND
}

/// The operations that a round of the SIMD kernel counts for.
pub open spec fn simd_round_operations(path: SimdPath) -> nat {
    match path {
        SimdPath::Avx2Fma => 16,
        SimdPath::Sse2 => 8,
        SimdPath::Neon => 8,
        SimdPath::Scalar => 8,
    }
}

/// The operations that a block of the SIMD kernel counts for.
pub fn simd_operations(path: SimdPath) -> (r: u64)
    ensures
        r == 20_000 * simd_round_operations(path),
{
    match path {
        SimdPath::Avx2Fma => ROUNDS_PER_BLOCK * 16,
        SimdPath::Sse2 => ROUNDS_PER_BLOCK * 8,
        SimdPath::Neon => ROUNDS_PER_BLOCK * 8,
        SimdPath::Scalar => ROUNDS_PER_BLOCK * 8,
    }
}

/// Runs a block of the SIMD kernel on `path`, whose arithmetic the caller gives. Returns the
/// operations that the block counts for. The lanes are thrown away, so the contract does not speak
/// of them; `kernel_lanes` says what they are.
pub fn simd_block<L, I: FnOnce(u64) -> L, S: Fn(L) -> L>(
    path: SimdPath,
    seed: u64,
    start: I,
    round: S,
) -> (r: u64)
    requires
        call_requires(start, (seed,)),
        forall|lanes: L| call_requires(round, (lanes,)),
    ensures
        r == 20_000 * simd_round_operations(path),
{
    std::hint::black_box(kernel_lanes(start(seed), round));
    simd_operations(path)
}

/// Runs a block of the SIMD kernel without vector instructions. Returns the operations that the
/// block counts for. As in `simd_block`, the lanes are thrown away.
pub fn simd_scalar_block<L, I: FnOnce(u64) -> L, S: Fn(L) -> L>(
    seed: u64,
    start: I,
    round: S,
) -> (r: u64)
    requires
        call_requires(start, (seed,)),
        forall|lanes: L| call_requires(round, (lanes,)),
    ensures
        r == 160_000,
{
    simd_block(SimdPath::Scalar, seed, start, round)
}

/// The workloads that make the composite result of a stage.
#[derive(Debug, Clone, Copy, PartialEq, Eq, Structural)]
pub enum CpuWorkload {
    Integer,
    FloatingPoint,
    Simd,
}

/// The name under which a workload is reported.
pub open spec fn workload_name(workload: CpuWorkload) -> Seq<char> {
    match workload {
        CpuWorkload::Integer => "scalar-integer"@,
        CpuWorkload::FloatingPoint => "scalar-fp"@,
        CpuWorkload::Simd => "simd-fp"@,
    }
}

impl CpuWorkload {
    /// The workloads, in the order in which they are run.
    pub fn all() -> (r: [CpuWorkload; 3])
        ensures
            r@ == seq![CpuWorkload::Integer, CpuWorkload::FloatingPoint, CpuWorkload::Simd],
    {
        [CpuWorkload::Integer, CpuWorkload::FloatingPoint, CpuWorkload::Simd]
    }

    /// The name under which the workload is reported.
    pub fn name(self) -> (r: &'static str)
        ensures
            r@ == workload_name(self),
    {
        match self {
            CpuWorkload::Integer => "scalar-integer",
            CpuWorkload::FloatingPoint => "scalar-fp",
            CpuWorkload::Simd => "simd-fp",
        }
    }

    /// Runs a block of the workload, the floating-point ones by the blocks that the caller
    /// gives. Returns the operations that the block counts for.
    pub fn run_block<F: FnOnce(u64) -> u64, S: FnOnce(u64) -> u64>(
        self,
        seed: u64,
        floating_point: F,
        simd: S,
    ) -> (r: u64)
        requires
            call_requires(floating_point, (seed,)),
            call_requires(simd, (seed,)),
        ensures
            match self {
                CpuWorkload::Integer => r == 240_000,
                CpuWorkload::FloatingPoint => call_ensures(floating_point, (seed,), r),
                CpuWorkload::Simd => call_ensures(simd, (seed,), r),
            },
    {
        match self {
            CpuWorkload::Integer => integer_block(seed),
            CpuWorkload::FloatingPoint => floating_point(seed),
            CpuWorkload::Simd => simd(seed),
        }
    }
}

/// The sum of two counts, or the largest count where it does not fit.
pub open spec fn capped_sum(a: int, b: int) -> int {
    if a + b > u64::MAX {
        u64::MAX as int
    } else {
        a + b
    }
}

/// The seed of a worker's first block.
pub open spec fn first_seed(worker: nat) -> u64 {
    (((worker + 1) * 0x9E37_79B9_7F4A_7C15) % words64()) as u64
}

/// A worker between two blocks: the seed of the next one, and the operations so far.
pub struct WorkerState {
    pub seed: u64,
    pub operations: u64,
}

impl WorkerState {
    /// A worker before its first block. Workers are numbered from 0.
    pub fn new(worker: usize) -> (r: Self)
        requires
            worker < u64::MAX,
        ensures
            r.seed == first_seed(worker as nat),
            r.operations == 0,
    {
        WorkerState {
            seed: (worker as u64 + 1).wrapping_mul(0x9E37_79B9_7F4A_7C15),
            operations: 0,
        }
    }

    /// Counts a block of `operations`, and goes on to the next seed.
    pub fn advance(&mut self, operations: u64)
        ensures
            final(self).operations == capped_sum(old(self).operations as int, operations as int),
            final(self).seed == (old(self).seed + 0xD1B5_4A32_D192_ED03) % words64() as int,
    {
        self.operations = self.operations.saturating_add(operations);
        self.seed = self.seed.wrapping_add(0xD1B5_4A32_D192_ED03);
    }
}

#[verifier::spinoff_prover]
proof fn lemma_first_seed(worker: nat)
    ensures
        first_seed(worker) as int == ((worker + 1) as int * 0x9E37_79B9_7F4A_7C15) % (words64() as int),
{
    let x = (worker + 1) * 0x9E37_79B9_7F4A_7C15;
    vstd::arithmetic::div_mod::lemma_mod_bound(x as int, words64() as int);
}

/// Different workers start from different seeds.
#[verifier::spinoff_prover]
pub proof fn workers_start_apart(a: nat, b: nat)
    requires
        a < u64::MAX,
        b < u64::MAX,
        first_seed(a) == first_seed(b),
    ensures
        a == b,
{
    lemma_first_seed(a);
    lemma_first_seed(b);
    assert(0x9E37_79B9_7F4A_7C15int * 17428512612931826493 % words64() as int == 1);
    lemma_odd_factor_injective(
        (a + 1) as int,
        (b + 1) as int,
        0x9E37_79B9_7F4A_7C15,
        17428512612931826493,
    );
}

/// The sum of the counts.
pub open spec fn sum_of(counts: Seq<u64>) -> nat
    decreases counts.len(),
{
    if counts.len() == 0 {
        0
    } else {
        sum_of(counts.drop_last()) + counts.last() as nat
    }
}

proof fn lemma_sum_grows(counts: Seq<u64>, i: int)
    requires
        0 <= i <= counts.len(),
    ensures
        sum_of(counts.take(i)) <= sum_of(counts),
    decreases counts.len() - i,
{
    if i < counts.len() {
        lemma_sum_grows(counts, i + 1);
        assert(counts.take(i + 1).drop_last() == counts.take(i));
    } else {
        assert(counts.take(i) == counts);
    }
}

/// The operations of all workers, where their number fits in 64 bits.
pub fn total_operations(counts: &Vec<u64>) -> (r: Option<u64>)
    ensures
        match r {
            Some(total) => total == sum_of(counts@),
            None => sum_of(counts@) > u64::MAX,
        },
{
    let mut total: u64 = 0;
    for i in 0..counts.len()
        invariant
            total == sum_of(counts@.take(i as int)),
    {
        proof {
            assert(counts@.take(i + 1).drop_last() == counts@.take(i as int));
            lemma_sum_grows(counts@, i + 1);
        }
        match total.checked_add(counts[i]) {
            Some(t) => {
                total = t;
            },
            None => {
                return None;
            },
        }
    }
    assert(counts@.take(counts@.len() as int) == counts@);
    Some(total)
}

/// The random sequence: each state is the one before it times 6364136223846793005, plus one, modulo
/// 2^64.
pub proof fn random_sequence_steps(state: u64, n: nat)
    ensures
        lcg(state) as int == (state as int * 6364136223846793005 + 1) % 0x1_0000_0000_0000_0000,
        lcg_after(state, 0) == state,
        lcg_after(state, n + 1) as int == (lcg_after(state, n) as int * 6364136223846793005 + 1)
            % 0x1_0000_0000_0000_0000,
{
    let x = lcg_after(state, n) as int * 6364136223846793005 + 1;
    vstd::arithmetic::div_mod::lemma_mod_bound(x, 0x1_0000_0000_0000_0000);
    assert(lcg_after(state, n + 1) == lcg(lcg_after(state, n)));
}

/// Rotating left by `n` takes bit `i` to the place `n` further on, from the last to the first;
/// rotating right takes it back.
pub proof fn rotation_moves_bits_round(x: u64, n: u64, i: u64)
    requires
        0 < n < 64,
        i < 64,
    ensures
        (rotated_left(x, n) >> (if i + n < 64 {
            (i + n) as u64
        } else {
            (i + n - 64) as u64
        })) & 1 == (x >> i) & 1,
        rotated_right(rotated_left(x, n), n) == x,
        rotated_left(rotated_right(x, n), n) == x,
{
    let m = (64 - n) as u64;
    let l = (x << n) | (x >> m);
    let r = (x >> n) | (x << m);
    if i + n < 64 {
        let j = (i + n) as u64;
        assert((l >> j) & 1 == (x >> i) & 1) by (bit_vector)
            requires
                0 < n < 64,
                i < 64,
                m == 64 - n,
                j == i + n,
                j < 64,
                l == (x << n) | (x >> m),
        ;
    } else {
        let j = (i + n - 64) as u64;
        assert((l >> j) & 1 == (x >> i) & 1) by (bit_vector)
            requires
                0 < n < 64,
                i < 64,
                m == 64 - n,
                j == i + n - 64,
                j < 64,
                l == (x << n) | (x >> m),
        ;
    }
    assert((l >> n) | (l << m) == x) by (bit_vector)
        requires
            0 < n < 64,
            m == 64 - n,
            l == (x << n) | (x >> m),
    ;
    assert((r << n) | (r >> m) == x) by (bit_vector)
        requires
            0 < n < 64,
            m == 64 - n,
            r == (x >> n) | (x << m),
    ;
}

/// The integer kernel starts from the seed, the seed rotated, its complement and a multiple of it,
/// and in each round multiplies, adds and rotates every lane and mixes in its neighbour, the last
/// lane with what the first two have become.
pub proof fn integer_kernel_mixes_its_lanes(seed: u64, n: nat)
    ensures
        ({
            let start = integer_rounds(seed, 0);
            &&& start.0 == seed
            &&& start.1 == rotated_left(seed, 17)
            &&& start.2 == !seed
            &&& start.3 == seed * 0xD6E8_FEB8_6659_FD93 % 0x1_0000_0000_0000_0000
        }),
        ({
            let before = integer_rounds(seed, n);
            let after = integer_rounds(seed, n + 1);
            &&& after.0 == rotated_left(
                (before.0 * 0x9E37_79B1 % 0x1_0000_0000_0000_0000) as u64,
                13,
            ) ^ before.1
            &&& after.1 == rotated_right(
                ((before.1 + 0xC2B2_AE3D) % 0x1_0000_0000_0000_0000) as u64,
                11,
            ) ^ before.2
            &&& after.2 == rotated_left(
                (before.2 * 0x1656_67B1 % 0x1_0000_0000_0000_0000) as u64,
                7,
            ) ^ before.3
            &&& after.3 == rotated_right(
                ((before.3 + after.0) % 0x1_0000_0000_0000_0000) as u64,
                19,
            ) ^ after.1
        }),
{
    let before = integer_rounds(seed, n);
    assert(integer_rounds(seed, n + 1) == integer_round(before));
    let after = integer_round(before);
    assert(seed.wrapping_mul(0xD6E8_FEB8_6659_FD93) == seed * 0xD6E8_FEB8_6659_FD93
        % 0x1_0000_0000_0000_0000);
    assert(before.0.wrapping_mul(0x9E37_79B1) == before.0 * 0x9E37_79B1 % 0x1_0000_0000_0000_0000);
    assert(before.1.wrapping_add(0xC2B2_AE3D) == (before.1 + 0xC2B2_AE3D)
        % 0x1_0000_0000_0000_0000);
    assert(before.2.wrapping_mul(0x1656_67B1) == before.2 * 0x1656_67B1 % 0x1_0000_0000_0000_0000);
    assert(before.3.wrapping_add(after.0) == (before.3 + after.0) % 0x1_0000_0000_0000_0000);
}

/// A capped sum is the sum where that fits in 64 bits, and the largest count where it does not.
pub proof fn capped_sum_is_capped(a: u64, b: u64)
    ensures
        a + b < 0x1_0000_0000_0000_0000 ==> capped_sum(a as int, b as int) == a + b,
        a + b >= 0x1_0000_0000_0000_0000 ==> capped_sum(a as int, b as int)
            == 0xFFFF_FFFF_FFFF_FFFF,
        words64() == 0x1_0000_0000_0000_0000,
{
}

/// The first seeds of workers: the first worker has 0x9E3779B97F4A7C15, and each next one that much
/// more, modulo 2^64.
pub proof fn first_seeds_are_evenly_apart(worker: nat)
    ensures
        first_seed(0) == 0x9E37_79B9_7F4A_7C15,
        first_seed(worker + 1) as int == (first_seed(worker) as int + 0x9E37_79B9_7F4A_7C15)
            % 0x1_0000_0000_0000_0000,
{
    lemma_first_seed(worker);
    lemma_first_seed(worker + 1);
    let x = (worker + 1) as int * 0x9E37_79B9_7F4A_7C15;
    assert((worker + 2) as int * 0x9E37_79B9_7F4A_7C15 == x + 0x9E37_79B9_7F4A_7C15);
    vstd::arithmetic::div_mod::lemma_add_mod_noop(
        x,
        0x9E37_79B9_7F4A_7C15,
        0x1_0000_0000_0000_0000,
    );
    vstd::arithmetic::div_mod::lemma_small_mod(0x9E37_79B9_7F4A_7C15, 0x1_0000_0000_0000_0000);
}

/// Counts add up count by count.
pub proof fn counts_add_up(counts: Seq<u64>, count: u64)
    ensures
        sum_of(counts.push(count)) == sum_of(counts) + count,
        sum_of(Seq::<u64>::empty()) == 0,
{
    assert(counts.push(count).drop_last() =~= counts);
}

/// A round of eight lanes counts for sixteen operations; on every other path it counts for half of
/// that.
pub proof fn wider_path_counts_for_more(path: SimdPath)
    ensures
        path == SimdPath::Avx2Fma ==> simd_round_operations(path) == 16,
        path != SimdPath::Avx2Fma ==> 2 * simd_round_operations(path) == simd_round_operations(
            SimdPath::Avx2Fma,
        ),
{
}

/// The workloads have the names under which results are compared.
pub proof fn workloads_have_their_names()
    ensures
        workload_name(CpuWorkload::Integer) == "scalar-integer"@,
        workload_name(CpuWorkload::FloatingPoint) == "scalar-fp"@,
        workload_name(CpuWorkload::Simd) == "simd-fp"@,
{
}

/// The rounds of a kernel follow each other: no round leaves the lanes, and one more goes on from
/// what those before it have reached.
pub proof fn rounds_follow_each_other<L, S: Fn(L) -> L>(step: S, start: L, end: L, n: nat)
    ensures
        reached(step, start, end, 0) <==> start == end,
        reached(step, start, end, n + 1) <==> exists|last: L| #[trigger]
            reached(step, start, last, n) && call_ensures(step, (last,), end),
{
    if start == end {
        assert(is_trace(step, seq![start]));
    }
    if reached(step, start, end, n + 1) {
        let trace = choose|trace: Seq<L>|
            #[trigger] is_trace(step, trace) && trace.len() == n + 2 && trace[0] == start
                && trace.last() == end;
        let front = trace.drop_last();
        assert forall|i: int| 0 <= i < front.len() - 1 implies call_ensures(
            step,
            (#[trigger] front[i],),
            front[i + 1],
        ) by {
            assert(call_ensures(step, (trace[i],), trace[i + 1]));
        }
        assert(is_trace(step, front));
        assert(reached(step, start, front.last(), n));
        assert(call_ensures(step, (trace[n as int],), trace[n as int + 1]));
    }
    if exists|last: L| #[trigger]
        reached(step, start, last, n) && call_ensures(step, (last,), end) {
        let last = choose|last: L| #[trigger]
            reached(step, start, last, n) && call_ensures(step, (last,), end);
        let front = choose|trace: Seq<L>|
            #[trigger] is_trace(step, trace) && trace.len() == n + 1 && trace[0] == start
                && trace.last() == last;
        let trace = front.push(end);
        assert forall|i: int| 0 <= i < trace.len() - 1 implies call_ensures(
            step,
            (#[trigger] trace[i],),
            trace[i + 1],
        ) by {
            if i < n {
                assert(call_ensures(step, (front[i],), front[i + 1]));
            }
        }
        assert(is_trace(step, trace));
    }
}

} // verus!
