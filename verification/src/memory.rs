//! The memory benchmark: its plan, and one pass of each of its four phases.

use vstd::prelude::*;
use crate::kernels::lcg_next;
#[allow(unused_imports)]
use crate::kernels::{capped_sum, lcg_after, sum_of, words64};

verus! {

/// What the memory benchmark is asked for.
#[derive(Debug, Clone, Copy, PartialEq, Eq, Structural)]
pub struct MemoryArgs {
    pub size_mb: usize,
    pub duration: u64,
}

/// The seconds of each of the four phases into which a benchmark of `duration` seconds is split.
pub open spec fn phase_secs(duration: nat) -> nat {
    if duration < 8 {
        1
    } else {
        duration / 4
    }
}

/// The seconds of each of the four phases into which a benchmark of `duration` seconds is split.
pub fn phase_seconds(duration: u64) -> (r: u64)
    ensures
        r == phase_secs(duration as nat),
{
    let total: u64 = if duration < 4 {
        4
    } else {
        duration
    };
    let phase: u64 = total / 4;
    if phase < 1 {
        1
    } else {
        phase
    }
}

/// Every phase lasts at least a second, and the four together no longer than was asked for, or
/// four seconds where less was asked for.
pub proof fn phases_fill_the_duration(duration: nat)
    ensures
        phase_secs(duration) >= 1,
        4 * phase_secs(duration) <= if duration < 4 {
            4
        } else {
            duration
        },
        duration < 4 * phase_secs(duration) + 4,
{
}

/// The buffer and the phases of a memory benchmark.
#[derive(Debug, Clone, Copy, PartialEq, Eq, Structural)]
pub struct MemoryPlan {
    pub size_mb: usize,
    /// The number of 64-bit elements of the buffer.
    pub elements: usize,
    pub phase_secs: u64,
}

/// The size of the buffer: at least one MiB.
pub open spec fn buffer_mb(size_mb: nat) -> nat {
    if size_mb < 1 {
        1
    } else {
        size_mb
    }
}

/// The plan of a memory benchmark; none where the bytes of the buffer cannot be counted.
pub fn memory_plan(args: MemoryArgs) -> (r: Option<MemoryPlan>)
    ensures
        match r {
            Some(plan) => {
                &&& buffer_mb(args.size_mb as nat) * 1048576 <= usize::MAX
                &&& plan.size_mb == buffer_mb(args.size_mb as nat)
                &&& plan.elements == buffer_mb(args.size_mb as nat) * 131072
                &&& plan.phase_secs == phase_secs(args.duration as nat)
            },
            None => buffer_mb(args.size_mb as nat) * 1048576 > usize::MAX,
        },
{
    let size_mb: usize = if args.size_mb < 1 {
        1
    } else {
        args.size_mb
    };
    match size_mb.checked_mul(1048576) {
        Some(bytes) => Some(
            MemoryPlan {
                size_mb,
                elements: bytes / 8,
                phase_secs: phase_seconds(args.duration),
            },
        ),
        None => None,
    }
}

/// The numbers from 0 on, `n` of them.
pub open spec fn numbers(n: nat) -> Seq<u64> {
    Seq::new(n, |i: int| i as u64)
}

/// Writes every element, in order; returns the bytes written.
pub fn sequential_write(data: &mut Vec<u64>) -> (bytes: u64)
    requires
        old(data)@.len() * 8 <= u64::MAX,
    ensures
        final(data)@ == numbers(old(data)@.len()),
        bytes == old(data)@.len() * 8,
{
    let len: usize = data.len();
    let mut bytes: u64 = 0;
    for i in 0..len
        invariant
            len == data@.len(),
            len == old(data)@.len(),
            len * 8 <= u64::MAX,
            bytes == i * 8,
            forall|k: int| 0 <= k < i ==> data@[k] == k as u64,
    {
        data.set(i, i as u64);
        bytes = bytes + 8;
    }
    assert(data@ =~= numbers(old(data)@.len()));
    bytes
}

proof fn lemma_wrapped(a: nat, b: nat, x: u64)
    requires
        x == a % words64(),
        b <= u64::MAX,
    ensures
        (x + b) % (words64() as int) == (a + b) % words64(),
{
    vstd::arithmetic::div_mod::lemma_add_mod_noop(a as int, b as int, words64() as int);
    vstd::arithmetic::div_mod::lemma_add_mod_noop(x as int, b as int, words64() as int);
    vstd::arithmetic::div_mod::lemma_small_mod(x as nat, words64());
}

/// Reads every element, in order; returns the bytes read and the sum of the elements modulo 2^64.
pub fn sequential_read(data: &Vec<u64>) -> (r: (u64, u64))
    requires
        data@.len() * 8 <= u64::MAX,
    ensures
        r.0 == data@.len() * 8,
        r.1 == sum_of(data@) % words64(),
{
    let mut bytes: u64 = 0;
    let mut checksum: u64 = 0;
    for i in 0..data.len()
        invariant
            data@.len() * 8 <= u64::MAX,
            bytes == i * 8,
            checksum == sum_of(data@.take(i as int)) % words64(),
    {
        assert(data@.take(i + 1).drop_last() == data@.take(i as int));
        proof {
            lemma_wrapped(sum_of(data@.take(i as int)), data@[i as int] as nat, checksum);
        }
        checksum = checksum.wrapping_add(data[i]);
        bytes = bytes + 8;
    }
    assert(data@.take(data@.len() as int) == data@);
    (bytes, checksum)
}

/// The element that the state of the random sequence picks, of `len`.
pub open spec fn picked(state: u64, len: nat) -> int {
    (state as usize) as int % len as int
}

/// The buffer after `n` random writes: each writes its random number where that picks.
pub open spec fn after_writes(data: Seq<u64>, state: u64, n: nat) -> Seq<u64>
    decreases n,
{
    if n == 0 {
        data
    } else {
        let number = lcg_after(state, n);
        after_writes(data, state, (n - 1) as nat).update(picked(number, data.len()), number)
    }
}

/// The sum of the elements that `n` random reads see.
pub open spec fn reads_sum(data: Seq<u64>, state: u64, n: nat) -> nat
    decreases n,
{
    if n == 0 {
        0
    } else {
        reads_sum(data, state, (n - 1) as nat) + data[picked(lcg_after(state, n), data.len())] as nat
    }
}

/// Writes as many random elements as there are; returns the bytes written.
pub fn random_write(data: &mut Vec<u64>, state: &mut u64) -> (bytes: u64)
    requires
        0 < old(data)@.len(),
        old(data)@.len() * 8 <= u64::MAX,
    ensures
        final(data)@ == after_writes(old(data)@, *old(state), old(data)@.len()),
        *final(state) == lcg_after(*old(state), old(data)@.len()),
        bytes == old(data)@.len() * 8,
{
    let len: usize = data.len();
    let mut bytes: u64 = 0;
    let mut number: u64 = *state;
    for i in 0..len
        invariant
            0 < len,
            len == data@.len(),
            len == old(data)@.len(),
            len * 8 <= u64::MAX,
            bytes == i * 8,
            number == lcg_after(*old(state), i as nat),
            data@ == after_writes(old(data)@, *old(state), i as nat),
    {
        number = lcg_next(number);
        let index: usize = (number as usize) % len;
        data.set(index, number);
        bytes = bytes + 8;
    }
    *state = number;
    bytes
}

/// Reads as many random elements as there are; returns the bytes read and the sum of the
/// elements modulo 2^64.
pub fn random_read(data: &Vec<u64>, state: &mut u64) -> (r: (u64, u64))
    requires
        0 < data@.len(),
        data@.len() * 8 <= u64::MAX,
    ensures
        r.0 == data@.len() * 8,
        r.1 == reads_sum(data@, *old(state), data@.len()) % words64(),
        *final(state) == lcg_after(*old(state), data@.len()),
{
    let len: usize = data.len();
    let mut bytes: u64 = 0;
    let mut checksum: u64 = 0;
    let mut number: u64 = *state;
    assert(reads_sum(data@, *old(state), 0) == 0);
    for i in 0..len
        invariant
            0 < len,
            len == data@.len(),
            len * 8 <= u64::MAX,
            bytes == i * 8,
            number == lcg_after(*old(state), i as nat),
            checksum == reads_sum(data@, *old(state), i as nat) % words64(),
    {
        number = lcg_next(number);
        let index: usize = (number as usize) % len;
        proof {
            lemma_wrapped(
                reads_sum(data@, *old(state), i as nat),
                data@[index as int] as nat,
                checksum,
            );
        }
        checksum = checksum.wrapping_add(data[index]);
        bytes = bytes + 8;
    }
    *state = number;
    (bytes, checksum)
}

/// The state from which the random phases start.
pub const RANDOM_SEED: u64 = 0x9E37_79B9_7F4A_7C15;

/// A phase of the memory benchmark.
#[derive(Debug, Clone, Copy, PartialEq, Eq, Structural)]
pub enum MemoryPhase {
    SequentialWrite,
    SequentialRead,
    RandomWrite,
    RandomRead,
}

impl MemoryPhase {
    /// The phases, in the order in which they run.
    pub fn all() -> (r: [MemoryPhase; 4])
        ensures
            r@ == seq![
                MemoryPhase::SequentialWrite,
                MemoryPhase::SequentialRead,
                MemoryPhase::RandomWrite,
                MemoryPhase::RandomRead,
            ],
    {
        [
            MemoryPhase::SequentialWrite,
            MemoryPhase::SequentialRead,
            MemoryPhase::RandomWrite,
            MemoryPhase::RandomRead,
        ]
    }

    /// What the phase is called in progress messages.
    pub fn name(self) -> (r: &'static str)
        ensures
            r@ == match self {
                MemoryPhase::SequentialWrite => "sequential write"@,
                MemoryPhase::SequentialRead => "sequential read"@,
                MemoryPhase::RandomWrite => "random write"@,
                MemoryPhase::RandomRead => "random read"@,
            },
    {
        match self {
            MemoryPhase::SequentialWrite => "sequential write",
            MemoryPhase::SequentialRead => "sequential read",
            MemoryPhase::RandomWrite => "random write",
            MemoryPhase::RandomRead => "random read",
        }
    }
}

/// The buffer that all phases work on, and the state of the random sequence.
#[derive(Debug)]
pub struct MemoryBuffer {
    pub data: Vec<u64>,
    pub state: u64,
}

impl MemoryBuffer {
    /// There is an element, and the bytes can be counted.
    pub open spec fn wf(&self) -> bool {
        0 < self.data@.len() && self.data@.len() * 8 <= u64::MAX
    }

    /// A buffer of zeros.
    pub fn new(elements: usize) -> (r: Self)
        requires
            0 < elements,
            elements * 8 <= u64::MAX,
        ensures
            r.wf(),
            r.data@ == Seq::new(elements as nat, |i: int| 0u64),
            r.state == RANDOM_SEED,
            r.state == 0x9E37_79B9_7F4A_7C15,
    {
        let data: Vec<u64> = vec![0u64; elements];
        assert(data@ =~= Seq::new(elements as nat, |i: int| 0u64));
        MemoryBuffer { data, state: RANDOM_SEED }
    }

    /// One pass of a phase over the buffer; returns the bytes that it touched and, of a phase that
    /// reads, the sum of the elements that it saw modulo 2^64.
    pub fn pass(&mut self, phase: MemoryPhase) -> (r: (u64, Option<u64>))
        requires
            old(self).wf(),
        ensures
            final(self).wf(),
            r.0 == old(self).data@.len() * 8,
            match phase {
                MemoryPhase::SequentialRead => r.1 == Some(
                    (sum_of(old(self).data@) % words64()) as u64,
                ),
                MemoryPhase::RandomRead => r.1 == Some(
                    (reads_sum(old(self).data@, old(self).state, old(self).data@.len())
                        % words64()) as u64,
                ),
                MemoryPhase::SequentialWrite | MemoryPhase::RandomWrite => r.1 is None,
            },
            final(self).data@ == match phase {
                MemoryPhase::SequentialWrite => numbers(old(self).data@.len()),
                MemoryPhase::RandomWrite => after_writes(
                    old(self).data@,
                    old(self).state,
                    old(self).data@.len(),
                ),
                MemoryPhase::SequentialRead | MemoryPhase::RandomRead => old(self).data@,
            },
            final(self).state == match phase {
                MemoryPhase::RandomWrite | MemoryPhase::RandomRead => lcg_after(
                    old(self).state,
                    old(self).data@.len(),
                ),
                MemoryPhase::SequentialWrite | MemoryPhase::SequentialRead => old(self).state,
            },
    {
        match phase {
            MemoryPhase::SequentialWrite => (sequential_write(&mut self.data), None),
            MemoryPhase::SequentialRead => {
                let (bytes, checksum) = sequential_read(&self.data);
                (bytes, Some(checksum))
            },
            MemoryPhase::RandomWrite => {
                proof {
                    lemma_writes_keep_len(self.data@, self.state, self.data@.len());
                }
                (random_write(&mut self.data, &mut self.state), None)
            },
            MemoryPhase::RandomRead => {
                let (bytes, checksum) = random_read(&self.data, &mut self.state);
                (bytes, Some(checksum))
            },
        }
    }
}

proof fn lemma_writes_keep_len(data: Seq<u64>, state: u64, n: nat)
    requires
        data.len() > 0,
    ensures
        after_writes(data, state, n).len() == data.len(),
    decreases n,
{
    if n > 0 {
        lemma_writes_keep_len(data, state, (n - 1) as nat);
    }
}

/// What a timed phase does next.
#[derive(Debug, Clone, Copy, PartialEq, Eq, Structural)]
pub enum PhaseAction {
    RunPass,
    Stop,
}

/// Counts the pass that a timed phase has just made, if it made one, and decides whether another
/// follows: one does while time is left. The count stays at the largest number once it reaches
/// it.
pub fn run_for(bytes: u64, pass: Option<u64>, time_left: bool) -> (r: (u64, PhaseAction))
    ensures
        r.0 == match pass {
            Some(more) => capped_sum(bytes as int, more as int),
            None => bytes as int,
        },
        r.1 == if time_left {
            PhaseAction::RunPass
        } else {
            PhaseAction::Stop
        },
{
    let total: u64 = match pass {
        Some(more) => bytes.saturating_add(more),
        None => bytes,
    };
    let action = if time_left {
        PhaseAction::RunPass
    } else {
        PhaseAction::Stop
    };
    (total, action)
}

/// The count after the passes, one after the other.
pub open spec fn capped_total(passes: Seq<u64>) -> int
    decreases passes.len(),
{
    if passes.len() == 0 {
        0
    } else {
        capped_sum(capped_total(passes.drop_last()), passes.last() as int)
    }
}

/// Counting pass by pass gives the sum of the passes, or the largest count where that is less.
pub proof fn passes_add_up(passes: Seq<u64>)
    ensures
        capped_total(passes) == if sum_of(passes) > u64::MAX {
            u64::MAX as int
        } else {
            sum_of(passes) as int
        },
    decreases passes.len(),
{
    if passes.len() > 0 {
        passes_add_up(passes.drop_last());
    }
}

/// What the sequential read of a buffer sums up after the sequential write filled it.
pub proof fn sequential_read_sees_the_write(n: nat)
    requires
        n <= u64::MAX,
    ensures
        2 * sum_of(numbers(n)) == n * (n - 1),
    decreases n,
{
    if n == 0 {
        assert(numbers(n).len() == 0);
        assert(n * (n - 1) == 0) by (nonlinear_arith)
            requires
                n == 0,
        ;
    } else {
        let m = (n - 1) as nat;
        sequential_read_sees_the_write(m);
        assert(numbers(n).drop_last() =~= numbers(m));
        assert(sum_of(numbers(n)) == sum_of(numbers(m)) + m);
        assert(2 * m + m * (m - 1) == n * (n - 1)) by (nonlinear_arith)
            requires
                m == n - 1,
        ;
    }
}

/// A random write leaves every element as it was or takes it from the random sequence.
pub proof fn random_writes_stay_in_the_sequence(data: Seq<u64>, state: u64, n: nat, i: int)
    requires
        0 <= i < data.len(),
    ensures
        after_writes(data, state, n).len() == data.len(),
        after_writes(data, state, n)[i] == data[i] || exists|k: nat|
            0 < k <= n && after_writes(data, state, n)[i] == #[trigger] lcg_after(state, k) && picked(
                lcg_after(state, k),
                data.len(),
            ) == i,
    decreases n,
{
    if n > 0 {
        random_writes_stay_in_the_sequence(data, state, (n - 1) as nat, i);
        let number = lcg_after(state, n);
        if picked(number, data.len()) == i {
            assert(after_writes(data, state, n)[i] == lcg_after(state, n));
        } else {
            let before = after_writes(data, state, (n - 1) as nat);
            assert(after_writes(data, state, n)[i] == before[i]);
            if before[i] != data[i] {
                let k = choose|k: nat|
                    0 < k <= n - 1 && before[i] == #[trigger] lcg_after(state, k) && picked(
                        lcg_after(state, k),
                        data.len(),
                    ) == i;
                assert(after_writes(data, state, n)[i] == lcg_after(state, k));
            }
        }
    }
}

/// What of a random number points into a buffer: all of it, or its lower half where sizes have 32
/// bits.
proof fn lemma_pointing(number: u64)
    ensures
        usize::BITS == 64 ==> (number as usize) as int == number as int,
        usize::BITS == 32 ==> (number as usize) as int == number as int % 0x1_0000_0000,
{
    assert(usize::BITS == 64 ==> (number as usize) as u64 == number) by (bit_vector);
    assert(usize::BITS == 32 ==> (number as usize) as u64 == number % 0x1_0000_0000) by (bit_vector);
}

proof fn lemma_same_rest(x: int, i: int, d: int)
    requires
        0 <= i < d,
    ensures
        (x - i) % d == 0 <==> i == x % d,
{
    vstd::arithmetic::div_mod::lemma_fundamental_div_mod(x, d);
    vstd::arithmetic::div_mod::lemma_mod_bound(x, d);
    if i == x % d {
        assert(x - i == (x / d) * d) by (nonlinear_arith)
            requires
                x == d * (x / d) + x % d,
                i == x % d,
        ;
        vstd::arithmetic::div_mod::lemma_mod_multiples_basic(x / d, d);
    }
    if (x - i) % d == 0 {
        let q = (x - i) / d;
        vstd::arithmetic::div_mod::lemma_fundamental_div_mod(x - i, d);
        assert(d * q == q * d) by (nonlinear_arith);
        vstd::arithmetic::div_mod::lemma_fundamental_div_mod_converse(x, d, q, i);
    }
}

/// A random number picks the element whose index differs from it by a multiple of the number of
/// elements; where sizes have 32 bits, its lower half does. Every element is picked by some number.
pub proof fn numbers_pick_every_element(number: u64, len: nat, i: int)
    requires
        0 <= i < len <= usize::MAX,
    ensures
        0 <= picked(number, len) < len,
        usize::BITS == 64 ==> (number - picked(number, len)) % (len as int) == 0,
        usize::BITS == 32 ==> (number as int % 0x1_0000_0000 - picked(number, len)) % (len as int)
            == 0,
        picked(i as u64, len) == i,
{
    lemma_pointing(number);
    let x = (number as usize) as int;
    vstd::arithmetic::div_mod::lemma_mod_bound(x, len as int);
    lemma_same_rest(x, picked(number, len), len as int);
    assert((i as u64) as int == i);
    assert(((i as u64) as usize) as int == i);
    vstd::arithmetic::div_mod::lemma_small_mod(i as nat, len);
}

/// The next random write puts the next number of the random sequence at the index that differs from
/// it by a multiple of the number of elements, and leaves every other element. Where sizes have 32
/// bits, the lower half of the number points.
pub proof fn random_write_goes_where_its_number_points(data: Seq<u64>, state: u64, n: nat, i: int)
    requires
        0 <= i < data.len() <= usize::MAX,
    ensures
        after_writes(data, state, 0) == data,
        after_writes(data, state, n + 1).len() == data.len(),
        ({
            let number = lcg_after(state, n + 1);
            let pointer: int = if usize::BITS == 64 {
                number as int
            } else {
                number as int % 0x1_0000_0000
            };
            after_writes(data, state, n + 1)[i] == if (pointer - i) % (data.len() as int) == 0 {
                number
            } else {
                after_writes(data, state, n)[i]
            }
        }),
{
    let number = lcg_after(state, n + 1);
    lemma_pointing(number);
    lemma_writes_keep_len(data, state, n);
    lemma_writes_keep_len(data, state, n + 1);
    vstd::arithmetic::div_mod::lemma_mod_bound((number as usize) as int, data.len() as int);
    lemma_same_rest((number as usize) as int, i, data.len() as int);
    assert(usize::BITS == 64 || usize::BITS == 32);
}

/// The next random read sees the element at the index that differs from the next number of the
/// random sequence by a multiple of the number of elements. Where sizes have 32 bits, the lower half
/// of the number points.
pub proof fn random_read_sees_where_its_number_points(data: Seq<u64>, state: u64, n: nat, i: int)
    requires
        0 <= i < data.len() <= usize::MAX,
    ensures
        reads_sum(data, state, 0) == 0,
        ({
            let number = lcg_after(state, n + 1);
            let pointer: int = if usize::BITS == 64 {
                number as int
            } else {
                number as int % 0x1_0000_0000
            };
            (pointer - i) % (data.len() as int) == 0 ==> reads_sum(data, state, n + 1)
                == reads_sum(data, state, n) + data[i]
        }),
{
    let number = lcg_after(state, n + 1);
    lemma_pointing(number);
    lemma_same_rest((number as usize) as int, i, data.len() as int);
    assert(usize::BITS == 64 || usize::BITS == 32);
}

/// The sequential write puts into every element its own index.
pub proof fn sequential_write_counts_up(n: nat, i: int)
    requires
        n <= usize::MAX,
    ensures
        numbers(n).len() == n,
        0 <= i < n ==> numbers(n)[i] as int == i,
{
}

/// The buffer has the size asked for, or one MiB where none was.
pub proof fn buffer_is_never_empty(size_mb: nat)
    ensures
        buffer_mb(size_mb) >= 1 && buffer_mb(size_mb) >= size_mb,
        buffer_mb(size_mb) == 1 || buffer_mb(size_mb) == size_mb,
{
}

/// A buffer of any number of elements serves, as long as there is one and 64 bits hold its bytes.
pub proof fn any_buffer_serves(buffer: MemoryBuffer)
    ensures
        buffer.wf() <==> buffer.data@.len() > 0 && buffer.data@.len() * 8 < 0x1_0000_0000_0000_0000,
{
}

} // verus!
