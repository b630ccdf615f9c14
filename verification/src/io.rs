//! The storage benchmark: the blocks that its phases touch, what they write, and what they count.

use vstd::prelude::*;
use crate::kernels::lcg_next;
#[allow(unused_imports)]
use crate::kernels::lcg_after;

verus! {

/// A phase of the storage benchmark.
#[derive(Debug, Clone, Copy, PartialEq, Eq, Structural)]
pub enum IoPhaseKind {
    SequentialWrite,
    SequentialRead,
    RandomWrite,
    RandomRead,
}

impl IoPhaseKind {
    /// The phases, in the order in which they run.
    pub fn all() -> (r: [IoPhaseKind; 4])
        ensures
            r@ == seq![
                IoPhaseKind::SequentialWrite,
                IoPhaseKind::SequentialRead,
                IoPhaseKind::RandomWrite,
                IoPhaseKind::RandomRead,
            ],
    {
        [
            IoPhaseKind::SequentialWrite,
            IoPhaseKind::SequentialRead,
            IoPhaseKind::RandomWrite,
            IoPhaseKind::RandomRead,
        ]
    }

    /// What the phase is called in progress messages.
    pub fn name(self) -> (r: &'static str)
        ensures
            r@ == match self {
                IoPhaseKind::SequentialWrite => "sequential write"@,
                IoPhaseKind::SequentialRead => "sequential read"@,
                IoPhaseKind::RandomWrite => "random write"@,
                IoPhaseKind::RandomRead => "random read"@,
            },
    {
        match self {
            IoPhaseKind::SequentialWrite => "sequential write",
            IoPhaseKind::SequentialRead => "sequential read",
            IoPhaseKind::RandomWrite => "random write",
            IoPhaseKind::RandomRead => "random read",
        }
    }

    /// Whether the phase writes blocks rather than reads them.
    pub fn writes(self) -> (r: bool)
        ensures
            r == (self == IoPhaseKind::SequentialWrite || self == IoPhaseKind::RandomWrite),
    {
        match self {
            IoPhaseKind::SequentialWrite | IoPhaseKind::RandomWrite => true,
            IoPhaseKind::SequentialRead | IoPhaseKind::RandomRead => false,
        }
    }

    /// Whether the phase picks its blocks at random.
    pub fn is_random(self) -> (r: bool)
        ensures
            r == (self == IoPhaseKind::RandomWrite || self == IoPhaseKind::RandomRead),
    {
        match self {
            IoPhaseKind::RandomWrite | IoPhaseKind::RandomRead => true,
            IoPhaseKind::SequentialWrite | IoPhaseKind::SequentialRead => false,
        }
    }
}

/// The size of a block: at least one KiB.
pub open spec fn block_kib(block_kb: nat) -> nat {
    if block_kb < 1 {
        1
    } else {
        block_kb
    }
}

/// The size of the test file: at least eight MiB.
pub open spec fn file_mib(file_size_mb: nat) -> nat {
    if file_size_mb < 8 {
        8
    } else {
        file_size_mb
    }
}

/// The size of a block in KiB.
pub fn effective_block_kb(block_kb: usize) -> (r: usize)
    ensures
        r == block_kib(block_kb as nat),
{
    if block_kb < 1 {
        1
    } else {
        block_kb
    }
}

/// The size of the test file in MiB.
pub fn effective_file_mb(file_size_mb: usize) -> (r: usize)
    ensures
        r == file_mib(file_size_mb as nat),
{
    if file_size_mb < 8 {
        8
    } else {
        file_size_mb
    }
}

/// The blocks that fit into a file: at least one.
pub open spec fn blocks_in(file_size: nat, block_size: nat) -> nat {
    if file_size / block_size < 1 {
        1
    } else {
        file_size / block_size
    }
}

/// The state from which a random phase starts.
pub const IO_SEED: u64 = 0xD1B5_4A32_D192_ED03;

/// The block that the request number `n` of a phase touches: one after the other, beginning again
/// at the end of the file, or where the random sequence picks.
pub open spec fn block_of_request(random: bool, blocks: nat, n: nat) -> nat {
    if random {
        lcg_after(IO_SEED, n + 1) as nat % blocks
    } else {
        n % blocks
    }
}

/// A request of a phase.
#[derive(Debug, Clone, Copy, PartialEq, Eq, Structural)]
pub struct BlockRequest {
    /// The number of the block in the file.
    pub block: u64,
    /// Where in the file the block begins.
    pub offset: u64,
}

/// A phase under way.
#[derive(Debug, Clone, Copy, PartialEq, Eq, Structural)]
pub struct IoPhase {
    pub block_size: u64,
    pub file_size: u64,
    pub blocks: u64,
    pub random: bool,
    pub next_block: u64,
    pub state: u64,
    pub bytes: u64,
    pub ops: u64,
}

impl IoPhase {
    /// The sizes agree, and the place in the sequence and the bytes are those of the requests
    /// made.
    pub open spec fn wf(&self) -> bool {
        &&& 1024 <= self.block_size <= usize::MAX
        &&& 1024 <= self.file_size <= usize::MAX
        &&& self.blocks == blocks_in(self.file_size as nat, self.block_size as nat)
        &&& self.bytes == self.ops * self.block_size
        &&& self.random ==> self.next_block == 0 && self.state == lcg_after(
            IO_SEED,
            self.ops as nat,
        )
        &&& !self.random ==> self.next_block == self.ops as nat % self.blocks as nat && self.state
            == IO_SEED
    }

    /// The start of a phase; none where the sizes cannot be counted in bytes.
    pub fn new(file_size_mb: usize, block_kb: usize, random: bool) -> (r: Option<Self>)
        ensures
            match r {
                Some(phase) => {
                    &&& phase.wf()
                    &&& phase.file_size == file_mib(file_size_mb as nat) * 1048576
                    &&& phase.block_size == block_kib(block_kb as nat) * 1024
                    &&& phase.blocks == blocks_in(phase.file_size as nat, phase.block_size as nat)
                    &&& phase.random == random
                    &&& phase.next_block == 0
                    &&& phase.state == 0xD1B5_4A32_D192_ED03
                    &&& phase.ops == 0
                    &&& phase.bytes == 0
                },
                None => file_mib(file_size_mb as nat) * 1048576 > usize::MAX || block_kib(
                    block_kb as nat,
                ) * 1024 > usize::MAX,
            },
    {
        let file_size: usize = match effective_file_mb(file_size_mb).checked_mul(1048576) {
            Some(bytes) => bytes,
            None => {
                return None;
            },
        };
        let block_size: usize = match effective_block_kb(block_kb).checked_mul(1024) {
            Some(bytes) => bytes,
            None => {
                return None;
            },
        };
        let whole: usize = file_size / block_size;
        let blocks: usize = if whole < 1 {
            1
        } else {
            whole
        };
        Some(
            IoPhase {
                block_size: block_size as u64,
                file_size: file_size as u64,
                blocks: blocks as u64,
                random,
                next_block: 0,
                state: IO_SEED,
                bytes: 0,
                ops: 0,
            },
        )
    }

    /// Whether another request can be counted.
    pub open spec fn room(&self) -> bool {
        self.bytes + self.block_size <= u64::MAX
    }

    /// Whether another request can be counted.
    pub fn has_room(&self) -> (r: bool)
        ensures
            r == self.room(),
    {
        self.block_size <= u64::MAX - self.bytes
    }

    /// The next request, which is counted with it. Its offset is that of its block, and what is
    /// written to the block can be counted from the block's number on.
    pub fn next_request(&mut self) -> (r: BlockRequest)
        requires
            old(self).wf(),
            old(self).room(),
        ensures
            final(self).wf(),
            final(self).ops == old(self).ops + 1,
            final(self).bytes == old(self).bytes + old(self).block_size,
            final(self).block_size == old(self).block_size,
            final(self).file_size == old(self).file_size,
            final(self).blocks == old(self).blocks,
            final(self).random == old(self).random,
            !old(self).random ==> {
                &&& r.block == old(self).next_block
                &&& final(self).next_block == if r.block + 1 == old(self).blocks {
                    0
                } else {
                    r.block + 1
                }
                &&& final(self).state == old(self).state
            },
            old(self).random ==> {
                &&& final(self).state == (old(self).state * 6364136223846793005 + 1)
                    % 0x1_0000_0000_0000_0000
                &&& r.block == final(self).state as int % old(self).blocks as int
            },
            r.block == block_of_request(old(self).random, old(self).blocks as nat, old(self).ops as nat),
            r.block < old(self).blocks,
            r.offset == r.block * old(self).block_size,
            r.block + old(self).block_size <= usize::MAX,
    {
        let ghost ops = self.ops as int;
        let ghost size = self.block_size as int;
        assert(ops <= ops * size) by (nonlinear_arith)
            requires
                ops >= 0,
                size >= 1,
        ;
        assert((ops + 1) * size == ops * size + size) by (nonlinear_arith);
        let block: u64 = if self.random {
            self.state = lcg_next(self.state);
            self.state % self.blocks
        } else {
            let block: u64 = self.next_block;
            proof {
                lemma_next_in_cycle(self.ops as nat, self.blocks as nat);
                vstd::arithmetic::div_mod::lemma_mod_bound(self.ops as int, self.blocks as int);
                lemma_blocks_fit(self.file_size as nat, self.block_size as nat, block as nat);
            }
            proof {
                if block + 1 < self.blocks {
                    vstd::arithmetic::div_mod::lemma_small_mod(
                        (block + 1) as nat,
                        self.blocks as nat,
                    );
                } else {
                    vstd::arithmetic::div_mod::lemma_mod_self_0(self.blocks as int);
                }
            }
            self.next_block = (block + 1) % self.blocks;
            block
        };
        proof {
            vstd::arithmetic::div_mod::lemma_mod_bound(self.state as int, self.blocks as int);
            lemma_blocks_fit(self.file_size as nat, self.block_size as nat, block as nat);
        }
        let offset: u64 = block * self.block_size;
        self.bytes = self.bytes + self.block_size;
        self.ops = self.ops + 1;
        BlockRequest { block, offset }
    }
}

/// One step further in a cycle of `blocks`.
proof fn lemma_next_in_cycle(n: nat, blocks: nat)
    requires
        blocks > 0,
    ensures
        (n % blocks + 1) % blocks == (n + 1) % blocks,
{
    vstd::arithmetic::div_mod::lemma_add_mod_noop(n as int, 1, blocks as int);
    if blocks == 1 {
        vstd::arithmetic::div_mod::lemma_mod_bound((n + 1) as int, 1);
        vstd::arithmetic::div_mod::lemma_mod_bound((n % blocks + 1) as int, 1);
    } else {
        vstd::arithmetic::div_mod::lemma_small_mod(1, blocks);
    }
}

/// A block that ends in the file, and from whose number on its bytes can be counted.
proof fn lemma_blocks_fit(file_size: nat, block_size: nat, block: nat)
    requires
        1024 <= block_size <= usize::MAX,
        1024 <= file_size <= usize::MAX,
        block < blocks_in(file_size, block_size),
    ensures
        block_size <= file_size ==> block * block_size + block_size <= file_size,
        block_size > file_size ==> block == 0,
        block * block_size <= usize::MAX,
        block + block_size <= usize::MAX,
        block + 1 <= u64::MAX,
{
    if block_size > file_size {
        vstd::arithmetic::div_mod::lemma_small_div_converse(file_size as int, block_size as int);
        vstd::arithmetic::div_mod::lemma_basic_div(file_size as int, block_size as int);
        assert(block == 0);
        assert(block * block_size == 0) by (nonlinear_arith)
            requires
                block == 0,
        ;
    } else {
        let q = file_size / block_size;
        vstd::arithmetic::div_mod::lemma_fundamental_div_mod(file_size as int, block_size as int);
        vstd::arithmetic::div_mod::lemma_div_non_zero(file_size as int, block_size as int);
        assert(block * block_size + block_size <= q * block_size) by (nonlinear_arith)
            requires
                block + 1 <= q,
        ;
        assert(block_size * q == q * block_size) by (nonlinear_arith);
        assert(block <= block * block_size) by (nonlinear_arith)
            requires
                block_size >= 1,
        ;
    }
}

/// Where a block fits into the file, every request ends in it.
pub proof fn requests_stay_in_the_file(phase: IoPhase, n: nat)
    requires
        phase.wf(),
        phase.block_size <= phase.file_size,
    ensures
        block_of_request(phase.random, phase.blocks as nat, n) * phase.block_size + phase.block_size
            <= phase.file_size,
{
    let block = block_of_request(phase.random, phase.blocks as nat, n);
    vstd::arithmetic::div_mod::lemma_mod_bound(n as int, phase.blocks as int);
    vstd::arithmetic::div_mod::lemma_mod_bound(
        lcg_after(IO_SEED, n + 1) as int,
        phase.blocks as int,
    );
    lemma_blocks_fit(phase.file_size as nat, phase.block_size as nat, block);
}

/// Any run of as many sequential requests as there are blocks touches every block.
pub proof fn sequential_cycle_touches_every_block(blocks: nat, first: nat, block: nat)
    requires
        block < blocks,
    ensures
        exists|n: nat|
            first <= n < first + blocks && #[trigger] block_of_request(false, blocks, n) == block,
{
    let place = first % blocks;
    vstd::arithmetic::div_mod::lemma_fundamental_div_mod(first as int, blocks as int);
    vstd::arithmetic::div_mod::lemma_mod_bound(first as int, blocks as int);
    let turn = first / blocks;
    let n: int = if place <= block {
        first - place + block
    } else {
        first - place + blocks + block
    };
    assert(blocks * turn == turn * blocks) by (nonlinear_arith);
    if place <= block {
        vstd::arithmetic::div_mod::lemma_fundamental_div_mod_converse(
            n,
            blocks as int,
            turn as int,
            block as int,
        );
    } else {
        assert((turn + 1) * blocks == turn * blocks + blocks) by (nonlinear_arith);
        vstd::arithmetic::div_mod::lemma_fundamental_div_mod_converse(
            n,
            blocks as int,
            (turn + 1) as int,
            block as int,
        );
    }
    assert(block_of_request(false, blocks, n as nat) == block);
}

/// No two of as many sequential requests as there are blocks touch the same block.
pub proof fn sequential_cycle_touches_no_block_twice(blocks: nat, a: nat, b: nat)
    requires
        a < b < a + blocks,
    ensures
        block_of_request(false, blocks, a) != block_of_request(false, blocks, b),
{
    if a % blocks == b % blocks {
        vstd::arithmetic::div_mod::lemma_fundamental_div_mod(a as int, blocks as int);
        vstd::arithmetic::div_mod::lemma_fundamental_div_mod(b as int, blocks as int);
        let qa = a / blocks;
        let qb = b / blocks;
        assert(false) by (nonlinear_arith)
            requires
                a < b < a + blocks,
                b - a == blocks * qb - blocks * qa,
        ;
    }
}

/// What a phase writes to a block: the bytes count up from the block's number.
pub open spec fn block_bytes(block: nat, size: nat) -> Seq<u8> {
    Seq::new(size, |i: int| ((block + i) % 256) as u8)
}

/// Fills the buffer with what a phase writes to a block.
pub fn fill_block(buffer: &mut Vec<u8>, block: u64)
    requires
        block + old(buffer)@.len() <= usize::MAX,
    ensures
        final(buffer)@ == block_bytes(block as nat, old(buffer)@.len()),
{
    let len: usize = buffer.len();
    let base: usize = block as usize;
    for i in 0..len
        invariant
            len == buffer@.len(),
            len == old(buffer)@.len(),
            base == block,
            base + len <= usize::MAX,
            forall|k: int| 0 <= k < i ==> buffer@[k] == ((block + k) % 256) as u8,
    {
        buffer.set(i, ((base + i) % 256) as u8);
    }
    assert(buffer@ =~= block_bytes(block as nat, old(buffer)@.len()));
}

/// Of two consecutive requests of a sequential phase the second begins where the first ends; where
/// the first is the last block of the file, the second begins at the start of the file. The first
/// request of a phase begins there too.
pub proof fn sequential_requests_follow_each_other(blocks: nat, block_size: nat, n: nat)
    requires
        blocks > 0,
        block_size > 0,
    ensures
        block_of_request(false, blocks, 0) * block_size == 0,
        ({
            let offset = block_of_request(false, blocks, n) * block_size;
            let next = block_of_request(false, blocks, n + 1) * block_size;
            &&& offset + block_size <= blocks * block_size
            &&& offset + block_size == blocks * block_size ==> next == 0
            &&& offset + block_size != blocks * block_size ==> next == offset + block_size
        }),
{
    vstd::arithmetic::div_mod::lemma_small_mod(0, blocks);
    assert(0 * block_size == 0);
    lemma_next_in_cycle(n, blocks);
    let block = n % blocks;
    vstd::arithmetic::div_mod::lemma_mod_bound(n as int, blocks as int);
    assert((block + 1) * block_size == block * block_size + block_size) by (nonlinear_arith);
    if block + 1 < blocks {
        vstd::arithmetic::div_mod::lemma_small_mod(block + 1, blocks);
        assert((block + 1) * block_size < blocks * block_size) by (nonlinear_arith)
            requires
                block + 1 < blocks,
                block_size > 0,
        ;
    } else {
        assert(block + 1 == blocks);
        vstd::arithmetic::div_mod::lemma_mod_self_0(blocks as int);
    }
}

/// A request of a random phase goes to the block whose number differs from that of the random
/// sequence by a multiple of the number of blocks.
pub proof fn random_requests_follow_the_sequence(blocks: nat, n: nat)
    requires
        blocks > 0,
    ensures
        ({
            let block = block_of_request(true, blocks, n);
            let number = lcg_after(0xD1B5_4A32_D192_ED03, n + 1);
            &&& block < blocks
            &&& (number - block) % (blocks as int) == 0
        }),
{
    let number = lcg_after(IO_SEED, n + 1) as int;
    let d = blocks as int;
    vstd::arithmetic::div_mod::lemma_mod_bound(number, d);
    vstd::arithmetic::div_mod::lemma_fundamental_div_mod(number, d);
    assert(number - number % d == (number / d) * d) by (nonlinear_arith)
        requires
            number == d * (number / d) + number % d,
    ;
    vstd::arithmetic::div_mod::lemma_mod_multiples_basic(number / d, d);
}

/// The blocks of a file are as many as fit into it whole, and one where none does.
pub proof fn blocks_fill_the_file(file_size: nat, block_size: nat)
    requires
        block_size > 0,
    ensures
        ({
            let blocks = blocks_in(file_size, block_size);
            if block_size <= file_size {
                blocks * block_size <= file_size < (blocks + 1) * block_size
            } else {
                blocks == 1
            }
        }),
{
    vstd::arithmetic::div_mod::lemma_fundamental_div_mod(file_size as int, block_size as int);
    vstd::arithmetic::div_mod::lemma_mod_bound(file_size as int, block_size as int);
    let q = file_size / block_size;
    assert(block_size * q == q * block_size) by (nonlinear_arith);
    assert((q + 1) * block_size == q * block_size + block_size) by (nonlinear_arith);
    if block_size <= file_size {
        vstd::arithmetic::div_mod::lemma_div_non_zero(file_size as int, block_size as int);
    } else {
        vstd::arithmetic::div_mod::lemma_basic_div(file_size as int, block_size as int);
    }
}

/// The sizes are those asked for, but for a block of less than one KiB and a file of less than
/// eight MiB.
pub proof fn small_sizes_are_raised(size: nat)
    ensures
        block_kib(size) >= size && block_kib(size) >= 1,
        block_kib(size) == size || block_kib(size) == 1,
        file_mib(size) >= size && file_mib(size) >= 8,
        file_mib(size) == size || file_mib(size) == 8,
{
}

/// The bytes of a block count up by one from the lowest byte of the block's number, and go on from
/// 255 at 0.
pub proof fn bytes_count_up_from_the_block(block: nat, size: nat, i: int)
    ensures
        block_bytes(block, size).len() == size,
        size > 0 ==> block_bytes(block, size)[0] as nat == block % 256,
        0 <= i && i + 1 < size ==> block_bytes(block, size)[i + 1] == if block_bytes(
            block,
            size,
        )[i] == 255 {
            0
        } else {
            block_bytes(block, size)[i] + 1
        },
{
}

/// There is room for another request as long as 64 bits hold the bytes of all.
pub proof fn room_is_for_a_whole_block(phase: IoPhase)
    ensures
        phase.room() <==> phase.bytes + phase.block_size < 0x1_0000_0000_0000_0000,
{
}

} // verus!
