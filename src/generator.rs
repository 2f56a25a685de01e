//! The streaming generator: a resumable cursor over the block stream that
//! fills caller-supplied chunks until the configured size is reached.
use crate::block::seed_modulus;
use crate::config::GeneratorConfig;
use crate::constants::{MAX_BLOCK_SIZE, MIN_BLOCK_SIZE, RECOMMENDED_CHUNK_SIZE};
use crate::cpus::logical_cpu_count;
use crate::entropy::generate_call_entropy;
use crate::plan::{plan, GenerationPlan, Layout};
use crate::pool::build_pool;
use crate::oneshot::one_shot_bytes;
use crate::plan::quota;
use crate::region::{lemma_div_parts, lemma_window_seq_mod, render_window, renderable, stream_window};
use vstd::arithmetic::div_mod::{lemma_add_mod_noop, lemma_fundamental_div_mod, lemma_mod_bound, lemma_small_mod};
use rayon::ThreadPool;
use vstd::prelude::*;

verus! {

/// What a streaming generator is, as far as its output is concerned.
pub struct StreamState {
    /// Shape of the block stream.
    pub layout: Layout,
    /// Bytes the session produces in all.
    pub total: nat,
    /// Bytes produced so far (the cursor).
    pub pos: nat,
    /// Sequence number the next block rendered gets.
    pub seq: u64,
    /// Base seed of the current segment.
    pub seed: u64,
}

impl StreamState {
    pub open spec fn wf(self) -> bool {
        &&& MIN_BLOCK_SIZE <= self.layout.block_size <= MAX_BLOCK_SIZE
        &&& self.layout.unique_blocks >= 1
        &&& self.total >= self.layout.block_size
        &&& self.total <= usize::MAX
        &&& self.pos <= self.total
    }

    /// Bytes a chunk of `buf_len` bytes receives.
    pub open spec fn writable(self, buf_len: nat) -> nat {
        let left = (self.total - self.pos) as nat;
        if buf_len <= left {
            buf_len
        } else {
            left
        }
    }

    /// The next `n` bytes: the window from the cursor, whose first block
    /// gets sequence number `seq`.
    pub open spec fn emit(self, n: nat) -> Seq<u8> {
        let bs = self.layout.block_size as int;
        stream_window(self.layout, self.seed, self.seq as int, (self.pos as int) / bs, (self.pos as int) % bs, n)
    }

    /// Blocks that producing the next `n` bytes renders (wholly or in part).
    pub open spec fn blocks_touched(self, n: nat) -> nat {
        let bs = self.layout.block_size as int;
        if n == 0 {
            0
        } else {
            (((self.pos + n - 1) as int) / bs - (self.pos as int) / bs + 1) as nat
        }
    }

    /// Block boundaries that producing the next `n` bytes crosses: the
    /// blocks it completes. A block left half done keeps its sequence
    /// number for the call that finishes it.
    pub open spec fn blocks_crossed(self, n: nat) -> nat {
        let bs = self.layout.block_size as int;
        (((self.pos + n) as int) / bs - (self.pos as int) / bs) as nat
    }

    /// The state after producing the next `n` bytes.
    pub open spec fn advance(self, n: nat) -> StreamState {
        StreamState {
            pos: self.pos + n,
            seq: ((self.seq + self.blocks_crossed(n)) % seed_modulus()) as u64,
            ..self
        }
    }

    /// The state after `reset`.
    pub open spec fn rewound(self) -> StreamState {
        StreamState { pos: 0, ..self }
    }

    /// The state after switching to base seed `seed`.
    pub open spec fn reseeded(self, seed: u64) -> StreamState {
        StreamState { seed, seq: 0, ..self }
    }
}

/// Streaming generator: produces the configured number of bytes across any
/// number of `fill_chunk` calls.
pub struct DataGenerator {
    total_size: usize,
    current_pos: usize,
    dedup_factor: usize,
    compress_factor: usize,
    plan: GenerationPlan,
    call_entropy: u64,
    block_sequence: u64,
    max_threads: usize,
    thread_pool: Option<ThreadPool>,
}

impl View for DataGenerator {
    type V = StreamState;

    closed spec fn view(&self) -> StreamState {
        StreamState {
            layout: self.plan.layout(),
            total: self.total_size as nat,
            pos: self.current_pos as nat,
            seq: self.block_sequence,
            seed: self.call_entropy,
        }
    }
}

impl DataGenerator {
    /// The generator's internal consistency.
    pub closed spec fn wf(&self) -> bool {
        &&& renderable(self.plan)
        &&& self@.wf()
    }

    /// Resolved worker count.
    pub closed spec fn spec_threads(&self) -> nat {
        self.max_threads as nat
    }

    /// A generator at position zero for `config`: block size, size,
    /// deduplication and compression are fixed from here on. The first
    /// segment's seed is `config.seed` when given.
    pub fn new(config: GeneratorConfig) -> (r: Self)
        ensures
            r.wf(),
            r@.layout == config.layout(),
            r@.total == config.spec_total_size(),
            r@.pos == 0,
            r@.seq == 0,
            config.seed is Some ==> r@.seed == config.seed->0,
            config.max_threads is Some ==> r.spec_threads() == config.max_threads->0,
    {
        let block_size = config.effective_block_size();
        let total_size = config.effective_size();
        let nblocks = config.block_count();
        let dedup_factor = if config.dedup_factor > 1 {
            config.dedup_factor
        } else {
            1
        };
        let plan = plan(nblocks, dedup_factor, config.compress_factor, block_size);
        let call_entropy = match config.seed {
            Some(s) => s,
            None => generate_call_entropy(),
        };
        let max_threads = match config.max_threads {
            Some(t) => t,
            None => logical_cpu_count(),
        };
        let thread_pool = if max_threads > 1 {
            build_pool(max_threads)
        } else {
            None
        };
        DataGenerator {
            total_size,
            current_pos: 0,
            dedup_factor,
            compress_factor: config.compress_factor,
            plan,
            call_entropy,
            block_sequence: 0,
            max_threads,
            thread_pool,
        }
    }

    /// Fills the front of `buf` with the next bytes of the stream and
    /// returns how many: all of `buf` or what is left, whichever is less.
    /// Zero means the stream is complete (or `buf` is empty). The bytes do
    /// not depend on the worker count.
    pub fn fill_chunk(&mut self, buf: &mut [u8]) -> (r: usize)
        requires
            old(self).wf(),
        ensures
            final(self).wf(),
            r == old(self)@.writable(old(buf)@.len()),
            final(self)@ == old(self)@.advance(r as nat),
            final(self).spec_threads() == old(self).spec_threads(),
            final(buf)@ == old(self)@.emit(r as nat) + old(buf)@.subrange(
                r as int,
                old(buf)@.len() as int,
            ),
    {
        if self.current_pos >= self.total_size || buf.len() == 0 {
            proof {
                vstd::arithmetic::div_mod::lemma_small_mod(
                    self.block_sequence as nat,
                    seed_modulus() as nat,
                );
                assert(buf@ =~= self@.emit(0) + buf@.subrange(0, buf@.len() as int));
            }
            return 0;
        }
        let remaining = self.total_size - self.current_pos;
        let to_write = if buf.len() < remaining {
            buf.len()
        } else {
            remaining
        };
        let bs = self.plan.block_size;
        let start_block = self.current_pos / bs;
        let start_offset = self.current_pos % bs;
        let end_block = (self.current_pos + to_write - 1) / bs;
        proof {
            vstd::arithmetic::div_mod::lemma_div_is_ordered(
                self.current_pos as int,
                (self.current_pos + to_write - 1) as int,
                bs as int,
            );
            assert(start_block * 2 <= self.current_pos) by (nonlinear_arith)
                requires
                    start_block == self.current_pos / bs,
                    bs >= 2,
            ;
        }
        let num_blocks = end_block - start_block + 1;
        let (chunk, _rest) = buf.split_at_mut(to_write);
        let written = if num_blocks >= 2 && self.max_threads > 1 {
            self.fill_chunk_parallel(chunk, start_block, start_offset)
        } else {
            self.fill_chunk_sequential(chunk, start_block, start_offset)
        };
        written
    }

    /// Renders `chunk` block by block on the calling thread and advances
    /// the cursor past it.
    fn fill_chunk_sequential(
        &mut self,
        chunk: &mut [u8],
        start_block: usize,
        start_offset: usize,
    ) -> (r: usize)
        requires
            old(self).wf(),
            0 < old(chunk)@.len() <= old(self)@.total - old(self)@.pos,
            start_block == (old(self)@.pos as int) / (old(self)@.layout.block_size as int),
            start_offset == (old(self)@.pos as int) % (old(self)@.layout.block_size as int),
        ensures
            final(self).wf(),
            r == old(chunk)@.len(),
            final(self)@ == old(self)@.advance(r as nat),
            final(self).spec_threads() == old(self).spec_threads(),
            final(chunk)@ == old(self)@.emit(r as nat),
    {
        self.render_and_advance(None, chunk, start_block, start_offset)
    }

    /// Renders `chunk` with the worker pool (on the calling thread when the
    /// pool could not be built) and advances the cursor past it.
    fn fill_chunk_parallel(
        &mut self,
        chunk: &mut [u8],
        start_block: usize,
        start_offset: usize,
    ) -> (r: usize)
        requires
            old(self).wf(),
            0 < old(chunk)@.len() <= old(self)@.total - old(self)@.pos,
            start_block == (old(self)@.pos as int) / (old(self)@.layout.block_size as int),
            start_offset == (old(self)@.pos as int) % (old(self)@.layout.block_size as int),
        ensures
            final(self).wf(),
            r == old(chunk)@.len(),
            final(self)@ == old(self)@.advance(r as nat),
            final(self).spec_threads() == old(self).spec_threads(),
            final(chunk)@ == old(self)@.emit(r as nat),
    {
        let pool = self.thread_pool.take();
        let written = self.render_and_advance(pool.as_ref(), chunk, start_block, start_offset);
        self.thread_pool = pool;
        written
    }

    fn render_and_advance(
        &mut self,
        pool: Option<&ThreadPool>,
        chunk: &mut [u8],
        start_block: usize,
        start_offset: usize,
    ) -> (r: usize)
        requires
            old(self).wf(),
            0 < old(chunk)@.len() <= old(self)@.total - old(self)@.pos,
            start_block == (old(self)@.pos as int) / (old(self)@.layout.block_size as int),
            start_offset == (old(self)@.pos as int) % (old(self)@.layout.block_size as int),
        ensures
            final(self).wf(),
            r == old(chunk)@.len(),
            final(self)@ == old(self)@.advance(r as nat),
            final(self).spec_threads() == old(self).spec_threads(),
            final(chunk)@ == old(self)@.emit(r as nat),
    {
        proof {
            assert(start_block < usize::MAX) by (nonlinear_arith)
                requires
                    start_block == (self.current_pos as int) / (self.plan.block_size as int),
                    self.plan.block_size >= 2,
                    self.current_pos <= usize::MAX,
            ;
        }
        render_window(
            pool,
            &self.plan,
            self.call_entropy,
            self.block_sequence,
            start_block,
            start_offset,
            chunk,
        );
        let to_write = chunk.len();
        let end_block = (self.current_pos + to_write) / self.plan.block_size;
        proof {
            vstd::arithmetic::div_mod::lemma_div_is_ordered(
                self.current_pos as int,
                (self.current_pos + to_write) as int,
                self.plan.block_size as int,
            );
        }
        let crossed = end_block - start_block;
        self.current_pos = self.current_pos + to_write;
        self.block_sequence = self.block_sequence.wrapping_add(crossed as u64);
        to_write
    }

    /// A consistent generator has a consistent stream state, so the laws
    /// over `StreamState` apply to `self@`.
    pub proof fn lemma_wf_view(&self)
        requires
            self.wf(),
        ensures
            self@.wf(),
    {
    }

    /// Moves the cursor back to the start. The sequence numbering goes on
    /// from where it was; only `set_seed` restarts it.
    pub fn reset(&mut self)
        requires
            old(self).wf(),
        ensures
            final(self).wf(),
            final(self)@ == old(self)@.rewound(),
            final(self).spec_threads() == old(self).spec_threads(),
    {
        self.current_pos = 0;
    }

    /// Bytes produced so far.
    pub fn position(&self) -> (r: usize)
        ensures
            r == self@.pos,
    {
        self.current_pos
    }

    /// Bytes the session produces in all.
    pub fn total_size(&self) -> (r: usize)
        ensures
            r == self@.total,
    {
        self.total_size
    }

    /// Whether every byte has been produced.
    pub fn is_complete(&self) -> (r: bool)
        ensures
            r == (self@.pos >= self@.total),
    {
        self.current_pos >= self.total_size
    }

    /// Starts a new segment: later blocks use base seed `seed` (a fresh
    /// unpredictable one for `None`) and sequence numbers from zero. The
    /// cursor stays where it is.
    pub fn set_seed(&mut self, seed: Option<u64>)
        requires
            old(self).wf(),
        ensures
            final(self).wf(),
            final(self)@ == old(self)@.reseeded(final(self)@.seed),
            seed is Some ==> final(self)@.seed == seed->0,
            final(self).spec_threads() == old(self).spec_threads(),
    {
        self.call_entropy = match seed {
            Some(s) => s,
            None => generate_call_entropy(),
        };
        self.block_sequence = 0;
    }

    /// Chunk size that callers are advised to use (32 MiB); any size works.
    pub fn recommended_chunk_size() -> (r: usize)
        ensures
            r == RECOMMENDED_CHUNK_SIZE,
    {
        RECOMMENDED_CHUNK_SIZE
    }
}

/// `(p * bs + y) / bs == p + y / bs` and `(p * bs + y) % bs == y % bs`.
proof fn lemma_shift(p: int, y: int, bs: int)
    requires
        bs > 0,
        y >= 0,
    ensures
        (p * bs + y) / bs == p + y / bs,
        (p * bs + y) % bs == y % bs,
{
    lemma_fundamental_div_mod(y, bs);
    lemma_mod_bound(y, bs);
    assert(p * bs + y == (p + y / bs) * bs + y % bs) by (nonlinear_arith)
        requires
            y == bs * (y / bs) + y % bs,
    ;
    lemma_div_parts(p * bs + y, bs, p + y / bs, y % bs);
}

/// Cutting the stream into chunks changes nothing: producing `n1` bytes
/// and then `n2` more gives the same bytes, and the same state, as
/// producing `n1 + n2` bytes at once, wherever the cut falls (a block cut
/// in two keeps its sequence number). Since `fill_chunk` produces `emit`
/// whatever the worker count, two sessions of one configuration and seed
/// agree byte for byte however they chunk and however many workers each
/// has.
pub proof fn lemma_fill_split(s: StreamState, n1: nat, n2: nat)
    requires
        s.wf(),
        s.pos + n1 + n2 <= s.total,
    ensures
        s.emit(n1) + s.advance(n1).emit(n2) == s.emit(n1 + n2),
        s.advance(n1).advance(n2) == s.advance(n1 + n2),
{
    let bs = s.layout.block_size as int;
    let m = seed_modulus();
    let pos = s.pos as int;
    let p = pos / bs;
    let off = pos % bs;
    lemma_fundamental_div_mod(pos, bs);
    lemma_mod_bound(pos, bs);
    let s1 = s.advance(n1);
    let pos1 = pos + n1;
    let p1 = pos1 / bs;
    let off1 = pos1 % bs;
    lemma_fundamental_div_mod(pos1, bs);
    lemma_mod_bound(pos1, bs);
    vstd::arithmetic::div_mod::lemma_div_is_ordered(pos, pos1, bs);
    vstd::arithmetic::div_mod::lemma_div_is_ordered(pos1, pos1 + n2, bs);
    let c1 = p1 - p;
    assert(s1.pos == pos1);
    assert(s.blocks_crossed(n1) == c1);
    lemma_mod_bound(s.seq + c1, m);
    lemma_small_mod(s1.seq as nat, m as nat);
    lemma_window_seq_mod(s.layout, s.seed, s1.seq as int, s.seq + c1, p1, off1, n2);
    let whole = s.emit(n1 + n2);
    let left = s.emit(n1);
    let right = stream_window(s.layout, s.seed, s.seq + c1, p1, off1, n2);
    assert forall|t: int| 0 <= t < n2 implies #[trigger] whole[n1 + t] == right[t] by {
        assert(pos1 + t == p * bs + (off + n1 + t)) by (nonlinear_arith)
            requires
                pos == bs * p + off,
                pos1 == pos + n1,
        ;
        assert(pos1 + t == p1 * bs + (off1 + t)) by (nonlinear_arith)
            requires
                pos1 == bs * p1 + off1,
        ;
        lemma_shift(p, off + n1 + t, bs);
        lemma_shift(p1, off1 + t, bs);
    }
    assert forall|j: int| 0 <= j < n1 + n2 implies #[trigger] whole[j] == (left + right)[j] by {
        if j >= n1 {
            assert(whole[n1 + (j - n1)] == right[j - n1]);
        }
    }
    assert(whole =~= left + right);
    let c2 = s1.blocks_crossed(n2);
    assert(s.blocks_crossed(n1 + n2) == c1 + c2);
    lemma_add_mod_noop(s.seq + c1, c2 as int, m);
    lemma_add_mod_noop(s1.seq as int, c2 as int, m);
}

/// The zero quota of the `k`-th block from block `first`.
pub open spec fn quota_ahead(lay: Layout, first: int, k: int) -> int {
    lay.quota_of(first + k)
}

/// Whether the blocks from `b1` on carry the same zero quotas as those
/// from `b2` on.
pub open spec fn same_quotas_ahead(lay: Layout, b1: int, b2: int) -> bool {
    forall|k: int| 0 <= k ==> #[trigger] quota_ahead(lay, b1, k) == quota_ahead(lay, b2, k)
}

/// Blocks agree in quota from `b1` and `b2` on when the two indices agree
/// modulo the unique block count, or when compression is off.
pub proof fn lemma_same_quotas_ahead(lay: Layout, b1: int, b2: int)
    requires
        lay.unique_blocks >= 1,
        b1 % (lay.unique_blocks as int) == b2 % (lay.unique_blocks as int)
            || lay.compress_factor <= 1,
    ensures
        same_quotas_ahead(lay, b1, b2),
{
    let u = lay.unique_blocks as int;
    assert forall|k: int| 0 <= k implies #[trigger] quota_ahead(lay, b1, k) == quota_ahead(
        lay,
        b2,
        k,
    ) by {
        if lay.compress_factor <= 1 {
            assert forall|x: nat| #[trigger] (x * (0 * lay.block_size)) == 0 by {
                assert(x * (0 * lay.block_size) == 0) by (nonlinear_arith);
            }
        } else {
            lemma_add_mod_noop(b1, k, u);
            lemma_add_mod_noop(b2, k, u);
        }
    }
}

/// Re-applying a seed reproduces its segment: after `set_seed(seed)` the
/// next `n` bytes depend only on where the cursor sits within a block and
/// on the zero quotas of the blocks ahead. Two cursors at the same offset
/// within a block, with the same quotas ahead (see
/// `lemma_same_quotas_ahead`), produce identical segments, whatever was
/// produced in between.
pub proof fn lemma_reseed_reproduces_segment(s: StreamState, t: StreamState, seed: u64, n: nat)
    requires
        s.wf(),
        t.wf(),
        s.layout == t.layout,
        (s.pos as int) % (s.layout.block_size as int) == (t.pos as int) % (
        s.layout.block_size as int),
        same_quotas_ahead(
            s.layout,
            (s.pos as int) / (s.layout.block_size as int),
            (t.pos as int) / (s.layout.block_size as int),
        ),
    ensures
        s.reseeded(seed).emit(n) == t.reseeded(seed).emit(n),
{
    let lay = s.layout;
    let bs = lay.block_size as int;
    let off = (s.pos as int) % bs;
    let ps = (s.pos as int) / bs;
    let pt = (t.pos as int) / bs;
    let a = s.reseeded(seed).emit(n);
    let b = t.reseeded(seed).emit(n);
    assert forall|j: int| 0 <= j < n implies #[trigger] a[j] == b[j] by {
        let k = (off + j) / bs;
        vstd::arithmetic::div_mod::lemma_div_pos_is_pos(off + j, bs);
        assert(quota_ahead(lay, ps, k) == quota_ahead(lay, pt, k));
    }
    assert(a =~= b);
}

/// Once the cursor reaches the end, every fill produces nothing and leaves
/// the state as it is; `reset` makes the stream available again.
pub proof fn lemma_complete_until_reset(s: StreamState, buf_len: nat)
    requires
        s.wf(),
        s.pos == s.total,
    ensures
        s.writable(buf_len) == 0,
        s.advance(0) == s,
        s.emit(0) == Seq::<u8>::empty(),
        s.rewound().pos == 0,
        buf_len > 0 ==> s.rewound().writable(buf_len) > 0,
{
    lemma_small_mod(s.seq as nat, seed_modulus() as nat);
    assert(s.emit(0) =~= Seq::<u8>::empty());
}

/// A fresh session streams exactly the bytes that one-shot generation of
/// the same request and seed produces.
pub proof fn lemma_stream_matches_one_shot(config: GeneratorConfig, s: StreamState)
    requires
        s.wf(),
        s.layout == config.layout(),
        s.total == config.spec_total_size(),
        s.pos == 0,
        s.seq == 0,
    ensures
        s.emit(s.total) == one_shot_bytes(config, s.seed),
{
    lemma_div_parts(0, s.layout.block_size as int, 0, 0);
}

} // verus!
