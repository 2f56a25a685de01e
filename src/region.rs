//! Rendering a window of the block stream into a caller's buffer, one block
//! at a time or fanned out over a worker pool.
use crate::block::{block_bytes, block_seed, fill_block, seed_modulus};
use crate::plan::{GenerationPlan, Layout};
use rayon::prelude::ParallelSliceMut;
use rayon::iter::{IndexedParallelIterator, ParallelIterator};
use rayon::ThreadPool;
use vstd::arithmetic::div_mod::{lemma_add_mod_noop, lemma_fundamental_div_mod_converse};
use vstd::prelude::*;

verus! {

/// The whole content of physical block `block` when rendered with sequence
/// number `seq` in the stream based at `seed`.
pub open spec fn rendered_block(lay: Layout, seed: u64, seq: int, block: int) -> Seq<u8> {
    block_bytes(block_seed(seed, seq), lay.block_size, lay.quota_of(block) as nat)
}

/// `n` bytes of the stream that starts `offset` bytes into block
/// `first_block`; the blocks it crosses carry the sequence numbers
/// `first_seq`, `first_seq + 1`, ... in order.
pub open spec fn stream_window(
    lay: Layout,
    seed: u64,
    first_seq: int,
    first_block: int,
    offset: int,
    n: nat,
) -> Seq<u8> {
    let bs = lay.block_size as int;
    Seq::new(
        n,
        |j: int|
            rendered_block(lay, seed, first_seq + (offset + j) / bs, first_block + (offset + j) / bs)[(
            offset + j) % bs],
    )
}

/// The preconditions shared by the renderers.
pub open spec fn renderable(plan: GenerationPlan) -> bool {
    plan.wf() && plan.block_size > 0
}

/// Block seeds depend on the sequence number modulo 2^64 only.
pub proof fn lemma_block_seed_mod(seed: u64, a: int, b: int)
    requires
        a % seed_modulus() == b % seed_modulus(),
    ensures
        block_seed(seed, a) == block_seed(seed, b),
{
    lemma_add_mod_noop(seed as int, a, seed_modulus());
    lemma_add_mod_noop(seed as int, b, seed_modulus());
}

/// Windows depend on the first sequence number modulo 2^64 only.
pub proof fn lemma_window_seq_mod(
    lay: Layout,
    seed: u64,
    a: int,
    b: int,
    first_block: int,
    offset: int,
    n: nat,
)
    requires
        a % seed_modulus() == b % seed_modulus(),
    ensures
        stream_window(lay, seed, a, first_block, offset, n) == stream_window(
            lay,
            seed,
            b,
            first_block,
            offset,
            n,
        ),
{
    let bs = lay.block_size as int;
    assert forall|j: int| 0 <= j < n implies #[trigger] stream_window(
        lay,
        seed,
        a,
        first_block,
        offset,
        n,
    )[j] == stream_window(lay, seed, b, first_block, offset, n)[j] by {
        let k = (offset + j) / bs;
        lemma_add_mod_noop(a, k, seed_modulus());
        lemma_add_mod_noop(b, k, seed_modulus());
        lemma_block_seed_mod(seed, a + k, b + k);
    }
    assert(stream_window(lay, seed, a, first_block, offset, n) =~= stream_window(
        lay,
        seed,
        b,
        first_block,
        offset,
        n,
    ));
}

/// `x = k * d + s` with `0 <= s < d` has quotient `k` and remainder `s`.
pub proof fn lemma_div_parts(x: int, d: int, k: int, s: int)
    requires
        d > 0,
        0 <= s < d,
        x == k * d + s,
    ensures
        x / d == k,
        x % d == s,
{
    lemma_fundamental_div_mod_converse(x, d, k, s);
}

/// The `(a + b) % u` quota slot, computed without overflow.
fn quota_slot(a: usize, b: usize, u: usize) -> (r: usize)
    requires
        u > 0,
    ensures
        r == (a as int + b as int) % (u as int),
{
    proof {
        lemma_add_mod_noop(a as int, b as int, u as int);
    }
    let x = a % u;
    let y = b % u;
    if x >= u - y {
        proof {
            lemma_div_parts(x + y, u as int, 1, x + y - u);
        }
        x - (u - y)
    } else {
        proof {
            lemma_div_parts(x + y, u as int, 0, x + y);
        }
        x + y
    }
}

/// Writes bytes `skip .. skip + out.len()` of block `block`, rendered with
/// sequence number `seq`, into `out`. A whole block is rendered in place;
/// a part of one is rendered into a scratch block and copied out.
pub fn render_block_part(
    plan: &GenerationPlan,
    seed: u64,
    seq: u64,
    block_slot: usize,
    skip: usize,
    out: &mut [u8],
)
    requires
        renderable(*plan),
        block_slot < plan.unique_blocks,
        skip + old(out)@.len() <= plan.block_size,
    ensures
        final(out)@ == rendered_block(plan.layout(), seed, seq as int, block_slot as int).subrange(
            skip as int,
            skip + old(out)@.len(),
        ),
{
    let bs = plan.block_size;
    let zero_len = plan.copy_lens[block_slot];
    let n = out.len();
    proof {
        lemma_div_parts(block_slot as int, plan.unique_blocks as int, 0, block_slot as int);
    }
    let ghost full = rendered_block(plan.layout(), seed, seq as int, block_slot as int);
    if skip == 0 && n == bs {
        fill_block(out, zero_len, seq, seed);
        assert(out@ =~= full.subrange(0, n as int));
    } else {
        let mut scratch: Vec<u8> = vec![0u8; bs];
        fill_block(scratch.as_mut_slice(), zero_len, seq, seed);
        assert(scratch@ == full);
        let mut i: usize = 0;
        while i < n
            invariant
                0 <= i <= n,
                out@.len() == n,
                skip + n <= bs,
                scratch@ == full,
                full.len() == bs,
                forall|j: int| 0 <= j < i ==> out@[j] == full[skip + j],
            decreases n - i,
        {
            out[i] = scratch[skip + i];
            i = i + 1;
        }
        assert(out@ =~= full.subrange(skip as int, skip + n));
    }
}

/// Renders the `index`-th block of a block-aligned window into `piece`,
/// which holds the start of that block (all of it but at the stream's end).
pub fn render_indexed_block(
    plan: &GenerationPlan,
    seed: u64,
    first_seq: u64,
    first_block: usize,
    index: usize,
    piece: &mut [u8],
)
    requires
        renderable(*plan),
        old(piece)@.len() <= plan.block_size,
    ensures
        final(piece)@ == rendered_block(
            plan.layout(),
            seed,
            first_seq + index,
            first_block + index,
        ).subrange(0, old(piece)@.len() as int),
{
    let slot = quota_slot(first_block, index, plan.unique_blocks);
    let seq = first_seq.wrapping_add(index as u64);
    proof {
        lemma_div_parts(slot as int, plan.unique_blocks as int, 0, slot as int);
        lemma_block_seed_mod(seed, seq as int, first_seq + index);
    }
    render_block_part(plan, seed, seq, slot, 0, piece);
}

/// Relies on rayon's `ThreadPool::install` and on
/// `par_chunks_mut(block_size).enumerate().for_each`: the buffer is cut into
/// consecutive chunks of `block_size` bytes (the last may be shorter), and
/// each chunk is handed exactly once, with its index, to
/// `render_indexed_block`, whose result for chunk `i` is block
/// `first_block + i` with sequence number `first_seq + i`.
#[verifier::external_body]
fn par_render_aligned(
    pool: &ThreadPool,
    plan: &GenerationPlan,
    seed: u64,
    first_seq: u64,
    first_block: usize,
    out: &mut [u8],
)
    requires
        renderable(*plan),
    ensures
        final(out)@ == stream_window(
            plan.layout(),
            seed,
            first_seq as int,
            first_block as int,
            0,
            old(out)@.len(),
        ),
{
    let block_size = plan.block_size;
    pool.install(|| {
        out.par_chunks_mut(block_size).enumerate().for_each(|(i, piece)| {
            render_indexed_block(plan, seed, first_seq, first_block, i, piece)
        })
    });
}

/// Renders a window one block at a time: each block crossed is rendered
/// whole into a scratch block and the part inside the window copied out.
pub fn render_window_sequential(
    plan: &GenerationPlan,
    seed: u64,
    first_seq: u64,
    first_block: usize,
    offset: usize,
    out: &mut [u8],
)
    requires
        renderable(*plan),
        offset < plan.block_size,
    ensures
        final(out)@ == stream_window(
            plan.layout(),
            seed,
            first_seq as int,
            first_block as int,
            offset as int,
            old(out)@.len(),
        ),
{
    let bs = plan.block_size;
    let n = out.len();
    let ghost target = stream_window(
        plan.layout(),
        seed,
        first_seq as int,
        first_block as int,
        offset as int,
        n as nat,
    );
    let mut written: usize = 0;
    let mut k: usize = 0;
    let mut seq = first_seq;
    let mut slot = quota_slot(first_block, 0, plan.unique_blocks);
    let mut scratch: Vec<u8> = vec![0u8; bs];
    while written < n
        invariant
            renderable(*plan),
            bs == plan.block_size,
            offset < bs,
            n == out@.len(),
            written <= n,
            written == n || (k == 0 && written == 0) || (offset + written == k * bs),
            k <= written,
            seq as int == (first_seq + k) % seed_modulus(),
            slot as int == (first_block + k) % (plan.unique_blocks as int),
            scratch@.len() == bs,
            target == stream_window(
                plan.layout(),
                seed,
                first_seq as int,
                first_block as int,
                offset as int,
                n as nat,
            ),
            forall|j: int| 0 <= j < written ==> out@[j] == target[j],
        decreases n - written,
    {
        let skip: usize = if k == 0 {
            offset
        } else {
            0
        };
        let room = bs - skip;
        let count: usize = if room < n - written {
            room
        } else {
            n - written
        };
        let zero_len = plan.copy_lens[slot];
        fill_block(scratch.as_mut_slice(), zero_len, seq, seed);
        let ghost full = scratch@;
        proof {
            lemma_div_parts(slot as int, plan.unique_blocks as int, 0, slot as int);
            lemma_block_seed_mod(seed, seq as int, first_seq + k);
            assert(full == rendered_block(plan.layout(), seed, first_seq + k, first_block + k));
        }
        let mut t: usize = 0;
        while t < count
            invariant
                0 <= t <= count,
                skip + count <= bs,
                written + count <= n,
                n == out@.len(),
                scratch@ == full,
                full.len() == bs,
                forall|j: int| 0 <= j < written ==> out@[j] == target[j],
                forall|j: int| written <= j < written + t ==> out@[j] == full[skip + (j - written)],
            decreases count - t,
        {
            out[written + t] = scratch[skip + t];
            t = t + 1;
        }
        proof {
            assert forall|j: int| written <= j < written + count implies out@[j] == target[j] by {
                let s = skip + (j - written);
                assert(offset + j == k * bs + s) by (nonlinear_arith)
                    requires
                        (k == 0 && written == 0 && skip == offset) || (offset + written == k * bs
                            && skip == 0),
                        s == skip + (j - written),
                ;
                lemma_div_parts(offset + j, bs as int, k as int, s);
            }
        }
        if count == room {
            assert(offset + written + count == (k + 1) * bs) by (nonlinear_arith)
                requires
                    (k == 0 && written == 0 && skip == offset) || (offset + written == k * bs && skip
                        == 0),
                    count == bs - skip,
            ;
        }
        written = written + count;
        if written < n {
            proof {
                assert(k + 1 <= written) by (nonlinear_arith)
                    requires
                        offset + written == (k + 1) * bs,
                        offset < bs,
                ;
                lemma_add_mod_noop(first_seq + k, 1, seed_modulus());
                lemma_add_mod_noop(seq as int, 1, seed_modulus());
                lemma_div_parts(1, seed_modulus(), 0, 1);
                lemma_div_parts(seq as int, seed_modulus(), 0, seq as int);
                lemma_add_mod_noop(first_block + k, 1, plan.unique_blocks as int);
                lemma_add_mod_noop(slot as int, 1, plan.unique_blocks as int);
                lemma_div_parts(slot as int, plan.unique_blocks as int, 0, slot as int);
            }
            k = k + 1;
            seq = seq.wrapping_add(1);
            slot = quota_slot(slot, 1, plan.unique_blocks);
        }
    }
    assert(out@ =~= target);
}

/// A window that starts inside a block splits, where that block ends, into
/// the block's tail and a block-aligned window over the following blocks.
pub proof fn lemma_window_split(
    lay: Layout,
    seed: u64,
    first_seq: int,
    first_block: int,
    offset: int,
    head: nat,
    n: nat,
)
    requires
        lay.block_size > 0,
        0 <= offset < lay.block_size,
        head <= n,
        head == n || offset + head == lay.block_size,
    ensures
        stream_window(lay, seed, first_seq, first_block, offset, n) == stream_window(
            lay,
            seed,
            first_seq,
            first_block,
            offset,
            head,
        ) + stream_window(lay, seed, first_seq + 1, first_block + 1, 0, (n - head) as nat),
{
    let bs = lay.block_size as int;
    let whole = stream_window(lay, seed, first_seq, first_block, offset, n);
    let left = stream_window(lay, seed, first_seq, first_block, offset, head);
    let right = stream_window(lay, seed, first_seq + 1, first_block + 1, 0, (n - head) as nat);
    assert forall|j: int| head <= j < n implies #[trigger] whole[j] == right[j - head] by {
        let t = j - head;
        vstd::arithmetic::div_mod::lemma_fundamental_div_mod(t, bs);
        assert(t == (t / bs) * bs + t % bs) by (nonlinear_arith)
            requires
                t == bs * (t / bs) + t % bs,
        ;
        assert(offset + j == (1 + t / bs) * bs + t % bs) by (nonlinear_arith)
            requires
                offset + head == bs,
                t == j - head,
                t == (t / bs) * bs + t % bs,
        ;
        vstd::arithmetic::div_mod::lemma_mod_bound(t, bs);
        lemma_div_parts(offset + j, bs, 1 + t / bs, t % bs);
        lemma_div_parts(0 + t, bs, t / bs, t % bs);
    }
    assert(whole =~= left + right);
}

/// Renders a window of the stream into `out`. With a pool, every block
/// that starts inside the window is rendered by the pool's workers directly
/// in place; a block the window enters midway is rendered on the calling
/// thread. The bytes are the same either way.
pub fn render_window(
    pool: Option<&ThreadPool>,
    plan: &GenerationPlan,
    seed: u64,
    first_seq: u64,
    first_block: usize,
    offset: usize,
    out: &mut [u8],
)
    requires
        renderable(*plan),
        offset < plan.block_size,
        first_block < usize::MAX,
    ensures
        final(out)@ == stream_window(
            plan.layout(),
            seed,
            first_seq as int,
            first_block as int,
            offset as int,
            old(out)@.len(),
        ),
{
    match pool {
        None => render_window_sequential(plan, seed, first_seq, first_block, offset, out),
        Some(workers) => {
            if offset == 0 {
                par_render_aligned(workers, plan, seed, first_seq, first_block, out);
            } else {
                let n = out.len();
                let room = plan.block_size - offset;
                let head_len = if room < n {
                    room
                } else {
                    n
                };
                let (head, tail) = out.split_at_mut(head_len);
                render_window_sequential(plan, seed, first_seq, first_block, offset, head);
                let next_seq = first_seq.wrapping_add(1);
                par_render_aligned(workers, plan, seed, next_seq, first_block + 1, tail);
                proof {
                    lemma_add_mod_noop(first_seq as int, 1, seed_modulus());
                    lemma_div_parts(1, seed_modulus(), 0, 1);
                    lemma_div_parts(next_seq as int, seed_modulus(), 0, next_seq as int);
                    lemma_window_seq_mod(
                        plan.layout(),
                        seed,
                        next_seq as int,
                        first_seq + 1,
                        first_block + 1,
                        0,
                        (n - head_len) as nat,
                    );
                    lemma_window_split(
                        plan.layout(),
                        seed,
                        first_seq as int,
                        first_block as int,
                        offset as int,
                        head_len as nat,
                        n as nat,
                    );
                }
            }
        },
    }
}

/// Writes a zero at the start of `chunk`, and at its end when it is longer
/// than one page, so that the pages are first touched by the calling thread.
pub fn touch_chunk(chunk: &mut [u8])
    ensures
        final(chunk)@.len() == old(chunk)@.len(),
        old(chunk)@.len() > 0 ==> final(chunk)@[0] == 0u8,
        old(chunk)@.len() > 4096 ==> final(chunk)@[old(chunk)@.len() - 1] == 0u8,
        forall|i: int|
            0 < i < old(chunk)@.len() - 1 ==> #[trigger] final(chunk)@[i] == old(chunk)@[i],
{
    let n = chunk.len();
    if n > 0 {
        chunk[0] = 0u8;
        if n > 4096 {
            chunk[n - 1] = 0u8;
        }
    }
}

/// Relies on rayon's `ThreadPool::install` and
/// `par_chunks_mut(block_size).for_each`: every `block_size` chunk of `data`
/// is handed once to `touch_chunk` on a pool worker. The length of `data`
/// stays as it was.
#[verifier::external_body]
pub(crate) fn first_touch(pool: &ThreadPool, data: &mut [u8], block_size: usize)
    requires
        block_size > 0,
    ensures
        final(data)@.len() == old(data)@.len(),
{
    pool.install(|| data.par_chunks_mut(block_size).for_each(|chunk| touch_chunk(chunk)));
}

} // verus!
