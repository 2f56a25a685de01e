//! The generation plan: how many logically unique blocks a request maps onto,
//! and how many trailing zero bytes each unique block carries.
use vstd::arithmetic::div_mod::lemma_fundamental_div_mod;
use vstd::arithmetic::div_mod::lemma_fundamental_div_mod_converse;
use vstd::prelude::*;

verus! {

/// `n / d` rounded to the nearest integer, halves rounded up.
pub open spec fn rounded_quotient(n: int, d: int) -> int {
    (2 * n + d) / (2 * d)
}

/// The number of unique blocks for `total_blocks` physical blocks under a
/// deduplication factor: `total_blocks / dedup` rounded to nearest, at least
/// one. A factor of zero counts as one.
pub open spec fn unique_count(total_blocks: nat, dedup: nat) -> nat {
    let d: int = if dedup > 1 { dedup as int } else { 1 };
    let r = rounded_quotient(total_blocks as int, d);
    if r >= 1 { r as nat } else { 1 }
}

/// Numerator of the zero fraction `(c - 1) / c` of a compression factor.
pub open spec fn zero_numerator(compress: nat) -> nat {
    if compress > 1 { (compress - 1) as nat } else { 0 }
}

/// Denominator of the zero fraction `(c - 1) / c` of a compression factor.
pub open spec fn zero_denominator(compress: nat) -> nat {
    if compress > 1 { compress } else { 1 }
}

/// Zero bytes carried by the first `k` unique blocks together:
/// `floor(k * block_size * (c - 1) / c)`.
pub open spec fn quota_prefix(k: nat, compress: nat, block_size: nat) -> nat {
    ((k * (zero_numerator(compress) * block_size)) / zero_denominator(compress)) as nat
}

/// Zero bytes carried by unique block `i`.
pub open spec fn quota(i: nat, compress: nat, block_size: nat) -> int {
    quota_prefix(i + 1, compress, block_size) - quota_prefix(i, compress, block_size)
}

/// `ceil(a / b)`.
pub open spec fn ceil_div(a: int, b: int) -> int {
    (a + b - 1) / b
}

/// `ceil(a / b)` without overflow.
pub fn div_ceil(a: usize, b: usize) -> (r: usize)
    requires
        b > 0,
    ensures
        r == ceil_div(a as int, b as int),
        r <= a || a == 0,
        a > 0 ==> r >= 1,
        r * b >= a,
{
    let q = a / b;
    let m = a % b;
    proof {
        lemma_fundamental_div_mod(a as int, b as int);
        if m != 0 {
            assert(a + b - 1 == (q + 1) * b + (m - 1) && (b >= 2 ==> q * 2 <= a) && q + 1 <= a
                && (q + 1) * b >= a)
                by (nonlinear_arith)
                requires
                    a == b * q + m,
                    0 < m < b,
                    q >= 0,
            ;
            lemma_fundamental_div_mod_converse(a + b - 1, b as int, q + 1, m - 1);
        } else {
            assert(a + b - 1 == q * b + (b - 1) && q <= a && (a > 0 ==> q >= 1) && q * b >= a)
                by (nonlinear_arith)
                requires
                    a == b * q + m,
                    m == 0,
                    b >= 1,
                    q >= 0,
            ;
            lemma_fundamental_div_mod_converse(a + b - 1, b as int, q as int, b - 1);
        }
    }
    if m != 0 {
        q + 1
    } else {
        q
    }
}

/// Sum of a sequence of lengths.
pub open spec fn total_of(s: Seq<usize>) -> int
    decreases s.len(),
{
    if s.len() == 0 {
        0
    } else {
        total_of(s.drop_last()) + s.last()
    }
}

/// The shape of a block stream: block size, unique block count and the
/// compression factor the zero quotas follow.
pub struct Layout {
    pub block_size: nat,
    pub unique_blocks: nat,
    pub compress_factor: nat,
}

impl Layout {
    /// Zero bytes of physical block `block`.
    pub open spec fn quota_of(self, block: int) -> int {
        quota((block % (self.unique_blocks as int)) as nat, self.compress_factor, self.block_size)
    }
}

/// How a request maps onto blocks.
pub struct GenerationPlan {
    /// Bytes per block.
    pub block_size: usize,
    /// Physical blocks in the request.
    pub total_blocks: usize,
    /// Logically unique blocks; physical block `i` uses unique block
    /// `i % unique_blocks`.
    pub unique_blocks: usize,
    /// Compression factor the quotas were computed for.
    pub compress_factor: usize,
    /// Trailing zero bytes of each unique block.
    pub copy_lens: Vec<usize>,
}

impl GenerationPlan {
    /// The quotas are the even distribution of the zero budget and none
    /// exceeds a block.
    pub open spec fn wf(&self) -> bool {
        &&& self.unique_blocks >= 1
        &&& self.copy_lens@.len() == self.unique_blocks
        &&& forall|i: int|
            0 <= i < self.unique_blocks ==> {
                &&& #[trigger] self.copy_lens@[i] == quota(
                    i as nat,
                    self.compress_factor as nat,
                    self.block_size as nat,
                )
                &&& self.copy_lens@[i] <= self.block_size
            }
    }

    /// The stream shape this plan caches quotas for.
    pub open spec fn layout(&self) -> Layout {
        Layout {
            block_size: self.block_size as nat,
            unique_blocks: self.unique_blocks as nat,
            compress_factor: self.compress_factor as nat,
        }
    }
}

proof fn lemma_rounded_quotient(n: int, d: int, q: int, m: int)
    requires
        d >= 2,
        n >= 0,
        0 <= m < d,
        n == q * d + m,
    ensures
        rounded_quotient(n, d) == q + (if 2 * m >= d { 1int } else { 0int }),
{
    if 2 * m >= d {
        assert(2 * n + d == (q + 1) * (2 * d) + (2 * m - d)) by (nonlinear_arith)
            requires
                n == q * d + m,
        ;
        lemma_fundamental_div_mod_converse(2 * n + d, 2 * d, q + 1, 2 * m - d);
    } else {
        assert(2 * n + d == q * (2 * d) + (2 * m + d)) by (nonlinear_arith)
            requires
                n == q * d + m,
        ;
        lemma_fundamental_div_mod_converse(2 * n + d, 2 * d, q, 2 * m + d);
    }
}

/// Unique blocks for `total_blocks` physical blocks: the quotient by the
/// deduplication factor rounded to nearest (halves up), never below one.
pub fn unique_block_count(total_blocks: usize, dedup_factor: usize) -> (r: usize)
    ensures
        r == unique_count(total_blocks as nat, dedup_factor as nat),
        r >= 1,
{
    if dedup_factor > 1 {
        let q = total_blocks / dedup_factor;
        let m = total_blocks % dedup_factor;
        proof {
            lemma_fundamental_div_mod(total_blocks as int, dedup_factor as int);
            assert(total_blocks == q * dedup_factor + m && q * 2 <= total_blocks) by (nonlinear_arith)
                requires
                    total_blocks == dedup_factor * q + m,
                    dedup_factor >= 2,
                    q >= 0,
                    m >= 0,
            ;
            lemma_rounded_quotient(total_blocks as int, dedup_factor as int, q as int, m as int);
        }
        let r = if m >= dedup_factor - m {
            q + 1
        } else {
            q
        };
        if r >= 1 {
            r
        } else {
            1
        }
    } else {
        proof {
            lemma_fundamental_div_mod_converse(
                2 * total_blocks + 1,
                2,
                total_blocks as int,
                1,
            );
        }
        if total_blocks >= 1 {
            total_blocks
        } else {
            1
        }
    }
}

/// With `p = q * d + r`, the first `k` quotas sum to `k * q + (k * r) / d`.
proof fn lemma_prefix_split(k: int, p: int, d: int, q: int, r: int)
    requires
        k >= 0,
        q >= 0,
        d > 0,
        0 <= r < d,
        p == q * d + r,
    ensures
        (k * p) / d == k * q + (k * r) / d,
{
    let kr = k * r;
    lemma_fundamental_div_mod(kr, d);
    let qq = kr / d;
    let mm = kr % d;
    assert(k * p == (k * q + qq) * d + mm) by (nonlinear_arith)
        requires
            p == q * d + r,
            kr == k * r,
            kr == d * qq + mm,
    ;
    lemma_fundamental_div_mod_converse(k * p, d, k * q + qq, mm);
}

/// One step of the error accumulator: the carry and the new remainder.
proof fn lemma_accumulate_step(k: int, r: int, d: int)
    requires
        k >= 0,
        d > 0,
        0 <= r < d,
    ensures
        ({
            let e = (k * r) % d;
            let carry: int = if e + r >= d { 1 } else { 0 };
            &&& ((k + 1) * r) / d == (k * r) / d + carry
            &&& ((k + 1) * r) % d == e + r - carry * d
        }),
{
    let kr = k * r;
    lemma_fundamental_div_mod(kr, d);
    let q = kr / d;
    let e = kr % d;
    assert((k + 1) * r == kr + r) by (nonlinear_arith)
        requires
            kr == k * r,
    ;
    assert((k + 1) * r == (q + 1) * d + (e + r - d) && (k + 1) * r == q * d + (e + r))
        by (nonlinear_arith)
        requires
            (k + 1) * r == kr + r,
            kr == d * q + e,
    ;
    if e + r >= d {
        lemma_fundamental_div_mod_converse((k + 1) * r, d, q + 1, e + r - d);
    } else {
        lemma_fundamental_div_mod_converse((k + 1) * r, d, q, e + r);
    }
}

/// The sum of the first `k` quotas is the prefix budget.
proof fn lemma_quota_sum(s: Seq<usize>, compress: nat, block_size: nat)
    requires
        forall|i: int| 0 <= i < s.len() ==> #[trigger] s[i] == quota(i as nat, compress, block_size),
    ensures
        total_of(s) == quota_prefix(s.len(), compress, block_size),
    decreases s.len(),
{
    if s.len() == 0 {
        assert(0 * (zero_numerator(compress) * block_size) == 0);
    } else {
        let t = s.drop_last();
        assert forall|i: int| 0 <= i < t.len() implies #[trigger] t[i] == quota(
            i as nat,
            compress,
            block_size,
        ) by {
            assert(t[i] == s[i]);
        }
        lemma_quota_sum(t, compress, block_size);
    }
}

/// Builds the plan for `total_blocks` blocks of `block_size` bytes: the unique
/// block count and, by integer error accumulation, the zero quota of each
/// unique block, so that the first `k` quotas always sum to
/// `floor(k * block_size * (c - 1) / c)`.
pub fn plan(total_blocks: usize, dedup_factor: usize, compress_factor: usize, block_size: usize) -> (p:
    GenerationPlan)
    ensures
        p.wf(),
        p.block_size == block_size,
        p.total_blocks == total_blocks,
        p.compress_factor == compress_factor,
        p.unique_blocks == unique_count(total_blocks as nat, dedup_factor as nat),
{
    let unique_blocks = unique_block_count(total_blocks, dedup_factor);
    let (num, den): (u128, u128) = if compress_factor > 1 {
        ((compress_factor - 1) as u128, compress_factor as u128)
    } else {
        (0, 1)
    };
    proof {
        assert(num * (block_size as u128) <= 0xffff_ffff_ffff_ffff * 0xffff_ffff_ffff_ffff)
            by (nonlinear_arith)
            requires
                num <= 0xffff_ffff_ffff_ffffu128,
                block_size <= 0xffff_ffff_ffff_ffffu64,
        ;
    }
    let budget: u128 = num * (block_size as u128);
    let floor_len: u128 = budget / den;
    let rem: u128 = budget % den;
    let ghost c = compress_factor as nat;
    let ghost bs = block_size as nat;
    proof {
        lemma_fundamental_div_mod(budget as int, den as int);
        assert(num * bs <= den * bs) by (nonlinear_arith)
            requires
                num <= den,
        ;
        assert(floor_len <= bs) by (nonlinear_arith)
            requires
                budget == den * floor_len + rem,
                budget <= den * bs,
                rem >= 0,
                den > 0,
        ;
        if rem > 0 {
            assert(floor_len < bs) by (nonlinear_arith)
                requires
                    budget == den * floor_len + rem,
                    budget == num * bs,
                    num < den,
                    rem > 0,
            ;
        }
    }
    let mut copy_lens: Vec<usize> = Vec::with_capacity(unique_blocks);
    let mut err: u128 = 0;
    let mut k: usize = 0;
    assert(0 * rem == 0);
    while k < unique_blocks
        invariant
            0 <= k <= unique_blocks,
            copy_lens@.len() == k,
            bs == block_size,
            c == compress_factor,
            0 < den <= 0xffff_ffff_ffff_ffffu128,
            rem < den,
            num == zero_numerator(c),
            den == zero_denominator(c),
            budget == num * bs,
            budget == den * floor_len + rem,
            floor_len <= bs,
            rem > 0 ==> floor_len < bs,
            err == (k * rem) % (den as int),
            err < den,
            forall|i: int|
                0 <= i < k ==> {
                    &&& #[trigger] copy_lens@[i] == quota(i as nat, c, bs)
                    &&& copy_lens@[i] <= block_size
                },
        decreases unique_blocks - k,
    {
        proof {
            lemma_accumulate_step(k as int, rem as int, den as int);
            lemma_prefix_split(k as int, budget as int, den as int, floor_len as int, rem as int);
            lemma_prefix_split(k + 1, budget as int, den as int, floor_len as int, rem as int);
            assert((k + 1) * floor_len == k * floor_len + floor_len) by (nonlinear_arith);
            assert(budget == zero_numerator(c) * bs);
        }
        let ghost q = quota(k as nat, c, bs);
        err = err + rem;
        if err >= den {
            err = err - den;
            assert(q == floor_len + 1);
            assert(floor_len + 1 <= block_size);
            copy_lens.push((floor_len + 1) as usize);
        } else {
            assert(q == floor_len);
            assert(floor_len <= block_size);
            copy_lens.push(floor_len as usize);
        }
        proof {
            lemma_fundamental_div_mod(((k + 1) * rem) as int, den as int);
        }
        k = k + 1;
    }
    GenerationPlan { block_size, total_blocks, unique_blocks, compress_factor, copy_lens }
}

/// The zero quotas of a plan add up to `floor(u * block_size * (c - 1) / c)`
/// for `u` unique blocks and compression factor `c`, and each quota is the
/// even share `floor(block_size * (c - 1) / c)` or one byte more.
pub proof fn lemma_plan_quota_total(p: &GenerationPlan)
    requires
        p.wf(),
    ensures
        total_of(p.copy_lens@) == quota_prefix(
            p.unique_blocks as nat,
            p.compress_factor as nat,
            p.block_size as nat,
        ),
        total_of(p.copy_lens@) == (p.unique_blocks * (p.block_size * zero_numerator(
            p.compress_factor as nat,
        ))) / (zero_denominator(p.compress_factor as nat) as int),
        forall|i: int|
            0 <= i < p.unique_blocks ==> {
                let share = (zero_numerator(p.compress_factor as nat) * p.block_size) / (
                zero_denominator(p.compress_factor as nat) as int);
                #[trigger] p.copy_lens@[i] == share || p.copy_lens@[i] == share + 1
            },
{
    let c = p.compress_factor as nat;
    let bs = p.block_size as nat;
    lemma_quota_sum(p.copy_lens@, c, bs);
    let num = zero_numerator(c) as int;
    let den = zero_denominator(c) as int;
    let budget = num * bs;
    assert(budget == p.block_size * num) by (nonlinear_arith)
        requires
            budget == num * bs,
            bs == p.block_size,
    ;
    lemma_fundamental_div_mod(budget, den);
    let f = budget / den;
    let r = budget % den;
    assert(budget == f * den + r) by (nonlinear_arith)
        requires
            budget == den * f + r,
    ;
    assert(f >= 0) by (nonlinear_arith)
        requires
            budget >= 0,
            den > 0,
            f == budget / den,
    ;
    assert forall|i: int| 0 <= i < p.unique_blocks implies {
        let share = (zero_numerator(p.compress_factor as nat) * p.block_size) / (
        zero_denominator(p.compress_factor as nat) as int);
        #[trigger] p.copy_lens@[i] == share || p.copy_lens@[i] == share + 1
    } by {
        lemma_accumulate_step(i, r, den);
        lemma_prefix_split(i, budget, den, f, r);
        lemma_prefix_split(i + 1, budget, den, f, r);
        assert((i + 1) * f == i * f + f) by (nonlinear_arith);
    }
}

} // verus!
