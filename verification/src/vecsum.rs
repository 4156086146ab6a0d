//! Sum of a vector: partial sums of blocks, and passes over the partial sums.
//!
//! A block takes `M` numbers through shared memory. One pass turns `k` numbers
//! into `ceil(k / M)` partial sums; passes follow each other until one number
//! is left.
use vstd::prelude::*;
use crate::launch::LaunchConfig;
use crate::math::{lemma_join, lemma_split};
use crate::scalar::{lemma_commute, lemma_zero, sums_commute, sums_freely, Scalar};
use crate::sums::{
    added_in_order, adds_exactly, all_whole, extent, halved, halves_evenly, in_order, law_launch_adds_the_parts, law_sum_of_parts,
    law_tree_is_the_sum, law_tree_of_whole_numbers_is_exact, law_zeros_add_nothing,
    lemma_adds_exactly, lemma_summed_empty, lemma_summed_push,
    lemma_total_join, lemma_tree_of_one, lemma_tree_of_zeros, summed, total, tree,
    zero_keeps_the_same,
};

verus! {

/// Numbers of a block, and threads.
pub const M: usize = 256;

/// Lanes of a warp.
pub const WARP: usize = 32;

/// The numbers of block `block`.
pub open spec fn block_of<T>(a: Seq<T>, block: int) -> Seq<T> {
    a.subrange(block * M, block * M + M)
}

/// All threads of a block fetch their numbers.
fn fetch<T: Copy>(a: &[T], bidx: usize) -> (tile: Vec<T>)
    requires
        (bidx + 1) * M <= a@.len(),
    ensures
        tile@ == block_of(a@, bidx as int),
{
    let len: usize = a.len();
    let mut tile: Vec<T> = Vec::new();
    let mut tid: usize = 0;
    while tid < M
        invariant
            tid <= M,
            (bidx + 1) * M <= len == a@.len(),
            tile@.len() == tid,
            forall|j: int| 0 <= j < tid ==> #[trigger] tile@[j] == a@[bidx * M + j],
        decreases M - tid,
    {
        tile.push(a[bidx * M + tid]);
        tid += 1;
    }
    assert(tile@ =~= block_of(a@, bidx as int));
    tile
}

/// All threads below `s` add the number `s` places up to their own.
fn halve<T: Scalar>(tile: &mut Vec<T>, s: usize)
    requires
        0 < s,
        2 * s <= old(tile)@.len(),
    ensures
        final(tile)@.len() == old(tile)@.len(),
        final(tile)@.subrange(0, s as int) == halved(old(tile)@.subrange(0, 2 * s)),
{
    let len: usize = tile.len();
    let mut tid: usize = 0;
    while tid < s
        invariant
            tid <= s,
            2 * s <= len,
            tile@.len() == old(tile)@.len() == len,
            forall|j: int| 0 <= j < tid ==> #[trigger] tile@[j] == old(tile)@[j].sum(
                old(tile)@[j + s],
            ),
            forall|j: int| tid <= j < len ==> #[trigger] tile@[j] == old(tile)@[j],
        decreases s - tid,
    {
        let below: T = tile[tid];
        let above: T = tile[tid + s];
        tile.set(tid, below.plus(above));
        tid += 1;
    }
    assert(tile@.subrange(0, s as int) =~= halved(old(tile)@.subrange(0, 2 * s)));
}

/// The lane with which a lane exchanges its number under a mask.
pub open spec fn partner(lane: int, mask: int) -> int {
    if (lane / mask) % 2 == 0 {
        lane + mask
    } else {
        lane - mask
    }
}

/// The numbers of a warp after one exchange: each lane has added its partner's.
pub open spec fn exchanged<T: Scalar>(v: Seq<T>, mask: int) -> Seq<T> {
    Seq::new(WARP as nat, |lane: int| v[lane].sum(v[partner(lane, mask)]))
}

/// The numbers of a warp after the exchanges of a reduction.
pub open spec fn warp_reduced<T: Scalar>(v: Seq<T>) -> Seq<T> {
    exchanged(exchanged(exchanged(exchanged(exchanged(v, 16), 8), 4), 2), 1)
}

/// One exchange of a warp.
fn exchange<T: Scalar>(v: &[T; 32], mask: usize) -> (r: [T; 32])
    requires
        mask == 16 || mask == 8 || mask == 4 || mask == 2 || mask == 1,
    ensures
        r@ == exchanged(v@, mask as int),
{
    let mut r: [T; 32] = *v;
    let mut lane: usize = 0;
    while lane < WARP
        invariant
            lane <= WARP,
            mask == 16 || mask == 8 || mask == 4 || mask == 2 || mask == 1,
            forall|j: int| 0 <= j < lane ==> #[trigger] r@[j] == exchanged(v@, mask as int)[j],
        decreases WARP - lane,
    {
        let other: usize = lane ^ mask;
        proof {
            assert(other < 32 && other == if (lane / mask) % 2 == 0 {
                (lane + mask) as int
            } else {
                lane - mask
            }) by (bit_vector)
                requires
                    other == lane ^ mask,
                    lane < 32,
                    mask == 16 || mask == 8 || mask == 4 || mask == 2 || mask == 1,
            ;
        }
        r[lane] = v[lane].plus(v[other]);
        lane += 1;
    }
    assert(r@ =~= exchanged(v@, mask as int));
    r
}

/// Add up the numbers of a warp, lane by lane: five exchanges, at half the
/// distance each time.
pub fn warp_reduce<T: Scalar>(v: &[T; 32]) -> (r: [T; 32])
    ensures
        r@ == warp_reduced(v@),
{
    let mut val: [T; 32] = exchange(v, 16);
    val = exchange(&val, 8);
    val = exchange(&val, 4);
    val = exchange(&val, 2);
    exchange(&val, 1)
}

/// An exchange halves the numbers of the lanes below the mask.
proof fn lemma_exchange_halves<T: Scalar>(v: Seq<T>, mask: int)
    requires
        v.len() == WARP,
        mask == 16 || mask == 8 || mask == 4 || mask == 2 || mask == 1,
    ensures
        exchanged(v, mask).subrange(0, mask) == halved(v.subrange(0, 2 * mask)),
{
    assert forall|lane: int| 0 <= lane < mask implies #[trigger] partner(lane, mask) == lane
        + mask by {
        lemma_split(lane, mask, 0, lane);
    }
    assert(exchanged(v, mask).subrange(0, mask) =~= halved(v.subrange(0, 2 * mask)));
}

/// The first lane of a warp ends up with what halving gives, bit by bit.
pub proof fn law_warp_reduction_is_the_tree<T: Scalar>(v: Seq<T>)
    requires
        v.len() == WARP,
    ensures
        warp_reduced(v)[0] == tree(v),
{
    let v16 = exchanged(v, 16);
    let v8 = exchanged(v16, 8);
    let v4 = exchanged(v8, 4);
    let v2 = exchanged(v4, 2);
    let v1 = exchanged(v2, 1);
    lemma_exchange_halves(v, 16);
    lemma_exchange_halves(v16, 8);
    lemma_exchange_halves(v8, 4);
    lemma_exchange_halves(v4, 2);
    lemma_exchange_halves(v2, 1);
    assert(v.subrange(0, 32) =~= v);
    assert(tree(v) == tree(v16.subrange(0, 16)));
    assert(tree(v16.subrange(0, 16)) == tree(v8.subrange(0, 8)));
    assert(tree(v8.subrange(0, 8)) == tree(v4.subrange(0, 4)));
    assert(tree(v4.subrange(0, 4)) == tree(v2.subrange(0, 2)));
    assert(tree(v2.subrange(0, 2)) == tree(v1.subrange(0, 1)));
}

/// Whether the numbers of a warp repeat after `period` lanes.
spec fn repeats<T>(v: Seq<T>, period: int) -> bool {
    &&& v.len() == WARP
    &&& forall|lane: int| 0 <= lane < WARP ==> #[trigger] v[lane] == v[lane % period]
}

/// Where two numbers can be swapped, an exchange halves the period.
proof fn lemma_exchange_repeats<T: Scalar>(v: Seq<T>, mask: int, rounds: int)
    requires
        sums_commute::<T>(),
        mask >= 1,
        mask * rounds == 16,
        repeats(v, 2 * mask),
    ensures
        repeats(exchanged(v, mask), mask),
{
    let r = exchanged(v, mask);
    assert forall|lane: int| 0 <= lane < WARP implies #[trigger] r[lane] == r[lane % mask] by {
        lemma_partner(lane, mask, rounds);
        let low = lane % mask;
        let (x, y) = (v[low], v[low + mask]);
        assert(v[lane] == v[lane % (2 * mask)]);
        assert(v[partner(lane, mask)] == v[partner(lane, mask) % (2 * mask)]);
        lemma_commute(x, y);
        assert(r[low] == x.sum(y));
    }
}

/// Where the partner of a lane lies.
proof fn lemma_partner(lane: int, mask: int, rounds: int)
    requires
        0 <= lane < 32,
        mask >= 1,
        mask * rounds == 16,
    ensures
        ({
            let low = lane % mask;
            let other = partner(lane, mask);
            &&& 0 <= low < mask
            &&& low + mask < 32
            &&& 0 <= other < 32
            &&& partner(low, mask) == low + mask
            &&& lane % (2 * mask) == low && other % (2 * mask) == low + mask || (lane % (2 * mask)
                == low + mask && other % (2 * mask) == low)
        }),
{
    let q = lane / mask;
    let low = lane % mask;
    lemma_join(lane, mask);
    let h = q / 2;
    let e = q % 2;
    assert(q >= 0 && rounds >= 1 && mask <= 16) by (nonlinear_arith)
        requires
            lane == mask * q + low,
            0 <= low < mask,
            0 <= lane,
            mask >= 1,
            mask * rounds == 16,
    ;
    assert(mask * q == (2 * mask) * h + mask * e) by (nonlinear_arith)
        requires
            q == 2 * h + e,
    ;
    assert(mask * e == if e == 0 {
        0
    } else {
        mask
    }) by (nonlinear_arith)
        requires
            e == 0 || e == 1,
    ;
    assert((2 * mask) * h + 2 * mask <= 32) by (nonlinear_arith)
        requires
            (2 * mask) * h <= lane,
            lane < 32,
            mask * rounds == 16,
            mask >= 1,
    ;
    assert((2 * mask) * h >= 0) by (nonlinear_arith)
        requires
            mask >= 1,
            h >= 0,
    ;
    lemma_split(lane, 2 * mask, h, low + mask * e);
    lemma_split(partner(lane, mask), 2 * mask, h, low + mask - mask * e);
    lemma_split(low, mask, 0, low);
}

/// Where two numbers can be swapped, all lanes of a warp end up with the same
/// number.
pub proof fn law_warp_reduction_leaves_all_lanes_equal<T: Scalar>(v: Seq<T>, lane: int)
    requires
        v.len() == WARP,
        sums_commute::<T>(),
        0 <= lane < WARP,
    ensures
        warp_reduced(v)[lane] == warp_reduced(v)[0],
{
    let v16 = exchanged(v, 16);
    let v8 = exchanged(v16, 8);
    let v4 = exchanged(v8, 4);
    let v2 = exchanged(v4, 2);
    let v1 = exchanged(v2, 1);
    lemma_exchange_repeats(v, 16, 1);
    lemma_exchange_repeats(v16, 8, 2);
    lemma_exchange_repeats(v8, 4, 4);
    lemma_exchange_repeats(v4, 2, 8);
    lemma_exchange_repeats(v2, 1, 16);
    assert(v1[lane] == v1[lane % 1]);
}

/// Halve the numbers of a tile until `stop` of them, a power of two, are left.
fn halve_down_to<T: Scalar>(tile: &mut Vec<T>, stop: usize)
    requires
        stop == 1 || stop == 32,
        old(tile)@.len() == M,
    ensures
        final(tile)@.len() == M,
        tree(final(tile)@.subrange(0, stop as int)) == tree(old(tile)@),
{
    let mut s: usize = M / 2;
    assert(tile@.subrange(0, 256) =~= tile@);
    while s >= stop
        invariant
            stop == 1 || stop == 32,
            tile@.len() == M,
            s == 128 || s == 64 || s == 32 || s == 16 || s == 8 || s == 4 || s == 2 || s == 1 || s
                == 0,
            s == 0 ==> stop == 1,
            s > 0 ==> 2 * s >= stop,
            tree(
                tile@.subrange(
                    0,
                    if s == 0 {
                        1
                    } else {
                        2 * s
                    },
                ),
            ) == tree(old(tile)@),
        decreases s,
    {
        halve(tile, s);
        proof {
            assert(s >> 1usize == s / 2) by (bit_vector);
        }
        s = s >> 1usize;
    }
}

/// Block `bidx` of the sum with a warp reduction: fetch, halve down to a warp,
/// exchange, and write the partial sum.
pub fn vecsum<T: Scalar>(a: &[T], out: &mut Vec<T>, bidx: usize)
    requires
        (bidx + 1) * M <= a@.len(),
        bidx < old(out)@.len(),
    ensures
        final(out)@ == old(out)@.update(bidx as int, tree(block_of(a@, bidx as int))),
{
    let mut tile: Vec<T> = fetch(a, bidx);
    halve_down_to(&mut tile, WARP);
    let mut val: [T; 32] = [T::zero(); 32];
    let mut lane: usize = 0;
    while lane < WARP
        invariant
            lane <= WARP,
            tile@.len() == M,
            forall|j: int| 0 <= j < lane ==> #[trigger] val@[j] == tile@[j],
        decreases WARP - lane,
    {
        val[lane] = tile[lane];
        lane += 1;
    }
    proof {
        assert(val@ =~= tile@.subrange(0, 32));
        law_warp_reduction_is_the_tree(val@);
    }
    let reduced: [T; 32] = warp_reduce(&val);
    out.set(bidx, reduced[0]);
}

/// Block `bidx` of the sum by halving alone.
pub fn vecsum_recursive<T: Scalar>(a: &[T], out: &mut Vec<T>, bidx: usize)
    requires
        (bidx + 1) * M <= a@.len(),
        bidx < old(out)@.len(),
    ensures
        final(out)@ == old(out)@.update(bidx as int, tree(block_of(a@, bidx as int))),
{
    let mut tile: Vec<T> = fetch(a, bidx);
    halve_down_to(&mut tile, 1);
    out.set(bidx, tile[0]);
}

/// Block `bidx` of the sum by halving, added to the first number of `out` in
/// one go.
pub fn vecsum_shared_v2<T: Scalar>(a: &[T], out: &mut Vec<T>, bidx: usize)
    requires
        (bidx + 1) * M <= a@.len(),
        0 < old(out)@.len(),
    ensures
        final(out)@ == old(out)@.update(
            0,
            old(out)@[0].sum(tree(block_of(a@, bidx as int))),
        ),
{
    let mut tile: Vec<T> = fetch(a, bidx);
    halve_down_to(&mut tile, 1);
    out.set(0, out[0].plus(tile[0]));
}

/// Block `bidx` of the sum by one thread, added to the first number of `out` in
/// one go.
pub fn vecsum_shared_v1<T: Scalar>(a: &[T], out: &mut Vec<T>, bidx: usize)
    requires
        (bidx + 1) * M <= a@.len(),
        0 < old(out)@.len(),
    ensures
        final(out)@ == old(out)@.update(
            0,
            old(out)@[0].sum(summed(T::nothing(), block_of(a@, bidx as int))),
        ),
{
    let tile: Vec<T> = fetch(a, bidx);
    let mut sum: T = T::zero();
    let mut j: usize = 0;
    proof {
        lemma_summed_empty(T::nothing(), tile@.subrange(0, 0));
    }
    while j < M
        invariant
            j <= M,
            tile@.len() == M,
            sum == summed(T::nothing(), tile@.subrange(0, j as int)),
        decreases M - j,
    {
        proof {
            lemma_summed_push(T::nothing(), tile@.subrange(0, j as int), tile@[j as int]);
            assert(tile@.subrange(0, j + 1) =~= tile@.subrange(0, j as int).push(tile@[j as int]));
        }
        sum = sum.plus(tile[j]);
        j += 1;
    }
    assert(tile@.subrange(0, 256) =~= tile@);
    out.set(0, out[0].plus(sum));
}

/// One thread of the sum without shared memory: its number is added to the
/// first number of `out` in one go.
pub fn vecsum_naive<T: Scalar>(a: &[T], out: &mut Vec<T>, i: usize)
    requires
        i < a@.len(),
        0 < old(out)@.len(),
    ensures
        final(out)@ == old(out)@.update(0, old(out)@[0].sum(a@[i as int])),
{
    out.set(0, out[0].plus(a[i]));
}

/// The quotient, rounded up.
pub open spec fn ceil_of(n: int, m: int) -> int {
    if n % m == 0 {
        n / m
    } else {
        n / m + 1
    }
}

/// The quotient, rounded up.
pub(crate) fn div_ceil(n: usize, m: usize) -> (r: usize)
    requires
        m > 0,
    ensures
        r == ceil_of(n as int, m as int),
{
    let q: usize = n / m;
    if n % m == 0 {
        q
    } else {
        proof {
            lemma_join(n as int, m as int);
            assert(q < n) by (nonlinear_arith)
                requires
                    n == m * q + n as int % m as int,
                    n as int % m as int > 0,
                    m > 0,
                    q >= 0,
            ;
        }
        q + 1
    }
}

/// The next multiple of `m` from `n` on.
pub fn round_up(n: usize, m: usize) -> (r: usize)
    requires
        m > 0,
        ceil_of(n as int, m as int) * m <= usize::MAX,
    ensures
        r == ceil_of(n as int, m as int) * m,
        n <= r < n + m,
        r as int % m as int == 0,
{
    let blocks: usize = div_ceil(n, m);
    proof {
        lemma_join(n as int, m as int);
        let q = n as int / m as int;
        assert((q + 1) * m == q * m + m) by (nonlinear_arith);
        assert(blocks * m == m * blocks) by (nonlinear_arith);
        lemma_split(blocks * m, m as int, blocks as int, 0);
    }
    blocks * m
}

/// Launch geometry of one pass: `blocks` blocks of `M` threads. The grid takes
/// the low 32 bits of the number of blocks.
pub fn pass_config(blocks: usize) -> (r: LaunchConfig)
    ensures
        r == (LaunchConfig {
            grid_dim: ((blocks as int % 0x1_0000_0000) as u32, 1, 1),
            block_dim: (M as u32, 1, 1),
            shared_mem_bytes: 0,
        }),
{
    let wide: u64 = blocks as u64;
    assert(wide as u32 == wide % 0x1_0000_0000) by (bit_vector);
    let grid: u32 = #[verifier::truncate]
    (wide as u32);
    LaunchConfig { grid_dim: (grid, 1, 1), block_dim: (M as u32, 1, 1), shared_mem_bytes: 0 }
}

/// What one pass makes of a vector of whole blocks: the partial sums of its
/// blocks, with zeros up to a whole block.
pub open spec fn passed<T: Scalar>(v: Seq<T>) -> Seq<T> {
    let blocks = v.len() as int / M as int;
    Seq::new(
        (ceil_of(blocks, M as int) * M) as nat,
        |b: int|
            if b < blocks {
                tree(block_of(v, b))
            } else {
                T::nothing()
            },
    )
}

/// What is left of a vector of whole blocks when passes have followed each
/// other until there was one block.
pub open spec fn reduced<T: Scalar>(v: Seq<T>) -> T
    decreases v.len(),
{
    if v.len() < 2 * M {
        passed(v)[0]
    } else {
        reduced(passed(v))
    }
}

/// One pass over a vector of whole blocks.
fn pass<T: Scalar>(v: &[T], blocks: usize) -> (out: Vec<T>)
    requires
        v@.len() == blocks * M,
    ensures
        out@ == passed(v@),
{
    let len: usize = v.len();
    let padded: usize = round_up(blocks, M);
    let mut out: Vec<T> = Vec::new();
    while out.len() < padded
        invariant
            out@.len() <= padded,
            forall|b: int| 0 <= b < out@.len() ==> #[trigger] out@[b] == T::nothing(),
        decreases padded - out@.len(),
    {
        out.push(T::zero());
    }
    let mut b: usize = 0;
    while b < blocks
        invariant
            b <= blocks <= padded,
            v@.len() == len == blocks * M,
            out@.len() == padded,
            padded == ceil_of(blocks as int, M as int) * M,
            forall|i: int|
                0 <= i < padded ==> #[trigger] out@[i] == if i < b {
                    tree(block_of(v@, i))
                } else {
                    T::nothing()
                },
        decreases blocks - b,
    {
        vecsum(v, &mut out, b);
        b += 1;
    }
    assert(out@ =~= passed(v@));
    out
}

/// Add up a vector of whole blocks: pass after pass until one number is left.
pub fn reduce<T: Scalar>(a: &[T]) -> (r: T)
    requires
        a@.len() > 0,
        a@.len() as int % M as int == 0,
    ensures
        r == reduced(a@),
{
    let mut blocks: usize = div_ceil(a.len(), M);
    let mut buf: Vec<T> = pass(a, blocks);
    while blocks > 1
        invariant
            blocks >= 1,
            buf@.len() == ceil_of(blocks as int, M as int) * M,
            blocks > 1 ==> reduced(buf@) == reduced(a@),
            blocks == 1 ==> buf@[0] == reduced(a@),
        decreases blocks,
    {
        blocks = div_ceil(blocks, M);
        buf = pass(buf.as_slice(), blocks);
    }
    buf[0]
}

/// Passes that it takes to add up `n` numbers.
pub open spec fn passes(n: int) -> nat
    decreases n,
{
    if n <= M {
        1
    } else {
        1 + passes(ceil_of(n, M as int))
    }
}

/// A power of the number of threads of a block.
pub open spec fn power(e: nat) -> int
    decreases e,
{
    if e == 0 {
        1
    } else {
        M * power((e - 1) as nat)
    }
}

/// It takes as many passes as the logarithm of the number of numbers to the
/// base `M` says, rounded up, and at least one.
pub proof fn law_passes_are_logarithmic(n: int)
    requires
        n > 0,
    ensures
        n <= power(passes(n)),
        passes(n) > 1 ==> power((passes(n) - 1) as nat) < n,
    decreases n,
{
    if n > M {
        let c = ceil_of(n, M as int);
        law_passes_are_logarithmic(c);
        if passes(c) > 1 {
            assert(power(passes(c)) == M * power((passes(c) - 1) as nat));
        } else {
            assert(power(1) == M * power(0)) by {
                reveal_with_fuel(power, 2);
            }
            assert(power(2) == M * power(1));
            assert(passes(n) == 2);
        }
        assert(power(passes(n)) == M * power(passes(c)));
    } else {
        reveal_with_fuel(power, 2);
    }
}

/// What `k` passes make of a vector of whole blocks.
pub open spec fn after_passes<T: Scalar>(v: Seq<T>, k: nat) -> Seq<T>
    decreases k,
{
    if k == 0 {
        v
    } else {
        after_passes(passed(v), (k - 1) as nat)
    }
}

/// The reduction makes that many passes.
pub proof fn law_reduction_takes_its_passes<T: Scalar>(v: Seq<T>)
    requires
        v.len() > 0,
        v.len() as int % M as int == 0,
    ensures
        reduced(v) == after_passes(v, passes(v.len() as int))[0],
    decreases v.len(),
{
    let p = passed(v);
    assert(after_passes(p, 0) == p);
    if v.len() < 2 * M {
        assert(after_passes(v, 1) == after_passes(p, 0));
    } else {
        let blocks = v.len() as int / M as int;
        law_reduction_takes_its_passes(p);
        assert(ceil_of(v.len() as int, M as int) == blocks);
        assert(ceil_of(p.len() as int, M as int) == ceil_of(blocks, M as int));
        assert(passes(p.len() as int) == passes(blocks));
    }
}

/// Where sums can be taken freely, the partial sums of the blocks add up to the
/// sum of the numbers.
pub proof fn law_partial_sums_add_up<T: Scalar>(v: Seq<T>, sums: Seq<T>)
    requires
        sums_freely::<T>(),
        v.len() == sums.len() * M,
        forall|b: int| 0 <= b < sums.len() ==> #[trigger] sums[b] == tree(block_of(v, b)),
    ensures
        summed(T::nothing(), sums) == summed(T::nothing(), v),
    decreases sums.len(),
{
    if sums.len() == 0 {
        lemma_summed_empty(T::nothing(), sums);
        lemma_summed_empty(T::nothing(), v);
    } else {
        let b = sums.len() - 1;
        let u = v.subrange(0, b * M);
        let last = block_of(v, b);
        assert forall|i: int| 0 <= i < b implies #[trigger] sums.drop_last()[i] == tree(
            block_of(u, i),
        ) by {
            assert(block_of(u, i) =~= block_of(v, i));
            assert(sums.drop_last()[i] == sums[i]);
        }
        law_partial_sums_add_up(u, sums.drop_last());
        assert(sums =~= sums.drop_last().push(tree(last)));
        lemma_summed_push(T::nothing(), sums.drop_last(), tree(last));
        assert(halves_evenly(256)) by {
            reveal_with_fuel(halves_evenly, 9);
        }
        law_tree_is_the_sum(last);
        assert(v =~= u + last);
        law_sum_of_parts(u, last);
    }
}

/// Where sums can be taken freely, the passes give the sum of the numbers: the
/// zeros that fill up a pass never change it.
pub proof fn law_reduction_is_the_sum<T: Scalar>(v: Seq<T>)
    requires
        sums_freely::<T>(),
        v.len() > 0,
        v.len() as int % M as int == 0,
    ensures
        reduced(v) == summed(T::nothing(), v),
    decreases v.len(),
{
    let blocks = v.len() as int / M as int;
    let p = passed(v);
    let sums = p.subrange(0, blocks);
    let zeros = p.subrange(blocks, p.len() as int);
    law_partial_sums_add_up(v, sums);
    assert(p =~= sums + zeros);
    assert forall|x: T| #[trigger] x.sum(T::nothing()) == x by {
        lemma_zero(x);
    }
    law_zeros_add_nothing(T::nothing(), sums, zeros);
    if v.len() < 2 * M {
        assert(sums =~= sums.drop_last().push(p[0]));
        lemma_summed_empty(T::nothing(), sums.drop_last());
        lemma_summed_push(T::nothing(), sums.drop_last(), p[0]);
        lemma_zero(p[0]);
    } else {
        law_reduction_is_the_sum(p);
    }
}

/// Partial sum of the `size` numbers from `lo` on, by neighbours: half of them
/// plus the other half. Nothing is added from `end` on.
pub open spec fn paired<T: Scalar>(v: Seq<T>, lo: int, size: int, end: int) -> T
    decreases size,
{
    if size <= 1 || lo >= end {
        v[lo]
    } else {
        paired(v, lo, size / 2, end).sum(paired(v, lo + size / 2, size / 2, end))
    }
}

/// The first of `s`, `2 * s`, `4 * s` and so on that reaches `n`.
pub open spec fn span_from(s: int, n: int) -> int
    decreases
            if n > s {
                n - s
            } else {
                0
            },
{
    if s >= n || s <= 0 {
        s
    } else {
        span_from(2 * s, n)
    }
}

/// The numbers of a block with zeros up to a whole block.
pub open spec fn filled_up<T: Scalar>(block: Seq<T>) -> Seq<T> {
    Seq::new(
        M as nat,
        |i: int|
            if i < block.len() {
                block[i]
            } else {
                T::nothing()
            },
    )
}

/// Place `j` of those that are `s` apart.
pub open spec fn place(j: int, s: int) -> int {
    j * s
}

/// The distances of a block.
spec fn is_distance(s: int) -> bool {
    s == 1 || s == 2 || s == 4 || s == 8 || s == 16 || s == 32 || s == 64 || s == 128 || s == 256
}

/// Where a place and its upper neighbour lie: within the block, and the next
/// place two distances on.
proof fn lemma_places(p: int, d: int)
    requires
        is_distance(d),
        d < M,
        0 <= place(p, 2 * d) < M,
    ensures
        place(p, 2 * d) + d < M,
        place(p + 1, 2 * d) == place(p, 2 * d) + 2 * d,
{
    assert((p + 1) * (2 * d) == p * (2 * d) + 2 * d) by (nonlinear_arith);
    if d == 1 {
        assert(p * 2 + 1 < 256);
    } else if d == 2 {
        assert(p * 4 + 2 < 256);
    } else if d == 4 {
        assert(p * 8 + 4 < 256);
    } else if d == 8 {
        assert(p * 16 + 8 < 256);
    } else if d == 16 {
        assert(p * 32 + 16 < 256);
    } else if d == 32 {
        assert(p * 64 + 32 < 256);
    } else if d == 64 {
        assert(p * 128 + 64 < 256);
    } else {
        assert(p * 256 + 128 < 256);
    }
}

/// Different places are different, and no place is an upper neighbour.
proof fn lemma_places_differ(j: int, p: int, d: int)
    requires
        d > 0,
    ensures
        place(j, 2 * d) == place(p, 2 * d) <==> j == p,
        place(j, 2 * d) + d != place(p, 2 * d),
{
    assert(j * (2 * d) - p * (2 * d) == (2 * d) * (j - p)) by (nonlinear_arith);
    assert((2 * d) * (j - p) == 0 ==> j == p) by (nonlinear_arith)
        requires
            d > 0,
    ;
    assert((2 * d) * (j - p) != -d) by (nonlinear_arith)
        requires
            d > 0,
    ;
}

/// Add up a block by neighbours, at twice the distance each time.
pub fn block_reduce<T: Scalar>(block: &[T]) -> (r: T)
    requires
        block@.len() <= M,
    ensures
        r == block_reduced(block@),
{
    let bdim: usize = block.len();
    let mut tile: Vec<T> = Vec::new();
    while tile.len() < M
        invariant
            tile@.len() <= M,
            bdim == block@.len() <= M,
            forall|i: int| 0 <= i < tile@.len() ==> #[trigger] tile@[i] == filled_up(block@)[i],
        decreases M - tile@.len(),
    {
        let i: usize = tile.len();
        if i < bdim {
            tile.push(block[i]);
        } else {
            tile.push(T::zero());
        }
    }
    let ghost v = filled_up(block@);
    let ghost end = bdim as int;
    let mut s: usize = 1;
    while s < bdim
        invariant
            is_distance(s as int),
            bdim == block@.len() == end <= M,
            tile@.len() == M,
            v == filled_up(block@),
            span_from(s as int, end) == span_from(1, end),
            forall|j: int|
                0 <= j && 0 <= #[trigger] place(j, s as int) < M ==> tile@[place(j, s as int)]
                    == paired(v, place(j, s as int), s as int, end),
        decreases 2 * M - s,
    {
        neighbours(&mut tile, s, bdim, Ghost(v));
        s = s * 2;
    }
    assert(place(0, s as int) == 0);
    tile[0]
}

/// One round of `block_reduce`.
#[verifier::rlimit(30)]
fn neighbours<T: Scalar>(tile: &mut Vec<T>, s: usize, bdim: usize, v: Ghost<Seq<T>>)
    requires
        is_distance(s as int),
        s < bdim <= M,
        old(tile)@.len() == M,
        v@.len() == M,
        forall|j: int|
            0 <= j && 0 <= #[trigger] place(j, s as int) < M ==> old(tile)@[place(j, s as int)]
                == paired(v@, place(j, s as int), s as int, bdim as int),
    ensures
        final(tile)@.len() == M,
        forall|j: int|
            0 <= j && 0 <= #[trigger] place(j, 2 * s) < M ==> final(tile)@[place(j, 2 * s)]
                == paired(v@, place(j, 2 * s), 2 * s, bdim as int),
{
    let ghost end = bdim as int;
    let ghost d = s as int;
    let ghost mut p: int = 0;
    let mut index: usize = 0;
    proof {
        assert forall|j: int| #[trigger] place(j, 2 * d) == place(2 * j, d) && place(j, 2 * d) + d
            == place(2 * j + 1, d) by {
            assert(j * (2 * d) == (2 * j) * d) by (nonlinear_arith);
            assert((2 * j + 1) * d == (2 * j) * d + d) by (nonlinear_arith);
        }
    }
    while index < bdim
        invariant
            is_distance(d),
            s == d,
            s < bdim <= M,
            end == bdim,
            0 <= p,
            index == place(p, 2 * d),
            tile@.len() == M,
            v@.len() == M,
            forall|j: int|
                0 <= j && 0 <= #[trigger] place(j, 2 * d) < M ==> tile@[place(j, 2 * d)] == if j
                    < p {
                    paired(v@, place(j, 2 * d), 2 * d, end)
                } else {
                    paired(v@, place(j, 2 * d), d, end)
                },
            forall|j: int|
                0 <= j && 0 <= #[trigger] place(j, 2 * d) + d < M ==> tile@[place(j, 2 * d) + d]
                    == paired(v@, place(j, 2 * d) + d, d, end),
        decreases M + 2 * s - index,
    {
        proof {
            lemma_places(p, d);
        }
        let here: T = tile[index];
        let there: T = tile[index + s];
        let ghost before = tile@;
        tile.set(index, here.plus(there));
        proof {
            let q = p;
            assert(place(q, 2 * d) + d < M);
            assert(tile@[index as int] == paired(v@, index as int, 2 * d, end));
            assert forall|j: int|
                0 <= j && 0 <= #[trigger] place(j, 2 * d) < M implies tile@[place(j, 2 * d)]
                == if j < p + 1 {
                paired(v@, place(j, 2 * d), 2 * d, end)
            } else {
                paired(v@, place(j, 2 * d), d, end)
            } by {
                lemma_places_differ(j, p, d);
            }
            assert forall|j: int|
                0 <= j && 0 <= #[trigger] place(j, 2 * d) + d < M implies tile@[place(j, 2 * d)
                + d] == paired(v@, place(j, 2 * d) + d, d, end) by {
                lemma_places_differ(j, p, d);
            }
            p = p + 1;
        }
        index = index + 2 * s;
    }
    proof {
        assert forall|j: int|
            0 <= j && 0 <= #[trigger] place(j, 2 * s) < M implies tile@[place(j, 2 * s)] == paired(
            v@,
            place(j, 2 * s),
            2 * s,
            bdim as int,
        ) by {
            if j >= p {
                assert(place(j, 2 * d) >= place(p, 2 * d)) by (nonlinear_arith)
                    requires
                        j >= p,
                        d > 0,
                ;
            }
        }
    }
}

/// The span of a block of up to `M` numbers is a power of two that holds it.
proof fn lemma_span(s: int, n: int)
    requires
        is_distance(s),
        halves_evenly(s as nat),
        n <= M,
    ensures
        is_distance(span_from(s, n)),
        span_from(s, n) >= n,
        halves_evenly(span_from(s, n) as nat),
    decreases 2 * M - s,
{
    if s < n {
        assert(halves_evenly((2 * s) as nat)) by {
            assert((2 * s) as nat / 2 == s as nat);
        }
        lemma_span(2 * s, n);
    }
}

/// Where sums can be taken freely, adding up by neighbours gives the sum.
proof fn lemma_paired_is_the_sum<T: Scalar>(v: Seq<T>, lo: int, size: int, end: int)
    requires
        sums_freely::<T>(),
        size >= 1,
        halves_evenly(size as nat),
        0 <= lo && lo + size <= v.len(),
        forall|i: int| end <= i < v.len() ==> #[trigger] v[i] == T::nothing(),
    ensures
        paired(v, lo, size, end) == summed(T::nothing(), v.subrange(lo, lo + size)),
    decreases size,
{
    let all = v.subrange(lo, lo + size);
    if lo >= end {
        let none = Seq::<T>::empty();
        assert forall|x: T| #[trigger] x.sum(T::nothing()) == x by {
            lemma_zero(x);
        }
        law_zeros_add_nothing(T::nothing(), none, all);
        assert(none + all =~= all);
        lemma_summed_empty(T::nothing(), none);
    } else if size == 1 {
        assert(all =~= all.drop_last().push(v[lo]));
        lemma_summed_empty(T::nothing(), all.drop_last());
        lemma_summed_push(T::nothing(), all.drop_last(), v[lo]);
        lemma_zero(v[lo]);
    } else {
        let h = size / 2;
        lemma_paired_is_the_sum(v, lo, h, end);
        lemma_paired_is_the_sum(v, lo + h, h, end);
        assert(all =~= v.subrange(lo, lo + h) + v.subrange(lo + h, lo + size));
        law_sum_of_parts(v.subrange(lo, lo + h), v.subrange(lo + h, lo + size));
    }
}

/// Where sums can be taken freely, a block that is added up by neighbours gives
/// the sum of its numbers, and for a whole block the partial sum of the
/// kernels. Rounding keeps the two apart: their order of addition differs.
pub proof fn law_neighbours_give_the_block_sum<T: Scalar>(block: Seq<T>)
    requires
        sums_freely::<T>(),
        block.len() <= M,
    ensures
        block_reduced(block) == summed(T::nothing(), block),
        block.len() == M ==> block_reduced(block) == tree(block),
{
    let n = block.len() as int;
    let v = filled_up(block);
    let span = span_from(1, n);
    lemma_span(1, n);
    lemma_paired_is_the_sum(v, 0, span, n);
    let zeros = v.subrange(n, span);
    assert(v.subrange(0, span) =~= block + zeros);
    assert forall|x: T| #[trigger] x.sum(T::nothing()) == x by {
        lemma_zero(x);
    }
    law_zeros_add_nothing(T::nothing(), block, zeros);
    if n == M {
        assert(halves_evenly(256)) by {
            reveal_with_fuel(halves_evenly, 9);
        }
        law_tree_is_the_sum(block);
    }
}

/// Where sums can be taken freely, a launch of `vecsum_shared_v2`, of
/// `vecsum_shared_v1` or of `vecsum_naive` adds the sum of the vector to the
/// first number of the output, in whatever order its blocks or threads come.
/// Without that it adds their parts one after the other in the order in which
/// they come.
pub proof fn law_atomic_launches_add_the_sum<T: Scalar>(
    a: Seq<T>,
    init: T,
    blocks: nat,
    order: Seq<int>,
    threads: Seq<int>,
)
    requires
        sums_freely::<T>(),
        a.len() == blocks * M,
        order.to_multiset() == in_order(blocks).to_multiset(),
        threads.to_multiset() == in_order(a.len()).to_multiset(),
    ensures
        added_in_order(init, order, |b: int| tree(block_of(a, b))) == init.sum(
            summed(T::nothing(), a),
        ),
        added_in_order(init, order, |b: int| summed(T::nothing(), block_of(a, b))) == init.sum(
            summed(T::nothing(), a),
        ),
        added_in_order(init, threads, |i: int| a[i]) == init.sum(summed(T::nothing(), a)),
{
    let trees = |b: int| tree(block_of(a, b));
    let rows = |b: int| summed(T::nothing(), block_of(a, b));
    let numbers = |i: int| a[i];
    law_launch_adds_the_parts(init, order, trees, blocks);
    law_launch_adds_the_parts(init, order, rows, blocks);
    law_launch_adds_the_parts(init, threads, numbers, a.len());
    law_partial_sums_add_up(a, Seq::new(blocks, trees));
    assert(Seq::new(blocks, rows) =~= Seq::new(blocks, trees)) by {
        assert forall|b: int| 0 <= b < blocks implies #[trigger] rows(b) == trees(b) by {
            assert(halves_evenly(256)) by {
                reveal_with_fuel(halves_evenly, 9);
            }
            law_tree_is_the_sum(block_of(a, b));
        }
    }
    assert(Seq::new(a.len(), numbers) =~= a);
}

/// Where zero and zero are zero, a pass over a vector with whole blocks of zeros
/// behind it gives the same partial sums with zeros behind them.
proof fn lemma_padded_pass<T: Scalar>(v: Seq<T>, zeros: Seq<T>) -> (more: Seq<T>)
    requires
        v.len() > 0,
        v.len() as int % M as int == 0,
        zeros.len() as int % M as int == 0,
        T::nothing().sum(T::nothing()) == T::nothing(),
        forall|i: int| 0 <= i < zeros.len() ==> #[trigger] zeros[i] == T::nothing(),
    ensures
        passed(v + zeros) == passed(v) + more,
        more.len() as int % M as int == 0,
        forall|i: int| 0 <= i < more.len() ==> #[trigger] more[i] == T::nothing(),
{
    let p = passed(v);
    let q = passed(v + zeros);
    let blocks = v.len() as int / M as int;
    let all = (v + zeros).len() as int / M as int;
    assert(ceil_of(blocks, M as int) <= ceil_of(all, M as int));
    let more = q.subrange(p.len() as int, q.len() as int);
    assert forall|b: int| 0 <= b < q.len() implies #[trigger] q[b] == if b < blocks {
        tree(block_of(v, b))
    } else {
        T::nothing()
    } by {
        if b < blocks {
            assert(block_of(v + zeros, b) =~= block_of(v, b));
        } else if b < all {
            let z = block_of(v + zeros, b);
            assert forall|i: int| 0 <= i < z.len() implies #[trigger] z[i] == T::nothing() by {
                assert(z[i] == zeros[b * M + i - v.len()]);
            }
            lemma_tree_of_zeros(z);
        }
    }
    assert(q =~= p + more);
    more
}

proof fn lemma_padded_reduction<T: Scalar>(
    v: Seq<T>,
    zeros: Seq<T>,
    r: T,
    same: spec_fn(T, T) -> bool,
)
    requires
        v.len() > 0,
        v.len() as int % M as int == 0,
        zeros.len() as int % M as int == 0,
        T::nothing().sum(T::nothing()) == T::nothing(),
        forall|i: int| 0 <= i < zeros.len() ==> #[trigger] zeros[i] == T::nothing(),
        zero_keeps_the_same(r, same),
        same(r, reduced(v)),
    ensures
        same(r, reduced(v + zeros)),
    decreases v.len() + zeros.len(),
{
    if zeros.len() == 0 {
        assert(v + zeros =~= v);
    } else {
        let more = lemma_padded_pass(v, zeros);
        let p = passed(v);
        assert(p.len() + more.len() == passed(v + zeros).len());
        assert((v + zeros).len() >= 2 * M);
        if v.len() < 2 * M {
            assert(block_of(p, 0) =~= p);
            lemma_tree_of_one(p, r, same);
            assert(passed(p)[0] == tree(block_of(p, 0)));
        }
        lemma_padded_reduction(p, more, r, same);
    }
}

/// Zeros behind a vector, whole blocks of them, leave the reduction the same,
/// even where they add a pass. It is asked only that zero and zero are zero and
/// that adding zero to what counts as the same as the result changes nothing
/// that counts: of singles, where they are compared by value, that holds of
/// every sum that is a number.
pub proof fn law_padding_keeps_the_reduction_the_same<T: Scalar>(
    v: Seq<T>,
    zeros: Seq<T>,
    same: spec_fn(T, T) -> bool,
)
    requires
        v.len() > 0,
        v.len() as int % M as int == 0,
        zeros.len() as int % M as int == 0,
        T::nothing().sum(T::nothing()) == T::nothing(),
        forall|i: int| 0 <= i < zeros.len() ==> #[trigger] zeros[i] == T::nothing(),
        same(reduced(v), reduced(v)),
        zero_keeps_the_same(reduced(v), same),
    ensures
        same(reduced(v), reduced(v + zeros)),
{
    lemma_padded_reduction(v, zeros, reduced(v), same);
}

/// Zeros behind a vector, whole blocks of them, never change what the reduction
/// gives, bit by bit, where zero adds nothing to the result.
pub proof fn law_padding_never_changes_the_reduction<T: Scalar>(v: Seq<T>, zeros: Seq<T>)
    requires
        v.len() > 0,
        v.len() as int % M as int == 0,
        zeros.len() as int % M as int == 0,
        T::nothing().sum(T::nothing()) == T::nothing(),
        forall|i: int| 0 <= i < zeros.len() ==> #[trigger] zeros[i] == T::nothing(),
        reduced(v).sum(T::nothing()) == reduced(v),
    ensures
        reduced(v + zeros) == reduced(v),
{
    lemma_padded_reduction(v, zeros, reduced(v), |x: T, y: T| x == y);
}

/// Where zero and zero are zero, zeros add up by neighbours to zero.
proof fn lemma_paired_zeros<T: Scalar>(v: Seq<T>, lo: int, size: int, end: int)
    requires
        0 <= lo && lo + size <= v.len(),
        size >= 1,
        T::nothing().sum(T::nothing()) == T::nothing(),
        forall|i: int| lo <= i < lo + size ==> #[trigger] v[i] == T::nothing(),
    ensures
        paired(v, lo, size, end) == T::nothing(),
    decreases size,
{
    if !(size <= 1 || lo >= end) {
        lemma_paired_zeros(v, lo, size / 2, end);
        lemma_paired_zeros(v, lo + size / 2, size / 2, end);
    }
}

/// Where zero and zero are zero, it does not matter how far the zeros are added.
proof fn lemma_paired_end<T: Scalar>(v: Seq<T>, lo: int, size: int, end: int)
    requires
        0 <= lo && lo + size <= v.len(),
        size >= 1,
        end <= v.len(),
        T::nothing().sum(T::nothing()) == T::nothing(),
        forall|i: int| end <= i < v.len() ==> #[trigger] v[i] == T::nothing(),
    ensures
        paired(v, lo, size, end) == paired(v, lo, size, v.len() as int),
    decreases size,
{
    if lo >= end {
        lemma_paired_zeros(v, lo, size, v.len() as int);
    } else if size > 1 {
        lemma_paired_end(v, lo, size / 2, end);
        lemma_paired_end(v, lo + size / 2, size / 2, end);
    }
}

/// A greater span adds zeros at the end.
proof fn lemma_paired_span<T: Scalar>(
    v: Seq<T>,
    span: int,
    target: int,
    end: int,
    r: T,
    same: spec_fn(T, T) -> bool,
)
    requires
        v.len() == M,
        is_distance(span),
        is_distance(target),
        end <= span <= target,
        T::nothing().sum(T::nothing()) == T::nothing(),
        forall|i: int| end <= i < v.len() ==> #[trigger] v[i] == T::nothing(),
        zero_keeps_the_same(r, same),
        same(r, paired(v, 0, span, M as int)),
    ensures
        same(r, paired(v, 0, target, M as int)),
    decreases target - span,
{
    if span < target {
        lemma_paired_zeros(v, span, span, M as int);
        let x = paired(v, 0, span, M as int);
        assert(paired(v, 0, 2 * span, M as int) == x.sum(T::nothing()));
        assert(same(r, x.sum(T::nothing())));
        lemma_paired_span(v, 2 * span, target, end, r, same);
    }
}

/// What adding up a block by neighbours gives.
pub open spec fn block_reduced<T: Scalar>(block: Seq<T>) -> T {
    paired(filled_up(block), 0, span_from(1, block.len() as int), block.len() as int)
}

/// The span of a greater block is no smaller.
proof fn lemma_span_grows(s: int, n: int, m: int)
    requires
        is_distance(s),
        n <= m <= M,
    ensures
        span_from(s, n) <= span_from(s, m),
    decreases 2 * M - s,
{
    if s < n {
        lemma_span_grows(2 * s, n, m);
    } else {
        lemma_span_least(s, m);
    }
}

proof fn lemma_span_least(s: int, m: int)
    requires
        s >= 1,
    ensures
        s <= span_from(s, m),
    decreases
            if m > s {
                m - s
            } else {
                0
            },
{
    if s < m {
        lemma_span_least(2 * s, m);
    }
}

/// Zeros behind a block leave what adding up by neighbours gives the same. It is
/// asked only that zero and zero are zero and that adding zero to what counts as
/// the same as the result changes nothing that counts. An empty block gives
/// zero.
pub proof fn law_padding_keeps_the_block_sum_the_same<T: Scalar>(
    block: Seq<T>,
    zeros: Seq<T>,
    same: spec_fn(T, T) -> bool,
)
    requires
        block.len() + zeros.len() <= M,
        T::nothing().sum(T::nothing()) == T::nothing(),
        forall|i: int| 0 <= i < zeros.len() ==> #[trigger] zeros[i] == T::nothing(),
        same(block_reduced(block), block_reduced(block)),
        zero_keeps_the_same(block_reduced(block), same),
    ensures
        same(block_reduced(block), block_reduced(block + zeros)),
        block.len() == 0 ==> block_reduced(block) == T::nothing(),
{
    let padded = block + zeros;
    let (n, m) = (block.len() as int, padded.len() as int);
    let v = filled_up(block);
    assert(filled_up(padded) =~= v);
    assert(halves_evenly(1));
    lemma_span(1, n);
    lemma_span(1, m);
    lemma_span_grows(1, n, m);
    lemma_paired_end(v, 0, span_from(1, n), n);
    lemma_paired_end(v, 0, span_from(1, m), m);
    lemma_paired_span(v, span_from(1, n), span_from(1, m), n, block_reduced(block), same);
}

/// Zeros behind a block never change what adding up by neighbours gives, bit by
/// bit, where zero adds nothing to the result.
pub proof fn law_padding_never_changes_the_block_sum<T: Scalar>(block: Seq<T>, zeros: Seq<T>)
    requires
        block.len() + zeros.len() <= M,
        T::nothing().sum(T::nothing()) == T::nothing(),
        forall|i: int| 0 <= i < zeros.len() ==> #[trigger] zeros[i] == T::nothing(),
        block_reduced(block).sum(T::nothing()) == block_reduced(block),
    ensures
        block_reduced(block + zeros) == block_reduced(block),
{
    law_padding_keeps_the_block_sum_the_same(block, zeros, |x: T, y: T| x == y);
}

/// Whole numbers are added up exactly by neighbours.
proof fn lemma_paired_is_exact<T: Scalar>(
    whole: spec_fn(T) -> bool,
    value: spec_fn(T) -> int,
    bound: int,
    v: Seq<T>,
    lo: int,
    size: int,
    end: int,
)
    requires
        adds_exactly(whole, value, bound),
        size >= 1,
        halves_evenly(size as nat),
        0 <= lo && lo + size <= v.len(),
        all_whole(whole, v),
        extent(value, v.subrange(lo, lo + size)) <= bound,
        forall|i: int| end <= i < v.len() ==> #[trigger] v[i] == T::nothing(),
    ensures
        whole(paired(v, lo, size, end)),
        value(paired(v, lo, size, end)) == total(value, v.subrange(lo, lo + size)),
    decreases size,
{
    let all = v.subrange(lo, lo + size);
    assert(whole(v[lo]));
    if lo >= end {
        lemma_adds_exactly(whole, value, bound, v[lo], v[lo]);
        lemma_total_of_zeros(value, all);
    } else if size == 1 {
        assert(all.drop_last().len() == 0);
        assert(all.last() == v[lo]);
        assert(total(value, all.drop_last()) == 0);
    } else {
        let h = size / 2;
        let (u, w) = (v.subrange(lo, lo + h), v.subrange(lo + h, lo + size));
        assert(all =~= u + w);
        lemma_total_join(value, u, w);
        lemma_total_join(value, w, u);
        lemma_paired_is_exact(whole, value, bound, v, lo, h, end);
        lemma_paired_is_exact(whole, value, bound, v, lo + h, h, end);
        lemma_adds_exactly(
            whole,
            value,
            bound,
            paired(v, lo, h, end),
            paired(v, lo + h, h, end),
        );
    }
}

proof fn lemma_total_of_zeros<T: Scalar>(value: spec_fn(T) -> int, v: Seq<T>)
    requires
        value(T::nothing()) == 0,
        forall|i: int| 0 <= i < v.len() ==> #[trigger] v[i] == T::nothing(),
    ensures
        total(value, v) == 0,
        extent(value, v) == 0,
    decreases v.len(),
{
    if v.len() > 0 {
        assert(v.last() == T::nothing());
        lemma_total_of_zeros(value, v.drop_last());
    }
}

/// Whole numbers whose sizes come to no more than the bound up to which they are
/// added exactly are added up exactly by neighbours, and for a whole block also
/// by the kernels: on such numbers the two agree.
pub proof fn law_block_sum_of_whole_numbers_is_exact<T: Scalar>(
    whole: spec_fn(T) -> bool,
    value: spec_fn(T) -> int,
    bound: int,
    block: Seq<T>,
)
    requires
        adds_exactly(whole, value, bound),
        block.len() <= M,
        all_whole(whole, block),
        extent(value, block) <= bound,
    ensures
        whole(block_reduced(block)),
        value(block_reduced(block)) == total(value, block),
        block.len() == M ==> value(tree(block)) == value(block_reduced(block)),
{
    let n = block.len() as int;
    let v = filled_up(block);
    let span = span_from(1, n);
    assert(halves_evenly(1));
    lemma_span(1, n);
    lemma_adds_exactly(whole, value, bound, T::nothing(), T::nothing());
    assert forall|i: int| 0 <= i < v.len() implies whole(#[trigger] v[i]) by {
        if i < n {
            assert(whole(block[i]));
        }
    }
    let zeros = v.subrange(n, span);
    assert(v.subrange(0, span) =~= block + zeros);
    lemma_total_of_zeros(value, zeros);
    lemma_total_join(value, block, zeros);
    lemma_paired_is_exact(whole, value, bound, v, 0, span, n);
    if n == M {
        assert(halves_evenly(256)) by {
            reveal_with_fuel(halves_evenly, 9);
        }
        law_tree_of_whole_numbers_is_exact(whole, value, bound, block);
    }
}

proof fn lemma_partial_sums_are_exact<T: Scalar>(
    whole: spec_fn(T) -> bool,
    value: spec_fn(T) -> int,
    bound: int,
    v: Seq<T>,
    sums: Seq<T>,
)
    requires
        adds_exactly(whole, value, bound),
        all_whole(whole, v),
        extent(value, v) <= bound,
        v.len() == sums.len() * M,
        forall|b: int| 0 <= b < sums.len() ==> #[trigger] sums[b] == tree(block_of(v, b)),
    ensures
        all_whole(whole, sums),
        total(value, sums) == total(value, v),
        extent(value, sums) <= extent(value, v),
    decreases sums.len(),
{
    if sums.len() > 0 {
        let b = sums.len() - 1;
        let u = v.subrange(0, b * M);
        let last = block_of(v, b);
        assert(v =~= u + last);
        lemma_total_join(value, u, last);
        assert forall|i: int| 0 <= i < u.len() implies whole(#[trigger] u[i]) by {
            assert(whole(v[i]));
        }
        assert forall|i: int| 0 <= i < last.len() implies whole(#[trigger] last[i]) by {
            assert(whole(v[b * M + i]));
        }
        assert forall|i: int| 0 <= i < b implies #[trigger] sums.drop_last()[i] == tree(
            block_of(u, i),
        ) by {
            assert(block_of(u, i) =~= block_of(v, i));
            assert(sums.drop_last()[i] == sums[i]);
        }
        lemma_partial_sums_are_exact(whole, value, bound, u, sums.drop_last());
        assert(halves_evenly(256)) by {
            reveal_with_fuel(halves_evenly, 9);
        }
        law_tree_of_whole_numbers_is_exact(whole, value, bound, last);
        assert(sums.last() == tree(last));
        assert forall|i: int| 0 <= i < sums.len() implies whole(#[trigger] sums[i]) by {
            if i < b {
                assert(whole(sums.drop_last()[i]));
            }
        }
    }
}

/// Whole numbers whose sizes come to no more than the bound up to which they are
/// added exactly are added up exactly by the passes of a reduction.
pub proof fn law_reduction_of_whole_numbers_is_exact<T: Scalar>(
    whole: spec_fn(T) -> bool,
    value: spec_fn(T) -> int,
    bound: int,
    v: Seq<T>,
)
    requires
        adds_exactly(whole, value, bound),
        all_whole(whole, v),
        extent(value, v) <= bound,
        v.len() > 0,
        v.len() as int % M as int == 0,
    ensures
        whole(reduced(v)),
        value(reduced(v)) == total(value, v),
    decreases v.len(),
{
    let blocks = v.len() as int / M as int;
    let p = passed(v);
    let sums = p.subrange(0, blocks);
    let zeros = p.subrange(blocks, p.len() as int);
    lemma_partial_sums_are_exact(whole, value, bound, v, sums);
    assert(p =~= sums + zeros);
    lemma_adds_exactly(whole, value, bound, T::nothing(), T::nothing());
    lemma_total_of_zeros(value, zeros);
    lemma_total_join(value, sums, zeros);
    if v.len() < 2 * M {
        assert(sums.drop_last().len() == 0);
        assert(total(value, sums.drop_last()) == 0);
        assert(whole(sums[0]) && sums.last() == p[0]);
    } else {
        assert forall|i: int| 0 <= i < p.len() implies whole(#[trigger] p[i]) by {
            if i < blocks {
                assert(whole(sums[i]));
            }
        }
        law_reduction_of_whole_numbers_is_exact(whole, value, bound, p);
    }
}

/// Add up a whole block in the order of the kernels: halving.
pub fn block_sum<T: Scalar>(block: &[T]) -> (r: T)
    requires
        block@.len() == M,
    ensures
        r == tree(block@),
{
    let mut tile: Vec<T> = fetch(block, 0);
    assert(block_of(block@, 0) =~= block@);
    halve_down_to(&mut tile, 1);
    tile[0]
}

/// The block sum of the host is what the kernels `vecsum` and `vecsum_recursive`
/// put out for the block, bit by bit and for every kind of number.
pub proof fn law_host_block_sum_is_that_of_the_kernels<T: Scalar>(
    a: Seq<T>,
    out: Seq<T>,
    block: Seq<T>,
    b: int,
)
    requires
        0 <= b < out.len(),
        (b + 1) * M <= a.len(),
        block == block_of(a, b),
    ensures
        out.update(b, tree(block_of(a, b)))[b] == tree(block),
{
}

/// Block `b` of a vector is its numbers from `256 * b` on, 256 of them.
pub proof fn law_blocks_cut_the_vector<T>(a: Seq<T>, b: int, i: int)
    requires
        0 <= b,
        (b + 1) * 256 <= a.len(),
        0 <= i < 256,
    ensures
        block_of(a, b).len() == 256,
        block_of(a, b)[i] == a[256 * b + i],
{
}

/// A pass puts out the sum by halving of each block, in order, and zeros up to
/// the next multiple of 256; the reduction of one block is its sum by halving,
/// and that of more blocks is that of what a pass puts out.
pub proof fn law_reduction_is_pass_after_pass<T: Scalar>(v: Seq<T>, p: Seq<T>, blocks: int)
    requires
        v.len() == blocks * 256,
        blocks >= 1,
        blocks <= p.len() < blocks + 256,
        p.len() as int % 256 == 0,
        forall|b: int|
            0 <= b < blocks ==> #[trigger] p[b] == tree(v.subrange(b * 256, b * 256 + 256)),
        forall|b: int| blocks <= b < p.len() ==> #[trigger] p[b] == T::nothing(),
    ensures
        blocks == 1 ==> reduced(v) == tree(v),
        blocks > 1 ==> reduced(v) == reduced(p),
{
    let q = passed(v);
    assert(q.len() == p.len());
    assert forall|b: int| 0 <= b < q.len() implies q[b] == p[b] by {
        if b < blocks {
            assert(p[b] == tree(v.subrange(b * 256, b * 256 + 256)));
        } else {
            assert(p[b] == T::nothing());
        }
    }
    assert(q =~= p);
    if blocks == 1 {
        assert(v.subrange(0, 256) =~= v);
        assert(p[0] == tree(v.subrange(0, 256)));
    }
}

/// Half as many numbers: neighbours added, the last one of an odd number to zero.
proof fn lemma_neighbours_first<T: Scalar>(
    v: Seq<T>,
    w: Seq<T>,
    n: int,
    m: int,
    lo: int,
    size: int,
)
    requires
        v.len() == M,
        w.len() == M,
        0 <= lo,
        1 <= size,
        halves_evenly(size as nat),
        2 * lo + 2 * size <= M,
        0 <= n <= M,
        m == (n + 1) / 2,
        forall|i: int| n <= i < M ==> #[trigger] v[i] == T::nothing(),
        forall|i: int| m <= i < M ==> #[trigger] w[i] == T::nothing(),
        forall|i: int| 0 <= i < m ==> #[trigger] w[i] == v[2 * i].sum(v[2 * i + 1]),
    ensures
        paired(v, 2 * lo, 2 * size, n) == paired(w, lo, size, m),
    decreases size,
{
    if lo >= m {
        assert(v[2 * lo] == T::nothing());
        assert(w[lo] == T::nothing());
    } else if size == 1 {
        assert(w[lo] == v[2 * lo].sum(v[2 * lo + 1]));
        assert(paired(v, 2 * lo, 1, n) == v[2 * lo]);
        assert(paired(v, 2 * lo + 1, 1, n) == v[2 * lo + 1]);
    } else {
        let h = size / 2;
        assert(2 * h == size);
        lemma_neighbours_first(v, w, n, m, lo, h);
        lemma_neighbours_first(v, w, n, m, lo + h, h);
    }
}

/// The span of twice as many numbers is twice the span.
proof fn lemma_span_doubles(s: int, n: int)
    requires
        is_distance(s),
        2 <= n <= M,
    ensures
        span_from(2 * s, n) == 2 * span_from(s, (n + 1) / 2),
    decreases 2 * M - s,
{
    if s < (n + 1) / 2 {
        lemma_span_doubles(2 * s, n);
    }
}

/// Adding a block by neighbours: one number is its own sum, and more give what the
/// sums of each number at an even place with its upper neighbour give, a last one
/// without a neighbour being added to zero.
pub proof fn law_block_sum_adds_neighbours<T: Scalar>(v: Seq<T>, w: Seq<T>)
    requires
        v.len() <= M,
    ensures
        v.len() == 1 ==> block_reduced(v) == v[0],
        v.len() == 0 ==> block_reduced(v) == T::nothing(),
        v.len() >= 2 && w.len() == (v.len() + 1) / 2 && (forall|i: int|
            0 <= i < w.len() ==> #[trigger] w[i] == v[2 * i].sum(
                if 2 * i + 1 < v.len() {
                    v[2 * i + 1]
                } else {
                    T::nothing()
                },
            )) ==> block_reduced(v) == block_reduced(w),
{
    let n = v.len() as int;
    if n >= 2 && w.len() == (v.len() + 1) / 2 && (forall|i: int|
        0 <= i < w.len() ==> #[trigger] w[i] == v[2 * i].sum(
            if 2 * i + 1 < v.len() {
                v[2 * i + 1]
            } else {
                T::nothing()
            },
        )) {
        let m = w.len() as int;
        let (fv, fw) = (filled_up(v), filled_up(w));
        assert(halves_evenly(1));
        lemma_span(1, m);
        lemma_span(1, n);
        lemma_span_doubles(1, n);
        assert(span_from(1, n) == span_from(2, n));
        let size = span_from(1, m);
        assert forall|i: int| 0 <= i < m implies #[trigger] fw[i] == fv[2 * i].sum(fv[2 * i + 1]) by {
            assert(fw[i] == w[i]);
        }
        lemma_neighbours_first(fv, fw, n, m, 0, size);
    }
}

/// The partner of a lane is the lane with the bits of the mask changed.
proof fn lemma_partner_is_xor(lane: u32, mask: u32)
    requires
        lane < 32,
        mask == 16 || mask == 8 || mask == 4 || mask == 2 || mask == 1,
    ensures
        partner(lane as int, mask as int) == lane ^ mask,
        lane ^ mask < 32,
{
    let other = lane ^ mask;
    assert(other < 32 && other == if (lane / mask) % 2 == 0 {
        (lane + mask) as int
    } else {
        lane - mask
    }) by (bit_vector)
        requires
            other == lane ^ mask,
            lane < 32,
            mask == 16 || mask == 8 || mask == 4 || mask == 2 || mask == 1,
    ;
}

/// The numbers of a warp as lane `l` sees them: lane `i` at the place that differs
/// from it in the bits of `l`.
pub open spec fn seen_from<T>(v: Seq<T>, l: u32) -> Seq<T> {
    Seq::new(WARP as nat, |i: int| v[(i as u32 ^ l) as int])
}

proof fn lemma_exchange_seen<T: Scalar>(v: Seq<T>, l: u32, mask: u32)
    requires
        v.len() == WARP,
        l < 32,
        mask == 16 || mask == 8 || mask == 4 || mask == 2 || mask == 1,
    ensures
        exchanged(seen_from(v, l), mask as int) == seen_from(exchanged(v, mask as int), l),
{
    let (x, y) = (
        exchanged(seen_from(v, l), mask as int),
        seen_from(exchanged(v, mask as int), l),
    );
    assert forall|i: int| 0 <= i < 32 implies x[i] == y[i] by {
        let k = i as u32;
        let at = k ^ l;
        assert(at < 32) by (bit_vector)
            requires
                at == k ^ l,
                k < 32,
                l < 32,
        ;
        lemma_partner_is_xor(k, mask);
        lemma_partner_is_xor(at, mask);
        assert((k ^ mask) ^ l == (k ^ l) ^ mask) by (bit_vector);
    }
    assert(x =~= y);
}

/// Every lane of a warp ends up with a sum by halving: that of the numbers in the
/// order in which the lane sees them, bit by bit and for every kind of number.
pub proof fn law_each_lane_gets_its_tree<T: Scalar>(v: Seq<T>, u: Seq<T>, l: u32)
    requires
        v.len() == 32,
        u.len() == 32,
        l < 32,
        forall|i: int| 0 <= i < 32 ==> #[trigger] u[i] == v[(i as u32 ^ l) as int],
    ensures
        warp_reduced(v)[l as int] == tree(u),
{
    assert(u =~= seen_from(v, l));
    let v16 = exchanged(v, 16);
    let v8 = exchanged(v16, 8);
    let v4 = exchanged(v8, 4);
    let v2 = exchanged(v4, 2);
    let v1 = exchanged(v2, 1);
    lemma_exchange_seen(v, l, 16);
    lemma_exchange_seen(v16, l, 8);
    lemma_exchange_seen(v8, l, 4);
    lemma_exchange_seen(v4, l, 2);
    lemma_exchange_seen(v2, l, 1);
    law_warp_reduction_is_the_tree(u);
    assert(warp_reduced(u) == seen_from(v1, l));
    assert(0u32 ^ l == l) by (bit_vector);
}

} // verus!
