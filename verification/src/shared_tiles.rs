//! Matrix product with shared tiles: a block of 64×64 threads fetches square
//! tiles of A and B, one entry of each per thread, and every thread adds up one
//! entry of C. Threads are numbered row by row.
use vstd::prelude::*;
use crate::dims::BK;
use crate::matrix::{lemma_flat_bound, lemma_flat_split};
use crate::product::{
    dot, entry_index, entry_of, law_entry_is_the_sum_of_all_products, Shape,
};
use crate::scalar::Scalar;

verus! {

/// Threads of a block, and entries of a tile.
pub const BLOCK_THREADS: usize = 4096;

/// Tile `t` of the rows of A from `row` on.
pub open spec fn square_a<E>(a: Seq<E>, shape: Shape, row: int, t: int) -> Seq<E> {
    Seq::new(
        BLOCK_THREADS as nat,
        |i: int| a[(row + i / 64) * shape.k + (t * 64 + i % 64)],
    )
}

/// Tile `t` of the columns of B from `col` on.
pub open spec fn square_b<E>(b: Seq<E>, shape: Shape, col: int, t: int) -> Seq<E> {
    Seq::new(
        BLOCK_THREADS as nat,
        |i: int| b[(t * 64 + i / 64) * shape.n + (col + i % 64)],
    )
}

/// The matrices can be cut into whole tiles, and the block at (`row`, `col`)
/// lies in C.
pub open spec fn square_fits(shape: Shape, row: int, col: int) -> bool {
    &&& 0 <= row && row + BK <= shape.m
    &&& 0 <= col && col + BK <= shape.n
    &&& shape.k as int % BK as int == 0
}

/// What the products of one tile add to `init`, in order: row `r` of the tile
/// of A, column `c` of the tile of B.
pub open spec fn square_dot<E: Scalar>(
    init: E,
    tile_a: Seq<E>,
    tile_b: Seq<E>,
    r: int,
    c: int,
    len: nat,
) -> E
    decreases len,
{
    if len == 0 {
        init
    } else {
        let i = len - 1;
        square_dot(init, tile_a, tile_b, r, c, i as nat).sum(
            tile_a[r * 64 + i].product(tile_b[i * 64 + c]),
        )
    }
}

/// The products of tile `t` carry a sum on from the tiles before.
proof fn lemma_square_extends_dot<E: Scalar>(
    a: Seq<E>,
    b: Seq<E>,
    shape: Shape,
    row: int,
    col: int,
    t: int,
    r: int,
    c: int,
    len: nat,
)
    requires
        0 <= r < BK,
        0 <= c < BK,
        0 <= t,
        len <= 64,
    ensures
        square_dot(
            dot(a, b, shape, row + r, col + c, (t * 64) as nat),
            square_a(a, shape, row, t),
            square_b(b, shape, col, t),
            r,
            c,
            len,
        ) == dot(a, b, shape, row + r, col + c, (t * 64 + len) as nat),
    decreases len,
{
    if len > 0 {
        let i = len - 1;
        lemma_square_extends_dot(a, b, shape, row, col, t, r, c, i as nat);
        let ia = r * 64 + i;
        let ib = i * 64 + c;
        assert(ia / 64 == r && ia % 64 == i);
        assert(ib / 64 == i && ib % 64 == c);
        assert(square_a(a, shape, row, t)[ia] == a[(row + r) * shape.k + (t * 64 + i)]);
        assert(square_b(b, shape, col, t)[ib] == b[(t * 64 + i) * shape.n + (col + c)]);
    }
}

/// All threads fetch tile `t`.
fn fetch<E: Scalar>(
    a: &[E],
    b: &[E],
    shape: Shape,
    row: usize,
    col: usize,
    t: usize,
) -> (r: (Vec<E>, Vec<E>))
    requires
        shape.fits(a@, b@),
        square_fits(shape, row as int, col as int),
        t < shape.k as int / 64,
    ensures
        r.0@ == square_a(a@, shape, row as int, t as int),
        r.1@ == square_b(b@, shape, col as int, t as int),
{
    let a_len: usize = a.len();
    let b_len: usize = b.len();
    let offset: usize = t * BK;
    let mut tile_a: Vec<E> = Vec::new();
    let mut tile_b: Vec<E> = Vec::new();
    let mut thread: usize = 0;
    while thread < BLOCK_THREADS
        invariant
            thread <= BLOCK_THREADS,
            offset == t * 64,
            offset + 64 <= shape.k,
            shape.fits(a@, b@),
            square_fits(shape, row as int, col as int),
            a_len == a@.len(),
            b_len == b@.len(),
            tile_a@.len() == thread,
            tile_b@.len() == thread,
            forall|i: int|
                0 <= i < thread ==> #[trigger] tile_a@[i] == square_a(
                    a@,
                    shape,
                    row as int,
                    t as int,
                )[i],
            forall|i: int|
                0 <= i < thread ==> #[trigger] tile_b@[i] == square_b(
                    b@,
                    shape,
                    col as int,
                    t as int,
                )[i],
        decreases BLOCK_THREADS - thread,
    {
        let tx: usize = thread % BK;
        let ty: usize = thread / BK;
        proof {
            lemma_flat_bound(row + ty, offset + tx, shape.m as int, shape.k as int);
            lemma_flat_bound(offset + ty, col + tx, shape.k as int, shape.n as int);
        }
        tile_a.push(a[(row + ty) * shape.k + (offset + tx)]);
        tile_b.push(b[(offset + ty) * shape.n + (col + tx)]);
        thread += 1;
    }
    assert(tile_a@ =~= square_a(a@, shape, row as int, t as int));
    assert(tile_b@ =~= square_b(b@, shape, col as int, t as int));
    (tile_a, tile_b)
}

/// One thread's part in multiplying a tile.
fn multiply<E: Scalar>(sum: E, tile_a: &Vec<E>, tile_b: &Vec<E>, thread: usize) -> (r: E)
    requires
        thread < BLOCK_THREADS,
        tile_a@.len() == BLOCK_THREADS,
        tile_b@.len() == BLOCK_THREADS,
    ensures
        r == square_dot(sum, tile_a@, tile_b@, thread as int / 64, thread as int % 64, 64),
{
    let tx: usize = thread % BK;
    let ty: usize = thread / BK;
    let mut total: E = sum;
    let mut k: usize = 0;
    while k < BK
        invariant
            k <= BK,
            tx < 64,
            ty < 64,
            tile_a@.len() == BLOCK_THREADS,
            tile_b@.len() == BLOCK_THREADS,
            total == square_dot(sum, tile_a@, tile_b@, ty as int, tx as int, k as nat),
        decreases BK - k,
    {
        total = total.plus(tile_a[ty * BK + k].times(tile_b[k * BK + tx]));
        k += 1;
    }
    total
}

/// The sums of all threads after the first `len` products.
spec fn sums_hold<E: Scalar>(
    sums: Seq<E>,
    a: Seq<E>,
    b: Seq<E>,
    shape: Shape,
    row: int,
    col: int,
    len: nat,
) -> bool {
    &&& sums.len() == BLOCK_THREADS
    &&& forall|i: int|
        0 <= i < BLOCK_THREADS ==> #[trigger] sums[i] == dot(
            a,
            b,
            shape,
            row + i / 64,
            col + i % 64,
            len,
        )
}

/// Whether entry `x` of C is one of the block at (`row`, `col`).
pub open spec fn in_block(x: int, n: int, row: int, col: int) -> bool {
    &&& row <= x / n < row + BK
    &&& col <= x % n < col + BK
}

/// C after the block at (`row`, `col`): the entries of the block are those of
/// the product, as far as C has them, and all else is as before.
pub open spec fn with_block<E: Scalar>(
    c: Seq<E>,
    a: Seq<E>,
    b: Seq<E>,
    shape: Shape,
    row: int,
    col: int,
) -> Seq<E> {
    Seq::new(
        c.len(),
        |x: int|
            if in_block(x, shape.n as int, row, col) {
                entry_of(a, b, shape, x / shape.n as int, x % shape.n as int)
            } else {
                c[x]
            },
    )
}

/// Thread whose entry of C is row `r`, column `c` of the block.
spec fn writer(r: int, c: int) -> int {
    r * 64 + c
}

/// All threads write their sums to C, where C has their entry.
#[verifier::rlimit(30)]
fn write_sums<E: Scalar>(
    c: &mut Vec<E>,
    sums: &Vec<E>,
    shape: Shape,
    row: usize,
    col: usize,
    a: Ghost<Seq<E>>,
    b: Ghost<Seq<E>>,
)
    requires
        square_fits(shape, row as int, col as int),
        sums_hold(sums@, a@, b@, shape, row as int, col as int, shape.k as nat),
    ensures
        final(c)@ == with_block(old(c)@, a@, b@, shape, row as int, col as int),
{
    let c_len: usize = c.len();
    let n: usize = shape.n;
    let ghost done = with_block(old(c)@, a@, b@, shape, row as int, col as int);
    let mut thread: usize = 0;
    while thread < BLOCK_THREADS
        invariant
            thread <= BLOCK_THREADS,
            n == shape.n,
            square_fits(shape, row as int, col as int),
            sums_hold(sums@, a@, b@, shape, row as int, col as int, shape.k as nat),
            c_len == c@.len() == old(c)@.len(),
            done == with_block(old(c)@, a@, b@, shape, row as int, col as int),
            forall|x: int|
                0 <= x < c_len ==> #[trigger] c@[x] == if in_block(
                    x,
                    n as int,
                    row as int,
                    col as int,
                ) && writer(x / n as int - row, x % n as int - col) < thread {
                    done[x]
                } else {
                    old(c)@[x]
                },
        decreases BLOCK_THREADS - thread,
    {
        let tx: usize = thread % BK;
        let ty: usize = thread / BK;
        let ghost before = c@;
        let index: Option<usize> = entry_index(c_len, n, row + ty, col + tx);
        match index {
            Some(i) => {
                c.set(i, sums[thread]);
            },
            None => {},
        }
        proof {
            let here = (row + ty) * n + (col + tx);
            lemma_flat_split(row + ty, col + tx, n as int);
            assert forall|x: int| 0 <= x < c_len implies #[trigger] c@[x] == if in_block(
                x,
                n as int,
                row as int,
                col as int,
            ) && writer(x / n as int - row, x % n as int - col) < thread + 1 {
                done[x]
            } else {
                old(c)@[x]
            } by {
                assert(before[x] == before[x]);
                let r = x / n as int - row;
                let q = x % n as int - col;
                if in_block(x, n as int, row as int, col as int) && writer(r, q) == thread {
                    assert(r == ty && q == tx);
                    crate::math::lemma_join(x, n as int);
                    assert(x / n as int == row + ty);
                    assert(x == here);
                    assert(index == Some(x as usize));
                    assert(c@[x] == sums@[thread as int]);
                }
                if x == here {
                    assert(r == ty && q == tx);
                    assert(writer(r, q) == thread);
                }
            }
        }
        thread += 1;
    }
    proof {
        assert forall|x: int| 0 <= x < c@.len() implies #[trigger] c@[x] == done[x] by {
            if in_block(x, n as int, row as int, col as int) {
                assert(writer(x / n as int - row, x % n as int - col) < BLOCK_THREADS);
            }
        }
        assert(c@ =~= done);
    }
}

/// Block (`block_x`, `block_y`) of the product with shared tiles: all threads
/// fetch a tile, meet, multiply it, meet, and at the end write their
/// sums to C.
pub fn gemm_smem<E: Scalar>(
    a: &[E],
    b: &[E],
    c: &mut Vec<E>,
    shape: Shape,
    block_x: usize,
    block_y: usize,
)
    requires
        shape.fits(a@, b@),
        square_fits(shape, block_y * BK, block_x * BK),
    ensures
        final(c)@ == with_block(old(c)@, a@, b@, shape, block_y * BK, block_x * BK),
{
    let row: usize = block_y * BK;
    let col: usize = block_x * BK;
    let mut sums: Vec<E> = Vec::new();
    while sums.len() < BLOCK_THREADS
        invariant
            sums@.len() <= BLOCK_THREADS,
            forall|i: int| 0 <= i < sums@.len() ==> #[trigger] sums@[i] == E::nothing(),
        decreases BLOCK_THREADS - sums@.len(),
    {
        sums.push(E::zero());
    }
    let mut t: usize = 0;
    while t < shape.k / BK
        invariant
            t <= shape.k / BK,
            shape.fits(a@, b@),
            square_fits(shape, row as int, col as int),
            sums_hold(sums@, a@, b@, shape, row as int, col as int, (t * 64) as nat),
        decreases shape.k / BK - t,
    {
        let (tile_a, tile_b) = fetch(a, b, shape, row, col, t);
        let mut thread: usize = 0;
        while thread < BLOCK_THREADS
            invariant
                thread <= BLOCK_THREADS,
                tile_a@ == square_a(a@, shape, row as int, t as int),
                tile_b@ == square_b(b@, shape, col as int, t as int),
                sums@.len() == BLOCK_THREADS,
                forall|i: int|
                    0 <= i < BLOCK_THREADS ==> #[trigger] sums@[i] == dot(
                        a@,
                        b@,
                        shape,
                        row + i / 64,
                        col + i % 64,
                        if i < thread {
                            (t * 64 + 64) as nat
                        } else {
                            (t * 64) as nat
                        },
                    ),
            decreases BLOCK_THREADS - thread,
        {
            proof {
                lemma_square_extends_dot(
                    a@,
                    b@,
                    shape,
                    row as int,
                    col as int,
                    t as int,
                    thread as int / 64,
                    thread as int % 64,
                    64,
                );
            }
            let sum: E = multiply(sums[thread], &tile_a, &tile_b, thread);
            sums.set(thread, sum);
            thread += 1;
        }
        t += 1;
    }
    write_sums(c, &sums, shape, row, col, Ghost(a@), Ghost(b@));
}

/// The shared-tile kernel puts the same entries as the other kernels, whatever C
/// held before.
pub proof fn law_block_holds_the_product<E: Scalar>(
    c: Seq<E>,
    a: Seq<E>,
    b: Seq<E>,
    shape: Shape,
    row: int,
    col: int,
    x: int,
)
    requires
        0 <= x < c.len(),
        in_block(x, shape.n as int, row, col),
    ensures
        with_block(c, a, b, shape, row, col)[x] == entry_of(
            a,
            b,
            shape,
            x / shape.n as int,
            x % shape.n as int,
        ),
{
}

/// What a block leaves in C: the entries of its 64 rows and 64 columns are the
/// sums of all products of their rows of A and columns of B, and every other
/// entry is what it was.
pub proof fn law_block_writes_its_square_alone<E: Scalar>(
    c: Seq<E>,
    a: Seq<E>,
    b: Seq<E>,
    shape: Shape,
    row: int,
    col: int,
    x: int,
    v: Seq<E>,
)
    requires
        0 <= x < c.len(),
        shape.n > 0,
        v.len() == shape.k,
        forall|i: int|
            0 <= i < shape.k ==> #[trigger] v[i] == a[x / shape.n as int * shape.k + i].product(
                b[i * shape.n + x % shape.n as int],
            ),
    ensures
        ({
            let r = with_block(c, a, b, shape, row, col);
            let (i, j) = (x / shape.n as int, x % shape.n as int);
            &&& r.len() == c.len()
            &&& row <= i < row + 64 && col <= j < col + 64 ==> r[x] == v.fold_left(
                E::nothing(),
                |y: E, z: E| y.sum(z),
            )
            &&& !(row <= i < row + 64 && col <= j < col + 64) ==> r[x] == c[x]
        }),
{
    law_entry_is_the_sum_of_all_products(
        a,
        b,
        shape,
        x / shape.n as int,
        x % shape.n as int,
        v,
    );
}

} // verus!
