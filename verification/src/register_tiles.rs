//! Matrix product with register tiles.
//!
//! A block of 16×16 threads produces a 128×128 tile of C: slices of A and B, 16
//! long along the contraction, go through shared memory, and each thread keeps
//! an 8×8 piece of the tile in registers. Threads are numbered row by row.
use vstd::prelude::*;
use crate::matrix::{lemma_flat_bound, lemma_flat_split};
use crate::product::{dot, entry_of, law_entry_is_the_sum_of_all_products, Shape};
use crate::scalar::Scalar;

verus! {

/// Contraction length of one slice.
pub const SLICE: usize = 16;

/// Threads of a block along each side.
pub const SIDE: usize = 16;

/// Threads of a block.
pub const THREADS: usize = 256;

/// Side of the piece of C that one thread keeps.
pub const T: usize = 8;

/// Entries of that piece.
pub const PIECE: usize = 64;

/// Side of the tile of C that a block produces.
pub const TILE: usize = 128;

/// Entries of a slice of A, and of one of B.
pub const SLICE_SIZE: usize = 2048;

/// Entries of each slice that one thread fetches.
pub const FILLS: usize = 8;

/// Distance of two rows of a slice of A.
pub const A_STRIDE: usize = 16;

/// Distance of two rows of a slice of B.
pub const B_STRIDE: usize = 128;

/// Slice `t` of the rows of A from `row` on: 128 rows, 16 wide.
pub open spec fn slice_a<E>(a: Seq<E>, shape: Shape, row: int, t: int) -> Seq<E> {
    Seq::new(
        SLICE_SIZE as nat,
        |i: int| a[(row + i / 16) * shape.k + (t * 16 + i % 16)],
    )
}

/// Slice `t` of the columns of B from `col` on: 16 rows, 128 wide.
pub open spec fn slice_b<E>(b: Seq<E>, shape: Shape, col: int, t: int) -> Seq<E> {
    Seq::new(
        SLICE_SIZE as nat,
        |i: int| b[(t * 16 + i / 128) * shape.n + (col + i % 128)],
    )
}

/// The matrices can be cut into whole tiles and slices, and the tile at (`row`,
/// `col`) is one of C.
pub open spec fn tile_fits(shape: Shape, row: int, col: int) -> bool {
    &&& 0 <= row && row + TILE <= shape.m
    &&& 0 <= col && col + TILE <= shape.n
    &&& shape.k as int % SLICE as int == 0
}

/// Thread that fetches cell `i` of a slice of A.
pub open spec fn a_filler(i: int) -> int {
    i % 256
}

/// Thread that fetches cell `i` of a slice of B.
pub open spec fn b_filler(i: int) -> int {
    (i / 128) * 16 + i % 16
}

/// Cell of a slice of A that fetch `f` of a thread fills.
pub open spec fn a_cell(thread: int, f: int) -> int {
    (thread / 16 + f * 16) * 16 + thread % 16
}

/// Cell of a slice of B that fetch `f` of a thread fills.
pub open spec fn b_cell(thread: int, f: int) -> int {
    (thread / 16) * 128 + thread % 16 + f * 16
}

proof fn lemma_a_cell(i: int, tx: int, ty: int, f: int)
    requires
        0 <= i < SLICE_SIZE,
        0 <= tx < 16,
        0 <= ty < 16,
        0 <= f < 8,
    ensures
        a_filler(i) == ty * 16 + tx && i / 256 == f <==> i == (ty + f * 16) * 16 + tx,
        0 <= a_filler(i) < THREADS,
{
}

proof fn lemma_b_cell(i: int, tx: int, ty: int, f: int)
    requires
        0 <= i < SLICE_SIZE,
        0 <= tx < 16,
        0 <= ty < 16,
        0 <= f < 8,
    ensures
        b_filler(i) == ty * 16 + tx && (i / 16) % 8 == f <==> i == ty * 128 + tx + f * 16,
        0 <= b_filler(i) < THREADS,
{
    let q = i / 128;
    let s = (i / 16) % 8;
    let r = i % 16;
    assert(i == q * 128 + s * 16 + r && 0 <= r < 16 && 0 <= s < 8);
}

/// The fetches of the threads fill a slice, each cell once: cell `i` is filled
/// by one fetch of one thread.
pub proof fn law_fetches_fill_the_slices(i: int, thread: int, f: int)
    requires
        0 <= i < SLICE_SIZE,
        0 <= thread < THREADS,
        0 <= f < FILLS,
    ensures
        i == a_cell(thread, f) <==> a_filler(i) == thread && i / 256 == f,
        i == b_cell(thread, f) <==> b_filler(i) == thread && (i / 16) % 8 == f,
        0 <= a_filler(i) < THREADS,
        0 <= b_filler(i) < THREADS,
{
    let (tx, ty) = (thread % 16, thread / 16);
    assert(thread == ty * 16 + tx && 0 <= tx < 16 && 0 <= ty < 16);
    lemma_a_cell(i, tx, ty, f);
    lemma_b_cell(i, tx, ty, f);
}

/// Cells of a slice of A and of one of B, and the entries that go there.
#[derive(Clone, Copy, PartialEq, Eq, Structural, Debug)]
pub struct Fetch {
    pub cell_a: usize,
    pub from_a: usize,
    pub cell_b: usize,
    pub from_b: usize,
}

/// Fetch `f` of a thread for slice `t` of the tile at (`row`, `col`): the cell
/// of A and the cell of B that it fills, and the entries that go there.
pub fn fetch_at(
    shape: Shape,
    row: usize,
    col: usize,
    t: usize,
    thread: usize,
    f: usize,
) -> (r: Fetch)
    requires
        shape.m * shape.k <= usize::MAX,
        shape.k * shape.n <= usize::MAX,
        tile_fits(shape, row as int, col as int),
        t < shape.k as int / 16,
        thread < THREADS,
        f < FILLS,
    ensures
        r.cell_a == a_cell(thread as int, f as int),
        r.cell_b == b_cell(thread as int, f as int),
        r.cell_a < SLICE_SIZE,
        r.cell_b < SLICE_SIZE,
        r.from_a == (row + r.cell_a as int / 16) * shape.k + (t * 16 + r.cell_a as int % 16),
        r.from_b == (t * 16 + r.cell_b as int / 128) * shape.n + (col + r.cell_b as int % 128),
        r.from_a < shape.m * shape.k,
        r.from_b < shape.k * shape.n,
{
    let tx: usize = thread % SIDE;
    let ty: usize = thread / SIDE;
    let offset: usize = t * SLICE;
    let a_row: usize = f * SIDE;
    let b_col: usize = f * SIDE;
    let cell_a: usize = (ty + a_row) * A_STRIDE + tx;
    let cell_b: usize = ty * B_STRIDE + tx + b_col;
    proof {
        lemma_flat_bound(row + ty + a_row, offset + tx, shape.m as int, shape.k as int);
        lemma_flat_bound(offset + ty, col + b_col + tx, shape.k as int, shape.n as int);
        assert(cell_a as int / 16 == ty + a_row && cell_a as int % 16 == tx as int);
        assert(row + cell_a as int / 16 == row + ty + a_row);
        assert(cell_b as int / 128 == ty && cell_b as int % 128 == b_col + tx);
        assert(col + cell_b as int % 128 == col + b_col + tx);
    }
    Fetch {
        cell_a,
        from_a: (row + ty + a_row) * shape.k + (offset + tx),
        cell_b,
        from_b: (offset + ty) * shape.n + (col + b_col + tx),
    }
}

/// One thread's part in fetching slice `t`.
#[verifier::rlimit(30)]
fn fill<E: Copy>(
    tile_a: &mut Vec<E>,
    tile_b: &mut Vec<E>,
    a: &[E],
    b: &[E],
    shape: Shape,
    row: usize,
    col: usize,
    t: usize,
    thread: usize,
)
    requires
        shape.fits(a@, b@),
        tile_fits(shape, row as int, col as int),
        t < shape.k as int / 16,
        thread < THREADS,
        old(tile_a)@.len() == SLICE_SIZE,
        old(tile_b)@.len() == SLICE_SIZE,
    ensures
        final(tile_a)@.len() == SLICE_SIZE,
        final(tile_b)@.len() == SLICE_SIZE,
        forall|i: int|
            0 <= i < SLICE_SIZE ==> #[trigger] final(tile_a)@[i] == if a_filler(i) == thread {
                slice_a(a@, shape, row as int, t as int)[i]
            } else {
                old(tile_a)@[i]
            },
        forall|i: int|
            0 <= i < SLICE_SIZE ==> #[trigger] final(tile_b)@[i] == if b_filler(i) == thread {
                slice_b(b@, shape, col as int, t as int)[i]
            } else {
                old(tile_b)@[i]
            },
{
    let a_len: usize = a.len();
    let b_len: usize = b.len();
    let ghost sa = slice_a(a@, shape, row as int, t as int);
    let ghost sb = slice_b(b@, shape, col as int, t as int);
    let mut f: usize = 0;
    while f < FILLS
        invariant
            f <= FILLS,
            thread < THREADS,
            t < shape.k as int / 16,
            shape.fits(a@, b@),
            tile_fits(shape, row as int, col as int),
            a_len == a@.len(),
            b_len == b@.len(),
            tile_a@.len() == SLICE_SIZE,
            tile_b@.len() == SLICE_SIZE,
            sa == slice_a(a@, shape, row as int, t as int),
            sb == slice_b(b@, shape, col as int, t as int),
            forall|i: int|
                0 <= i < SLICE_SIZE ==> #[trigger] tile_a@[i] == if a_filler(i) == thread && i / 256
                    < f {
                    sa[i]
                } else {
                    old(tile_a)@[i]
                },
            forall|i: int|
                0 <= i < SLICE_SIZE ==> #[trigger] tile_b@[i] == if b_filler(i) == thread && (i
                    / 16) % 8 < f {
                    sb[i]
                } else {
                    old(tile_b)@[i]
                },
        decreases FILLS - f,
    {
        let fetch: Fetch = fetch_at(shape, row, col, t, thread, f);
        let ghost a_before = tile_a@;
        let ghost b_before = tile_b@;
        tile_a.set(fetch.cell_a, a[fetch.from_a]);
        tile_b.set(fetch.cell_b, b[fetch.from_b]);
        proof {
            assert forall|i: int| 0 <= i < SLICE_SIZE implies #[trigger] tile_a@[i] == if a_filler(
                i,
            ) == thread && i / 256 < f + 1 {
                sa[i]
            } else {
                old(tile_a)@[i]
            } by {
                assert(a_before[i] == a_before[i]);
                law_fetches_fill_the_slices(i, thread as int, f as int);
            }
            assert forall|i: int| 0 <= i < SLICE_SIZE implies #[trigger] tile_b@[i] == if b_filler(
                i,
            ) == thread && (i / 16) % 8 < f + 1 {
                sb[i]
            } else {
                old(tile_b)@[i]
            } by {
                assert(b_before[i] == b_before[i]);
                law_fetches_fill_the_slices(i, thread as int, f as int);
            }
        }
        f += 1;
    }
}

/// What the products of one slice add to `init`: row `r` of the slice of A,
/// column `c` of the slice of B, the first `len` products in order.
pub open spec fn slice_dot<E: Scalar>(
    init: E,
    tile_a: Seq<E>,
    tile_b: Seq<E>,
    r: int,
    c: int,
    len: nat,
) -> E
    decreases len,
{
    if len == 0 {
        init
    } else {
        let i = len - 1;
        slice_dot(init, tile_a, tile_b, r, c, i as nat).sum(
            tile_a[r * 16 + i].product(tile_b[i * 128 + c]),
        )
    }
}

/// Row of the tile that entry `e` of a thread's piece lies in.
pub open spec fn piece_row(thread: int, e: int) -> int {
    (thread / 16) * 8 + e / 8
}

/// Column of the tile that entry `e` of a thread's piece lies in.
pub open spec fn piece_col(thread: int, e: int) -> int {
    (thread % 16) * 8 + e % 8
}

/// One thread's part in multiplying a slice: each entry of its piece grows by
/// the products of its row and column.
#[verifier::rlimit(30)]
pub(crate) fn multiply<E: Scalar>(
    acc: &mut [E; 64],
    tile_a: &Vec<E>,
    tile_b: &Vec<E>,
    thread: usize,
)
    requires
        thread < THREADS,
        tile_a@.len() == SLICE_SIZE,
        tile_b@.len() == SLICE_SIZE,
    ensures
        forall|e: int|
            0 <= e < PIECE ==> #[trigger] final(acc)@[e] == slice_dot(
                old(acc)@[e],
                tile_a@,
                tile_b@,
                piece_row(thread as int, e),
                piece_col(thread as int, e),
                16,
            ),
{
    let r0: usize = (thread / SIDE) * T;
    let c0: usize = (thread % SIDE) * T;
    let mut reg_a: [E; 8] = [E::zero(); 8];
    let mut reg_b: [E; 8] = [E::zero(); 8];
    let mut k: usize = 0;
    while k < SLICE
        invariant
            k <= SLICE,
            thread < THREADS,
            r0 == (thread / 16) * 8,
            c0 == (thread % 16) * 8,
            tile_a@.len() == SLICE_SIZE,
            tile_b@.len() == SLICE_SIZE,
            forall|e: int|
                0 <= e < PIECE ==> #[trigger] acc@[e] == slice_dot(
                    old(acc)@[e],
                    tile_a@,
                    tile_b@,
                    piece_row(thread as int, e),
                    piece_col(thread as int, e),
                    k as nat,
                ),
        decreases SLICE - k,
    {
        let mut l: usize = 0;
        while l < T
            invariant
                l <= T,
                k < SLICE,
                r0 <= 120,
                c0 <= 120,
                tile_a@.len() == SLICE_SIZE,
                tile_b@.len() == SLICE_SIZE,
                forall|j: int| 0 <= j < l ==> #[trigger] reg_a@[j] == tile_a@[(r0 + j) * 16 + k],
                forall|j: int| 0 <= j < l ==> #[trigger] reg_b@[j] == tile_b@[k * 128 + c0 + j],
            decreases T - l,
        {
            reg_a[l] = tile_a[(r0 + l) * A_STRIDE + k];
            reg_b[l] = tile_b[k * B_STRIDE + c0 + l];
            l += 1;
        }
        let ghost before = acc@;
        let mut i: usize = 0;
        while i < T
            invariant
                i <= T,
                before.len() == PIECE,
                forall|e: int|
                    0 <= e < PIECE ==> #[trigger] acc@[e] == if e / 8 < i {
                        before[e].sum(reg_a@[e / 8].product(reg_b@[e % 8]))
                    } else {
                        before[e]
                    },
            decreases T - i,
        {
            let mut j: usize = 0;
            while j < T
                invariant
                    i < T,
                    j <= T,
                    before.len() == PIECE,
                    forall|e: int|
                        0 <= e < PIECE ==> #[trigger] acc@[e] == if e < i * 8 + j {
                            before[e].sum(reg_a@[e / 8].product(reg_b@[e % 8]))
                        } else {
                            before[e]
                        },
                decreases T - j,
            {
                let e: usize = i * T + j;
                assert(e as int / 8 == i && e as int % 8 == j);
                acc[e] = acc[e].plus(reg_a[i].times(reg_b[j]));
                j += 1;
            }
            i += 1;
        }
        proof {
            assert forall|e: int| 0 <= e < PIECE implies #[trigger] acc@[e] == slice_dot(
                old(acc)@[e],
                tile_a@,
                tile_b@,
                piece_row(thread as int, e),
                piece_col(thread as int, e),
                (k + 1) as nat,
            ) by {
                assert(reg_a@[e / 8] == tile_a@[piece_row(thread as int, e) * 16 + k]);
                assert(reg_b@[e % 8] == tile_b@[k * 128 + piece_col(thread as int, e)]);
            }
        }
        k += 1;
    }
}

/// All threads fetch slice `t`.
fn fill_block<E: Copy>(
    tile_a: &mut Vec<E>,
    tile_b: &mut Vec<E>,
    a: &[E],
    b: &[E],
    shape: Shape,
    row: usize,
    col: usize,
    t: usize,
)
    requires
        shape.fits(a@, b@),
        tile_fits(shape, row as int, col as int),
        t < shape.k as int / 16,
        old(tile_a)@.len() == SLICE_SIZE,
        old(tile_b)@.len() == SLICE_SIZE,
    ensures
        final(tile_a)@ == slice_a(a@, shape, row as int, t as int),
        final(tile_b)@ == slice_b(b@, shape, col as int, t as int),
{
    let ghost sa = slice_a(a@, shape, row as int, t as int);
    let ghost sb = slice_b(b@, shape, col as int, t as int);
    let mut thread: usize = 0;
    while thread < THREADS
        invariant
            thread <= THREADS,
            shape.fits(a@, b@),
            tile_fits(shape, row as int, col as int),
            t < shape.k as int / 16,
            tile_a@.len() == SLICE_SIZE,
            tile_b@.len() == SLICE_SIZE,
            sa == slice_a(a@, shape, row as int, t as int),
            sb == slice_b(b@, shape, col as int, t as int),
            forall|i: int|
                0 <= i < SLICE_SIZE && a_filler(i) < thread ==> #[trigger] tile_a@[i] == sa[i],
            forall|i: int|
                0 <= i < SLICE_SIZE && b_filler(i) < thread ==> #[trigger] tile_b@[i] == sb[i],
        decreases THREADS - thread,
    {
        fill(tile_a, tile_b, a, b, shape, row, col, t, thread);
        thread += 1;
    }
    proof {
        assert forall|i: int| 0 <= i < SLICE_SIZE implies b_filler(i) < 256 by {}
        assert(tile_a@ =~= sa);
        assert(tile_b@ =~= sb);
    }
}

/// The pieces of all threads hold what the first `len` products make of the
/// tile at (`row`, `col`).
pub open spec fn pieces_hold<E: Scalar>(
    accs: Seq<[E; 64]>,
    a: Seq<E>,
    b: Seq<E>,
    shape: Shape,
    row: int,
    col: int,
    len: nat,
) -> bool {
    &&& accs.len() == THREADS
    &&& forall|thread: int, e: int|
        0 <= thread < THREADS && 0 <= e < PIECE ==> #[trigger] accs[thread]@[e] == dot(
            a,
            b,
            shape,
            row + piece_row(thread, e),
            col + piece_col(thread, e),
            len,
        )
}

/// The products of slice `t` carry a sum on from the slices before.
proof fn lemma_slice_extends_dot<E: Scalar>(
    a: Seq<E>,
    b: Seq<E>,
    shape: Shape,
    row: int,
    col: int,
    t: int,
    r: int,
    c: int,
    len: nat,
)
    requires
        0 <= r < TILE,
        0 <= c < TILE,
        0 <= t,
        len <= 16,
    ensures
        slice_dot(
            dot(a, b, shape, row + r, col + c, (t * 16) as nat),
            slice_a(a, shape, row, t),
            slice_b(b, shape, col, t),
            r,
            c,
            len,
        ) == dot(a, b, shape, row + r, col + c, (t * 16 + len) as nat),
    decreases len,
{
    if len > 0 {
        let i = len - 1;
        lemma_slice_extends_dot(a, b, shape, row, col, t, r, c, i as nat);
        let ia = r * 16 + i;
        let ib = i * 128 + c;
        assert(ia / 16 == r && ia % 16 == i);
        assert(ib / 128 == i && ib % 128 == c);
        assert(slice_a(a, shape, row, t)[ia] == a[(row + r) * shape.k + (t * 16 + i)]);
        assert(slice_b(b, shape, col, t)[ib] == b[(t * 16 + i) * shape.n + (col + c)]);
    }
}

/// All threads multiply a slice.
pub(crate) fn multiply_block<E: Scalar>(
    accs: &mut Vec<[E; 64]>,
    tile_a: &Vec<E>,
    tile_b: &Vec<E>,
    a: Ghost<Seq<E>>,
    b: Ghost<Seq<E>>,
    shape: Ghost<Shape>,
    row: Ghost<int>,
    col: Ghost<int>,
    t: Ghost<int>,
)
    requires
        0 <= t@,
        tile_a@ == slice_a(a@, shape@, row@, t@),
        tile_b@ == slice_b(b@, shape@, col@, t@),
        pieces_hold(old(accs)@, a@, b@, shape@, row@, col@, (t@ * 16) as nat),
    ensures
        pieces_hold(final(accs)@, a@, b@, shape@, row@, col@, (t@ * 16 + 16) as nat),
{
    let mut thread: usize = 0;
    while thread < THREADS
        invariant
            thread <= THREADS,
            accs@.len() == THREADS,
            0 <= t@,
            tile_a@ == slice_a(a@, shape@, row@, t@),
            tile_b@ == slice_b(b@, shape@, col@, t@),
            forall|u: int, e: int|
                0 <= u < THREADS && 0 <= e < PIECE ==> #[trigger] accs@[u]@[e] == dot(
                    a@,
                    b@,
                    shape@,
                    row@ + piece_row(u, e),
                    col@ + piece_col(u, e),
                    if u < thread {
                        (t@ * 16 + 16) as nat
                    } else {
                        (t@ * 16) as nat
                    },
                ),
        decreases THREADS - thread,
    {
        let mut acc: [E; 64] = accs[thread];
        let ghost before = acc@;
        multiply(&mut acc, tile_a, tile_b, thread);
        proof {
            assert forall|e: int| 0 <= e < PIECE implies #[trigger] acc@[e] == dot(
                a@,
                b@,
                shape@,
                row@ + piece_row(thread as int, e),
                col@ + piece_col(thread as int, e),
                (t@ * 16 + 16) as nat,
            ) by {
                assert(before[e] == accs@[thread as int]@[e]);
                lemma_slice_extends_dot(
                    a@,
                    b@,
                    shape@,
                    row@,
                    col@,
                    t@,
                    piece_row(thread as int, e),
                    piece_col(thread as int, e),
                    16,
                );
            }
        }
        accs.set(thread, acc);
        thread += 1;
    }
}

/// Whether entry `x` of C lies in the tile at (`row`, `col`).
pub open spec fn in_tile(x: int, n: int, row: int, col: int) -> bool {
    &&& row <= x / n < row + TILE
    &&& col <= x % n < col + TILE
}

/// C after the block of the tile at (`row`, `col`): the tile holds entries of
/// the product, all else is as before.
pub open spec fn with_tile<E: Scalar>(
    c: Seq<E>,
    a: Seq<E>,
    b: Seq<E>,
    shape: Shape,
    row: int,
    col: int,
) -> Seq<E> {
    Seq::new(
        c.len(),
        |x: int|
            if in_tile(x, shape.n as int, row, col) {
                entry_of(a, b, shape, x / shape.n as int, x % shape.n as int)
            } else {
                c[x]
            },
    )
}

/// Thread whose piece holds row `r`, column `c` of the tile.
pub open spec fn storer(r: int, c: int) -> int {
    (r / 8) * 16 + c / 8
}

/// Entry of the thread's piece that holds row `r`, column `c` of the tile.
pub open spec fn stored_entry(r: int, c: int) -> int {
    (r % 8) * 8 + c % 8
}

/// The pieces of the threads make up the tile: every entry is in one piece.
#[verifier::rlimit(30)]
pub proof fn law_pieces_make_up_the_tile(r: int, c: int, thread: int, e: int)
    requires
        0 <= r < TILE,
        0 <= c < TILE,
        0 <= thread < THREADS,
        0 <= e < PIECE,
    ensures
        piece_row(thread, e) == r && piece_col(thread, e) == c <==> thread == storer(r, c) && e
            == stored_entry(r, c),
        0 <= piece_row(thread, e) < TILE,
        0 <= piece_col(thread, e) < TILE,
{
}

/// Where in C entry `e` of a thread's piece goes.
pub fn store_at(shape: Shape, row: usize, col: usize, thread: usize, e: usize) -> (r: usize)
    requires
        shape.m * shape.n <= usize::MAX,
        tile_fits(shape, row as int, col as int),
        thread < THREADS,
        e < PIECE,
    ensures
        r < shape.m * shape.n,
        r as int / shape.n as int == row + piece_row(thread as int, e as int),
        r as int % shape.n as int == col + piece_col(thread as int, e as int),
{
    let n: usize = shape.n;
    let r0: usize = (thread / SIDE) * T;
    let c0: usize = (thread % SIDE) * T;
    let i: usize = e / T;
    let j: usize = e % T;
    proof {
        lemma_flat_bound(row + r0 + i, col + c0 + j, shape.m as int, n as int);
        lemma_flat_split(row + r0 + i, col + c0 + j, n as int);
    }
    (row + r0 + i) * n + (col + c0 + j)
}

/// One thread's part in writing the tile.
#[verifier::rlimit(30)]
fn store<E: Scalar>(
    c: &mut Vec<E>,
    acc: &[E; 64],
    shape: Shape,
    row: usize,
    col: usize,
    thread: usize,
)
    requires
        tile_fits(shape, row as int, col as int),
        thread < THREADS,
        old(c)@.len() == shape.m * shape.n,
    ensures
        final(c)@.len() == old(c)@.len(),
        forall|x: int|
            0 <= x < old(c)@.len() ==> #[trigger] final(c)@[x] == if in_tile(
                x,
                shape.n as int,
                row as int,
                col as int,
            ) && storer(x / shape.n as int - row, x % shape.n as int - col) == thread {
                acc@[stored_entry(x / shape.n as int - row, x % shape.n as int - col)]
            } else {
                old(c)@[x]
            },
{
    let c_len: usize = c.len();
    let ghost n = shape.n;
    let mut e: usize = 0;
    while e < PIECE
        invariant
            e <= PIECE,
            thread < THREADS,
            n == shape.n,
            tile_fits(shape, row as int, col as int),
            c_len == c@.len() == shape.m * shape.n,
            old(c)@.len() == c_len,
            forall|x: int|
                0 <= x < c_len ==> #[trigger] c@[x] == if in_tile(
                    x,
                    n as int,
                    row as int,
                    col as int,
                ) && storer(x / n as int - row, x % n as int - col) == thread && stored_entry(
                    x / n as int - row,
                    x % n as int - col,
                ) < e {
                    acc@[stored_entry(x / n as int - row, x % n as int - col)]
                } else {
                    old(c)@[x]
                },
        decreases PIECE - e,
    {
        let c_idx: usize = store_at(shape, row, col, thread, e);
        let ghost before = c@;
        c.set(c_idx, acc[e]);
        proof {
            assert forall|x: int| 0 <= x < c_len implies #[trigger] c@[x] == if in_tile(
                x,
                n as int,
                row as int,
                col as int,
            ) && storer(x / n as int - row, x % n as int - col) == thread && stored_entry(
                x / n as int - row,
                x % n as int - col,
            ) < e + 1 {
                acc@[stored_entry(x / n as int - row, x % n as int - col)]
            } else {
                old(c)@[x]
            } by {
                assert(before[x] == before[x]);
                let r = x / n as int - row;
                let q = x % n as int - col;
                if in_tile(x, n as int, row as int, col as int) {
                    law_pieces_make_up_the_tile(r, q, thread as int, e as int);
                    crate::math::lemma_join(x, n as int);
                    crate::math::lemma_join(c_idx as int, n as int);
                    if storer(r, q) == thread && stored_entry(r, q) == e {
                        assert(x / n as int == c_idx as int / n as int);
                        assert(x == c_idx);
                    }
                }
                if x == c_idx {
                    let (pr, pc) = (
                        piece_row(thread as int, e as int),
                        piece_col(thread as int, e as int),
                    );
                    assert(0 <= pr < TILE && 0 <= pc < TILE);
                    law_pieces_make_up_the_tile(pr, pc, thread as int, e as int);
                }
            }
        }
        e += 1;
    }
}

/// All threads write their pieces.
#[verifier::rlimit(30)]
pub(crate) fn store_block<E: Scalar>(
    c: &mut Vec<E>,
    accs: &Vec<[E; 64]>,
    shape: Shape,
    row: usize,
    col: usize,
    a: Ghost<Seq<E>>,
    b: Ghost<Seq<E>>,
)
    requires
        tile_fits(shape, row as int, col as int),
        pieces_hold(accs@, a@, b@, shape, row as int, col as int, shape.k as nat),
        old(c)@.len() == shape.m * shape.n,
    ensures
        final(c)@ == with_tile(old(c)@, a@, b@, shape, row as int, col as int),
{
    let ghost n = shape.n as int;
    let ghost done = with_tile(old(c)@, a@, b@, shape, row as int, col as int);
    let mut thread: usize = 0;
    while thread < THREADS
        invariant
            thread <= THREADS,
            n == shape.n,
            tile_fits(shape, row as int, col as int),
            pieces_hold(accs@, a@, b@, shape, row as int, col as int, shape.k as nat),
            c@.len() == old(c)@.len() == shape.m * shape.n,
            done == with_tile(old(c)@, a@, b@, shape, row as int, col as int),
            forall|x: int|
                0 <= x < c@.len() ==> #[trigger] c@[x] == if in_tile(x, n, row as int, col as int)
                    && storer(x / n - row, x % n - col) < thread {
                    done[x]
                } else {
                    old(c)@[x]
                },
        decreases THREADS - thread,
    {
        let ghost before = c@;
        store(c, &accs[thread], shape, row, col, thread);
        proof {
            assert forall|x: int| 0 <= x < c@.len() implies #[trigger] c@[x] == if in_tile(
                x,
                n,
                row as int,
                col as int,
            ) && storer(x / n - row, x % n - col) < thread + 1 {
                done[x]
            } else {
                old(c)@[x]
            } by {
                assert(before[x] == before[x]);
                let r = x / n - row;
                let q = x % n - col;
                if in_tile(x, n, row as int, col as int) && storer(r, q) == thread {
                    law_pieces_make_up_the_tile(r, q, thread as int, stored_entry(r, q));
                    assert(c@[x] == accs@[thread as int]@[stored_entry(r, q)]);
                    assert(row + piece_row(thread as int, stored_entry(r, q)) == x / n);
                    assert(col + piece_col(thread as int, stored_entry(r, q)) == x % n);
                }
            }
        }
        thread += 1;
    }
    proof {
        assert forall|x: int| 0 <= x < c@.len() implies #[trigger] c@[x] == done[x] by {
            if in_tile(x, n, row as int, col as int) {
                assert(storer(x / n - row, x % n - col) < THREADS);
            }
        }
        assert(c@ =~= done);
    }
}

/// The pieces of all threads before the first slice.
pub(crate) fn empty_pieces<E: Scalar>(
    a: Ghost<Seq<E>>,
    b: Ghost<Seq<E>>,
    shape: Ghost<Shape>,
    row: Ghost<int>,
    col: Ghost<int>,
) -> (r: Vec<[E; 64]>)
    ensures
        pieces_hold(r@, a@, b@, shape@, row@, col@, 0),
{
    let mut accs: Vec<[E; 64]> = Vec::new();
    while accs.len() < THREADS
        invariant
            accs@.len() <= THREADS,
            forall|u: int, e: int|
                0 <= u < accs@.len() && 0 <= e < PIECE ==> #[trigger] accs@[u]@[e] == E::nothing(),
        decreases THREADS - accs@.len(),
    {
        let acc: [E; 64] = [E::zero(); 64];
        accs.push(acc);
    }
    accs
}

/// A slice of shared memory, not filled yet.
pub(crate) fn empty_slice<E: Scalar>() -> (r: Vec<E>)
    ensures
        r@.len() == SLICE_SIZE,
{
    let mut tile: Vec<E> = Vec::new();
    while tile.len() < SLICE_SIZE
        invariant
            tile@.len() <= SLICE_SIZE,
        decreases SLICE_SIZE - tile@.len(),
    {
        tile.push(E::zero());
    }
    tile
}

/// Block (`block_x`, `block_y`) of the product with register tiles: all
/// threads fetch a slice, meet, multiply it, meet, and at the end write their
/// pieces.
pub fn gemm_register<E: Scalar>(
    a: &[E],
    b: &[E],
    c: &mut Vec<E>,
    shape: Shape,
    block_x: usize,
    block_y: usize,
)
    requires
        shape.fits(a@, b@),
        old(c)@.len() == shape.m * shape.n,
        tile_fits(shape, block_y * TILE, block_x * TILE),
    ensures
        final(c)@ == with_tile(old(c)@, a@, b@, shape, block_y * TILE, block_x * TILE),
{
    let row: usize = block_y * TILE;
    let col: usize = block_x * TILE;
    let mut tile_a: Vec<E> = empty_slice();
    let mut tile_b: Vec<E> = empty_slice();
    let mut accs: Vec<[E; 64]> = empty_pieces(
        Ghost(a@),
        Ghost(b@),
        Ghost(shape),
        Ghost(row as int),
        Ghost(col as int),
    );
    let mut t: usize = 0;
    while t < shape.k / SLICE
        invariant
            t <= shape.k / SLICE,
            shape.fits(a@, b@),
            tile_fits(shape, row as int, col as int),
            tile_a@.len() == SLICE_SIZE,
            tile_b@.len() == SLICE_SIZE,
            pieces_hold(accs@, a@, b@, shape, row as int, col as int, (t * 16) as nat),
        decreases shape.k / SLICE - t,
    {
        fill_block(&mut tile_a, &mut tile_b, a, b, shape, row, col, t);
        multiply_block(
            &mut accs,
            &tile_a,
            &tile_b,
            Ghost(a@),
            Ghost(b@),
            Ghost(shape),
            Ghost(row as int),
            Ghost(col as int),
            Ghost(t as int),
        );
        t += 1;
    }
    store_block(c, &accs, shape, row, col, Ghost(a@), Ghost(b@));
}

/// The blocks of a full grid share out C: entry `x` lies in the tile of exactly
/// one block.
pub proof fn law_blocks_share_out_c(shape: Shape, x: int, block_x: int, block_y: int)
    requires
        shape.n > 0,
        0 <= x < shape.m * shape.n,
    ensures
        in_tile(x, shape.n as int, block_y * TILE, block_x * TILE) <==> block_y == x
            / shape.n as int / TILE as int && block_x == x % shape.n as int / TILE as int,
{
}

/// Once the blocks of a full grid have run, in whatever order, every entry of C
/// is the entry of the product that the plain kernel puts there: a block makes
/// its own entries right and leaves those of others as they were.
pub proof fn law_blocks_do_not_disturb_each_other<E: Scalar>(
    c: Seq<E>,
    a: Seq<E>,
    b: Seq<E>,
    shape: Shape,
    row: int,
    col: int,
    x: int,
)
    requires
        0 <= x < c.len(),
        shape.n > 0,
    ensures
        ({
            let right = entry_of(a, b, shape, x / shape.n as int, x % shape.n as int);
            &&& in_tile(x, shape.n as int, row, col) ==> with_tile(c, a, b, shape, row, col)[x]
                == right
            &&& c[x] == right ==> with_tile(c, a, b, shape, row, col)[x] == right
        }),
{
}

/// What a block leaves in C: the entries of its 128 rows and 128 columns are the
/// sums of all products of their rows of A and columns of B, and every other
/// entry is what it was.
pub proof fn law_block_writes_its_tile_alone<E: Scalar>(
    c: Seq<E>,
    a: Seq<E>,
    b: Seq<E>,
    shape: Shape,
    row: int,
    col: int,
    x: int,
    v: Seq<E>,
)
    requires
        0 <= x < c.len(),
        shape.n > 0,
        v.len() == shape.k,
        forall|i: int|
            0 <= i < shape.k ==> #[trigger] v[i] == a[x / shape.n as int * shape.k + i].product(
                b[i * shape.n + x % shape.n as int],
            ),
    ensures
        ({
            let r = with_tile(c, a, b, shape, row, col);
            let (i, j) = (x / shape.n as int, x % shape.n as int);
            &&& r.len() == c.len()
            &&& row <= i < row + 128 && col <= j < col + 128 ==> r[x] == v.fold_left(
                E::nothing(),
                |y: E, z: E| y.sum(z),
            )
            &&& !(row <= i < row + 128 && col <= j < col + 128) ==> r[x] == c[x]
        }),
{
    law_entry_is_the_sum_of_all_products(
        a,
        b,
        shape,
        x / shape.n as int,
        x % shape.n as int,
        v,
    );
}

/// Thread (`tx`, `ty`) keeps the square piece of eight rows and eight columns that
/// starts at row `8 * ty`, column `8 * tx` of the tile, entry (`i`, `j`) of it at
/// `8 * i + j`, and fetches for each slice the entries of A at column `tx` of the
/// rows `ty`, `ty + 16` and so on and those of B in row `ty` at the columns `tx`,
/// `tx + 16` and so on.
pub proof fn law_thread_has_its_piece_and_its_cells(tx: int, ty: int, i: int, j: int, f: int)
    requires
        0 <= tx < 16,
        0 <= ty < 16,
        0 <= i < 8,
        0 <= j < 8,
        0 <= f < 8,
    ensures
        ({
            let thread = 16 * ty + tx;
            &&& piece_row(thread, 8 * i + j) == 8 * ty + i
            &&& piece_col(thread, 8 * i + j) == 8 * tx + j
            &&& a_cell(thread, f) == (ty + 16 * f) * 16 + tx
            &&& b_cell(thread, f) == ty * 128 + (tx + 16 * f)
        }),
{
    let thread = 16 * ty + tx;
    assert(thread / 16 == ty && thread % 16 == tx);
    let e = 8 * i + j;
    assert(e / 8 == i && e % 8 == j);
}

} // verus!
