//! What the words of C mean where the arithmetic is exact: entries of the matrix
//! product.
//!
//! A is given by row and place along the contraction, the transposed B as well.
use vstd::prelude::*;
use crate::dims::{BM, BN, K, M, MMA_K, N, TILE_WIDTH, WIDTH};
use crate::memory::{all_pieces, c_words, finished, products, Piece};

verus! {

/// Sum of the first `n` products of row `i` of A and row `j` of the transposed
/// B.
pub open spec fn dot(
    a: spec_fn(int, int) -> int,
    b_t: spec_fn(int, int) -> int,
    i: int,
    j: int,
    n: int,
) -> int
    decreases n,
{
    if n <= 0 {
        0
    } else {
        dot(a, b_t, i, j, n - 1) + a(i, n - 1) * b_t(j, n - 1)
    }
}

/// What a piece adds to row `r`, column `c` of its accumulator: the first `n`
/// products of its row of A and its row of the transposed B.
pub open spec fn piece_sum(
    a: spec_fn(int, int) -> int,
    b_t: spec_fn(int, int) -> int,
    piece: Piece,
    r: int,
    c: int,
    n: int,
) -> int
    decreases n,
{
    if n <= 0 {
        0
    } else {
        piece_sum(a, b_t, piece, r, c, n - 1) + a(
            piece.a_row + r,
            piece.a_k * MMA_K + (n - 1),
        ) * b_t(piece.b_row + c, piece.b_k * MMA_K + (n - 1))
    }
}

/// Row `r`, column `c` of an accumulator that holds these products.
pub open spec fn entry_sum(
    a: spec_fn(int, int) -> int,
    b_t: spec_fn(int, int) -> int,
    pieces: Seq<Piece>,
    r: int,
    c: int,
) -> int
    decreases pieces.len(),
{
    if pieces.len() == 0 {
        0
    } else {
        entry_sum(a, b_t, pieces.drop_last(), r, c) + piece_sum(
            a,
            b_t,
            pieces.last(),
            r,
            c,
            MMA_K as int,
        )
    }
}

proof fn lemma_piece_extends_dot(
    a: spec_fn(int, int) -> int,
    b_t: spec_fn(int, int) -> int,
    piece: Piece,
    r: int,
    c: int,
    n: int,
)
    requires
        0 <= n,
        0 <= piece.a_k,
        piece.a_k == piece.b_k,
    ensures
        dot(a, b_t, piece.a_row + r, piece.b_row + c, piece.a_k * MMA_K + n) == dot(
            a,
            b_t,
            piece.a_row + r,
            piece.b_row + c,
            piece.a_k * MMA_K,
        ) + piece_sum(a, b_t, piece, r, c, n),
    decreases n,
{
    if n > 0 {
        lemma_piece_extends_dot(a, b_t, piece, r, c, n - 1);
    }
}

/// The first `n` products of a tile make up the first `16 * n` terms of each of
/// its entries.
proof fn lemma_products_make_up_dot(
    a: spec_fn(int, int) -> int,
    b_t: spec_fn(int, int) -> int,
    tile_m: int,
    tile_n: int,
    n: int,
    r: int,
    c: int,
)
    requires
        0 <= n,
    ensures
        entry_sum(a, b_t, products(tile_m, tile_n, n), r, c) == dot(
            a,
            b_t,
            tile_m * BM + r,
            tile_n * BN + c,
            n * MMA_K,
        ),
    decreases n,
{
    let all = products(tile_m, tile_n, n);
    if n > 0 {
        lemma_products_make_up_dot(a, b_t, tile_m, tile_n, n - 1, r, c);
        assert(all.drop_last() =~= products(tile_m, tile_n, n - 1));
        lemma_piece_extends_dot(a, b_t, all.last(), r, c, MMA_K as int);
    }
}

/// Where the arithmetic is exact, the two halves of a finished word of C are
/// entries of A · B: half `h` of word `p`, which stands at `2 * p + h` in
/// row-major C, is the sum over the whole contraction of the products of its row
/// of A and its row of the transposed B.
pub proof fn law_finished_word_holds_entries_of_the_product(
    a: spec_fn(int, int) -> int,
    b_t: spec_fn(int, int) -> int,
    p: int,
    h: int,
)
    requires
        0 <= p < c_words(),
        h == 0 || h == 1,
    ensures
        ({
            let (i, j) = (p / WIDTH as int, 2 * (p % WIDTH as int) + h);
            let word = finished(p);
            &&& 0 <= i < M && 0 <= j < N
            &&& i * N + j == 2 * p + h
            &&& entry_sum(a, b_t, word.pieces, word.row, 2 * word.col + h) == dot(
                a,
                b_t,
                i,
                j,
                K as int,
            )
        }),
{
    let (i, q) = (p / WIDTH as int, p % WIDTH as int);
    assert(p == i * 4096 + q && 0 <= q < 4096 && 0 <= i < 8192);
    let (tile_m, row) = (i / BM as int, i % BM as int);
    assert(i == tile_m * 128 + row);
    let (tile_n, col) = (q / TILE_WIDTH as int, q % TILE_WIDTH as int);
    assert(q == tile_n * 64 + col);
    lemma_products_make_up_dot(a, b_t, tile_m, tile_n, all_pieces(), row, 2 * col + h);
    assert(tile_n * BN + (2 * col + h) == 2 * q + h);
}

/// Sum of the first `n` products of row `i` of A and column `j` of B.
pub open spec fn row_by_column(
    a: spec_fn(int, int) -> int,
    b: spec_fn(int, int) -> int,
    i: int,
    j: int,
    n: int,
) -> int
    decreases n,
{
    if n <= 0 {
        0
    } else {
        row_by_column(a, b, i, j, n - 1) + a(i, n - 1) * b(n - 1, j)
    }
}

/// With the transpose of B in its place, the sum over row `i` of A and row `j` of
/// the transpose is that over row `i` of A and column `j` of B.
pub proof fn law_dot_with_the_transpose(
    a: spec_fn(int, int) -> int,
    b: spec_fn(int, int) -> int,
    i: int,
    j: int,
    n: int,
)
    ensures
        dot(a, |row: int, k: int| b(k, row), i, j, n) == row_by_column(a, b, i, j, n),
    decreases n,
{
    if n > 0 {
        law_dot_with_the_transpose(a, b, i, j, n - 1);
    }
}

} // verus!
