//! Row-major matrices held in flat slices.
use vstd::prelude::*;
use crate::math::{lemma_join, lemma_split};

verus! {

/// Flat index of an entry of a row-major matrix that is `width` entries wide.
pub open spec fn flat(row: int, col: int, width: int) -> int {
    row * width + col
}

/// The entry of a row-major matrix `width` entries wide.
pub open spec fn entry<T>(v: Seq<T>, width: int, row: int, col: int) -> T {
    v[flat(row, col, width)]
}

/// A flat index lies inside the matrix.
pub(crate) proof fn lemma_flat_bound(row: int, col: int, rows: int, width: int)
    requires
        0 <= row < rows,
        0 <= col < width,
    ensures
        0 <= flat(row, col, width) < rows * width,
        flat(row, col, width) + (width - col) <= rows * width,
        row * width >= 0,
{
    assert(row * width + width <= rows * width) by (nonlinear_arith)
        requires
            0 <= row < rows,
            0 <= width,
    ;
    assert(row * width >= 0) by (nonlinear_arith)
        requires
            0 <= row,
            0 <= width,
    ;
}

/// Row and column come back out of a flat index.
pub(crate) proof fn lemma_flat_split(row: int, col: int, width: int)
    requires
        0 <= col < width,
    ensures
        flat(row, col, width) / width == row,
        flat(row, col, width) % width == col,
{
    assert(row * width == width * row) by (nonlinear_arith);
    lemma_split(flat(row, col, width), width, row, col);
}

/// Every flat index is that of one row and one column.
pub(crate) proof fn lemma_flat_join(i: int, rows: int, width: int)
    requires
        0 <= i < rows * width,
        0 < width,
    ensures
        0 <= i / width < rows,
        0 <= i % width < width,
        flat(i / width, i % width, width) == i,
{
    lemma_join(i, width);
    let q = i / width;
    assert(q < rows) by (nonlinear_arith)
        requires
            q * width <= i,
            i < rows * width,
            0 < width,
    ;
    assert(0 <= q) by (nonlinear_arith)
        requires
            0 <= i,
            0 < width,
            i < q * width + width,
    ;
}

/// The transpose of a row-major `rows`×`cols` matrix: entry (`col`, `row`) of
/// the result, which is `rows` wide, is entry (`row`, `col`) of `v`.
pub open spec fn transposed<T>(v: Seq<T>, rows: nat, cols: nat) -> Seq<T> {
    Seq::new(rows * cols, |i: int| entry(v, cols as int, i % rows as int, i / rows as int))
}

/// Transpose a row-major `rows`×`cols` matrix.
pub fn transpose<T: Copy>(v: &[T], rows: usize, cols: usize) -> (r: Vec<T>)
    requires
        rows * cols <= v@.len(),
    ensures
        r@ == transposed(v@, rows as nat, cols as nat),
{
    let len: usize = v.len();
    let mut out: Vec<T> = Vec::new();
    let mut col: usize = 0;
    proof {
        assert(cols * rows == rows * cols) by (nonlinear_arith);
    }
    while col < cols
        invariant
            col <= cols,
            rows * cols <= len == v@.len(),
            out@.len() == col * rows,
            forall|i: int|
                0 <= i < out@.len() ==> #[trigger] out@[i] == transposed(
                    v@,
                    rows as nat,
                    cols as nat,
                )[i],
            cols * rows == rows * cols,
        decreases cols - col,
    {
        let mut row: usize = 0;
        while row < rows
            invariant
                row <= rows,
                col < cols,
                rows * cols <= len == v@.len(),
                out@.len() == flat(col as int, row as int, rows as int),
                forall|i: int|
                    0 <= i < out@.len() ==> #[trigger] out@[i] == transposed(
                        v@,
                        rows as nat,
                        cols as nat,
                    )[i],
                cols * rows == rows * cols,
            decreases rows - row,
        {
            proof {
                lemma_flat_bound(row as int, col as int, rows as int, cols as int);
                lemma_flat_bound(col as int, row as int, cols as int, rows as int);
                lemma_flat_split(col as int, row as int, rows as int);
            }
            out.push(v[row * cols + col]);
            row += 1;
        }
        proof {
            assert(col * rows + rows == (col + 1) * rows) by (nonlinear_arith);
        }
        col += 1;
    }
    assert(out@ =~= transposed(v@, rows as nat, cols as nat));
    out
}

/// Entry (`col`, `row`) of the transpose is entry (`row`, `col`) of the matrix.
pub proof fn law_transpose_swaps_entries<T>(v: Seq<T>, rows: nat, cols: nat, row: int, col: int)
    requires
        0 <= row < rows,
        0 <= col < cols,
    ensures
        entry(transposed(v, rows, cols), rows as int, col, row) == entry(v, cols as int, row, col),
{
    lemma_flat_bound(col, row, cols as int, rows as int);
    lemma_flat_split(col, row, rows as int);
    assert(cols * rows == rows * cols) by (nonlinear_arith);
}

/// Transposing twice gives the matrix back.
pub proof fn law_transpose_is_an_involution<T>(v: Seq<T>, rows: nat, cols: nat)
    requires
        v.len() == rows * cols,
    ensures
        transposed(transposed(v, rows, cols), cols, rows) == v,
{
    let t = transposed(v, rows, cols);
    let u = transposed(t, cols, rows);
    assert(cols * rows == rows * cols) by (nonlinear_arith);
    assert forall|i: int| 0 <= i < v.len() implies u[i] == v[i] by {
        assert(cols > 0) by (nonlinear_arith)
            requires
                i < rows * cols,
                0 <= i,
        ;
        lemma_flat_join(i, rows as int, cols as int);
        law_transpose_swaps_entries(v, rows, cols, i / cols as int, i % cols as int);
    }
    assert(u =~= v);
}

/// The transpose looks at the entries of the matrix and at nothing behind them.
pub proof fn law_transpose_ignores_a_tail<T>(v: Seq<T>, w: Seq<T>, rows: nat, cols: nat)
    requires
        rows * cols <= v.len(),
        rows * cols <= w.len(),
        v.take((rows * cols) as int) == w.take((rows * cols) as int),
    ensures
        transposed(v, rows, cols) == transposed(w, rows, cols),
{
    let n = (rows * cols) as int;
    assert(cols * rows == rows * cols) by (nonlinear_arith);
    assert forall|i: int| 0 <= i < n implies transposed(v, rows, cols)[i] == transposed(
        w,
        rows,
        cols,
    )[i] by {
        let j = lemma_transposed_from(v, rows, cols, i);
        lemma_transposed_from(w, rows, cols, i);
        assert(v.take(n)[j] == w.take(n)[j]);
    }
    assert(transposed(v, rows, cols) =~= transposed(w, rows, cols));
}

/// Where entry `i` of the transpose comes from.
pub open spec fn from_index(rows: nat, cols: nat, i: int) -> int {
    flat(i % rows as int, i / rows as int, cols as int)
}

proof fn lemma_transposed_from<T>(v: Seq<T>, rows: nat, cols: nat, i: int) -> (j: int)
    requires
        0 <= i < rows * cols,
    ensures
        j == from_index(rows, cols, i),
        0 <= j < rows * cols,
        transposed(v, rows, cols)[i] == v[j],
        i == flat(j % cols as int, j / cols as int, rows as int),
{
    assert(cols * rows == rows * cols) by (nonlinear_arith);
    assert(rows > 0 && cols > 0) by (nonlinear_arith)
        requires
            0 <= i < rows * cols,
    ;
    lemma_flat_join(i, cols as int, rows as int);
    lemma_flat_bound(i % rows as int, i / rows as int, rows as int, cols as int);
    lemma_flat_split(i % rows as int, i / rows as int, cols as int);
    from_index(rows, cols, i)
}

/// Entries taken from different places make up the same collection.
proof fn lemma_rearranged<T>(t: Seq<T>, v: Seq<T>, from: spec_fn(int) -> int)
    requires
        t.len() == v.len(),
        forall|i: int|
            0 <= i < t.len() ==> 0 <= #[trigger] from(i) < v.len() && t[i] == v[from(i)],
        forall|i: int, j: int|
            0 <= i < j < t.len() ==> #[trigger] from(i) != #[trigger] from(j),
    ensures
        t.to_multiset() == v.to_multiset(),
    decreases t.len(),
{
    if t.len() == 0 {
        assert(t =~= v);
    } else {
        let n = t.len() - 1;
        let hole = from(n);
        let u = v.remove(hole);
        let s = t.drop_last();
        let next = |i: int|
            if from(i) < hole {
                from(i)
            } else {
                from(i) - 1
            };
        assert forall|i: int| 0 <= i < s.len() implies 0 <= #[trigger] next(i) < u.len() && s[i]
            == u[next(i)] by {
            assert(from(i) != from(n));
        }
        assert forall|i: int, j: int| 0 <= i < j < s.len() implies #[trigger] next(i)
            != #[trigger] next(j) by {
            assert(from(i) != from(j) && from(i) != from(n) && from(j) != from(n));
        }
        lemma_rearranged(s, u, next);
        v.to_multiset_ensures();
        s.to_multiset_ensures();
        assert(t =~= s.push(t[n]));
        assert(v.contains(v[hole]));
        assert(v.to_multiset().count(v[hole]) > 0);
        assert(v.to_multiset().remove(v[hole]).insert(v[hole]) =~= v.to_multiset());
    }
}

/// The transpose holds the same entries as the matrix, each as often.
pub proof fn law_transpose_keeps_the_entries<T>(v: Seq<T>, rows: nat, cols: nat)
    requires
        rows * cols <= v.len(),
    ensures
        transposed(v, rows, cols).to_multiset() == v.take((rows * cols) as int).to_multiset(),
{
    let n = (rows * cols) as int;
    let t = transposed(v, rows, cols);
    let w = v.take(n);
    let from = |i: int| from_index(rows, cols, i);
    assert forall|i: int| 0 <= i < t.len() implies 0 <= #[trigger] from(i) < w.len() && t[i]
        == w[from(i)] by {
        lemma_transposed_from(v, rows, cols, i);
    }
    assert forall|i: int, j: int| 0 <= i < j < t.len() implies #[trigger] from(i)
        != #[trigger] from(j) by {
        lemma_transposed_from(v, rows, cols, i);
        lemma_transposed_from(v, rows, cols, j);
    }
    lemma_rearranged(t, w, from);
}

/// Entry at `col * rows + row` of the transpose is the entry at `row * cols + col`
/// of the matrix, for every row and column, and there are no others.
pub proof fn law_transpose_moves_every_entry<T>(v: Seq<T>, rows: nat, cols: nat, row: int, col: int)
    requires
        0 <= row < rows,
        0 <= col < cols,
    ensures
        transposed(v, rows, cols).len() == rows * cols,
        transposed(v, rows, cols)[col * rows + row] == v[row * cols + col],
{
    law_transpose_swaps_entries(v, rows, cols, row, col);
}

} // verus!
