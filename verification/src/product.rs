//! The matrix product that the kernels without tensor cores compute, and its
//! plainest kernel.
//!
//! All matrices are row-major: `a[row * k + i]`, `b[i * n + col]`,
//! `c[row * n + col]`.
use vstd::prelude::*;
use crate::math::{lemma_join, lemma_split};
use crate::matrix::lemma_flat_bound;
use crate::scalar::Scalar;
use crate::sums::{lemma_summed_empty, lemma_summed_push, summed};

verus! {

/// Sizes of a product: A is `m`×`k`, B is `k`×`n`, C is `m`×`n`.
#[derive(Clone, Copy, PartialEq, Eq, Structural, Debug)]
pub struct Shape {
    pub m: usize,
    pub n: usize,
    pub k: usize,
}

impl Shape {
    /// The matrices have the sizes of the shape.
    pub open spec fn fits<T>(self, a: Seq<T>, b: Seq<T>) -> bool {
        a.len() == self.m * self.k && b.len() == self.k * self.n
    }
}

/// Sum of the first `len` products of row `row` of A and column `col` of B,
/// added up from zero in order.
pub open spec fn dot<T: Scalar>(
    a: Seq<T>,
    b: Seq<T>,
    shape: Shape,
    row: int,
    col: int,
    len: nat,
) -> T
    decreases len,
{
    if len == 0 {
        T::nothing()
    } else {
        let i = len - 1;
        dot(a, b, shape, row, col, i as nat).sum(
            a[row * shape.k + i].product(b[i * shape.n + col]),
        )
    }
}

/// Entry (`row`, `col`) of the product.
pub open spec fn entry_of<T: Scalar>(
    a: Seq<T>,
    b: Seq<T>,
    shape: Shape,
    row: int,
    col: int,
) -> T {
    dot(a, b, shape, row, col, shape.k as nat)
}

/// Whether a C of `len` entries, `n` to a row, has an entry at (`row`, `col`).
pub open spec fn has_entry(len: int, n: int, row: int, col: int) -> bool {
    col < n && row * n + col < len
}

/// Index of the entry of C at (`row`, `col`), where C has one.
pub fn entry_index(len: usize, n: usize, row: usize, col: usize) -> (r: Option<usize>)
    ensures
        r is Some <==> has_entry(len as int, n as int, row as int, col as int),
        r matches Some(i) ==> i == row * n + col,
{
    if col >= n {
        return None;
    }
    let rows: usize = len / n;
    let rest: usize = len % n;
    proof {
        lemma_join(len as int, n as int);
        assert(row < rows ==> row * n + n <= rows * n) by (nonlinear_arith);
        assert(row > rows ==> row * n >= rows * n + n) by (nonlinear_arith);
    }
    if row < rows || (row == rows && col < rest) {
        Some(row * n + col)
    } else {
        None
    }
}

/// One thread per entry of C: add up the products of a row and a column.
///
/// Threads below the last row or outside of C leave it alone.
pub fn gemm_naive<T: Scalar>(
    a: &[T],
    b: &[T],
    c: &mut Vec<T>,
    shape: Shape,
    row: usize,
    col: usize,
)
    requires
        shape.fits(a@, b@),
    ensures
        row < shape.m && has_entry(
            old(c)@.len() as int,
            shape.n as int,
            row as int,
            col as int,
        ) ==> final(c)@ == old(c)@.update(
            row * shape.n + col,
            entry_of(a@, b@, shape, row as int, col as int),
        ),
        !(row < shape.m && has_entry(
            old(c)@.len() as int,
            shape.n as int,
            row as int,
            col as int,
        )) ==> final(c)@ == old(c)@,
{
    match entry_index(c.len(), shape.n, row, col) {
        Some(index) => {
            if row < shape.m {
                let a_len: usize = a.len();
                let b_len: usize = b.len();
                let mut sum: T = T::zero();
                let mut i: usize = 0;
                while i < shape.k
                    invariant
                        i <= shape.k,
                        row < shape.m,
                        col < shape.n,
                        shape.fits(a@, b@),
                        a_len == a@.len(),
                        b_len == b@.len(),
                        sum == dot(a@, b@, shape, row as int, col as int, i as nat),
                    decreases shape.k - i,
                {
                    proof {
                        lemma_flat_bound(row as int, i as int, shape.m as int, shape.k as int);
                        lemma_flat_bound(i as int, col as int, shape.k as int, shape.n as int);
                    }
                    sum = sum.plus(a[row * shape.k + i].times(b[i * shape.n + col]));
                    i += 1;
                }
                c.set(index, sum);
            }
        },
        None => {},
    }
}

proof fn lemma_dot_is_a_sum<T: Scalar>(
    a: Seq<T>,
    b: Seq<T>,
    shape: Shape,
    row: int,
    col: int,
    v: Seq<T>,
)
    requires
        forall|i: int|
            0 <= i < v.len() ==> #[trigger] v[i] == a[row * shape.k + i].product(
                b[i * shape.n + col],
            ),
    ensures
        dot(a, b, shape, row, col, v.len()) == summed(T::nothing(), v),
    decreases v.len(),
{
    if v.len() == 0 {
        lemma_summed_empty(T::nothing(), v);
    } else {
        let u = v.drop_last();
        assert(v =~= u.push(v.last()));
        assert forall|i: int| 0 <= i < u.len() implies #[trigger] u[i] == a[row * shape.k
            + i].product(b[i * shape.n + col]) by {
            assert(u[i] == v[i]);
        }
        lemma_dot_is_a_sum(a, b, shape, row, col, u);
        lemma_summed_push(T::nothing(), u, v.last());
    }
}

/// Every entry of the product is the sum of all products of its row of A and its
/// column of B, added up one after the other from zero, whatever the sizes: given
/// the sequence of these products, the entry is its sum.
pub proof fn law_entry_is_the_sum_of_all_products<T: Scalar>(
    a: Seq<T>,
    b: Seq<T>,
    shape: Shape,
    row: int,
    col: int,
    v: Seq<T>,
)
    requires
        v.len() == shape.k,
        forall|i: int|
            0 <= i < shape.k ==> #[trigger] v[i] == a[row * shape.k + i].product(
                b[i * shape.n + col],
            ),
    ensures
        entry_of(a, b, shape, row, col) == v.fold_left(T::nothing(), |x: T, y: T| x.sum(y)),
{
    lemma_dot_is_a_sum(a, b, shape, row, col, v);
}

/// Sum of the first `n` products of whole numbers from row `row` of A and column
/// `col` of B.
pub open spec fn whole_dot(
    a: spec_fn(int, int) -> int,
    b: spec_fn(int, int) -> int,
    row: int,
    col: int,
    n: int,
) -> int
    decreases n,
{
    if n <= 0 {
        0
    } else {
        whole_dot(a, b, row, col, n - 1) + a(row, n - 1) * b(n - 1, col)
    }
}

/// Numbers whose values are added and multiplied exactly.
#[verifier::opaque]
pub open spec fn computes_exactly<T: Scalar>(value: spec_fn(T) -> int) -> bool {
    &&& value(T::nothing()) == 0
    &&& forall|x: T, y: T| value(#[trigger] x.sum(y)) == value(x) + value(y)
    &&& forall|x: T, y: T| value(#[trigger] x.product(y)) == value(x) * value(y)
}

proof fn lemma_exact_dot<T: Scalar>(
    value: spec_fn(T) -> int,
    a: Seq<T>,
    b: Seq<T>,
    shape: Shape,
    row: int,
    col: int,
    n: nat,
)
    requires
        computes_exactly(value),
    ensures
        value(dot(a, b, shape, row, col, n)) == whole_dot(
            |r: int, i: int| value(a[r * shape.k + i]),
            |i: int, c: int| value(b[i * shape.n + c]),
            row,
            col,
            n as int,
        ),
    decreases n,
{
    reveal(computes_exactly);
    if n > 0 {
        lemma_exact_dot(value, a, b, shape, row, col, (n - 1) as nat);
    }
}

/// Where sums and products are exact, entry (`row`, `col`) of the product is the
/// sum over the whole contraction of the entries of row `row` of A times those of
/// column `col` of B.
pub proof fn law_exact_entry_is_row_by_column<T: Scalar>(
    value: spec_fn(T) -> int,
    a: Seq<T>,
    b: Seq<T>,
    shape: Shape,
    row: int,
    col: int,
)
    requires
        computes_exactly(value),
    ensures
        value(entry_of(a, b, shape, row, col)) == whole_dot(
            |r: int, i: int| value(a[r * shape.k + i]),
            |i: int, c: int| value(b[i * shape.n + c]),
            row,
            col,
            shape.k as int,
        ),
{
    lemma_exact_dot(value, a, b, shape, row, col, shape.k as nat);
}

/// Sum of the first `n` products of entries of 32 bits, as whole numbers.
pub open spec fn word_dot(
    a: Seq<u32>,
    b: Seq<u32>,
    shape: Shape,
    row: int,
    col: int,
    n: int,
) -> int
    decreases n,
{
    if n <= 0 {
        0
    } else {
        word_dot(a, b, shape, row, col, n - 1) + a[row * shape.k + n - 1] * b[(n - 1) * shape.n
            + col]
    }
}

proof fn lemma_words_compute_modulo(x: u32, y: u32, s: int)
    requires
        x == s % 0x1_0000_0000,
    ensures
        x.wrapping_add(y) == (s + y) % 0x1_0000_0000,
        x.wrapping_mul(y) == (x * y) % 0x1_0000_0000,
{
    let w = s / 0x1_0000_0000;
    lemma_join(s, 0x1_0000_0000);
    let t = (x + y) / 0x1_0000_0000;
    let r = (x + y) % 0x1_0000_0000;
    lemma_join(x + y, 0x1_0000_0000);
    assert(s + y == 0x1_0000_0000 * (w + t) + r);
    lemma_split(s + y, 0x1_0000_0000, w + t, r);
}

proof fn lemma_word_dot(a: Seq<u32>, b: Seq<u32>, shape: Shape, row: int, col: int, n: nat)
    ensures
        dot(a, b, shape, row, col, n) == word_dot(a, b, shape, row, col, n as int) % 0x1_0000_0000,
    decreases n,
{
    if n > 0 {
        let i = n - 1;
        lemma_word_dot(a, b, shape, row, col, i as nat);
        let s = word_dot(a, b, shape, row, col, i);
        let (x, y) = (a[row * shape.k + i], b[i * shape.n + col]);
        let p = x.wrapping_mul(y);
        lemma_words_compute_modulo(x, y, x as int);
        lemma_words_compute_modulo(dot(a, b, shape, row, col, i as nat), p, s);
        let xy = x * y;
        lemma_join(xy, 0x1_0000_0000);
        let w = (s + p) / 0x1_0000_0000;
        lemma_join(s + p, 0x1_0000_0000);
        let q = xy / 0x1_0000_0000;
        assert(s + xy == 0x1_0000_0000 * (w + q) + (s + p) % 0x1_0000_0000);
        lemma_split(s + xy, 0x1_0000_0000, w + q, (s + p) % 0x1_0000_0000);
    }
}

/// Of whole numbers modulo 2^32, entry (`row`, `col`) of the product is the sum
/// over the whole contraction, modulo 2^32.
pub proof fn law_entry_of_words_is_the_sum_modulo(
    a: Seq<u32>,
    b: Seq<u32>,
    shape: Shape,
    row: int,
    col: int,
)
    ensures
        entry_of(a, b, shape, row, col) == word_dot(a, b, shape, row, col, shape.k as int)
            % 0x1_0000_0000,
{
    lemma_word_dot(a, b, shape, row, col, shape.k as nat);
}

/// C has an entry at every row and column of it: those whose index, row by row,
/// is below its length; for a C of `m` rows of `n` these are all of them.
pub proof fn law_entries_of_c_are_counted_row_by_row(len: int, n: int, m: int, row: int, col: int)
    requires
        0 <= row,
        0 <= col,
        0 <= m,
    ensures
        has_entry(len, n, row, col) <==> col < n && row * n + col < len,
        len == m * n && row < m && col < n ==> has_entry(len, n, row, col),
        len == m * n && has_entry(len, n, row, col) ==> row < m && col < n,
{
    assert(len == m * n && row < m && col < n ==> row * n + col < m * n) by (nonlinear_arith)
        requires
            0 <= row,
            0 <= col,
    ;
    assert(col < n && row >= m ==> row * n + col >= m * n) by (nonlinear_arith)
        requires
            0 <= col,
            0 <= m,
    ;
}

} // verus!
