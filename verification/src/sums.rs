//! Orders in which numbers are added up, and when they agree.
use vstd::prelude::*;
use vstd::seq_lib::{commutative_foldl, lemma_fold_left_permutation};
use crate::scalar::{lemma_regroup, lemma_swap, lemma_zero, sums_freely, Scalar};

verus! {

/// The numbers added to `init` one after the other.
pub open spec fn summed<T: Scalar>(init: T, v: Seq<T>) -> T {
    v.fold_left(init, |x: T, y: T| x.sum(y))
}

/// The upper half of the numbers added to the lower half.
pub open spec fn halved<T: Scalar>(v: Seq<T>) -> Seq<T> {
    Seq::new(v.len() / 2, |i: int| v[i].sum(v[i + v.len() as int / 2]))
}

/// The numbers added up by halving.
pub open spec fn tree<T: Scalar>(v: Seq<T>) -> T
    decreases v.len(),
{
    if v.len() <= 1 {
        v[0]
    } else {
        tree(halved(v))
    }
}

/// A number that can be halved down to one.
pub open spec fn halves_evenly(n: nat) -> bool
    decreases n,
{
    n == 1 || (n > 1 && n % 2 == 0 && halves_evenly(n / 2))
}

/// One number more.
pub(crate) proof fn lemma_summed_push<T: Scalar>(init: T, v: Seq<T>, x: T)
    ensures
        summed(init, v.push(x)) == summed(init, v).sum(x),
{
    let f = |x: T, y: T| x.sum(y);
    assert(v.push(x).drop_last() =~= v);
    reveal_with_fuel(Seq::fold_left, 2);
}

/// No number.
pub(crate) proof fn lemma_summed_empty<T: Scalar>(init: T, v: Seq<T>)
    requires
        v.len() == 0,
    ensures
        summed(init, v) == init,
{
    reveal_with_fuel(Seq::fold_left, 1);
}

/// The start can be added at the end.
proof fn lemma_summed_init<T: Scalar>(init: T, v: Seq<T>)
    requires
        sums_freely::<T>(),
    ensures
        summed(init, v) == init.sum(summed(T::nothing(), v)),
    decreases v.len(),
{
    if v.len() == 0 {
        lemma_summed_empty(init, v);
        lemma_summed_empty(T::nothing(), v);
        lemma_zero(init);
    } else {
        let u = v.drop_last();
        assert(v =~= u.push(v.last()));
        lemma_summed_init(init, u);
        lemma_summed_push(init, u, v.last());
        lemma_summed_push(T::nothing(), u, v.last());
        lemma_regroup(init, summed(T::nothing(), u), v.last());
    }
}

/// Two runs of numbers, one after the other.
proof fn lemma_summed_join<T: Scalar>(init: T, u: Seq<T>, v: Seq<T>)
    ensures
        summed(init, u + v) == summed(summed(init, u), v),
    decreases v.len(),
{
    if v.len() == 0 {
        assert(u + v =~= u);
        lemma_summed_empty(summed(init, u), v);
    } else {
        let w = v.drop_last();
        assert(v =~= w.push(v.last()));
        assert(u + v =~= (u + w).push(v.last()));
        lemma_summed_join(init, u, w);
        lemma_summed_push(init, u + w, v.last());
        lemma_summed_push(summed(init, u), w, v.last());
    }
}

/// Two runs of the same length, added pair by pair.
proof fn lemma_summed_pairs<T: Scalar>(u: Seq<T>, v: Seq<T>, w: Seq<T>)
    requires
        sums_freely::<T>(),
        u.len() == v.len() == w.len(),
        forall|i: int| 0 <= i < u.len() ==> #[trigger] w[i] == u[i].sum(v[i]),
    ensures
        summed(T::nothing(), w) == summed(T::nothing(), u).sum(summed(T::nothing(), v)),
    decreases u.len(),
{
    if u.len() == 0 {
        lemma_summed_empty(T::nothing(), u);
        lemma_summed_empty(T::nothing(), v);
        lemma_summed_empty(T::nothing(), w);
        lemma_zero(T::nothing());
    } else {
        let (x, y) = (u.last(), v.last());
        let (p, q) = (summed(T::nothing(), u.drop_last()), summed(T::nothing(), v.drop_last()));
        lemma_summed_pairs(u.drop_last(), v.drop_last(), w.drop_last());
        assert(u =~= u.drop_last().push(x));
        assert(v =~= v.drop_last().push(y));
        assert(w =~= w.drop_last().push(x.sum(y)));
        lemma_summed_push(T::nothing(), u.drop_last(), x);
        lemma_summed_push(T::nothing(), v.drop_last(), y);
        lemma_summed_push(T::nothing(), w.drop_last(), x.sum(y));
        lemma_regroup(p, q, x.sum(y));
        lemma_regroup(q, x, y);
        lemma_swap(q, x);
        lemma_regroup(x, q, y);
        lemma_regroup(p, x, q.sum(y));
    }
}

/// Where sums can be taken freely, halving gives the sum of the numbers.
pub proof fn law_tree_is_the_sum<T: Scalar>(v: Seq<T>)
    requires
        sums_freely::<T>(),
        halves_evenly(v.len()),
    ensures
        tree(v) == summed(T::nothing(), v),
    decreases v.len(),
{
    if v.len() == 1 {
        lemma_summed_empty(T::nothing(), v.drop_last());
        assert(v =~= v.drop_last().push(v[0]));
        lemma_summed_push(T::nothing(), v.drop_last(), v[0]);
        lemma_zero(v[0]);
    } else {
        let h = v.len() as int / 2;
        let lo = v.subrange(0, h);
        let hi = v.subrange(h, v.len() as int);
        law_tree_is_the_sum(halved(v));
        lemma_summed_pairs(lo, hi, halved(v));
        assert(v =~= lo + hi);
        lemma_summed_join(T::nothing(), lo, hi);
        lemma_summed_init(summed(T::nothing(), lo), hi);
    }
}

/// Where sums can be taken freely, the order of the numbers does not matter.
pub proof fn law_order_does_not_matter<T: Scalar>(init: T, u: Seq<T>, v: Seq<T>)
    requires
        sums_freely::<T>(),
        u.to_multiset() == v.to_multiset(),
    ensures
        summed(init, u) == summed(init, v),
{
    let f = |x: T, y: T| x.sum(y);
    assert(commutative_foldl(f)) by {
        assert forall|x: T, y: T, z: T| #[trigger] f(f(z, x), y) == f(f(z, y), x) by {
            lemma_regroup(z, x, y);
            lemma_regroup(z, y, x);
            lemma_swap(x, y);
        }
    }
    lemma_fold_left_permutation(u, v, f, init);
}

/// Where zero adds nothing, zeros behind the numbers do not change their sum.
pub proof fn law_zeros_add_nothing<T: Scalar>(init: T, v: Seq<T>, zeros: Seq<T>)
    requires
        forall|x: T| #[trigger] x.sum(T::nothing()) == x,
        forall|i: int| 0 <= i < zeros.len() ==> #[trigger] zeros[i] == T::nothing(),
    ensures
        summed(init, v + zeros) == summed(init, v),
    decreases zeros.len(),
{
    if zeros.len() == 0 {
        assert(v + zeros =~= v);
    } else {
        law_zeros_add_nothing(init, v, zeros.drop_last());
        assert(v + zeros =~= (v + zeros.drop_last()).push(T::nothing()));
        lemma_summed_push(init, v + zeros.drop_last(), T::nothing());
    }
}

/// Where sums can be taken freely, the sum of a run that is cut in two is the
/// sum of the sums of its parts.
pub proof fn law_sum_of_parts<T: Scalar>(u: Seq<T>, v: Seq<T>)
    requires
        sums_freely::<T>(),
    ensures
        summed(T::nothing(), u + v) == summed(T::nothing(), u).sum(summed(T::nothing(), v)),
{
    lemma_summed_join(T::nothing(), u, v);
    lemma_summed_init(summed(T::nothing(), u), v);
}

/// What is left of `init` when blocks have added their parts to it in one go
/// each, in this order.
pub open spec fn added_in_order<T: Scalar>(
    init: T,
    order: Seq<int>,
    part: spec_fn(int) -> T,
) -> T {
    order.fold_left(init, |x: T, b: int| x.sum(part(b)))
}

/// The blocks in the order of their numbers.
pub open spec fn in_order(n: nat) -> Seq<int> {
    Seq::new(n, |i: int| i)
}

/// One block more: what is there plus its part.
pub proof fn law_next_block_adds_its_part<T: Scalar>(
    init: T,
    order: Seq<int>,
    part: spec_fn(int) -> T,
    b: int,
)
    ensures
        added_in_order(init, order.push(b), part) == added_in_order(init, order, part).sum(part(b)),
        added_in_order(init, Seq::<int>::empty(), part) == init,
{
    assert(order.push(b).drop_last() =~= order);
    reveal_with_fuel(Seq::fold_left, 2);
}

proof fn lemma_in_order<T: Scalar>(init: T, part: spec_fn(int) -> T, n: nat)
    ensures
        added_in_order(init, in_order(n), part) == summed(init, Seq::new(n, part)),
    decreases n,
{
    if n == 0 {
        assert(in_order(0) =~= Seq::<int>::empty());
        law_next_block_adds_its_part(init, Seq::<int>::empty(), part, 0);
        lemma_summed_empty(init, Seq::new(n, part));
    } else {
        let m = (n - 1) as nat;
        lemma_in_order(init, part, m);
        assert(in_order(n) =~= in_order(m).push(m as int));
        assert(Seq::new(n, part) =~= Seq::new(m, part).push(part(m as int)));
        law_next_block_adds_its_part(init, in_order(m), part, m as int);
        lemma_summed_push(init, Seq::new(m, part), part(m as int));
    }
}

/// Where sums can be taken freely, a launch adds the sum of the parts of its
/// blocks, in whatever order the blocks come.
pub proof fn law_launch_adds_the_parts<T: Scalar>(
    init: T,
    order: Seq<int>,
    part: spec_fn(int) -> T,
    n: nat,
)
    requires
        sums_freely::<T>(),
        order.to_multiset() == in_order(n).to_multiset(),
    ensures
        added_in_order(init, order, part) == init.sum(
            summed(T::nothing(), Seq::new(n, part)),
        ),
{
    let f = |x: T, b: int| x.sum(part(b));
    assert(commutative_foldl(f)) by {
        assert forall|x: int, y: int, z: T| #[trigger] f(f(z, x), y) == f(f(z, y), x) by {
            lemma_regroup(z, part(x), part(y));
            lemma_regroup(z, part(y), part(x));
            lemma_swap(part(x), part(y));
        }
    }
    lemma_fold_left_permutation(order, in_order(n), f, init);
    lemma_in_order(init, part, n);
    lemma_summed_init(init, Seq::new(n, part));
}

/// Where zero and zero are zero, halving zeros gives zero.
pub(crate) proof fn lemma_tree_of_zeros<T: Scalar>(v: Seq<T>)
    requires
        v.len() >= 1,
        T::nothing().sum(T::nothing()) == T::nothing(),
        forall|i: int| 0 <= i < v.len() ==> #[trigger] v[i] == T::nothing(),
    ensures
        tree(v) == T::nothing(),
    decreases v.len(),
{
    if v.len() > 1 {
        assert forall|i: int| 0 <= i < halved(v).len() implies #[trigger] halved(v)[i]
            == T::nothing() by {
            assert(v[i] == T::nothing() && v[i + v.len() as int / 2] == T::nothing());
        }
        lemma_tree_of_zeros(halved(v));
    }
}

/// Adding zero to a number that counts as the same as `r` gives one that does
/// too. Of singles this holds for `==` and every `r` that is a number: zero
/// adds nothing but takes the sign from a zero.
pub open spec fn zero_keeps_the_same<T: Scalar>(r: T, same: spec_fn(T, T) -> bool) -> bool {
    forall|x: T| same(r, x) ==> #[trigger] same(r, x.sum(T::nothing()))
}

/// Halving a number and zeros gives a number that counts as the same.
pub(crate) proof fn lemma_tree_of_one<T: Scalar>(v: Seq<T>, r: T, same: spec_fn(T, T) -> bool)
    requires
        v.len() >= 1,
        T::nothing().sum(T::nothing()) == T::nothing(),
        zero_keeps_the_same(r, same),
        same(r, v[0]),
        forall|i: int| 1 <= i < v.len() ==> #[trigger] v[i] == T::nothing(),
    ensures
        same(r, tree(v)),
    decreases v.len(),
{
    if v.len() > 1 {
        let h = v.len() as int / 2;
        assert(v[h] == T::nothing());
        assert(same(r, v[0].sum(T::nothing())));
        assert forall|i: int| 1 <= i < halved(v).len() implies #[trigger] halved(v)[i]
            == T::nothing() by {
            assert(v[i] == T::nothing() && v[i + h] == T::nothing());
        }
        lemma_tree_of_one(halved(v), r, same);
    }
}

/// Size of a whole number.
pub open spec fn size_of(x: int) -> int {
    if x < 0 {
        -x
    } else {
        x
    }
}

/// Whole numbers, with these values, are added exactly as long as their sizes
/// come to no more than `bound`. Singles add whole numbers exactly up to 2^24.
#[verifier::opaque]
pub open spec fn adds_exactly<T: Scalar>(
    whole: spec_fn(T) -> bool,
    value: spec_fn(T) -> int,
    bound: int,
) -> bool {
    &&& whole(T::nothing()) && value(T::nothing()) == 0
    &&& forall|x: T, y: T|
        whole(x) && whole(y) && size_of(value(x)) + size_of(value(y)) <= bound ==> whole(
            #[trigger] x.sum(y),
        ) && value(x.sum(y)) == value(x) + value(y)
}

pub(crate) proof fn lemma_adds_exactly<T: Scalar>(
    whole: spec_fn(T) -> bool,
    value: spec_fn(T) -> int,
    bound: int,
    x: T,
    y: T,
)
    requires
        adds_exactly(whole, value, bound),
    ensures
        whole(T::nothing()) && value(T::nothing()) == 0,
        whole(x) && whole(y) && size_of(value(x)) + size_of(value(y)) <= bound ==> whole(x.sum(y))
            && value(x.sum(y)) == value(x) + value(y),
{
    reveal(adds_exactly);
}

/// Sum of the values of numbers.
pub open spec fn total<T>(value: spec_fn(T) -> int, v: Seq<T>) -> int
    decreases v.len(),
{
    if v.len() == 0 {
        0
    } else {
        total(value, v.drop_last()) + value(v.last())
    }
}

/// Sum of the sizes of numbers.
pub open spec fn extent<T>(value: spec_fn(T) -> int, v: Seq<T>) -> int
    decreases v.len(),
{
    if v.len() == 0 {
        0
    } else {
        extent(value, v.drop_last()) + size_of(value(v.last()))
    }
}

/// All numbers are whole.
pub open spec fn all_whole<T>(whole: spec_fn(T) -> bool, v: Seq<T>) -> bool {
    forall|i: int| 0 <= i < v.len() ==> whole(#[trigger] v[i])
}

pub(crate) proof fn lemma_total_join<T>(value: spec_fn(T) -> int, u: Seq<T>, v: Seq<T>)
    ensures
        total(value, u + v) == total(value, u) + total(value, v),
        extent(value, u + v) == extent(value, u) + extent(value, v),
        0 <= extent(value, u),
        0 <= extent(value, v),
        size_of(total(value, v)) <= extent(value, v),
    decreases u.len() + v.len(),
{
    if v.len() == 0 {
        assert(u + v =~= u);
        if u.len() > 0 {
            lemma_total_join(value, u.drop_last(), v);
        }
    } else {
        assert((u + v).drop_last() =~= u + v.drop_last());
        assert((u + v).last() == v.last());
        lemma_total_join(value, u, v.drop_last());
    }
}

/// Numbers added pair by pair.
proof fn lemma_total_pairs<T: Scalar>(
    whole: spec_fn(T) -> bool,
    value: spec_fn(T) -> int,
    bound: int,
    u: Seq<T>,
    v: Seq<T>,
    w: Seq<T>,
)
    requires
        adds_exactly(whole, value, bound),
        u.len() == v.len() == w.len(),
        all_whole(whole, u),
        all_whole(whole, v),
        extent(value, u) + extent(value, v) <= bound,
        forall|i: int| 0 <= i < u.len() ==> #[trigger] w[i] == u[i].sum(v[i]),
    ensures
        all_whole(whole, w),
        total(value, w) == total(value, u) + total(value, v),
        extent(value, w) <= extent(value, u) + extent(value, v),
    decreases u.len(),
{
    if u.len() > 0 {
        let n = u.len() - 1;
        let none = Seq::<T>::empty();
        lemma_total_join(value, none, u.drop_last());
        lemma_total_join(value, none, v.drop_last());
        assert forall|i: int| 0 <= i < n implies whole(#[trigger] u.drop_last()[i]) by {
            assert(whole(u[i]));
        }
        assert forall|i: int| 0 <= i < n implies whole(#[trigger] v.drop_last()[i]) by {
            assert(whole(v[i]));
        }
        lemma_total_pairs(whole, value, bound, u.drop_last(), v.drop_last(), w.drop_last());
        assert(whole(u[n]) && whole(v[n]));
        lemma_adds_exactly(whole, value, bound, u[n], v[n]);
        assert(w[n] == u[n].sum(v[n]));
        assert forall|i: int| 0 <= i < w.len() implies whole(#[trigger] w[i]) by {
            if i < n {
                assert(whole(w.drop_last()[i]));
            }
        }
    }
}

/// Whole numbers whose sizes come to no more than the bound are added up exactly
/// by halving.
pub proof fn law_tree_of_whole_numbers_is_exact<T: Scalar>(
    whole: spec_fn(T) -> bool,
    value: spec_fn(T) -> int,
    bound: int,
    v: Seq<T>,
)
    requires
        adds_exactly(whole, value, bound),
        halves_evenly(v.len()),
        all_whole(whole, v),
        extent(value, v) <= bound,
    ensures
        whole(tree(v)),
        value(tree(v)) == total(value, v),
    decreases v.len(),
{
    if v.len() == 1 {
        assert(whole(v[0]));
        assert(total(value, v.drop_last()) == 0);
    } else {
        let h = v.len() as int / 2;
        let lo = v.subrange(0, h);
        let hi = v.subrange(h, v.len() as int);
        assert(v =~= lo + hi);
        lemma_total_join(value, lo, hi);
        assert forall|i: int| 0 <= i < h implies whole(#[trigger] lo[i]) by {
            assert(whole(v[i]));
        }
        assert forall|i: int| 0 <= i < h implies whole(#[trigger] hi[i]) by {
            assert(whole(v[i + h]));
        }
        lemma_total_pairs(whole, value, bound, lo, hi, halved(v));
        law_tree_of_whole_numbers_is_exact(whole, value, bound, halved(v));
    }
}

/// Adding numbers one after the other: no number leaves the start as it is, and
/// one number more is added to what the others gave.
pub proof fn law_sum_takes_one_number_after_the_other<T: Scalar>(init: T, v: Seq<T>, x: T)
    ensures
        summed(init, Seq::<T>::empty()) == init,
        summed(init, v.push(x)) == summed(init, v).sum(x),
{
    lemma_summed_empty(init, Seq::<T>::empty());
    lemma_summed_push(init, v, x);
}

/// Adding numbers by halving: one number is its own sum, and twice as many give
/// what the sums of each number with the one half the length up give.
pub proof fn law_tree_adds_halves<T: Scalar>(v: Seq<T>, w: Seq<T>)
    ensures
        v.len() == 1 ==> tree(v) == v[0],
        w.len() >= 1 && v.len() == 2 * w.len() && (forall|i: int|
            0 <= i < w.len() ==> #[trigger] w[i] == v[i].sum(v[i + w.len()])) ==> tree(v) == tree(
            w,
        ),
{
    if w.len() >= 1 && v.len() == 2 * w.len() && (forall|i: int|
        0 <= i < w.len() ==> #[trigger] w[i] == v[i].sum(v[i + w.len()])) {
        assert(halved(v) =~= w);
    }
}

} // verus!
