//! Sum of two vectors, one number per thread.
use vstd::prelude::*;
use crate::scalar::Scalar;

verus! {

/// Thread `i` of the sum: threads beyond the end of C do nothing.
pub fn vecadd<T: Scalar>(a: &[T], b: &[T], c: &mut Vec<T>, i: usize)
    requires
        i < old(c)@.len() ==> i < a@.len() && i < b@.len(),
    ensures
        i < old(c)@.len() ==> final(c)@ == old(c)@.update(i as int, a@[i as int].sum(b@[i as int])),
        i >= old(c)@.len() ==> final(c)@ == old(c)@,
{
    if i < c.len() {
        c.set(i, a[i].plus(b[i]));
    }
}

/// What the first `threads` threads make of C.
pub open spec fn added<T: Scalar>(a: Seq<T>, b: Seq<T>, c: Seq<T>, threads: int) -> Seq<T> {
    Seq::new(
        c.len(),
        |i: int|
            if i < threads {
                a[i].sum(b[i])
            } else {
                c[i]
            },
    )
}

/// A grid with at least as many threads as C has numbers gives the sum of the
/// two vectors, number by number: each thread adds its own number and no other.
pub proof fn law_threads_add_all_numbers<T: Scalar>(
    a: Seq<T>,
    b: Seq<T>,
    c: Seq<T>,
    threads: int,
    i: int,
)
    requires
        0 <= threads,
        0 <= i < c.len(),
    ensures
        threads < c.len() ==> added(a, b, c, threads).update(threads, a[threads].sum(b[threads]))
            == added(a, b, c, threads + 1),
        threads >= c.len() ==> added(a, b, c, threads)[i] == a[i].sum(b[i]),
{
    if threads < c.len() {
        assert(added(a, b, c, threads).update(threads, a[threads].sum(b[threads])) =~= added(
            a,
            b,
            c,
            threads + 1,
        ));
    }
}

} // verus!
