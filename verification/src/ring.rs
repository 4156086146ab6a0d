//! Rings of shared-memory slots handed back and forth through parity barriers.
//!
//! A ring of `stages` slots carries an endless sequence of steps. Step `i`
//! works in slot `i % stages`, and the barrier of that slot is waited on with
//! parity `(i / stages) % 2`: the parity flips each time the ring wraps.
use vstd::prelude::*;
use crate::math::{lemma_join, lemma_split};

verus! {

/// Slot in which step `step` of a ring of `stages` slots works.
pub open spec fn slot_of(step: nat, stages: nat) -> nat {
    step % stages
}

/// Parity with which step `step` waits on the barrier of its slot.
pub open spec fn parity_of(step: nat, stages: nat) -> nat {
    (step / stages) % 2
}

/// The slot of a step.
pub fn slot(step: u32, stages: u32) -> (r: u32)
    requires
        stages > 0,
    ensures
        r == slot_of(step as nat, stages as nat),
        r < stages,
{
    step % stages
}

/// The parity that a step waits for.
pub fn parity(step: u32, stages: u32) -> (r: u32)
    requires
        stages > 0,
    ensures
        r == parity_of(step as nat, stages as nat),
        r < 2,
{
    let wraps: u32 = step / stages;
    assert(wraps & 1 == wraps % 2) by (bit_vector);
    wraps & 1
}

/// What a parity wait answers on a barrier that has completed `completed`
/// phases: the phase of the given parity is the one that completed last.
pub open spec fn wait_passes(completed: nat, parity: nat) -> bool {
    completed % 2 != parity
}

/// Number of steps below `steps` that work in slot `slot`.
pub open spec fn visits(steps: nat, slot: nat, stages: nat) -> nat
    decreases steps,
{
    if steps == 0 {
        0
    } else {
        let before = visits((steps - 1) as nat, slot, stages);
        if slot_of((steps - 1) as nat, stages) == slot {
            before + 1
        } else {
            before
        }
    }
}

proof fn lemma_visits(steps: nat, slot: nat, stages: nat)
    requires
        slot < stages,
    ensures
        visits(steps, slot, stages) == steps / stages + (if steps % stages > slot {
            1nat
        } else {
            0nat
        }),
    decreases steps,
{
    let s = stages as int;
    if steps == 0 {
        lemma_split(0, s, 0, 0);
    } else {
        let p = (steps - 1) as nat;
        lemma_visits(p, slot, stages);
        lemma_join(p as int, s);
        let q = p as int / s;
        let r = p as int % s;
        if r + 1 < s {
            lemma_split(steps as int, s, q, r + 1);
        } else {
            assert(s * (q + 1) == s * q + s) by (nonlinear_arith);
            lemma_split(steps as int, s, q + 1, 0);
        }
    }
}

/// Phases that the "slot is free" barrier of `slot` has completed once the
/// consumer has released `released` steps: one arrival is given in advance, so
/// the first round finds every slot free.
pub open spec fn free_phases(released: nat, slot: nat, stages: nat) -> nat {
    1 + visits(released, slot, stages)
}

/// Phases that the "slot is full" barrier of `slot` has completed once the
/// producer has filled `filled` steps.
pub open spec fn full_phases(filled: nat, slot: nat, stages: nat) -> nat {
    visits(filled, slot, stages)
}

/// Invariant of a ring: the producer is at most `stages` steps ahead of the
/// consumer and never behind it.
pub open spec fn ring_inv(filled: nat, released: nat, stages: nat) -> bool {
    released <= filled <= released + stages
}

/// A producer about to fill step `filled` passes its parity wait exactly when
/// the consumer has released the step that used the slot one round earlier.
pub proof fn law_producer_wait_is_exact(filled: nat, released: nat, stages: nat)
    requires
        stages > 0,
        ring_inv(filled, released, stages),
    ensures
        wait_passes(
            free_phases(released, slot_of(filled, stages), stages),
            parity_of(filled, stages),
        ) <==> filled < released + stages,
{
    let s = stages as int;
    let slot = slot_of(filled, stages);
    lemma_visits(released, slot, stages);
    lemma_join(filled as int, s);
    let q = filled as int / s;
    let r = filled as int % s;
    if filled == released + stages {
        assert(s * (q - 1) == s * q - s) by (nonlinear_arith);
        lemma_split(released as int, s, q - 1, r);
        assert(visits(released, slot, stages) == q - 1);
    } else {
        let d = filled - released;
        if d <= r {
            lemma_split(released as int, s, q, r - d);
        } else {
            assert(s * (q - 1) == s * q - s) by (nonlinear_arith);
            lemma_split(released as int, s, q - 1, r - d + s);
        }
        assert(visits(released, slot, stages) == q);
    }
}

/// A consumer about to use step `released` passes its parity wait exactly when
/// the producer has filled that step.
pub proof fn law_consumer_wait_is_exact(filled: nat, released: nat, stages: nat)
    requires
        stages > 0,
        ring_inv(filled, released, stages),
    ensures
        wait_passes(
            full_phases(filled, slot_of(released, stages), stages),
            parity_of(released, stages),
        ) <==> released < filled,
{
    let s = stages as int;
    let slot = slot_of(released, stages);
    lemma_visits(filled, slot, stages);
    lemma_join(released as int, s);
    let q = released as int / s;
    let r = released as int % s;
    let d = filled - released;
    if r + d < s {
        lemma_split(filled as int, s, q, r + d);
    } else {
        assert(s * (q + 1) == s * q + s) by (nonlinear_arith);
        lemma_split(filled as int, s, q + 1, r + d - s);
    }
}

/// Both waits keep the ring invariant: a fill that was let through leaves the
/// producer at most `stages` ahead, a release that was let through leaves the
/// consumer behind it.
pub proof fn law_ring_inv_is_kept(filled: nat, released: nat, stages: nat)
    requires
        stages > 0,
        ring_inv(filled, released, stages),
    ensures
        wait_passes(
            free_phases(released, slot_of(filled, stages), stages),
            parity_of(filled, stages),
        ) ==> ring_inv(filled + 1, released, stages),
        wait_passes(
            full_phases(filled, slot_of(released, stages), stages),
            parity_of(released, stages),
        ) ==> ring_inv(filled, released + 1, stages),
{
    law_producer_wait_is_exact(filled, released, stages);
    law_consumer_wait_is_exact(filled, released, stages);
}

/// The ring never deadlocks: in every state the producer or the consumer
/// passes its wait.
pub proof fn law_ring_makes_progress(filled: nat, released: nat, stages: nat)
    requires
        stages > 0,
        ring_inv(filled, released, stages),
    ensures
        wait_passes(
            free_phases(released, slot_of(filled, stages), stages),
            parity_of(filled, stages),
        ) || wait_passes(
            full_phases(filled, slot_of(released, stages), stages),
            parity_of(released, stages),
        ),
{
    law_producer_wait_is_exact(filled, released, stages);
    law_consumer_wait_is_exact(filled, released, stages);
}

/// The slot that the consumer reads at step `released` still holds what the
/// producer put there for that very step: no other fill so far that used the
/// same slot came after it.
pub proof fn law_slot_holds_its_step(filled: nat, released: nat, other: nat, stages: nat)
    requires
        stages > 0,
        ring_inv(filled, released, stages),
        other < filled,
        slot_of(other, stages) == slot_of(released, stages),
    ensures
        other <= released,
{
    let s = stages as int;
    lemma_join(released as int, s);
    lemma_join(other as int, s);
    if other > released {
        let q = released as int / s;
        let p = other as int / s;
        assert(s * p - s * q == s * (p - q)) by (nonlinear_arith);
        assert(s * (p - q) < s ==> p - q < 1) by (nonlinear_arith)
            requires
                s > 0,
        ;
        assert(s * (p - q) > 0 ==> p - q > 0) by (nonlinear_arith)
            requires
                s > 0,
        ;
    }
}

/// Less than a round apart, two steps work in different slots.
pub proof fn law_slots_within_a_round_differ(later: nat, earlier: nat, stages: nat)
    requires
        earlier < later < earlier + stages,
    ensures
        slot_of(later, stages) != slot_of(earlier, stages),
{
    if slot_of(later, stages) == slot_of(earlier, stages) {
        law_slot_holds_its_step(later + 1, earlier, later, stages);
    }
}

} // verus!
