//! Three ways to find the shared-memory resources of a pipeline stage.
//!
//! The work-stealing kernel comes in three builds that differ only in how the
//! resources of a stage are selected: `gemm_arith` keeps them in arrays and
//! adds the stage to a base address, `gemm_match` declares them one by one and
//! selects the addresses, `gemm_branch` declares them one by one and goes down
//! a separate branch for each stage.
use vstd::prelude::*;
use crate::device::{uses, Action, Bar, Operand, Reply};
use crate::dims::{A_TILE_BYTES, B_TILE_BYTES, MMAS_PER_STEP, MMA_K_BYTES};
use crate::gemm::{gemm, run, Idiom, Thread};
use crate::persistent::{NUM_ACCUM_STAGES, STAGES};

verus! {

/// Bytes of a barrier.
pub const BARRIER_BYTES: u64 = 8;

/// Addresses at which the arrays of a block start.
#[derive(Clone, Copy, PartialEq, Eq, Structural, Debug)]
pub struct ArrayBases {
    pub smem_a: u64,
    pub smem_b: u64,
    pub tma_bars: u64,
    pub mma_bars: u64,
    pub accum_full: u64,
    pub accum_empty: u64,
    pub tile_ready: u64,
    pub clc: u64,
}

/// Addresses of the separately declared resources of a block.
#[derive(Clone, Copy, Debug)]
pub struct StaticAddrs {
    pub smem_a: [u64; 4],
    pub smem_b: [u64; 4],
    pub tma_bars: [u64; 4],
    pub mma_bars: [u64; 4],
    pub accum_full: [u64; 2],
    pub accum_empty: [u64; 2],
    pub tile_ready: u64,
    pub clc: u64,
}

/// An action with the addresses that it works on: of the A and the B operand
/// in shared memory and of the barrier, as far as it has them.
#[derive(Clone, Copy, PartialEq, Eq, Structural, Debug)]
pub struct Placed {
    pub action: Action,
    pub smem_a: Option<u64>,
    pub smem_b: Option<u64>,
    pub bar: Option<u64>,
}

/// Slot and byte offset of the A operand that an action works on.
pub open spec fn a_operand(action: Action) -> Option<(u32, u64)> {
    match action {
        Action::CopyTile { operand: Operand::A, slot, x: _, y: _, bar: _ } => Some((slot, 0)),
        Action::Mma { slot, k_offset, tmem_offset: _, accumulate: _ } => Some((slot, k_offset)),
        _ => None,
    }
}

/// Slot and byte offset of the B operand that an action works on.
pub open spec fn b_operand(action: Action) -> Option<(u32, u64)> {
    match action {
        Action::CopyTile { operand: Operand::B, slot, x: _, y: _, bar: _ } => Some((slot, 0)),
        Action::Mma { slot, k_offset, tmem_offset: _, accumulate: _ } => Some((slot, k_offset)),
        _ => None,
    }
}

/// The barrier that an action works on.
pub open spec fn barrier_of(action: Action) -> Option<Bar> {
    match action {
        Action::InitBarrier { bar, count: _, together: _ } => Some(bar),
        Action::Arrive { bar } => Some(bar),
        Action::ArriveExpect { bar, bytes: _ } => Some(bar),
        Action::WaitParity { bar, parity: _ } => Some(bar),
        Action::WaitArrival { bar } => Some(bar),
        Action::CopyTile { operand: _, slot: _, x: _, y: _, bar } => Some(bar),
        Action::Commit { bar } => Some(bar),
        Action::InvalBarrier { bar } => Some(bar),
        Action::PublishTile { tile_m: _, tile_n: _ } => Some(Bar::TileReady),
        Action::PublishDone => Some(Bar::TileReady),
        Action::StealWork { parity: _, bytes: _ } => Some(Bar::Clc),
        _ => None,
    }
}

/// Slots, offsets and accumulators of an action are those that a block has.
pub open spec fn in_range(action: Action) -> bool {
    &&& a_operand(action) matches Some(p) ==> p.0 < STAGES && p.1 < MMAS_PER_STEP * MMA_K_BYTES
    &&& b_operand(action) matches Some(p) ==> p.0 < STAGES && p.1 < MMAS_PER_STEP * MMA_K_BYTES
    &&& barrier_of(action) matches Some(bar) ==> match bar {
        Bar::Tma { slot } => slot < STAGES,
        Bar::Mma { slot } => slot < STAGES,
        Bar::AccumFull { slot } => slot < NUM_ACCUM_STAGES,
        Bar::AccumEmpty { slot } => slot < NUM_ACCUM_STAGES,
        Bar::TileReady => true,
        Bar::Clc => true,
        Bar::Compute => false,
    }
}

/// A thread of the work-stealing kernel only names resources that exist.
pub proof fn law_actions_stay_in_range(thread: Thread, reply: Reply)
    requires
        thread.wf(),
        thread.accepts(reply),
    ensures
        in_range(thread.action(reply)),
{
}

impl ArrayBases {
    /// The arrays lie within the address space.
    pub open spec fn wf(self) -> bool {
        &&& self.smem_a + STAGES * A_TILE_BYTES <= u64::MAX
        &&& self.smem_b + STAGES * B_TILE_BYTES <= u64::MAX
        &&& self.tma_bars + STAGES * BARRIER_BYTES <= u64::MAX
        &&& self.mma_bars + STAGES * BARRIER_BYTES <= u64::MAX
        &&& self.accum_full + NUM_ACCUM_STAGES * BARRIER_BYTES <= u64::MAX
        &&& self.accum_empty + NUM_ACCUM_STAGES * BARRIER_BYTES <= u64::MAX
    }

    /// Address of slot `slot` of A.
    pub open spec fn a_at(self, slot: int) -> int {
        self.smem_a + slot * A_TILE_BYTES
    }

    /// Address of slot `slot` of B.
    pub open spec fn b_at(self, slot: int) -> int {
        self.smem_b + slot * B_TILE_BYTES
    }

    /// Address of a barrier.
    pub open spec fn bar_at(self, bar: Bar) -> int {
        match bar {
            Bar::Tma { slot } => self.tma_bars + slot * BARRIER_BYTES,
            Bar::Mma { slot } => self.mma_bars + slot * BARRIER_BYTES,
            Bar::AccumFull { slot } => self.accum_full + slot * BARRIER_BYTES,
            Bar::AccumEmpty { slot } => self.accum_empty + slot * BARRIER_BYTES,
            Bar::TileReady => self.tile_ready as int,
            _ => self.clc as int,
        }
    }

    /// An action with its addresses in the arrays.
    pub open spec fn place(self, action: Action) -> Placed {
        Placed {
            action,
            smem_a: match a_operand(action) {
                Some(p) => Some((self.a_at(p.0 as int) + p.1) as u64),
                None => None,
            },
            smem_b: match b_operand(action) {
                Some(p) => Some((self.b_at(p.0 as int) + p.1) as u64),
                None => None,
            },
            bar: match barrier_of(action) {
                Some(bar) => Some(self.bar_at(bar) as u64),
                None => None,
            },
        }
    }

    fn bar(&self, bar: Bar) -> (r: u64)
        requires
            self.wf(),
            in_range(Action::Arrive { bar }),
        ensures
            r == self.bar_at(bar),
    {
        match bar {
            Bar::Tma { slot } => self.tma_bars + slot as u64 * BARRIER_BYTES,
            Bar::Mma { slot } => self.mma_bars + slot as u64 * BARRIER_BYTES,
            Bar::AccumFull { slot } => self.accum_full + slot as u64 * BARRIER_BYTES,
            Bar::AccumEmpty { slot } => self.accum_empty + slot as u64 * BARRIER_BYTES,
            Bar::TileReady => self.tile_ready,
            _ => self.clc,
        }
    }
}

impl StaticAddrs {
    /// The tiles lie within the address space.
    pub open spec fn wf(self) -> bool {
        &&& forall|i: int| 0 <= i < STAGES ==> #[trigger] self.smem_a@[i] + A_TILE_BYTES <= u64::MAX
        &&& forall|i: int| 0 <= i < STAGES ==> #[trigger] self.smem_b@[i] + B_TILE_BYTES <= u64::MAX
    }

    /// Address of a barrier.
    pub open spec fn bar_at(self, bar: Bar) -> u64 {
        match bar {
            Bar::Tma { slot } => self.tma_bars@[slot as int],
            Bar::Mma { slot } => self.mma_bars@[slot as int],
            Bar::AccumFull { slot } => self.accum_full@[slot as int],
            Bar::AccumEmpty { slot } => self.accum_empty@[slot as int],
            Bar::TileReady => self.tile_ready,
            _ => self.clc,
        }
    }

    /// An action with the addresses of its resources.
    pub open spec fn place(self, action: Action) -> Placed {
        Placed {
            action,
            smem_a: match a_operand(action) {
                Some(p) => Some((self.smem_a@[p.0 as int] + p.1) as u64),
                None => None,
            },
            smem_b: match b_operand(action) {
                Some(p) => Some((self.smem_b@[p.0 as int] + p.1) as u64),
                None => None,
            },
            bar: match barrier_of(action) {
                Some(bar) => Some(self.bar_at(bar)),
                None => None,
            },
        }
    }

    /// Select the resources of a stage: tiles of A and B, free and full barrier.
    fn select(&self, stage: u32) -> (r: (u64, u64, u64, u64))
        requires
            stage < STAGES,
        ensures
            r.0 == self.smem_a@[stage as int],
            r.1 == self.smem_b@[stage as int],
            r.2 == self.mma_bars@[stage as int],
            r.3 == self.tma_bars@[stage as int],
    {
        match stage {
            0 => (self.smem_a[0], self.smem_b[0], self.mma_bars[0], self.tma_bars[0]),
            1 => (self.smem_a[1], self.smem_b[1], self.mma_bars[1], self.tma_bars[1]),
            2 => (self.smem_a[2], self.smem_b[2], self.mma_bars[2], self.tma_bars[2]),
            _ => (self.smem_a[3], self.smem_b[3], self.mma_bars[3], self.tma_bars[3]),
        }
    }

    /// Select the barriers of an accumulator: empty and full.
    fn select_accum(&self, stage: u32) -> (r: (u64, u64))
        requires
            stage < NUM_ACCUM_STAGES,
        ensures
            r.0 == self.accum_empty@[stage as int],
            r.1 == self.accum_full@[stage as int],
    {
        match stage {
            0 => (self.accum_empty[0], self.accum_full[0]),
            _ => (self.accum_empty[1], self.accum_full[1]),
        }
    }

    fn bar(&self, bar: Bar) -> (r: u64)
        requires
            in_range(Action::Arrive { bar }),
        ensures
            r == self.bar_at(bar),
    {
        match bar {
            Bar::Tma { slot } => self.select(slot).3,
            Bar::Mma { slot } => self.select(slot).2,
            Bar::AccumFull { slot } => self.select_accum(slot).1,
            Bar::AccumEmpty { slot } => self.select_accum(slot).0,
            Bar::TileReady => self.tile_ready,
            _ => self.clc,
        }
    }

    /// The barrier of an action, on a branch of its own for each resource.
    fn branch_bar(&self, bar: Bar) -> (r: u64)
        requires
            in_range(Action::Arrive { bar }),
        ensures
            r == self.bar_at(bar),
    {
        match bar {
            Bar::Tma { slot: 0 } => self.tma_bars[0],
            Bar::Tma { slot: 1 } => self.tma_bars[1],
            Bar::Tma { slot: 2 } => self.tma_bars[2],
            Bar::Tma { slot: _ } => self.tma_bars[3],
            Bar::Mma { slot: 0 } => self.mma_bars[0],
            Bar::Mma { slot: 1 } => self.mma_bars[1],
            Bar::Mma { slot: 2 } => self.mma_bars[2],
            Bar::Mma { slot: _ } => self.mma_bars[3],
            Bar::AccumFull { slot: 0 } => self.accum_full[0],
            Bar::AccumFull { slot: _ } => self.accum_full[1],
            Bar::AccumEmpty { slot: 0 } => self.accum_empty[0],
            Bar::AccumEmpty { slot: _ } => self.accum_empty[1],
            Bar::TileReady => self.tile_ready,
            _ => self.clc,
        }
    }
}

/// The barrier that an action works on, if any.
fn barrier_in(action: Action) -> (r: Option<Bar>)
    ensures
        r == barrier_of(action),
{
    match action {
        Action::InitBarrier { bar, count: _, together: _ } => Some(bar),
        Action::Arrive { bar } => Some(bar),
        Action::ArriveExpect { bar, bytes: _ } => Some(bar),
        Action::WaitParity { bar, parity: _ } => Some(bar),
        Action::WaitArrival { bar } => Some(bar),
        Action::CopyTile { operand: _, slot: _, x: _, y: _, bar } => Some(bar),
        Action::Commit { bar } => Some(bar),
        Action::InvalBarrier { bar } => Some(bar),
        Action::PublishTile { tile_m: _, tile_n: _ } => Some(Bar::TileReady),
        Action::PublishDone => Some(Bar::TileReady),
        Action::StealWork { parity: _, bytes: _ } => Some(Bar::Clc),
        _ => None,
    }
}

/// The work-stealing kernel with its resources in arrays: the address of a
/// stage is that of the array plus the stage times the size.
pub fn gemm_arith(bases: &ArrayBases, thread: &mut Thread, reply: Reply) -> (r: Placed)
    requires
        bases.wf(),
        old(thread).idiom is Arrays,
        old(thread).wf(),
        old(thread).accepts(reply),
    ensures
        r == bases.place(old(thread).action(reply)),
        *final(thread) == old(thread).after(reply),
        final(thread).wf(),
{
    proof {
        law_actions_stay_in_range(*old(thread), reply);
    }
    let action: Action = gemm(thread, reply);
    let bar: Option<u64> = match barrier_in(action) {
        Some(bar) => Some(bases.bar(bar)),
        None => None,
    };
    match action {
        Action::CopyTile { operand: Operand::A, slot, x: _, y: _, bar: _ } => {
            let a: u64 = bases.smem_a + slot as u64 * A_TILE_BYTES as u64;
            Placed { action, smem_a: Some(a), smem_b: None, bar }
        },
        Action::CopyTile { operand: Operand::B, slot, x: _, y: _, bar: _ } => {
            let b: u64 = bases.smem_b + slot as u64 * B_TILE_BYTES as u64;
            Placed { action, smem_a: None, smem_b: Some(b), bar }
        },
        Action::Mma { slot, k_offset, tmem_offset: _, accumulate: _ } => {
            let a: u64 = bases.smem_a + slot as u64 * A_TILE_BYTES as u64 + k_offset;
            let b: u64 = bases.smem_b + slot as u64 * B_TILE_BYTES as u64 + k_offset;
            Placed { action, smem_a: Some(a), smem_b: Some(b), bar }
        },
        _ => Placed { action, smem_a: None, smem_b: None, bar },
    }
}

/// The work-stealing kernel with separately declared resources: the addresses
/// of a stage are selected, then used.
pub fn gemm_match(statics: &StaticAddrs, thread: &mut Thread, reply: Reply) -> (r: Placed)
    requires
        statics.wf(),
        old(thread).idiom is Statics,
        old(thread).wf(),
        old(thread).accepts(reply),
    ensures
        r == statics.place(old(thread).action(reply)),
        *final(thread) == old(thread).after(reply),
        final(thread).wf(),
{
    proof {
        law_actions_stay_in_range(*old(thread), reply);
    }
    let action: Action = gemm(thread, reply);
    let bar: Option<u64> = match barrier_in(action) {
        Some(bar) => Some(statics.bar(bar)),
        None => None,
    };
    match action {
        Action::CopyTile { operand: Operand::A, slot, x: _, y: _, bar: _ } => {
            let (a, _b, _mma, _tma) = statics.select(slot);
            Placed { action, smem_a: Some(a), smem_b: None, bar }
        },
        Action::CopyTile { operand: Operand::B, slot, x: _, y: _, bar: _ } => {
            let (_a, b, _mma, _tma) = statics.select(slot);
            Placed { action, smem_a: None, smem_b: Some(b), bar }
        },
        Action::Mma { slot, k_offset, tmem_offset: _, accumulate: _ } => {
            let (a, b, _mma, _tma) = statics.select(slot);
            Placed { action, smem_a: Some(a + k_offset), smem_b: Some(b + k_offset), bar }
        },
        _ => Placed { action, smem_a: None, smem_b: None, bar },
    }
}

/// The work-stealing kernel with separately declared resources and a branch
/// of its own for each stage: nothing is selected, every branch names its
/// resources.
pub fn gemm_branch(statics: &StaticAddrs, thread: &mut Thread, reply: Reply) -> (r: Placed)
    requires
        statics.wf(),
        old(thread).idiom is Statics,
        old(thread).wf(),
        old(thread).accepts(reply),
    ensures
        r == statics.place(old(thread).action(reply)),
        *final(thread) == old(thread).after(reply),
        final(thread).wf(),
{
    proof {
        law_actions_stay_in_range(*old(thread), reply);
    }
    let action: Action = gemm(thread, reply);
    let bar: Option<u64> = match barrier_in(action) {
        Some(bar) => Some(statics.branch_bar(bar)),
        None => None,
    };
    match action {
        Action::CopyTile { operand: Operand::A, slot, x: _, y: _, bar: _ } => match slot {
            0 => Placed { action, smem_a: Some(statics.smem_a[0]), smem_b: None, bar },
            1 => Placed { action, smem_a: Some(statics.smem_a[1]), smem_b: None, bar },
            2 => Placed { action, smem_a: Some(statics.smem_a[2]), smem_b: None, bar },
            _ => Placed { action, smem_a: Some(statics.smem_a[3]), smem_b: None, bar },
        },
        Action::CopyTile { operand: Operand::B, slot, x: _, y: _, bar: _ } => match slot {
            0 => Placed { action, smem_a: None, smem_b: Some(statics.smem_b[0]), bar },
            1 => Placed { action, smem_a: None, smem_b: Some(statics.smem_b[1]), bar },
            2 => Placed { action, smem_a: None, smem_b: Some(statics.smem_b[2]), bar },
            _ => Placed { action, smem_a: None, smem_b: Some(statics.smem_b[3]), bar },
        },
        Action::Mma { slot, k_offset, tmem_offset: _, accumulate: _ } => match slot {
            0 => Placed {
                action,
                smem_a: Some(statics.smem_a[0] + k_offset),
                smem_b: Some(statics.smem_b[0] + k_offset),
                bar,
            },
            1 => Placed {
                action,
                smem_a: Some(statics.smem_a[1] + k_offset),
                smem_b: Some(statics.smem_b[1] + k_offset),
                bar,
            },
            2 => Placed {
                action,
                smem_a: Some(statics.smem_a[2] + k_offset),
                smem_b: Some(statics.smem_b[2] + k_offset),
                bar,
            },
            _ => Placed {
                action,
                smem_a: Some(statics.smem_a[3] + k_offset),
                smem_b: Some(statics.smem_b[3] + k_offset),
                bar,
            },
        },
        _ => Placed { action, smem_a: None, smem_b: None, bar },
    }
}

/// The builds do the same over a whole run, wherever their resources lie: given
/// the same replies, the threads of the two idioms stand at the same place after
/// any number of steps and, setup and cleanup apart, are given the same action.
/// (The setup and the cleanup handle the same barriers, in another order.)
pub proof fn law_builds_agree(
    arrays: Thread,
    replies: spec_fn(nat) -> Reply,
    reply: Reply,
    n: nat,
)
    requires
        arrays.idiom is Arrays,
    ensures
        ({
            let separate = Thread { idiom: Idiom::Statics, ..arrays };
            let (s, t) = (run(separate, replies, n), run(arrays, replies, n));
            &&& s == (Thread { idiom: Idiom::Statics, ..t })
            &&& !(t.pc is Setup) && !(t.pc is Cleanup) ==> s.action(reply) == t.action(reply)
        }),
    decreases n,
{
    if n > 0 {
        let separate = Thread { idiom: Idiom::Statics, ..arrays };
        law_builds_agree(arrays, replies, reply, (n - 1) as nat);
        let (s, t) = (
            run(separate, replies, (n - 1) as nat),
            run(arrays, replies, (n - 1) as nat),
        );
        let r = replies((n - 1) as nat);
        assert(s.role() == t.role());
        assert(s.role_action(r) == t.role_action(r));
        assert(s.after(r) == (Thread { idiom: Idiom::Statics, ..t.after(r) }));
    }
}

/// Stages do not share resources: tiles of two stages of the arrays do not
/// overlap.
pub proof fn law_array_stages_do_not_overlap(bases: ArrayBases, i: int, j: int)
    requires
        0 <= i < j < STAGES,
    ensures
        bases.a_at(i) + A_TILE_BYTES <= bases.a_at(j),
        bases.b_at(i) + B_TILE_BYTES <= bases.b_at(j),
{
}

/// An action names a barrier: it uses it, makes it ready or puts it out of use.
pub open spec fn names(action: Action, bar: Bar) -> bool {
    ||| uses(action, bar)
    ||| action matches Action::InitBarrier { bar: b, count: _, together: _ } && b == bar
    ||| action == (Action::InvalBarrier { bar })
}

/// With the resources in arrays, the operands of slot `s` lie `s` tiles behind
/// the start of their array, a product `k_offset` bytes further, and barrier `s`
/// of an array lies `s` barriers behind its start. Nothing else has an address.
pub proof fn law_arrays_are_addressed_by_stage(bases: ArrayBases, action: Action, bar: Bar)
    requires
        bases.wf(),
        in_range(action),
    ensures
        ({
            let placed = bases.place(action);
            &&& placed.action == action
            &&& action matches Action::CopyTile { operand: Operand::A, slot, x: _, y: _, bar: _ }
                ==> placed.smem_a is Some && placed.smem_a->0 == bases.smem_a + slot * 16384
                && placed.smem_b is None
            &&& action matches Action::CopyTile { operand: Operand::B, slot, x: _, y: _, bar: _ }
                ==> placed.smem_b is Some && placed.smem_b->0 == bases.smem_b + slot * 16384
                && placed.smem_a is None
            &&& action matches Action::Mma { slot, k_offset, tmem_offset: _, accumulate: _ }
                ==> placed.smem_a is Some && placed.smem_a->0 == bases.smem_a + slot * 16384
                + k_offset && placed.smem_b is Some && placed.smem_b->0 == bases.smem_b + slot
                * 16384 + k_offset
            &&& !(action is CopyTile || action is Mma) ==> placed.smem_a is None
                && placed.smem_b is None
            &&& names(action, bar) ==> placed.bar is Some && placed.bar->0 == match bar {
                Bar::Tma { slot } => bases.tma_bars + 8 * slot,
                Bar::Mma { slot } => bases.mma_bars + 8 * slot,
                Bar::AccumFull { slot } => bases.accum_full + 8 * slot,
                Bar::AccumEmpty { slot } => bases.accum_empty + 8 * slot,
                Bar::TileReady => bases.tile_ready as int,
                _ => bases.clc as int,
            }
            &&& action is Skip || action is Fence || action is Sync || action is AllocTmem
                || action is ReadTileInfo || action is Mma || action is Drain || action is CopyOut
                || action is DeallocTmem || action is Exit ==> placed.bar is None
        }),
{
}

/// With separately declared resources, the operands of slot `s` lie at the
/// addresses that were declared for slot `s`, wherever that is, a product
/// `k_offset` bytes further, and each barrier at its own address. Nothing else
/// has an address.
pub proof fn law_statics_are_addressed_as_declared(statics: StaticAddrs, action: Action, bar: Bar)
    requires
        statics.wf(),
        in_range(action),
    ensures
        ({
            let placed = statics.place(action);
            &&& placed.action == action
            &&& action matches Action::CopyTile { operand: Operand::A, slot, x: _, y: _, bar: _ }
                ==> placed.smem_a == Some(statics.smem_a@[slot as int]) && placed.smem_b is None
            &&& action matches Action::CopyTile { operand: Operand::B, slot, x: _, y: _, bar: _ }
                ==> placed.smem_b == Some(statics.smem_b@[slot as int]) && placed.smem_a is None
            &&& action matches Action::Mma { slot, k_offset, tmem_offset: _, accumulate: _ }
                ==> placed.smem_a is Some && placed.smem_a->0 == statics.smem_a@[slot as int]
                + k_offset && placed.smem_b is Some && placed.smem_b->0
                == statics.smem_b@[slot as int] + k_offset
            &&& !(action is CopyTile || action is Mma) ==> placed.smem_a is None
                && placed.smem_b is None
            &&& names(action, bar) ==> placed.bar == Some(
                match bar {
                    Bar::Tma { slot } => statics.tma_bars@[slot as int],
                    Bar::Mma { slot } => statics.mma_bars@[slot as int],
                    Bar::AccumFull { slot } => statics.accum_full@[slot as int],
                    Bar::AccumEmpty { slot } => statics.accum_empty@[slot as int],
                    Bar::TileReady => statics.tile_ready,
                    _ => statics.clc,
                },
            )
            &&& action is Skip || action is Fence || action is Sync || action is AllocTmem
                || action is ReadTileInfo || action is Mma || action is Drain || action is CopyOut
                || action is DeallocTmem || action is Exit ==> placed.bar is None
        }),
{
    if action is Mma {
        let slot = action->Mma_slot as int;
        assert(statics.smem_a@[slot] + A_TILE_BYTES <= u64::MAX);
        assert(statics.smem_b@[slot] + B_TILE_BYTES <= u64::MAX);
    }
}

/// Two tiles, each 16384 bytes long, do not overlap.
pub open spec fn apart(x: u64, y: u64) -> bool {
    x + 16384 <= y || y + 16384 <= x
}

/// The declared tiles do not overlap.
pub open spec fn tiles_apart(statics: StaticAddrs) -> bool {
    &&& forall|i: int, j: int|
        0 <= i < 4 && 0 <= j < 4 && i != j ==> #[trigger] apart(
            statics.smem_a@[i],
            statics.smem_a@[j],
        )
    &&& forall|i: int, j: int|
        0 <= i < 4 && 0 <= j < 4 && i != j ==> #[trigger] apart(
            statics.smem_b@[i],
            statics.smem_b@[j],
        )
    &&& forall|i: int, j: int|
        0 <= i < 4 && 0 <= j < 4 ==> #[trigger] apart(statics.smem_a@[i], statics.smem_b@[j])
}

/// Bytes of shared memory that an action reads or writes as its operand of A.
pub open spec fn a_bytes(placed: Placed, address: int) -> bool {
    match placed.action {
        Action::CopyTile { operand: Operand::A, slot: _, x: _, y: _, bar: _ } => placed.smem_a->0
            <= address < placed.smem_a->0 + 16384,
        Action::Mma { slot: _, k_offset, tmem_offset: _, accumulate: _ } => placed.smem_a->0
            - k_offset <= address < placed.smem_a->0 - k_offset + 16384,
        _ => false,
    }
}

/// Bytes of shared memory that an action reads or writes as its operand of B.
pub open spec fn b_bytes(placed: Placed, address: int) -> bool {
    match placed.action {
        Action::CopyTile { operand: Operand::B, slot: _, x: _, y: _, bar: _ } => placed.smem_b->0
            <= address < placed.smem_b->0 + 16384,
        Action::Mma { slot: _, k_offset, tmem_offset: _, accumulate: _ } => placed.smem_b->0
            - k_offset <= address < placed.smem_b->0 - k_offset + 16384,
        _ => false,
    }
}

/// The slot that an action copies into or multiplies from.
pub open spec fn slot_used(action: Action) -> Option<u32> {
    match action {
        Action::CopyTile { operand: _, slot, x: _, y: _, bar: _ } => Some(slot),
        Action::Mma { slot, k_offset: _, tmem_offset: _, accumulate: _ } => Some(slot),
        _ => None,
    }
}

/// Where the declared tiles do not overlap, no byte belongs to operands of two
/// different slots, or to an operand of A and one of B, and a copy brings a tile
/// to the very bytes from which the products of its slot read it.
pub proof fn law_operands_do_not_overlap(
    statics: StaticAddrs,
    x: Action,
    y: Action,
    address: int,
)
    requires
        statics.wf(),
        tiles_apart(statics),
        in_range(x),
        in_range(y),
        slot_used(x) is Some,
        slot_used(y) is Some,
    ensures
        ({
            let (p, q) = (statics.place(x), statics.place(y));
            &&& slot_used(x) != slot_used(y) ==> !(a_bytes(p, address) && a_bytes(q, address))
                && !(b_bytes(p, address) && b_bytes(q, address))
            &&& !(a_bytes(p, address) && b_bytes(q, address))
            &&& slot_used(x) == slot_used(y) && x is Mma && y is Mma ==> (a_bytes(p, address)
                <==> a_bytes(q, address)) && (b_bytes(p, address) <==> b_bytes(q, address))
            &&& slot_used(x) == slot_used(y) && y is Mma ==> (a_bytes(p, address) ==> a_bytes(
                q,
                address,
            )) && (b_bytes(p, address) ==> b_bytes(q, address))
        }),
{
    law_statics_are_addressed_as_declared(statics, x, Bar::TileReady);
    law_statics_are_addressed_as_declared(statics, y, Bar::TileReady);
    let (i, j) = (slot_used(x)->0 as int, slot_used(y)->0 as int);
    assert(i != j ==> apart(statics.smem_a@[i], statics.smem_a@[j]));
    assert(i != j ==> apart(statics.smem_b@[i], statics.smem_b@[j]));
    assert(apart(statics.smem_a@[i], statics.smem_b@[j]));
    assert(apart(statics.smem_a@[j], statics.smem_b@[i]));
}

} // verus!
