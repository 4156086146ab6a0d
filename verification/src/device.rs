//! What a kernel thread asks of the hardware, and what it hears back.
//!
//! The kernels are written as machines: a step takes the reply to the action
//! before and gives the next action. Performing an action, waiting included,
//! is the business of whoever drives the machine.
use vstd::prelude::*;

verus! {

/// A barrier in the shared memory of a thread block.
#[derive(Clone, Copy, PartialEq, Eq, Structural, Debug)]
pub enum Bar {
    /// The slot has been filled by the copy engine.
    Tma { slot: u32 },
    /// The tensor core is done with the slot.
    Mma { slot: u32 },
    /// The accumulator holds a finished tile.
    AccumFull { slot: u32 },
    /// The accumulator has been drained.
    AccumEmpty { slot: u32 },
    /// A tile has been announced.
    TileReady,
    /// The work-stealing request has been answered.
    Clc,
    /// The single tile of the block is finished.
    Compute,
}

/// The matrix that a copied tile comes from.
#[derive(Clone, Copy, PartialEq, Eq, Structural, Debug)]
pub enum Operand {
    A,
    B,
}

/// One thing to be done by a thread.
#[derive(Clone, Copy, PartialEq, Eq, Structural, Debug)]
pub enum Action {
    /// Nothing: this lane has no part in what the others do.
    Skip,
    /// Make the barrier ready for phases of `count` arrivals: alone, or
    /// `together` with all threads of the block. Together, the first thread makes
    /// it ready, that is made visible to the copy engine, and all meet.
    InitBarrier { bar: Bar, count: u32, together: bool },
    /// Make earlier writes visible to the copy engine.
    Fence,
    /// Meet all threads of the block.
    Sync,
    /// Allocate columns of tensor memory.
    AllocTmem { columns: u32 },
    /// Arrive at a barrier.
    Arrive { bar: Bar },
    /// Arrive at a barrier and announce the bytes that its phase waits for.
    ArriveExpect { bar: Bar, bytes: u32 },
    /// Wait until the phase of this parity has completed.
    WaitParity { bar: Bar, parity: u32 },
    /// Wait for the phase in which this thread arrived last.
    WaitArrival { bar: Bar },
    /// Announce the tile in the block's tile record and arrive at `TileReady`.
    PublishTile { tile_m: u32, tile_n: u32 },
    /// Announce that there are no more tiles and arrive at `TileReady`.
    PublishDone,
    /// Read the block's tile record.
    ReadTileInfo,
    /// Ask for a cluster that has not started yet: announce `bytes` at `Clc`,
    /// send the request, wait for this parity and share the decoded answer
    /// among the lanes of the warp.
    StealWork { parity: u32, bytes: u32 },
    /// Start copying the tile at column `x`, row `y` into a slot.
    CopyTile { operand: Operand, slot: u32, x: i32, y: i32, bar: Bar },
    /// Multiply the operands of a slot, `k_offset` bytes along K, into the
    /// accumulator at `tmem_offset`, adding to it or starting anew.
    Mma { slot: u32, k_offset: u64, tmem_offset: u32, accumulate: bool },
    /// Have the tensor core arrive at a barrier when it is done.
    Commit { bar: Bar },
    /// Move a piece of the accumulator into the packed tile.
    Drain { drain: crate::epilogue::Drain },
    /// Copy a word of the packed tile to C.
    CopyOut { copy: crate::epilogue::CopyOut },
    /// Give the tensor memory back.
    DeallocTmem,
    /// Put a barrier out of use. Where all threads are told to, they do it
    /// together, once.
    InvalBarrier { bar: Bar },
    /// There is nothing left to do.
    Exit,
}

/// The answer to an action. `ReadTileInfo` is answered with the tile in `x`
/// and `y` and with a `flag` that is zero when there are no more tiles;
/// `StealWork` with a `flag` that is zero when nothing was left to steal and
/// the first block of the stolen cluster in `x`. Other answers carry nothing.
#[derive(Clone, Copy, PartialEq, Eq, Structural, Debug)]
pub struct Reply {
    pub flag: u32,
    pub x: u32,
    pub y: u32,
}

/// The answer to an action that has none.
pub fn no_reply() -> (r: Reply)
    ensures
        r == (Reply { flag: 0, x: 0, y: 0 }),
{
    Reply { flag: 0, x: 0, y: 0 }
}

/// What a lane does of an action that only the first lane performs.
pub open spec fn first_lane_only(lane0: bool, action: Action) -> Action {
    if lane0 {
        action
    } else {
        Action::Skip
    }
}

/// What a lane does of an action that only the first lane performs.
pub fn only_first_lane(lane0: bool, action: Action) -> (r: Action)
    ensures
        r == first_lane_only(lane0, action),
{
    if lane0 {
        action
    } else {
        Action::Skip
    }
}

/// The barrier that an action waits or arrives at, or has hardware arrive at.
pub open spec fn uses(action: Action, bar: Bar) -> bool {
    match action {
        Action::Arrive { bar: b } => b == bar,
        Action::ArriveExpect { bar: b, bytes: _ } => b == bar,
        Action::WaitParity { bar: b, parity: _ } => b == bar,
        Action::WaitArrival { bar: b } => b == bar,
        Action::CopyTile { operand: _, slot: _, x: _, y: _, bar: b } => b == bar,
        Action::Commit { bar: b } => b == bar,
        Action::PublishTile { tile_m: _, tile_n: _ } => bar is TileReady,
        Action::PublishDone => bar is TileReady,
        Action::StealWork { parity: _, bytes: _ } => bar is Clc,
        _ => false,
    }
}

/// An action makes a barrier ready for phases of this many arrivals.
pub open spec fn readies(action: Action, bar: Bar, count: u32) -> bool {
    action matches Action::InitBarrier { bar: b, count: n, together: _ } && b == bar && n == count
}

/// An action touches tensor memory, and only below this column.
pub open spec fn touches_below(action: Action, columns: u32) -> bool {
    match action {
        Action::Mma { slot: _, k_offset: _, tmem_offset, accumulate: _ } => tmem_offset + 128
            <= columns,
        Action::Drain { drain } => drain.tmem_a % 0x1_0000 + 8 <= columns && drain.tmem_b % 0x1_0000
            + 8 <= columns,
        _ => true,
    }
}

} // verus!
