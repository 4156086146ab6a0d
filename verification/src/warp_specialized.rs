//! One output tile per block: a copying, a multiplying and four draining warps
//! share a ring of two slots.
//!
//! Launch dims: grid (`TILES_M`, `TILES_N`, 1), block (192, 1, 1).
use vstd::prelude::*;
use crate::device::{
    first_lane_only, only_first_lane, readies, touches_below, uses, Action, Bar, Operand,
};
use crate::dims::{
    BK, BM, BN, COMBINED_BYTES, K_ITERS, MMAS_PER_STEP, MMA_K_BYTES, TILES_M, TILES_N,
};
use crate::epilogue::{
    copy_at, copy_out_flat, drain, drain_at, drain_in_range, global_word, CopyOut, Drain, COL_BLOCKS,
    DRAIN_ROWS, ROWS_PER_WARP, TILE_WORDS,
};
use crate::memory::{
    accums_after, all_finished, all_pieces, c_after, c_words, covers_strided, holds_word,
    law_four_warps_store_the_tile, law_launch_of_tiles_leaves_the_product,
    lemma_copies_are_finished, lemma_next_product, product_words, products, slots_after,
    some_thread_covers, tile_after_warps, whole, writes_after, Piece, Slots, Source,
};
use crate::persistent::{MMA_WARP, TMA_WARP};
use crate::ring::{
    free_phases, full_phases, law_consumer_wait_is_exact, law_producer_wait_is_exact,
    law_slot_holds_its_step, parity_of, ring_inv, slot_of, visits, wait_passes,
};

verus! {

/// Slots of the ring.
pub const RING: u32 = 2;

/// Threads of a block.
pub const BLOCK: u32 = 192;

/// Columns of tensor memory, those of the one accumulator.
pub const COLUMNS: u32 = 128;

/// Actions before the warps part.
pub const SETUP: u32 = 12;

/// Actions after the tile has been copied out.
pub const CLEANUP: u32 = 7;

/// The five barriers of the block.
pub open spec fn bar_at(i: u32) -> Bar {
    if i < 2 {
        Bar::Tma { slot: i }
    } else if i < 4 {
        Bar::Mma { slot: (i - 2) as u32 }
    } else {
        Bar::Compute
    }
}

fn bar(i: u32) -> (r: Bar)
    ensures
        r == bar_at(i),
{
    if i < 2 {
        Bar::Tma { slot: i }
    } else if i < 4 {
        Bar::Mma { slot: i - 2 }
    } else {
        Bar::Compute
    }
}

/// Step `i` of the setup: the barriers, one arrival in advance at each slot,
/// so that the first round does not stall, and the tensor memory.
pub open spec fn setup_action(thread0: bool, i: u32) -> Action {
    if i < 5 {
        Action::InitBarrier { bar: bar_at(i), count: 1, together: true }
    } else if i == 5 {
        Action::Fence
    } else if i == 7 || i == 8 {
        first_lane_only(thread0, Action::Arrive { bar: Bar::Mma { slot: (i - 7) as u32 } })
    } else if i == 10 {
        Action::AllocTmem { columns: COLUMNS }
    } else {
        Action::Sync
    }
}

fn setup(thread0: bool, i: u32) -> (r: Action)
    ensures
        r == setup_action(thread0, i),
{
    if i < 5 {
        Action::InitBarrier { bar: bar(i), count: 1, together: true }
    } else if i == 5 {
        Action::Fence
    } else if i == 7 || i == 8 {
        only_first_lane(thread0, Action::Arrive { bar: Bar::Mma { slot: i - 7 } })
    } else if i == 10 {
        Action::AllocTmem { columns: COLUMNS }
    } else {
        Action::Sync
    }
}

/// Step `i` of the cleanup.
pub open spec fn cleanup_action(i: u32) -> Action {
    if i == 0 {
        Action::Sync
    } else if i == 1 {
        Action::DeallocTmem
    } else {
        Action::InvalBarrier { bar: bar_at((i - 2) as u32) }
    }
}

fn cleanup(i: u32) -> (r: Action)
    ensures
        r == cleanup_action(i),
{
    if i == 0 {
        Action::Sync
    } else if i == 1 {
        Action::DeallocTmem
    } else {
        Action::InvalBarrier { bar: bar(i - 2) }
    }
}

/// Where a thread stands.
#[derive(Clone, Copy, PartialEq, Eq, Structural, Debug)]
pub enum Pc {
    Setup { i: u32 },
    // the copying warp
    WaitFree,
    CopyA,
    CopyB,
    Expect,
    // the multiplying warp
    WaitFull,
    Multiply,
    Commit,
    // the draining warps
    WaitTile,
    Drain,
    // all warps
    Meet,
    CopyOut,
    Cleanup { i: u32 },
    Done,
}

/// Thread `tid` of the block of output tile (`tile_m`, `tile_n`).
#[derive(Clone, Copy, PartialEq, Eq, Structural, Debug)]
pub struct WarpThread {
    pub tid: u32,
    pub tile_m: u32,
    pub tile_n: u32,
    pub pc: Pc,
    pub k_idx: u32,
    pub k_sub: u32,
    pub row_offset: u32,
    pub col_block: u32,
    pub local_idx: usize,
}

impl WarpThread {
    pub open spec fn wf(self) -> bool {
        &&& self.tid < BLOCK
        &&& self.tile_m < TILES_M
        &&& self.tile_n < TILES_N
        &&& self.k_idx < K_ITERS
        &&& self.k_sub < MMAS_PER_STEP
        &&& self.pc is Drain ==> drain_in_range(
            self.warp() as int,
            self.lane() as int,
            self.row_offset as int,
            self.col_block as int,
        )
        &&& self.local_idx < TILE_WORDS
        &&& match self.pc {
            Pc::Setup { i } => i < SETUP,
            Pc::Cleanup { i } => i < CLEANUP,
            Pc::WaitTile => self.tid / 32 < TMA_WARP,
            _ => true,
        }
    }

    pub open spec fn warp(self) -> u32 {
        self.tid / 32
    }

    pub open spec fn lane(self) -> u32 {
        self.tid % 32
    }

    pub open spec fn lane0(self) -> bool {
        self.lane() == 0
    }

    /// Slot of the ring step at which the thread is.
    pub open spec fn slot(self) -> u32 {
        self.k_idx % RING
    }

    /// Parity with which the thread waits for its slot.
    pub open spec fn parity(self) -> u32 {
        (self.k_idx / RING) % 2
    }

    /// The part that the thread's warp plays.
    pub open spec fn role(self) -> Pc {
        if self.warp() == TMA_WARP {
            Pc::WaitFree
        } else if self.warp() == MMA_WARP {
            Pc::WaitFull
        } else {
            Pc::WaitTile
        }
    }

    /// What the thread does next.
    pub open spec fn action(self) -> Action {
        let bar = Bar::Tma { slot: self.slot() };
        match self.pc {
            Pc::Setup { i } => setup_action(self.tid == 0, i),
            Pc::WaitFree => Action::WaitParity {
                bar: Bar::Mma { slot: self.slot() },
                parity: self.parity(),
            },
            Pc::CopyA => first_lane_only(
                self.lane0(),
                Action::CopyTile {
                    operand: Operand::A,
                    slot: self.slot(),
                    x: (self.k_idx * BK) as i32,
                    y: (self.tile_m * BM) as i32,
                    bar,
                },
            ),
            Pc::CopyB => first_lane_only(
                self.lane0(),
                Action::CopyTile {
                    operand: Operand::B,
                    slot: self.slot(),
                    x: (self.k_idx * BK) as i32,
                    y: (self.tile_n * BN) as i32,
                    bar,
                },
            ),
            Pc::Expect => first_lane_only(
                self.lane0(),
                Action::ArriveExpect { bar, bytes: COMBINED_BYTES },
            ),
            Pc::WaitFull => Action::WaitParity { bar, parity: self.parity() },
            Pc::Multiply => first_lane_only(
                self.lane0(),
                Action::Mma {
                    slot: self.slot(),
                    k_offset: (self.k_sub * MMA_K_BYTES) as u64,
                    tmem_offset: 0,
                    accumulate: self.k_idx > 0 || self.k_sub > 0,
                },
            ),
            Pc::Commit => first_lane_only(
                self.lane0(),
                Action::Commit {
                    bar: if self.k_idx + 1 == K_ITERS {
                        Bar::Compute
                    } else {
                        Bar::Mma { slot: self.slot() }
                    },
                },
            ),
            Pc::WaitTile => Action::WaitParity { bar: Bar::Compute, parity: 0 },
            Pc::Drain => Action::Drain {
                drain: drain_at(
                    0,
                    self.warp() as int,
                    self.lane() as int,
                    self.row_offset as int,
                    self.col_block as int,
                ),
            },
            Pc::Meet => Action::Sync,
            Pc::CopyOut => Action::CopyOut {
                copy: copy_at(self.tile_m as int, self.tile_n as int, self.local_idx as int),
            },
            Pc::Cleanup { i } => cleanup_action(i),
            Pc::Done => Action::Exit,
        }
    }

    /// Where the thread stands afterwards.
    pub open spec fn after(self) -> WarpThread {
        match self.pc {
            Pc::Setup { i } => if i + 1 < SETUP {
                WarpThread { pc: Pc::Setup { i: (i + 1) as u32 }, ..self }
            } else {
                WarpThread { pc: self.role(), k_idx: 0, ..self }
            },
            Pc::WaitFree => WarpThread { pc: Pc::CopyA, ..self },
            Pc::CopyA => WarpThread { pc: Pc::CopyB, ..self },
            Pc::CopyB => WarpThread { pc: Pc::Expect, ..self },
            Pc::Expect => if self.k_idx + 1 < K_ITERS {
                WarpThread { pc: Pc::WaitFree, k_idx: (self.k_idx + 1) as u32, ..self }
            } else {
                WarpThread { pc: Pc::Meet, k_idx: 0, ..self }
            },
            Pc::WaitFull => WarpThread { pc: Pc::Multiply, k_sub: 0, ..self },
            Pc::Multiply => if self.k_sub + 1 < MMAS_PER_STEP {
                WarpThread { k_sub: (self.k_sub + 1) as u32, ..self }
            } else {
                WarpThread { pc: Pc::Commit, k_sub: 0, ..self }
            },
            Pc::Commit => if self.k_idx + 1 < K_ITERS {
                WarpThread { pc: Pc::WaitFull, k_idx: (self.k_idx + 1) as u32, ..self }
            } else {
                WarpThread { pc: Pc::Meet, k_idx: 0, ..self }
            },
            Pc::WaitTile => WarpThread { pc: Pc::Drain, row_offset: 0, col_block: 0, ..self },
            Pc::Drain => if self.col_block + 1 < COL_BLOCKS {
                WarpThread { col_block: (self.col_block + 1) as u32, ..self }
            } else if self.row_offset + DRAIN_ROWS < ROWS_PER_WARP {
                WarpThread {
                    row_offset: (self.row_offset + DRAIN_ROWS) as u32,
                    col_block: 0,
                    ..self
                }
            } else {
                WarpThread { pc: Pc::Meet, row_offset: 0, col_block: 0, ..self }
            },
            Pc::Meet => WarpThread { pc: Pc::CopyOut, local_idx: self.tid as usize, ..self },
            Pc::CopyOut => if self.local_idx + BLOCK < TILE_WORDS {
                WarpThread { local_idx: (self.local_idx + BLOCK) as usize, ..self }
            } else {
                WarpThread { pc: Pc::Cleanup { i: 0 }, local_idx: 0, ..self }
            },
            Pc::Cleanup { i } => if i + 1 < CLEANUP {
                WarpThread { pc: Pc::Cleanup { i: (i + 1) as u32 }, ..self }
            } else {
                WarpThread { pc: Pc::Done, ..self }
            },
            Pc::Done => self,
        }
    }

    /// Thread `tid` of the block of an output tile, before the setup.
    pub fn new(tid: u32, tile_m: u32, tile_n: u32) -> (r: WarpThread)
        requires
            tid < BLOCK,
            tile_m < TILES_M,
            tile_n < TILES_N,
        ensures
            r == (WarpThread {
                tid,
                tile_m,
                tile_n,
                pc: Pc::Setup { i: 0 },
                k_idx: 0,
                k_sub: 0,
                row_offset: 0,
                col_block: 0,
                local_idx: 0,
            }),
            r.wf(),
    {
        WarpThread {
            tid,
            tile_m,
            tile_n,
            pc: Pc::Setup { i: 0 },
            k_idx: 0,
            k_sub: 0,
            row_offset: 0,
            col_block: 0,
            local_idx: 0,
        }
    }
}

/// What a thread of the block does next.
pub fn gemm_warp_specialized(thread: &mut WarpThread) -> (action: Action)
    requires
        old(thread).wf(),
    ensures
        action == old(thread).action(),
        *final(thread) == old(thread).after(),
        final(thread).wf(),
{
    let warp_id: u32 = thread.tid / 32;
    let lane_id: u32 = thread.tid % 32;
    let lane0: bool = lane_id == 0;
    let k_idx: u32 = thread.k_idx;
    assert(k_idx & 1 == k_idx % 2 && (k_idx >> 1u32) & 1 == (k_idx / 2) % 2) by (bit_vector);
    let phase: u32 = k_idx & 1;
    let parity: u32 = (k_idx >> 1u32) & 1;
    let tma_bar: Bar = Bar::Tma { slot: phase };
    let mma_bar: Bar = Bar::Mma { slot: phase };
    let x: i32 = (k_idx as usize * BK) as i32;
    match thread.pc {
        Pc::Setup { i } => {
            if i + 1 < SETUP {
                thread.pc = Pc::Setup { i: i + 1 };
            } else {
                thread.k_idx = 0;
                thread.pc = if warp_id == TMA_WARP {
                    Pc::WaitFree
                } else if warp_id == MMA_WARP {
                    Pc::WaitFull
                } else {
                    Pc::WaitTile
                };
            }
            setup(thread.tid == 0, i)
        },
        Pc::WaitFree => {
            thread.pc = Pc::CopyA;
            Action::WaitParity { bar: mma_bar, parity }
        },
        Pc::CopyA => {
            thread.pc = Pc::CopyB;
            let y: i32 = (thread.tile_m as usize * BM) as i32;
            let copy: Action = Action::CopyTile {
                operand: Operand::A,
                slot: phase,
                x,
                y,
                bar: tma_bar,
            };
            only_first_lane(lane0, copy)
        },
        Pc::CopyB => {
            thread.pc = Pc::Expect;
            let y: i32 = (thread.tile_n as usize * BN) as i32;
            let copy: Action = Action::CopyTile {
                operand: Operand::B,
                slot: phase,
                x,
                y,
                bar: tma_bar,
            };
            only_first_lane(lane0, copy)
        },
        Pc::Expect => {
            if k_idx + 1 < K_ITERS {
                thread.pc = Pc::WaitFree;
                thread.k_idx = k_idx + 1;
            } else {
                thread.pc = Pc::Meet;
                thread.k_idx = 0;
            }
            only_first_lane(lane0, Action::ArriveExpect { bar: tma_bar, bytes: COMBINED_BYTES })
        },
        Pc::WaitFull => {
            thread.pc = Pc::Multiply;
            thread.k_sub = 0;
            Action::WaitParity { bar: tma_bar, parity }
        },
        Pc::Multiply => {
            let mma: Action = Action::Mma {
                slot: phase,
                k_offset: thread.k_sub as u64 * MMA_K_BYTES,
                tmem_offset: 0,
                // accumulate always except for the very first time.
                accumulate: k_idx > 0 || thread.k_sub > 0,
            };
            if thread.k_sub + 1 < MMAS_PER_STEP {
                thread.k_sub = thread.k_sub + 1;
            } else {
                thread.pc = Pc::Commit;
                thread.k_sub = 0;
            }
            only_first_lane(lane0, mma)
        },
        Pc::Commit => {
            let is_end: bool = k_idx + 1 == K_ITERS;
            let done: Bar = if is_end {
                Bar::Compute
            } else {
                mma_bar
            };
            if is_end {
                thread.pc = Pc::Meet;
                thread.k_idx = 0;
            } else {
                thread.pc = Pc::WaitFull;
                thread.k_idx = k_idx + 1;
            }
            only_first_lane(lane0, Action::Commit { bar: done })
        },
        Pc::WaitTile => {
            thread.pc = Pc::Drain;
            thread.row_offset = 0;
            thread.col_block = 0;
            Action::WaitParity { bar: Bar::Compute, parity: 0 }
        },
        Pc::Drain => {
            let piece: Drain = drain(0, warp_id, lane_id, thread.row_offset, thread.col_block);
            if thread.col_block + 1 < COL_BLOCKS {
                thread.col_block = thread.col_block + 1;
            } else {
                thread.col_block = 0;
                if thread.row_offset + DRAIN_ROWS < ROWS_PER_WARP {
                    thread.row_offset = thread.row_offset + DRAIN_ROWS;
                } else {
                    thread.pc = Pc::Meet;
                    thread.row_offset = 0;
                }
            }
            Action::Drain { drain: piece }
        },
        Pc::Meet => {
            thread.pc = Pc::CopyOut;
            thread.local_idx = thread.tid as usize;
            Action::Sync
        },
        Pc::CopyOut => {
            let copy: CopyOut = copy_out_flat(thread.tile_m, thread.tile_n, thread.local_idx);
            if thread.local_idx + (BLOCK as usize) < TILE_WORDS {
                thread.local_idx = thread.local_idx + BLOCK as usize;
            } else {
                thread.pc = Pc::Cleanup { i: 0 };
                thread.local_idx = 0;
            }
            Action::CopyOut { copy }
        },
        Pc::Cleanup { i } => {
            if i + 1 < CLEANUP {
                thread.pc = Pc::Cleanup { i: i + 1 };
            } else {
                thread.pc = Pc::Done;
            }
            cleanup(i)
        },
        Pc::Done => Action::Exit,
    }
}

/// A thread after `n` steps.
pub open spec fn run(t: WarpThread, n: nat) -> WarpThread
    decreases n,
{
    if n == 0 {
        t
    } else {
        run(t, (n - 1) as nat).after()
    }
}

/// Step of the cleanup that puts a barrier out of use.
pub open spec fn inval_step(bar: Bar) -> nat {
    match bar {
        Bar::Tma { slot } => 2 + slot as nat,
        Bar::Mma { slot } => 4 + slot as nat,
        _ => 6,
    }
}

/// Columns that a drain reads.
proof fn lemma_drain_columns(t: WarpThread)
    requires
        t.wf(),
    ensures
        touches_below(t.action(), 128),
{
    if t.pc is Drain {
        let row = crate::epilogue::drain_row(t.warp() as int, t.row_offset as int);
        let col = t.col_block * 16;
        assert(0 <= row < 128 && 0 <= col <= 112);
        assert((row * 0x1_0000 + col) % 0x1_0000 == col);
        assert((row * 0x1_0000 + (col + 8)) % 0x1_0000 == col + 8);
    }
}

/// The setup takes its steps in order, and nothing comes back to it.
proof fn lemma_setup_passes(t: WarpThread, n: nat)
    requires
        t.wf(),
        t.pc == (Pc::Setup { i: 0 }),
    ensures
        n < SETUP ==> run(t, n) == (WarpThread { pc: Pc::Setup { i: n as u32 }, ..t }),
        n >= SETUP ==> !(run(t, n).pc is Setup),
        run(t, n).wf(),
        run(t, n).tid == t.tid,
    decreases n,
{
    if n > 0 {
        lemma_setup_passes(t, (n - 1) as nat);
    }
}

/// The cleanup takes its steps in order, and nothing comes after it.
proof fn lemma_cleanup_passes(t: WarpThread, k: nat)
    requires
        t.pc is Cleanup,
        t.wf(),
    ensures
        ({
            let i = t.pc->Cleanup_i;
            &&& i + k < CLEANUP ==> run(t, k) == (WarpThread {
                pc: Pc::Cleanup { i: (i + k) as u32 },
                ..t
            })
            &&& i + k >= CLEANUP ==> run(t, k).pc is Done
        }),
    decreases k,
{
    if k > 0 {
        lemma_cleanup_passes(t, (k - 1) as nat);
    }
}

/// A barrier is used only after it was made ready for as many arrivals as come
/// in a phase and all threads have met since: whatever step uses it, an earlier
/// one made it ready, and a meeting lies between.
pub proof fn law_barriers_are_ready_before_use(t: WarpThread, n: nat, bar: Bar)
    requires
        t.wf(),
        t.pc == (Pc::Setup { i: 0 }),
        uses(run(t, n).action(), bar),
    ensures
        exists|i: nat|
            i < 6 && #[trigger] readies(run(t, i).action(), bar, 1),
        run(t, 6).action() is Sync,
        6 < n,
{
    lemma_setup_passes(t, n);
    lemma_setup_passes(t, 6);
    let i: nat = match bar {
        Bar::Tma { slot } => slot as nat,
        Bar::Mma { slot } => 2 + slot as nat,
        _ => 4,
    };
    lemma_setup_passes(t, i);
    assert(readies(run(t, i).action(), bar, 1));
}

/// Tensor memory is touched only after it was allocated with enough columns and
/// all threads have met since, and given back only after that.
pub proof fn law_tensor_memory_is_there_when_touched(t: WarpThread, n: nat)
    requires
        t.wf(),
        t.pc == (Pc::Setup { i: 0 }),
        run(t, n).action() is Mma || run(t, n).action() is Drain || run(t, n).action() is DeallocTmem,
    ensures
        run(t, 10).action() == (Action::AllocTmem { columns: 128 }),
        run(t, (SETUP - 1) as nat).action() is Sync,
        SETUP <= n,
        touches_below(run(t, n).action(), 128),
{
    lemma_setup_passes(t, n);
    lemma_setup_passes(t, 10);
    lemma_setup_passes(t, (SETUP - 1) as nat);
    lemma_drain_columns(run(t, n));
}

/// The cleanup begins with a meeting, gives the tensor memory back, and puts each
/// barrier out of use once; nothing is used after that.
pub proof fn law_cleanup_puts_all_out_of_use(t: WarpThread, bar: Bar, k: nat)
    requires
        t.wf(),
        t.pc == (Pc::Cleanup { i: 0 }),
        bar is Compute || (bar matches Bar::Tma { slot } && slot < 2) || (bar matches Bar::Mma { slot }
            && slot < 2),
    ensures
        t.action() is Sync,
        run(t, 1).action() is DeallocTmem,
        run(t, k).action() == (Action::InvalBarrier { bar }) <==> k == inval_step(bar),
        k >= CLEANUP ==> run(t, k).action() is Exit,
        !uses(run(t, k).action(), bar),
        !(run(t, k).action() is Mma || run(t, k).action() is Drain || run(t, k).action() is CopyOut),
{
    lemma_cleanup_passes(t, k);
    lemma_cleanup_passes(t, 1);
}

/// Every word is copied out before the cleanup, and all threads meet between the
/// last drain and the first copy.
pub proof fn law_copies_follow_the_drains(t: WarpThread)
    requires
        t.wf(),
    ensures
        t.after().pc is CopyOut && !(t.pc is CopyOut) ==> t.pc is Meet && t.action() is Sync,
        t.after().pc is Cleanup && !(t.pc is Cleanup) ==> t.pc is CopyOut,
{
}

/// The copying warp takes four steps for each slice of the tile, in order and
/// each once, and then meets the others.
pub proof fn law_every_slice_is_copied(t: WarpThread, n: nat)
    requires
        t.wf(),
        t.pc is WaitFree,
        t.k_idx == 0,
        n <= 4 * K_ITERS,
    ensures
        n < 4 * K_ITERS ==> run(t, n) == (WarpThread {
            pc: if n % 4 == 0 {
                Pc::WaitFree
            } else if n % 4 == 1 {
                Pc::CopyA
            } else if n % 4 == 2 {
                Pc::CopyB
            } else {
                Pc::Expect
            },
            k_idx: (n / 4) as u32,
            ..t
        }),
        n == 4 * K_ITERS ==> run(t, n) == (WarpThread { pc: Pc::Meet, ..t }),
    decreases n,
{
    if n > 0 {
        law_every_slice_is_copied(t, (n - 1) as nat);
    }
}

/// The multiplying warp takes one wait, `MMAS_PER_STEP` products and one
/// commit for each slice of the tile, in order and each once, and then meets
/// the others.
pub proof fn law_every_slice_is_multiplied(t: WarpThread, n: nat)
    requires
        t.wf(),
        t.pc is WaitFull,
        t.k_idx == 0,
        t.k_sub == 0,
        n <= 6 * K_ITERS,
    ensures
        n < 6 * K_ITERS ==> run(t, n) == (WarpThread {
            pc: if n % 6 == 0 {
                Pc::WaitFull
            } else if n % 6 == 5 {
                Pc::Commit
            } else {
                Pc::Multiply
            },
            k_idx: (n / 6) as u32,
            k_sub: if n % 6 == 0 || n % 6 == 5 {
                0
            } else {
                (n % 6 - 1) as u32
            },
            ..t
        }),
        n == 6 * K_ITERS ==> run(t, n) == (WarpThread { pc: Pc::Meet, ..t }),
    decreases n,
{
    assert(MMAS_PER_STEP == 4);
    if n > 0 {
        law_every_slice_is_multiplied(t, (n - 1) as nat);
    }
}

/// A thread of the draining warps makes the drains of its warp's rows, two
/// rows of `COL_BLOCKS`, each once, and then meets the others.
pub proof fn law_every_drain_is_made(t: WarpThread, n: nat)
    requires
        t.wf(),
        t.pc is Drain,
        t.row_offset == 0,
        t.col_block == 0,
        n <= 16,
    ensures
        n < 16 ==> run(t, n) == (WarpThread {
            row_offset: (n / 8 * 16) as u32,
            col_block: (n % 8) as u32,
            ..t
        }),
        n == 16 ==> run(t, n) == (WarpThread { pc: Pc::Meet, ..t }),
    decreases n,
{
    if n > 0 {
        law_every_drain_is_made(t, (n - 1) as nat);
    }
}

/// A thread copies out the words that are its own number plus a multiple of
/// the number of threads, each once, as long as they lie in the tile, and then
/// cleans up.
pub proof fn law_every_word_is_copied_out(t: WarpThread, n: nat)
    requires
        t.wf(),
        t.pc is CopyOut,
        t.local_idx == t.tid,
        t.tid + (n - 1) * BLOCK < TILE_WORDS,
    ensures
        t.tid + n * BLOCK < TILE_WORDS ==> run(t, n) == (WarpThread {
            local_idx: (t.tid + n * BLOCK) as usize,
            ..t
        }),
        n > 0 && t.tid + n * BLOCK >= TILE_WORDS ==> run(t, n) == (WarpThread {
            pc: Pc::Cleanup { i: 0 },
            local_idx: 0,
            ..t
        }),
    decreases n,
{
    if n > 0 {
        law_every_word_is_copied_out(t, (n - 1) as nat);
    }
}

/// Every word of the tile is copied out: word `w` by the thread of its number
/// modulo the number of threads.
pub proof fn law_each_word_has_its_thread(t: WarpThread, w: nat)
    requires
        t.wf(),
        t.pc is CopyOut,
        t.local_idx == t.tid,
        w < TILE_WORDS,
        t.tid == w % BLOCK as nat,
    ensures
        run(t, w / BLOCK as nat).action() == (Action::CopyOut {
            copy: copy_at(t.tile_m as int, t.tile_n as int, w as int),
        }),
{
    let n = w / BLOCK as nat;
    assert(t.tid + n * BLOCK == w);
    law_every_word_is_copied_out(t, n);
}

/// The lanes of a warp stay together: up to the drains a lane other than the
/// first does what the first does, or nothing.
pub proof fn law_lanes_stay_together(t: WarpThread, u: WarpThread)
    requires
        t.lane0(),
        t.tid > 0,
        u == (WarpThread { tid: u.tid, ..t }),
        u.warp() == t.warp(),
        !(t.pc is Drain),
        !(t.pc is Meet),
        !(t.pc is CopyOut),
    ensures
        u.after() == (WarpThread { tid: u.tid, ..t.after() }),
        u.action() == t.action() || u.action() is Skip,
{
}

/// Slices that the copying warp has put into the ring.
pub open spec fn filled_by(p: WarpThread) -> nat {
    match p.pc {
        Pc::Setup { i: _ } => 0,
        Pc::WaitFree | Pc::CopyA | Pc::CopyB | Pc::Expect => p.k_idx as nat,
        _ => K_ITERS as nat,
    }
}

/// Slots that the multiplying warp has handed back: the last slice is answered
/// at the barrier of the finished tile instead.
pub open spec fn released_by(c: WarpThread) -> nat {
    match c.pc {
        Pc::Setup { i: _ } => 0,
        Pc::WaitFull | Pc::Multiply | Pc::Commit => c.k_idx as nat,
        _ => (K_ITERS - 1) as nat,
    }
}

/// Phases that the barrier of the finished tile has completed.
pub open spec fn finished_phases(c: WarpThread) -> nat {
    match c.pc {
        Pc::Setup { i: _ } => 0,
        Pc::WaitFull | Pc::Multiply | Pc::Commit => 0,
        _ => 1,
    }
}

/// Invariant of the copying and the multiplying warp of one block, whatever
/// the order in which they take their steps. Copies and products are taken to
/// complete when they are announced.
pub open spec fn pipeline_inv(p: WarpThread, c: WarpThread) -> bool {
    &&& p.wf()
    &&& c.wf()
    &&& p.warp() == TMA_WARP
    &&& c.warp() == MMA_WARP
    &&& !(p.pc is WaitFull || p.pc is Multiply || p.pc is Commit)
    &&& !(c.pc is WaitFree || c.pc is CopyA || c.pc is CopyB || c.pc is Expect)
    &&& !(p.pc is WaitTile || p.pc is Drain || c.pc is WaitTile || c.pc is Drain)
    &&& ring_inv(filled_by(p), released_by(c), RING as nat)
    &&& (p.pc is CopyA || p.pc is CopyB || p.pc is Expect) ==> filled_by(p) < released_by(c)
        + RING
    &&& (c.pc is Multiply || c.pc is Commit) ==> released_by(c) < filled_by(p)
    &&& finished_phases(c) == 1 ==> filled_by(p) == K_ITERS
}

/// Phases that a barrier has completed: one for each slice that was announced,
/// each slot that was handed back, one given in advance for each slot, and one
/// for the finished tile.
pub open spec fn phases(p: WarpThread, c: WarpThread, bar: Bar) -> nat {
    match bar {
        Bar::Tma { slot } => full_phases(filled_by(p), slot as nat, RING as nat),
        Bar::Mma { slot } => free_phases(released_by(c), slot as nat, RING as nat),
        Bar::Compute => finished_phases(c),
        _ => 0,
    }
}

/// Whether the barriers let a thread of the block take its next action: it is no
/// wait, or the phase that it waits for has completed.
pub open spec fn let_through(p: WarpThread, c: WarpThread, action: Action) -> bool {
    match action {
        Action::WaitParity { bar, parity } => wait_passes(phases(p, c, bar), parity as nat),
        _ => true,
    }
}

/// Whether the copying warp can take its next step.
pub open spec fn producer_may_step(p: WarpThread, c: WarpThread) -> bool {
    let_through(p, c, p.action())
}

/// Whether the multiplying warp can take its next step.
pub open spec fn consumer_may_step(p: WarpThread, c: WarpThread) -> bool {
    let_through(p, c, c.action())
}

/// The barrier at which an action arrives, or has hardware arrive.
pub open spec fn arrival(action: Action) -> Option<Bar> {
    match action {
        Action::Arrive { bar } => Some(bar),
        Action::ArriveExpect { bar, bytes: _ } => Some(bar),
        Action::Commit { bar } => Some(bar),
        _ => None,
    }
}

/// Phases are completed by arrivals and by nothing else: with a step of the first
/// lane of either warp a barrier completes one phase more if the step arrives at
/// it, and none otherwise.
pub proof fn law_phases_count_arrivals(p: WarpThread, c: WarpThread, bar: Bar)
    requires
        pipeline_inv(p, c),
        p.lane0() && c.lane0(),
        bar matches Bar::Tma { slot } ==> slot < 2,
        bar matches Bar::Mma { slot } ==> slot < 2,
    ensures
        !(p.pc is Setup) ==> phases(p.after(), c, bar) == phases(p, c, bar) + if arrival(p.action())
            == Some(bar) {
            1int
        } else {
            0int
        },
        !(c.pc is Setup) ==> phases(p, c.after(), bar) == phases(p, c, bar) + if arrival(c.action())
            == Some(bar) {
            1int
        } else {
            0int
        },
        p.pc is Setup ==> phases(p.after(), c, bar) == phases(p, c, bar),
        c.pc is Setup ==> phases(p, c.after(), bar) == phases(p, c, bar),
{
    reveal_with_fuel(visits, 2);
}

/// Bytes of the tile that a copy brings: 128 rows of 64 entries, two bytes each.
pub open spec fn copied_bytes(action: Action) -> int {
    if action is CopyTile {
        16384
    } else {
        0
    }
}

/// The copying warp announces at a barrier what it has started to copy with it
/// since it announced last, all of it and no more: for each slice the tile of A
/// and the tile of B, both into the slot of the barrier.
pub proof fn law_announced_bytes_are_the_copied_ones(p: WarpThread)
    requires
        p.wf(),
        p.pc is CopyA,
        p.lane0(),
    ensures
        ({
            let (first, second, third) = (
                p.action(),
                p.after().action(),
                p.after().after().action(),
            );
            &&& first matches Action::CopyTile { operand: Operand::A, slot: _, x: _, y: _, bar: _ }
            &&& second matches Action::CopyTile {
                operand: Operand::B,
                slot: _,
                x: _,
                y: _,
                bar: _,
            }
            &&& third matches Action::ArriveExpect { bar, bytes } && {
                &&& bytes == copied_bytes(first) + copied_bytes(second)
                &&& first->CopyTile_bar == bar && second->CopyTile_bar == bar
                &&& bar == (Bar::Tma { slot: first->CopyTile_slot })
                &&& second->CopyTile_slot == first->CopyTile_slot
            }
            &&& p.after().after().after().pc is WaitFree || p.after().after().after().pc is Meet
        }),
{
}

proof fn lemma_waits(p: WarpThread, c: WarpThread)
    requires
        pipeline_inv(p, c),
    ensures
        p.pc is WaitFree ==> (producer_may_step(p, c) <==> filled_by(p) < released_by(c) + RING),
        c.pc is WaitFull ==> (consumer_may_step(p, c) <==> released_by(c) < filled_by(p)),
{
    law_producer_wait_is_exact(filled_by(p), released_by(c), RING as nat);
    law_consumer_wait_is_exact(filled_by(p), released_by(c), RING as nat);
    assert(slot_of(filled_by(p), RING as nat) == filled_by(p) % 2);
    assert(parity_of(filled_by(p), RING as nat) == filled_by(p) / 2 % 2);
    assert(slot_of(released_by(c), RING as nat) == released_by(c) % 2);
    assert(parity_of(released_by(c), RING as nat) == released_by(c) / 2 % 2);
}

/// The two warps start in the pipeline invariant, and every step of either
/// keeps it.
pub proof fn law_pipeline_inv_is_kept(p: WarpThread, c: WarpThread)
    requires
        p.wf() && c.wf() && p.warp() == TMA_WARP && c.warp() == MMA_WARP,
    ensures
        p.pc is Setup && c.pc is Setup ==> pipeline_inv(p, c),
        pipeline_inv(p, c) && producer_may_step(p, c) ==> pipeline_inv(p.after(), c),
        pipeline_inv(p, c) && consumer_may_step(p, c) ==> pipeline_inv(p, c.after()),
{
    if pipeline_inv(p, c) {
        lemma_waits(p, c);
    }
}

/// The pipeline never deadlocks: when both warps wait for a slot, one of them
/// is let through.
pub proof fn law_pipeline_makes_progress(p: WarpThread, c: WarpThread)
    requires
        pipeline_inv(p, c),
    ensures
        producer_may_step(p, c) || consumer_may_step(p, c),
{
    lemma_waits(p, c);
}

/// A block never loads into the slot that is being multiplied.
pub proof fn law_copies_spare_the_slot_in_use(p: WarpThread, c: WarpThread)
    requires
        pipeline_inv(p, c),
        p.pc is CopyA || p.pc is CopyB || p.pc is Expect,
        c.pc is Multiply || c.pc is Commit,
    ensures
        p.slot() != c.slot(),
{
}

/// A product reads the slice it means: that slice has been filled into its
/// slot, and nothing has come into the slot since.
pub proof fn law_products_read_their_own_slice(p: WarpThread, c: WarpThread, other: nat)
    requires
        pipeline_inv(p, c),
        c.pc is Multiply,
        other < filled_by(p),
        other % 2 == c.slot(),
    ensures
        c.k_idx < filled_by(p),
        other <= c.k_idx,
{
    law_slot_holds_its_step(filled_by(p), released_by(c), other, RING as nat);
}

/// The draining warps wait for the whole tile: the barrier that they wait on
/// lets them through exactly when the last slice has been multiplied.
pub proof fn law_drains_wait_for_the_tile(t: WarpThread, c: WarpThread)
    requires
        t.pc is WaitTile,
        c.wf(),
        c.warp() == MMA_WARP,
    ensures
        t.action() == (Action::WaitParity { bar: Bar::Compute, parity: 0 }),
        wait_passes(finished_phases(c), 0) <==> finished_phases(c) == 1,
        c.pc is Commit && c.lane0() ==> (c.action() == (Action::Commit { bar: Bar::Compute })
            <==> finished_phases(c.after()) == 1),
{
}

/// The copying and the multiplying warp of a block, by their first lanes, with
/// what the slots and the accumulator hold.
pub struct Block {
    pub p: WarpThread,
    pub c: WarpThread,
    pub slots: Slots,
    pub accums: Seq<Seq<Piece>>,
}

/// The block after a step of the copying warp.
pub open spec fn copy_turn(b: Block) -> Block {
    Block { p: b.p.after(), slots: slots_after(b.slots, b.p.action()), ..b }
}

/// The block after a step of the multiplying warp.
pub open spec fn multiply_turn(b: Block) -> Block {
    Block {
        c: b.c.after(),
        slots: slots_after(b.slots, b.c.action()),
        accums: accums_after(b.accums, b.slots, b.c.action()),
        ..b
    }
}

/// Products that the multiplying warp has made.
pub open spec fn made_by(c: WarpThread) -> int {
    match c.pc {
        Pc::Setup { i: _ } => 0,
        Pc::WaitFull => c.k_idx * 4,
        Pc::Multiply => c.k_idx * 4 + c.k_sub,
        Pc::Commit => c.k_idx * 4 + 4,
        _ => all_pieces(),
    }
}

/// Slot `g % RING` holds slice `g` of the rows of A that the tile needs.
pub open spec fn holds_a(b: Block, g: int) -> bool {
    &&& b.slots.a[g % 2] == (g * BK, b.p.tile_m * BM)
    &&& b.slots.a_bar[g % 2] is None || b.slots.a_bar[g % 2] == Some(Bar::Tma { slot: (g % 2) as u32 })
}

/// Slot `g % RING` holds slice `g` of the rows of the transposed B that the
/// tile needs.
pub open spec fn holds_b(b: Block, g: int) -> bool {
    &&& b.slots.b[g % 2] == (g * BK, b.p.tile_n * BN)
    &&& b.slots.b_bar[g % 2] is None || b.slots.b_bar[g % 2] == Some(Bar::Tma { slot: (g % 2) as u32 })
}

/// Slot `g % RING` holds slice `g` of both operands.
pub open spec fn holds_slice(b: Block, g: int) -> bool {
    holds_a(b, g) && holds_b(b, g)
}

/// Invariant of a block with its memories: the slots between the two warps hold
/// the slices of the tile, and the accumulator holds the products made so far.
pub open spec fn block_inv(b: Block) -> bool {
    &&& pipeline_inv(b.p, b.c)
    &&& b.p.lane0() && b.c.lane0()
    &&& b.p.tile_m == b.c.tile_m && b.p.tile_n == b.c.tile_n
    &&& b.slots.has(2) && b.accums.len() == 1
    &&& (b.c.pc is Multiply || b.c.pc is Commit) ==> b.slots.arrived(b.c.k_idx as int % 2)
    &&& forall|g: int|
        released_by(b.c) <= g < filled_by(b.p) ==> #[trigger] holds_slice(b, g)
    &&& (b.p.pc is CopyB || b.p.pc is Expect) ==> holds_a(b, filled_by(b.p) as int)
    &&& b.p.pc is Expect ==> holds_b(b, filled_by(b.p) as int)
    &&& made_by(b.c) > 0 ==> b.accums[0] == products(
        b.p.tile_m as int,
        b.p.tile_n as int,
        made_by(b.c),
    )
}

/// A block starts in its invariant, and every step of either warp that its
/// barriers let through keeps it.
#[verifier::rlimit(100)]
pub proof fn law_block_inv_is_kept(b: Block)
    requires
        b.p.wf() && b.c.wf() && b.p.warp() == TMA_WARP && b.c.warp() == MMA_WARP,
        b.p.lane0() && b.c.lane0(),
        b.p.tile_m == b.c.tile_m && b.p.tile_n == b.c.tile_n,
        b.slots.has(2) && b.accums.len() == 1,
    ensures
        b.p.pc is Setup && b.c.pc is Setup ==> block_inv(b),
        block_inv(b) && producer_may_step(b.p, b.c) ==> block_inv(copy_turn(b)),
        block_inv(b) && consumer_may_step(b.p, b.c) ==> block_inv(multiply_turn(b)),
{
    law_pipeline_inv_is_kept(b.p, b.c);
    if block_inv(b) && producer_may_step(b.p, b.c) {
        lemma_copy_turn(b);
    }
    if block_inv(b) && consumer_may_step(b.p, b.c) {
        lemma_multiply_turn(b);
    }
}

#[verifier::rlimit(100)]
proof fn lemma_copy_turn(b: Block)
    requires
        block_inv(b),
        producer_may_step(b.p, b.c),
    ensures
        block_inv(copy_turn(b)),
{
    let n = copy_turn(b);
    law_pipeline_inv_is_kept(b.p, b.c);
    let f = filled_by(b.p) as int;
    assert forall|g: int| released_by(n.c) <= g < filled_by(n.p) implies #[trigger] holds_slice(n, g) by {
        if g < f {
            assert(holds_slice(b, g));
        }
    }
}

#[verifier::rlimit(100)]
proof fn lemma_multiply_turn(b: Block)
    requires
        block_inv(b),
        consumer_may_step(b.p, b.c),
    ensures
        block_inv(multiply_turn(b)),
{
    let n = multiply_turn(b);
    law_pipeline_inv_is_kept(b.p, b.c);
    assert(MMAS_PER_STEP == 4);
    assert forall|g: int| released_by(n.c) <= g < filled_by(n.p) implies #[trigger] holds_slice(n, g) by {
        assert(holds_slice(b, g));
    }
    if b.c.pc is Multiply {
        let g = b.c.k_idx as int;
        assert(holds_slice(b, g));
        assert(g * 64 / 16 == g * 4);
        lemma_next_product(b.p.tile_m as int, b.p.tile_n as int, made_by(b.c));
    } else if b.c.pc is WaitFull {
        let g = b.c.k_idx as int;
        lemma_waits(b.p, b.c);
        assert(holds_slice(b, g));
        assert(n.slots.arrived(g % 2));
    }
}

/// When the draining warps are let through, the accumulator holds all products
/// of the tile, in order and each once, and nothing else: the tile of A · B.
pub proof fn law_tile_is_the_product(b: Block)
    requires
        block_inv(b),
        wait_passes(finished_phases(b.c), 0),
    ensures
        b.accums[0] == whole(b.p.tile_m as int, b.p.tile_n as int),
{
}

/// Words that a thread copies out.
pub open spec fn rounds(tid: int) -> int {
    (TILE_WORDS - tid + BLOCK - 1) / BLOCK as int
}

/// Once the packed tile holds the tile of A · B, a thread writes finished words
/// to C and nothing else, its own among them.
pub proof fn law_thread_writes_finished_words(
    writes: Map<int, Source>,
    smem: Seq<Source>,
    t: WarpThread,
)
    requires
        t.wf(),
        t.pc is CopyOut,
        t.local_idx == t.tid,
        all_finished(writes),
        forall|w: int|
            0 <= w < TILE_WORDS ==> #[trigger] holds_word(
                smem,
                t.tile_m as int,
                t.tile_n as int,
                w,
            ),
    ensures
        ({
            let r = writes_after(
                writes,
                smem,
                |i: int| run(t, i as nat).action(),
                rounds(t.tid as int),
            );
            &&& all_finished(r)
            &&& covers_strided(
                r,
                t.tile_m as int,
                t.tile_n as int,
                BLOCK as int,
                t.tid as int,
            )
        }),
{
    let actions = |i: int| run(t, i as nat).action();
    let words = |i: int| t.tid + i * BLOCK;
    let (m, n) = (t.tile_m as int, t.tile_n as int);
    let count = rounds(t.tid as int);
    assert forall|i: int| 0 <= i < count implies #[trigger] actions(i) == (Action::CopyOut {
        copy: copy_at(m, n, words(i)),
    }) && 0 <= words(i) < TILE_WORDS && holds_word(smem, m, n, words(i)) by {
        law_every_word_is_copied_out(t, i as nat);
    }
    lemma_copies_are_finished(writes, smem, actions, m, n, words, count);
    let r = writes_after(writes, smem, actions, count);
    assert forall|w: int| 0 <= w < TILE_WORDS && w % 192 == t.tid implies r.contains_key(
        #[trigger] global_word(m, n, w),
    ) by {
        assert(words(w / 192) == w);
        assert(w / 192 < count);
        assert(r.contains_key(global_word(m, n, words(w / 192))));
    }
}

/// A run can be taken in two parts.
proof fn lemma_run_splits(t: WarpThread, m: nat, n: nat)
    ensures
        run(t, m + n) == run(run(t, m), n),
    decreases n,
{
    if n > 0 {
        lemma_run_splits(t, m, (n - 1) as nat);
    }
}

/// Thread `tid` of the block of an output tile, before the setup.
pub open spec fn first(tid: u32, tile_m: u32, tile_n: u32) -> WarpThread {
    WarpThread {
        tid,
        tile_m,
        tile_n,
        pc: Pc::Setup { i: 0 },
        k_idx: 0,
        k_sub: 0,
        row_offset: 0,
        col_block: 0,
        local_idx: 0,
    }
}

/// Steps of a draining thread before its first drain.
pub open spec fn drain_start() -> nat {
    13
}

/// Steps of a thread before the first word that it copies out: its part between
/// setup and meeting depends on its warp.
pub open spec fn copy_start(tid: int) -> nat {
    if tid < 128 {
        30
    } else if tid < 160 {
        525
    } else {
        781
    }
}

/// Where a thread stands at the first drain and the first word that it copies
/// out.
proof fn lemma_milestones(t: WarpThread)
    requires
        t == first(t.tid, t.tile_m, t.tile_n),
        t.wf(),
    ensures
        t.tid < 128 ==> run(t, drain_start()) == (WarpThread { pc: Pc::Drain, ..t }),
        run(t, copy_start(t.tid as int)) == (WarpThread {
            pc: Pc::CopyOut,
            local_idx: t.tid as usize,
            ..t
        }),
{
    reveal_with_fuel(run, 14);
    let s = run(t, 12);
    assert(s == (WarpThread { pc: t.role(), ..t }));
    if t.tid < 128 {
        let d = run(t, 13);
        assert(d == (WarpThread { pc: Pc::Drain, ..t }));
        law_every_drain_is_made(d, 16);
        lemma_run_splits(t, 13, 16);
        assert(run(t, 29) == (WarpThread { pc: Pc::Meet, ..t }));
        assert(run(t, 30) == run(t, 29).after());
    } else if t.tid < 160 {
        law_every_slice_is_copied(s, 512);
        lemma_run_splits(t, 12, 512);
        assert(run(t, 524) == (WarpThread { pc: Pc::Meet, ..t }));
        assert(run(t, 525) == run(t, 524).after());
    } else {
        law_every_slice_is_multiplied(s, 768);
        lemma_run_splits(t, 12, 768);
        assert(run(t, 780) == (WarpThread { pc: Pc::Meet, ..t }));
        assert(run(t, 781) == run(t, 780).after());
    }
}

/// The block of an output tile when its draining warps are let through, what its
/// packed tile holds then, and the order in which the warps come to drain.
pub struct TileBlock {
    pub end: Block,
    pub smem: Seq<Source>,
    pub order: Seq<int>,
}

impl TileBlock {
    /// The block has kept its invariant, the last slice has been multiplied, and
    /// all four warps drain.
    pub open spec fn wf(self) -> bool {
        &&& block_inv(self.end)
        &&& wait_passes(finished_phases(self.end.c), 0)
        &&& self.smem.len() == TILE_WORDS
        &&& forall|k: int| 0 <= k < self.order.len() ==> 0 <= #[trigger] self.order[k] < 4
        &&& forall|warp_id: int| 0 <= warp_id < 4 ==> #[trigger] self.order.contains(warp_id)
    }

    pub open spec fn tile_m(self) -> u32 {
        self.end.p.tile_m
    }

    pub open spec fn tile_n(self) -> u32 {
        self.end.p.tile_n
    }

    /// What a thread does at a step from its start.
    pub open spec fn action(self, tid: int, step: int) -> Action {
        run(first(tid as u32, self.tile_m(), self.tile_n()), step as nat).action()
    }

    /// The packed tile when all warps have drained.
    pub open spec fn smem_end(self) -> Seq<Source> {
        tile_after_warps(
            self.smem,
            self.end.accums,
            |warp_id: int, i: int, lane: int|
                self.action(warp_id * 32 + lane, drain_start() as int + i),
            self.order,
        )
    }

    /// What a thread writes to C.
    pub open spec fn writes(self, tid: int) -> Map<int, Source> {
        writes_after(
            Map::<int, Source>::empty(),
            self.smem_end(),
            |i: int| self.action(tid, copy_start(tid) as int + i),
            rounds(tid),
        )
    }
}

/// A block leaves the tile of A · B in its packed tile, in whatever order its
/// warps drained.
pub proof fn law_block_packs_its_tile(b: TileBlock, w: int)
    requires
        b.wf(),
        0 <= w < TILE_WORDS,
    ensures
        holds_word(b.smem_end(), b.tile_m() as int, b.tile_n() as int, w),
{
    law_tile_is_the_product(b.end);
    let actions = |warp_id: int, i: int, lane: int|
        b.action(warp_id * 32 + lane, drain_start() as int + i);
    assert forall|warp_id: int, i: int, lane: int|
        0 <= warp_id < 4 && 0 <= i < 16 && 0 <= lane < 32 implies #[trigger] actions(
        warp_id,
        i,
        lane,
    ) == (Action::Drain { drain: drain_at(0, warp_id, lane, i / 8 * 16, i % 8) }) by {
        let u = first((warp_id * 32 + lane) as u32, b.tile_m(), b.tile_n());
        assert(u.tid / 32 == warp_id && u.tid % 32 == lane);
        lemma_milestones(u);
        law_every_drain_is_made(run(u, drain_start()), i as nat);
        lemma_run_splits(u, drain_start(), i as nat);
    }
    law_four_warps_store_the_tile(
        b.smem,
        b.end.accums,
        actions,
        b.order,
        b.tile_m() as int,
        b.tile_n() as int,
        w,
    );
}

/// A thread of a block writes finished words and nothing else, its own among
/// them.
pub proof fn law_block_writes_its_tile(b: TileBlock, tid: int)
    requires
        b.wf(),
        0 <= tid < BLOCK,
    ensures
        all_finished(b.writes(tid)),
        covers_strided(b.writes(tid), b.tile_m() as int, b.tile_n() as int, BLOCK as int, tid),
{
    let t = first(tid as u32, b.tile_m(), b.tile_n());
    lemma_milestones(t);
    let o = run(t, copy_start(tid));
    assert forall|w: int| 0 <= w < TILE_WORDS implies #[trigger] holds_word(
        b.smem_end(),
        o.tile_m as int,
        o.tile_n as int,
        w,
    ) by {
        law_block_packs_its_tile(b, w);
    }
    let none = Map::<int, Source>::empty();
    law_thread_writes_finished_words(none, b.smem_end(), o);
    let here = |i: int| run(o, i as nat).action();
    let from_start = |i: int| b.action(tid, copy_start(tid) as int + i);
    lemma_same_writes(none, b.smem_end(), t, here, from_start, rounds(tid));
}

/// Numbering a thread's steps from its start or from its first copy makes no
/// difference.
proof fn lemma_same_writes(
    writes: Map<int, Source>,
    smem: Seq<Source>,
    t: WarpThread,
    here: spec_fn(int) -> Action,
    from_start: spec_fn(int) -> Action,
    n: int,
)
    requires
        forall|i: int| #[trigger] here(i) == run(
            run(t, copy_start(t.tid as int)),
            i as nat,
        ).action(),
        forall|i: int| #[trigger] from_start(i) == run(
            t,
            (copy_start(t.tid as int) as int + i) as nat,
        ).action(),
    ensures
        writes_after(writes, smem, here, n) == writes_after(writes, smem, from_start, n),
    decreases n,
{
    if n > 0 {
        lemma_same_writes(writes, smem, t, here, from_start, n - 1);
        lemma_run_splits(t, copy_start(t.tid as int), (n - 1) as nat);
        assert(here(n - 1) == from_start(n - 1));
    }
}

/// Some block is that of the tile.
pub open spec fn some_block_has(blocks: Seq<TileBlock>, tile_m: int, tile_n: int) -> bool {
    exists|i: int|
        0 <= i < blocks.len() && (#[trigger] blocks[i]).tile_m() == tile_m && blocks[i].tile_n()
            == tile_n
}

/// These are writes of a thread of one of the blocks.
pub open spec fn of_a_thread(blocks: Seq<TileBlock>, writes: Map<int, Source>) -> bool {
    exists|i: int, tid: int|
        0 <= i < blocks.len() && 0 <= tid < BLOCK && writes == #[trigger] blocks[i].writes(tid)
}

/// A launch with a block for every output tile leaves the product in C, whatever
/// C and the memories of the blocks held before, and in whatever order the
/// threads of all blocks wrote.
pub proof fn law_launch_leaves_the_product(
    c: Seq<u32>,
    blocks: Seq<TileBlock>,
    threads: Seq<Map<int, Source>>,
    unit: spec_fn(Source) -> u32,
)
    requires
        c.len() == c_words(),
        forall|i: int| 0 <= i < blocks.len() ==> (#[trigger] blocks[i]).wf(),
        forall|tile_m: int, tile_n: int|
            0 <= tile_m < TILES_M && 0 <= tile_n < TILES_N ==> #[trigger] some_block_has(
                blocks,
                tile_m,
                tile_n,
            ),
        forall|j: int| 0 <= j < threads.len() ==> of_a_thread(blocks, #[trigger] threads[j]),
        forall|i: int, tid: int|
            0 <= i < blocks.len() && 0 <= tid < BLOCK ==> threads.contains(
                #[trigger] blocks[i].writes(tid),
            ),
    ensures
        c_after(c, threads, unit) == product_words(unit),
{
    assert forall|j: int| 0 <= j < threads.len() implies all_finished(#[trigger] threads[j]) by {
        assert(of_a_thread(blocks, threads[j]));
        let (i, tid) = choose|i: int, tid: int|
            0 <= i < blocks.len() && 0 <= tid < BLOCK && threads[j] == #[trigger] blocks[i].writes(
                tid,
            );
        law_block_writes_its_tile(blocks[i], tid);
    }
    assert forall|tile_m: int, tile_n: int, rest: int|
        0 <= tile_m < TILES_M && 0 <= tile_n < TILES_N && 0 <= rest
            < BLOCK implies #[trigger] some_thread_covers(
        threads,
        tile_m,
        tile_n,
        BLOCK as int,
        rest,
    ) by {
        assert(some_block_has(blocks, tile_m, tile_n));
        let i = choose|i: int|
            0 <= i < blocks.len() && (#[trigger] blocks[i]).tile_m() == tile_m
                && blocks[i].tile_n() == tile_n;
        law_block_writes_its_tile(blocks[i], rest);
        assert(threads.contains(blocks[i].writes(rest)));
        let j = choose|j: int| 0 <= j < threads.len() && threads[j] == blocks[i].writes(rest);
        assert(covers_strided(threads[j], tile_m, tile_n, BLOCK as int, rest));
    }
    law_launch_of_tiles_leaves_the_product(c, threads, unit, BLOCK as int);
}

/// The setup, step by step: all threads make the barriers ready together, make
/// that visible to the copy engine and meet; the first thread alone arrives once
/// at the barrier of each slot, so that the first round does not stall, and all
/// meet; they allocate tensor memory and meet.
pub proof fn law_setup_prepares_the_block(t: WarpThread, n: nat, slot: u32)
    requires
        t.wf(),
        t.pc == (Pc::Setup { i: 0 }),
        n < SETUP,
        slot < 2,
    ensures
        ({
            let action = run(t, n).action();
            &&& action is InitBarrier <==> n < 5
            &&& action is InitBarrier ==> action->InitBarrier_together
                && action->InitBarrier_count == 1
            &&& action is Fence <==> n == 5
            &&& action is Sync <==> n == 6 || n == 9 || n == 11
            &&& action is AllocTmem <==> n == 10
            &&& action == (Action::Arrive { bar: Bar::Mma { slot } }) <==> t.tid == 0 && n == 7
                + slot
            &&& t.tid != 0 && (n == 7 || n == 8) ==> action is Skip
            &&& n + 1 == SETUP ==> run(t, n + 1).pc == (if t.tid / 32 == 4 {
                Pc::WaitFree
            } else if t.tid / 32 == 5 {
                Pc::WaitFull
            } else {
                Pc::WaitTile
            })
        }),
{
    lemma_setup_passes(t, n);
}

/// Copies, products, announcements and hand-backs are made by the first lane of
/// their warp alone; the other lanes do nothing meanwhile.
pub proof fn law_only_first_lanes_act(t: WarpThread)
    requires
        t.wf(),
        t.pc is CopyA || t.pc is CopyB || t.pc is Expect || t.pc is Multiply || t.pc is Commit,
    ensures
        t.action() is Skip <==> t.tid % 32 != 0,
        t.tid % 32 == 0 ==> (t.pc is CopyA || t.pc is CopyB <==> t.action() is CopyTile),
        t.tid % 32 == 0 ==> (t.pc is Expect <==> t.action() is ArriveExpect),
        t.tid % 32 == 0 ==> (t.pc is Multiply <==> t.action() is Mma),
        t.tid % 32 == 0 ==> (t.pc is Commit <==> t.action() is Commit),
{
}

/// All lanes of a warp wait where its first lane waits, so that no lane runs ahead.
pub proof fn law_all_lanes_wait(t: WarpThread)
    requires
        t.wf(),
    ensures
        t.pc is WaitFree ==> t.action() == (Action::WaitParity {
            bar: Bar::Mma { slot: t.k_idx % 2 },
            parity: (t.k_idx / 2) % 2,
        }),
        t.pc is WaitFull ==> t.action() == (Action::WaitParity {
            bar: Bar::Tma { slot: t.k_idx % 2 },
            parity: (t.k_idx / 2) % 2,
        }),
        t.pc is WaitTile ==> t.action() == (Action::WaitParity { bar: Bar::Compute, parity: 0 }),
        t.pc is Meet ==> t.action() is Sync,
{
}

} // verus!
