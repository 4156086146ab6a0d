//! One output tile per block, all threads in step: the first thread copies and
//! multiplies, the others wait for it, and all of them drain.
//!
//! Launch dims: grid (`TILES_M`, `TILES_N`, 1), block (128, 1, 1).
use vstd::prelude::*;
use crate::device::{
    first_lane_only, only_first_lane, readies, touches_below, uses, Action, Bar, Operand,
};
use crate::dims::{
    BK, BM, BN, COMBINED_BYTES, K_ITERS, MMAS_PER_STEP, MMA_K_BYTES, TILES_M, TILES_N,
};
use crate::epilogue::{
    copy_at, copy_out_flat, drain, drain_at, drain_in_range, global_word, CopyOut, Drain, COL_BLOCKS,
    DRAIN_ROWS, ROWS_PER_WARP, TILE_WORDS,
};
use crate::memory::{
    accums_after, all_finished, all_pieces, c_after, c_words, covers_strided, holds_word,
    law_four_warps_store_the_tile, law_launch_of_tiles_leaves_the_product,
    lemma_copies_are_finished, lemma_next_product, product_words, products, slots_after,
    some_thread_covers, tile_after_warps, whole, writes_after, Piece, Slots, Source,
};
use crate::ring::wait_passes;

verus! {

/// Threads of a block.
pub const BLOCK: u32 = 128;

/// Columns of tensor memory, those of the one accumulator.
pub const COLUMNS: u32 = 128;

/// Actions before the first slice.
pub const SETUP: u32 = 6;

/// Actions after the tile has been copied out.
pub const CLEANUP: u32 = 4;

/// The barrier at which the copied slice arrives.
pub open spec fn tma_bar() -> Bar {
    Bar::Tma { slot: 0 }
}

/// The barrier at which the product arrives.
pub open spec fn mma_bar() -> Bar {
    Bar::Mma { slot: 0 }
}

/// Step `i` of the setup: every thread arrives for a slice, one product
/// arrives for it.
pub open spec fn setup_action(i: u32) -> Action {
    if i == 0 {
        Action::InitBarrier { bar: tma_bar(), count: BLOCK, together: true }
    } else if i == 1 {
        Action::InitBarrier { bar: mma_bar(), count: 1, together: true }
    } else if i == 2 {
        Action::Fence
    } else if i == 4 {
        Action::AllocTmem { columns: COLUMNS }
    } else {
        Action::Sync
    }
}

fn setup(i: u32) -> (r: Action)
    ensures
        r == setup_action(i),
{
    if i == 0 {
        Action::InitBarrier { bar: Bar::Tma { slot: 0 }, count: BLOCK, together: true }
    } else if i == 1 {
        Action::InitBarrier { bar: Bar::Mma { slot: 0 }, count: 1, together: true }
    } else if i == 2 {
        Action::Fence
    } else if i == 4 {
        Action::AllocTmem { columns: COLUMNS }
    } else {
        Action::Sync
    }
}

/// Step `i` of the cleanup.
pub open spec fn cleanup_action(i: u32) -> Action {
    if i == 0 {
        Action::Sync
    } else if i == 1 {
        Action::DeallocTmem
    } else if i == 2 {
        Action::InvalBarrier { bar: tma_bar() }
    } else {
        Action::InvalBarrier { bar: mma_bar() }
    }
}

fn cleanup(i: u32) -> (r: Action)
    ensures
        r == cleanup_action(i),
{
    if i == 0 {
        Action::Sync
    } else if i == 1 {
        Action::DeallocTmem
    } else if i == 2 {
        Action::InvalBarrier { bar: Bar::Tma { slot: 0 } }
    } else {
        Action::InvalBarrier { bar: Bar::Mma { slot: 0 } }
    }
}

/// Where a thread stands.
#[derive(Clone, Copy, PartialEq, Eq, Structural, Debug)]
pub enum Pc {
    Setup { i: u32 },
    CopyA,
    CopyB,
    Arrive,
    WaitSlice,
    Multiply,
    Commit,
    WaitProduct,
    MeetSlice,
    Drain,
    Meet,
    CopyOut,
    Cleanup { i: u32 },
    Done,
}

/// Thread `tid` of the block of output tile (`tile_m`, `tile_n`).
#[derive(Clone, Copy, PartialEq, Eq, Structural, Debug)]
pub struct BasicThread {
    pub tid: u32,
    pub tile_m: u32,
    pub tile_n: u32,
    pub pc: Pc,
    pub k_idx: u32,
    pub k_sub: u32,
    pub row_offset: u32,
    pub col_block: u32,
    pub local_idx: usize,
}

impl BasicThread {
    pub open spec fn wf(self) -> bool {
        &&& self.tid < BLOCK
        &&& self.tile_m < TILES_M
        &&& self.tile_n < TILES_N
        &&& self.k_idx < K_ITERS
        &&& self.k_sub < MMAS_PER_STEP
        &&& drain_in_range(
            self.warp() as int,
            self.lane() as int,
            self.row_offset as int,
            self.col_block as int,
        )
        &&& self.local_idx < TILE_WORDS
        &&& match self.pc {
            Pc::Setup { i } => i < SETUP,
            Pc::Cleanup { i } => i < CLEANUP,
            _ => true,
        }
    }

    pub open spec fn warp(self) -> u32 {
        self.tid / 32
    }

    pub open spec fn lane(self) -> u32 {
        self.tid % 32
    }

    /// What the thread does next.
    pub open spec fn action(self) -> Action {
        let thread0 = self.tid == 0;
        match self.pc {
            Pc::Setup { i } => setup_action(i),
            Pc::CopyA => first_lane_only(
                thread0,
                Action::CopyTile {
                    operand: Operand::A,
                    slot: 0,
                    x: (self.k_idx * BK) as i32,
                    y: (self.tile_m * BM) as i32,
                    bar: tma_bar(),
                },
            ),
            Pc::CopyB => first_lane_only(
                thread0,
                Action::CopyTile {
                    operand: Operand::B,
                    slot: 0,
                    x: (self.k_idx * BK) as i32,
                    y: (self.tile_n * BN) as i32,
                    bar: tma_bar(),
                },
            ),
            Pc::Arrive => if thread0 {
                Action::ArriveExpect { bar: tma_bar(), bytes: COMBINED_BYTES }
            } else {
                Action::Arrive { bar: tma_bar() }
            },
            Pc::WaitSlice => Action::WaitArrival { bar: tma_bar() },
            Pc::Multiply => first_lane_only(
                thread0,
                Action::Mma {
                    slot: 0,
                    k_offset: (self.k_sub * MMA_K_BYTES) as u64,
                    tmem_offset: 0,
                    accumulate: self.k_idx > 0 || self.k_sub > 0,
                },
            ),
            Pc::Commit => first_lane_only(thread0, Action::Commit { bar: mma_bar() }),
            Pc::WaitProduct => Action::WaitParity { bar: mma_bar(), parity: self.k_idx % 2 },
            Pc::MeetSlice => Action::Sync,
            Pc::Drain => Action::Drain {
                drain: drain_at(
                    0,
                    self.warp() as int,
                    self.lane() as int,
                    self.row_offset as int,
                    self.col_block as int,
                ),
            },
            Pc::Meet => Action::Sync,
            Pc::CopyOut => Action::CopyOut {
                copy: copy_at(self.tile_m as int, self.tile_n as int, self.local_idx as int),
            },
            Pc::Cleanup { i } => cleanup_action(i),
            Pc::Done => Action::Exit,
        }
    }

    /// Where the thread stands afterwards.
    pub open spec fn after(self) -> BasicThread {
        match self.pc {
            Pc::Setup { i } => if i + 1 < SETUP {
                BasicThread { pc: Pc::Setup { i: (i + 1) as u32 }, ..self }
            } else {
                BasicThread { pc: Pc::CopyA, k_idx: 0, ..self }
            },
            Pc::CopyA => BasicThread { pc: Pc::CopyB, ..self },
            Pc::CopyB => BasicThread { pc: Pc::Arrive, ..self },
            Pc::Arrive => BasicThread { pc: Pc::WaitSlice, ..self },
            Pc::WaitSlice => BasicThread { pc: Pc::Multiply, k_sub: 0, ..self },
            Pc::Multiply => if self.k_sub + 1 < MMAS_PER_STEP {
                BasicThread { k_sub: (self.k_sub + 1) as u32, ..self }
            } else {
                BasicThread { pc: Pc::Commit, k_sub: 0, ..self }
            },
            Pc::Commit => BasicThread { pc: Pc::WaitProduct, ..self },
            Pc::WaitProduct => BasicThread { pc: Pc::MeetSlice, ..self },
            Pc::MeetSlice => if self.k_idx + 1 < K_ITERS {
                BasicThread { pc: Pc::CopyA, k_idx: (self.k_idx + 1) as u32, ..self }
            } else {
                BasicThread { pc: Pc::Drain, k_idx: 0, row_offset: 0, col_block: 0, ..self }
            },
            Pc::Drain => if self.col_block + 1 < COL_BLOCKS {
                BasicThread { col_block: (self.col_block + 1) as u32, ..self }
            } else if self.row_offset + DRAIN_ROWS < ROWS_PER_WARP {
                BasicThread {
                    row_offset: (self.row_offset + DRAIN_ROWS) as u32,
                    col_block: 0,
                    ..self
                }
            } else {
                BasicThread { pc: Pc::Meet, row_offset: 0, col_block: 0, ..self }
            },
            Pc::Meet => BasicThread { pc: Pc::CopyOut, local_idx: self.tid as usize, ..self },
            Pc::CopyOut => if self.local_idx + BLOCK < TILE_WORDS {
                BasicThread { local_idx: (self.local_idx + BLOCK) as usize, ..self }
            } else {
                BasicThread { pc: Pc::Cleanup { i: 0 }, local_idx: 0, ..self }
            },
            Pc::Cleanup { i } => if i + 1 < CLEANUP {
                BasicThread { pc: Pc::Cleanup { i: (i + 1) as u32 }, ..self }
            } else {
                BasicThread { pc: Pc::Done, ..self }
            },
            Pc::Done => self,
        }
    }

    /// Thread `tid` of the block of an output tile, before the setup.
    pub fn new(tid: u32, tile_m: u32, tile_n: u32) -> (r: BasicThread)
        requires
            tid < BLOCK,
            tile_m < TILES_M,
            tile_n < TILES_N,
        ensures
            r == (BasicThread {
                tid,
                tile_m,
                tile_n,
                pc: Pc::Setup { i: 0 },
                k_idx: 0,
                k_sub: 0,
                row_offset: 0,
                col_block: 0,
                local_idx: 0,
            }),
            r.wf(),
    {
        BasicThread {
            tid,
            tile_m,
            tile_n,
            pc: Pc::Setup { i: 0 },
            k_idx: 0,
            k_sub: 0,
            row_offset: 0,
            col_block: 0,
            local_idx: 0,
        }
    }
}

/// What a thread of the block does next.
pub fn gemm_tcgen05_basic(thread: &mut BasicThread) -> (action: Action)
    requires
        old(thread).wf(),
    ensures
        action == old(thread).action(),
        *final(thread) == old(thread).after(),
        final(thread).wf(),
{
    let warp_id: u32 = thread.tid / 32;
    let lane_id: u32 = thread.tid % 32;
    let thread0: bool = thread.tid == 0;
    let k_idx: u32 = thread.k_idx;
    assert(k_idx & 1 == k_idx % 2) by (bit_vector);
    let phase: u32 = k_idx & 1;
    let tma_bar: Bar = Bar::Tma { slot: 0 };
    let mma_bar: Bar = Bar::Mma { slot: 0 };
    let x: i32 = (k_idx as usize * BK) as i32;
    match thread.pc {
        Pc::Setup { i } => {
            if i + 1 < SETUP {
                thread.pc = Pc::Setup { i: i + 1 };
            } else {
                thread.pc = Pc::CopyA;
                thread.k_idx = 0;
            }
            setup(i)
        },
        Pc::CopyA => {
            thread.pc = Pc::CopyB;
            let y: i32 = (thread.tile_m as usize * BM) as i32;
            let copy: Action = Action::CopyTile {
                operand: Operand::A,
                slot: 0,
                x,
                y,
                bar: tma_bar,
            };
            only_first_lane(thread0, copy)
        },
        Pc::CopyB => {
            thread.pc = Pc::Arrive;
            let y: i32 = (thread.tile_n as usize * BN) as i32;
            let copy: Action = Action::CopyTile {
                operand: Operand::B,
                slot: 0,
                x,
                y,
                bar: tma_bar,
            };
            only_first_lane(thread0, copy)
        },
        Pc::Arrive => {
            thread.pc = Pc::WaitSlice;
            if thread0 {
                Action::ArriveExpect { bar: tma_bar, bytes: COMBINED_BYTES }
            } else {
                Action::Arrive { bar: tma_bar }
            }
        },
        Pc::WaitSlice => {
            thread.pc = Pc::Multiply;
            thread.k_sub = 0;
            Action::WaitArrival { bar: tma_bar }
        },
        Pc::Multiply => {
            let mma: Action = Action::Mma {
                slot: 0,
                k_offset: thread.k_sub as u64 * MMA_K_BYTES,
                tmem_offset: 0,
                // accumulate always except for the very first time.
                accumulate: k_idx > 0 || thread.k_sub > 0,
            };
            if thread.k_sub + 1 < MMAS_PER_STEP {
                thread.k_sub = thread.k_sub + 1;
            } else {
                thread.pc = Pc::Commit;
                thread.k_sub = 0;
            }
            only_first_lane(thread0, mma)
        },
        Pc::Commit => {
            thread.pc = Pc::WaitProduct;
            only_first_lane(thread0, Action::Commit { bar: mma_bar })
        },
        Pc::WaitProduct => {
            thread.pc = Pc::MeetSlice;
            Action::WaitParity { bar: mma_bar, parity: phase }
        },
        Pc::MeetSlice => {
            if k_idx + 1 < K_ITERS {
                thread.pc = Pc::CopyA;
                thread.k_idx = k_idx + 1;
            } else {
                thread.pc = Pc::Drain;
                thread.k_idx = 0;
                thread.row_offset = 0;
                thread.col_block = 0;
            }
            Action::Sync
        },
        Pc::Drain => {
            let piece: Drain = drain(0, warp_id, lane_id, thread.row_offset, thread.col_block);
            if thread.col_block + 1 < COL_BLOCKS {
                thread.col_block = thread.col_block + 1;
            } else {
                thread.col_block = 0;
                if thread.row_offset + DRAIN_ROWS < ROWS_PER_WARP {
                    thread.row_offset = thread.row_offset + DRAIN_ROWS;
                } else {
                    thread.pc = Pc::Meet;
                    thread.row_offset = 0;
                }
            }
            Action::Drain { drain: piece }
        },
        Pc::Meet => {
            thread.pc = Pc::CopyOut;
            thread.local_idx = thread.tid as usize;
            Action::Sync
        },
        Pc::CopyOut => {
            let copy: CopyOut = copy_out_flat(thread.tile_m, thread.tile_n, thread.local_idx);
            if thread.local_idx + (BLOCK as usize) < TILE_WORDS {
                thread.local_idx = thread.local_idx + BLOCK as usize;
            } else {
                thread.pc = Pc::Cleanup { i: 0 };
                thread.local_idx = 0;
            }
            Action::CopyOut { copy }
        },
        Pc::Cleanup { i } => {
            if i + 1 < CLEANUP {
                thread.pc = Pc::Cleanup { i: i + 1 };
            } else {
                thread.pc = Pc::Done;
            }
            cleanup(i)
        },
        Pc::Done => Action::Exit,
    }
}

/// A thread after `n` steps.
pub open spec fn run(t: BasicThread, n: nat) -> BasicThread
    decreases n,
{
    if n == 0 {
        t
    } else {
        run(t, (n - 1) as nat).after()
    }
}

/// Columns that a drain reads.
proof fn lemma_drain_columns(t: BasicThread)
    requires
        t.wf(),
    ensures
        touches_below(t.action(), 128),
{
    if t.pc is Drain {
        let row = crate::epilogue::drain_row(t.warp() as int, t.row_offset as int);
        let col = t.col_block * 16;
        assert(0 <= row < 128 && 0 <= col <= 112);
        assert((row * 0x1_0000 + col) % 0x1_0000 == col);
        assert((row * 0x1_0000 + (col + 8)) % 0x1_0000 == col + 8);
    }
}

/// The setup takes its steps in order, and nothing comes back to it.
proof fn lemma_setup_passes(t: BasicThread, n: nat)
    requires
        t.wf(),
        t.pc == (Pc::Setup { i: 0 }),
    ensures
        n < SETUP ==> run(t, n) == (BasicThread { pc: Pc::Setup { i: n as u32 }, ..t }),
        n >= SETUP ==> !(run(t, n).pc is Setup),
        run(t, n).wf(),
        run(t, n).tid == t.tid,
    decreases n,
{
    if n > 0 {
        lemma_setup_passes(t, (n - 1) as nat);
    }
}

/// The cleanup takes its steps in order, and nothing comes after it.
proof fn lemma_cleanup_passes(t: BasicThread, k: nat)
    requires
        t.pc is Cleanup,
        t.wf(),
    ensures
        ({
            let i = t.pc->Cleanup_i;
            &&& i + k < CLEANUP ==> run(t, k) == (BasicThread {
                pc: Pc::Cleanup { i: (i + k) as u32 },
                ..t
            })
            &&& i + k >= CLEANUP ==> run(t, k).pc is Done
        }),
    decreases k,
{
    if k > 0 {
        lemma_cleanup_passes(t, (k - 1) as nat);
    }
}

/// A barrier is used only after it was made ready for as many arrivals as come
/// in a phase and all threads have met since: whatever step uses it, an earlier
/// one made it ready, and a meeting lies between.
pub proof fn law_barriers_are_ready_before_use(t: BasicThread, n: nat, bar: Bar)
    requires
        t.wf(),
        t.pc == (Pc::Setup { i: 0 }),
        uses(run(t, n).action(), bar),
    ensures
        exists|i: nat|
            i < 3 && readies((#[trigger] run(t, i)).action(), bar, if bar is Tma {
                128
            } else {
                1
            }),
        run(t, 3).action() is Sync,
        3 < n,
{
    lemma_setup_passes(t, n);
    lemma_setup_passes(t, 3);
    let i: nat = if bar is Tma {
        0
    } else {
        1
    };
    lemma_setup_passes(t, i);
    assert(readies(run(t, i).action(), bar, if bar is Tma {
                128
            } else {
                1
            }));
}

/// Tensor memory is touched only after it was allocated with enough columns and
/// all threads have met since, and given back only after that.
pub proof fn law_tensor_memory_is_there_when_touched(t: BasicThread, n: nat)
    requires
        t.wf(),
        t.pc == (Pc::Setup { i: 0 }),
        run(t, n).action() is Mma || run(t, n).action() is Drain || run(t, n).action() is DeallocTmem,
    ensures
        run(t, 4).action() == (Action::AllocTmem { columns: 128 }),
        run(t, (SETUP - 1) as nat).action() is Sync,
        SETUP <= n,
        touches_below(run(t, n).action(), 128),
{
    lemma_setup_passes(t, n);
    lemma_setup_passes(t, 4);
    lemma_setup_passes(t, (SETUP - 1) as nat);
    lemma_drain_columns(run(t, n));
}

/// The cleanup begins with a meeting, gives the tensor memory back, and puts each
/// barrier out of use once; nothing is used after that.
pub proof fn law_cleanup_puts_all_out_of_use(t: BasicThread, bar: Bar, k: nat)
    requires
        t.wf(),
        t.pc == (Pc::Cleanup { i: 0 }),
        bar == (Bar::Tma { slot: 0 }) || bar == (Bar::Mma { slot: 0 }),
    ensures
        t.action() is Sync,
        run(t, 1).action() is DeallocTmem,
        run(t, k).action() == (Action::InvalBarrier { bar }) <==> k == if bar is Tma {
            2nat
        } else {
            3nat
        },
        k >= CLEANUP ==> run(t, k).action() is Exit,
        !uses(run(t, k).action(), bar),
        !(run(t, k).action() is Mma || run(t, k).action() is Drain || run(t, k).action() is CopyOut),
{
    lemma_cleanup_passes(t, k);
    lemma_cleanup_passes(t, 1);
}

/// Every word is copied out before the cleanup, and all threads meet between the
/// last drain and the first copy.
pub proof fn law_copies_follow_the_drains(t: BasicThread)
    requires
        t.wf(),
    ensures
        t.after().pc is CopyOut && !(t.pc is CopyOut) ==> t.pc is Meet && t.action() is Sync,
        t.after().pc is Cleanup && !(t.pc is Cleanup) ==> t.pc is CopyOut,
{
}

/// Bytes of the tile that a copy brings: 128 rows of 64 entries, two bytes each.
pub open spec fn copied_bytes(action: Action) -> int {
    if action is CopyTile {
        16384
    } else {
        0
    }
}

/// The first thread announces at the barrier of the slice what it has started to
/// copy with it, all of it and no more, and no thread goes on to multiply before
/// it has waited for the slice at that barrier.
pub proof fn law_slice_is_announced_and_awaited(t: BasicThread)
    requires
        t.wf(),
        t.pc is CopyA,
    ensures
        ({
            let u = t.after().after();
            let (first, second) = (t.action(), t.after().action());
            &&& t.tid == 0 ==> {
                &&& first matches Action::CopyTile {
                    operand: Operand::A,
                    slot: 0,
                    x: _,
                    y: _,
                    bar: Bar::Tma { slot: 0 },
                }
                &&& second matches Action::CopyTile {
                    operand: Operand::B,
                    slot: 0,
                    x: _,
                    y: _,
                    bar: Bar::Tma { slot: 0 },
                }
                &&& u.action() matches Action::ArriveExpect { bar, bytes } && bar == (Bar::Tma {
                    slot: 0,
                }) && bytes == copied_bytes(first) + copied_bytes(second)
            }
            &&& t.tid != 0 ==> first is Skip && second is Skip && u.action() == (Action::Arrive {
                bar: Bar::Tma { slot: 0 },
            })
            &&& u.after().action() == (Action::WaitArrival { bar: Bar::Tma { slot: 0 } })
            &&& u.after().after().pc is Multiply
        }),
{
}

/// A thread arrives at the barrier of the slices once for each slice and at no
/// other point, so that a phase has one arrival from each thread of the block.
pub proof fn law_threads_arrive_once_a_slice(t: BasicThread)
    requires
        t.wf(),
    ensures
        t.pc is Arrive <==> (t.action() is Arrive || t.action() is ArriveExpect),
        t.pc is Arrive ==> uses(t.action(), Bar::Tma { slot: 0 }),
{
}

/// The products of a slice are followed by one arrival of the tensor core, which
/// all threads wait for before they meet; only then the next slice is copied, or
/// the tile drained.
pub proof fn law_products_are_awaited_before_the_next_slice(t: BasicThread)
    requires
        t.wf(),
        t.pc is Commit,
    ensures
        t.tid == 0 ==> t.action() == (Action::Commit { bar: Bar::Mma { slot: 0 } }),
        t.after().action() == (Action::WaitParity {
            bar: Bar::Mma { slot: 0 },
            parity: t.k_idx % 2,
        }),
        t.after().after().action() is Sync,
        t.after().after().after().pc is CopyA || t.after().after().after().pc is Drain,
        t.after().after().after().pc is Drain <==> t.k_idx == K_ITERS - 1,
{
}

/// Where a thread stands `i` steps into the slices of the tile, eleven each.
pub open spec fn slice_at(t: BasicThread, i: nat) -> BasicThread {
    let j = i % 11;
    BasicThread {
        pc: if j == 0 {
            Pc::CopyA
        } else if j == 1 {
            Pc::CopyB
        } else if j == 2 {
            Pc::Arrive
        } else if j == 3 {
            Pc::WaitSlice
        } else if j < 8 {
            Pc::Multiply
        } else if j == 8 {
            Pc::Commit
        } else if j == 9 {
            Pc::WaitProduct
        } else {
            Pc::MeetSlice
        },
        k_idx: (i / 11) as u32,
        k_sub: if 4 <= j < 8 {
            (j - 4) as u32
        } else {
            0
        },
        ..t
    }
}

/// Every slice of the tile is copied, awaited, multiplied and awaited again,
/// in order and each once, before the first drain.
pub proof fn law_every_slice_is_used(t: BasicThread, n: nat)
    requires
        t.wf(),
        t.pc is CopyA,
        t.k_idx == 0,
        t.k_sub == 0,
        t.row_offset == 0,
        t.col_block == 0,
        n <= 11 * K_ITERS,
    ensures
        n < 11 * K_ITERS ==> run(t, n) == slice_at(t, n),
        n == 11 * K_ITERS ==> run(t, n) == (BasicThread { pc: Pc::Drain, ..t }),
    decreases n,
{
    assert(MMAS_PER_STEP == 4);
    if n > 0 {
        law_every_slice_is_used(t, (n - 1) as nat);
    }
}

/// The slots after `n` steps of a thread.
pub open spec fn slots_of(slots: Slots, t: BasicThread, n: nat) -> Slots
    decreases n,
{
    if n == 0 {
        slots
    } else {
        slots_after(slots_of(slots, t, (n - 1) as nat), run(t, (n - 1) as nat).action())
    }
}

/// The accumulator after `n` steps of a thread.
pub open spec fn accums_of(
    accums: Seq<Seq<Piece>>,
    slots: Slots,
    t: BasicThread,
    n: nat,
) -> Seq<Seq<Piece>>
    decreases n,
{
    if n == 0 {
        accums
    } else {
        accums_after(
            accums_of(accums, slots, t, (n - 1) as nat),
            slots_of(slots, t, (n - 1) as nat),
            run(t, (n - 1) as nat).action(),
        )
    }
}

/// Products made in the first `n` steps.
pub open spec fn made(n: nat) -> int {
    n as int / 11 * 4 + if n % 11 < 4 {
        0
    } else if n % 11 > 8 {
        4
    } else {
        n as int % 11 - 4
    }
}

/// Whatever slots and accumulator held, the first thread leaves in the
/// accumulator all products of its tile, in order and each once, and nothing
/// else: the slices that it multiplies are those that it copied, of the tile's
/// rows of A and of the transposed B.
#[verifier::rlimit(60)]
pub proof fn law_tile_is_the_product(
    slots: Slots,
    accums: Seq<Seq<Piece>>,
    t: BasicThread,
    n: nat,
)
    requires
        t.wf(),
        t.tid == 0,
        t.pc is CopyA,
        t.k_idx == 0,
        t.k_sub == 0,
        t.row_offset == 0,
        t.col_block == 0,
        slots.has(1),
        accums.len() == 1,
        n <= 11 * K_ITERS,
    ensures
        slots_of(slots, t, n).has(1),
        n % 11 == 1 ==> slots_of(slots, t, n).a_bar[0] == Some(tma_bar()),
        n % 11 == 2 || n % 11 == 3 ==> slots_of(slots, t, n).a_bar[0] == Some(tma_bar())
            && slots_of(slots, t, n).b_bar[0] == Some(tma_bar()),
        n % 11 >= 4 ==> slots_of(slots, t, n).arrived(0),
        accums_of(accums, slots, t, n).len() == 1,
        n % 11 >= 1 ==> slots_of(slots, t, n).a[0] == (n as int / 11 * BK, t.tile_m * BM),
        n % 11 >= 2 ==> slots_of(slots, t, n).b[0] == (n as int / 11 * BK, t.tile_n * BN),
        n >= 5 ==> accums_of(accums, slots, t, n)[0] == products(
            t.tile_m as int,
            t.tile_n as int,
            made(n),
        ),
        n == 11 * K_ITERS ==> accums_of(accums, slots, t, n)[0] == whole(
            t.tile_m as int,
            t.tile_n as int,
        ),
    decreases n,
{
    assert(MMAS_PER_STEP == 4 && all_pieces() == 512);
    if n > 0 {
        let i = (n - 1) as nat;
        law_tile_is_the_product(slots, accums, t, i);
        law_every_slice_is_used(t, i);
        let j = i % 11;
        if 4 <= j < 8 {
            let k = i as int / 11;
            assert(k * 64 / 16 == k * 4);
            assert(((j - 4) * 32) / 32 == j - 4);
            lemma_next_product(t.tile_m as int, t.tile_n as int, made(i));
        }
    }
}

/// Once the packed tile holds the tile of A · B, a thread writes finished words
/// to C and nothing else, its own among them.
pub proof fn law_thread_writes_finished_words(
    writes: Map<int, Source>,
    smem: Seq<Source>,
    t: BasicThread,
)
    requires
        t.wf(),
        t.pc is CopyOut,
        t.local_idx == t.tid,
        all_finished(writes),
        forall|w: int|
            0 <= w < TILE_WORDS ==> #[trigger] holds_word(
                smem,
                t.tile_m as int,
                t.tile_n as int,
                w,
            ),
    ensures
        ({
            let r = writes_after(writes, smem, |i: int| run(t, i as nat).action(), 64);
            &&& all_finished(r)
            &&& covers_strided(
                r,
                t.tile_m as int,
                t.tile_n as int,
                BLOCK as int,
                t.tid as int,
            )
        }),
{
    let actions = |i: int| run(t, i as nat).action();
    let words = |i: int| t.tid + i * BLOCK;
    let (m, n) = (t.tile_m as int, t.tile_n as int);
    assert forall|i: int| 0 <= i < 64 implies #[trigger] actions(i) == (Action::CopyOut {
        copy: copy_at(m, n, words(i)),
    }) && 0 <= words(i) < TILE_WORDS && holds_word(smem, m, n, words(i)) by {
        law_every_word_is_copied_out(t, i as nat);
    }
    lemma_copies_are_finished(writes, smem, actions, m, n, words, 64);
    let r = writes_after(writes, smem, actions, 64);
    assert forall|w: int| 0 <= w < TILE_WORDS && w % 128 == t.tid implies r.contains_key(
        #[trigger] global_word(m, n, w),
    ) by {
        assert(words(w / 128) == w);
        assert(r.contains_key(global_word(m, n, words(w / 128))));
    }
}

/// A thread makes the drains of its warp's rows, two rows of `COL_BLOCKS`, each
/// once, and then meets the others.
pub proof fn law_every_drain_is_made(t: BasicThread, n: nat)
    requires
        t.wf(),
        t.pc is Drain,
        t.row_offset == 0,
        t.col_block == 0,
        n <= 16,
    ensures
        n < 16 ==> run(t, n) == (BasicThread {
            row_offset: (n / 8 * 16) as u32,
            col_block: (n % 8) as u32,
            ..t
        }),
        n == 16 ==> run(t, n) == (BasicThread { pc: Pc::Meet, ..t }),
    decreases n,
{
    if n > 0 {
        law_every_drain_is_made(t, (n - 1) as nat);
    }
}

/// A thread copies out the words that are its own number plus a multiple of
/// the number of threads, 64 of them, and then cleans up.
pub proof fn law_every_word_is_copied_out(t: BasicThread, n: nat)
    requires
        t.wf(),
        t.pc is CopyOut,
        t.local_idx == t.tid,
        n <= 64,
    ensures
        n < 64 ==> run(t, n) == (BasicThread { local_idx: (t.tid + n * BLOCK) as usize, ..t }),
        n == 64 ==> run(t, n) == (BasicThread { pc: Pc::Cleanup { i: 0 }, local_idx: 0, ..t }),
    decreases n,
{
    if n > 0 {
        law_every_word_is_copied_out(t, (n - 1) as nat);
    }
}

/// Every word of the tile is copied out: word `w` by the thread of its number
/// modulo the number of threads.
pub proof fn law_each_word_has_its_thread(t: BasicThread, w: nat)
    requires
        t.wf(),
        t.pc is CopyOut,
        t.local_idx == t.tid,
        w < TILE_WORDS,
        t.tid == w % BLOCK as nat,
    ensures
        run(t, w / BLOCK as nat).action() == (Action::CopyOut {
            copy: copy_at(t.tile_m as int, t.tile_n as int, w as int),
        }),
{
    let n = w / BLOCK as nat;
    assert(t.tid + n * BLOCK == w);
    law_every_word_is_copied_out(t, n);
}

/// The threads of a block stay in step: they are at the same slice and the
/// same point of it, and a thread other than the first has no part in copies
/// and products.
pub proof fn law_threads_stay_in_step(t: BasicThread, u: BasicThread)
    requires
        t.tid == 0,
        u.tid != 0,
        u == (BasicThread { tid: u.tid, ..t }),
        !(t.pc is Meet),
        !(t.pc is CopyOut),
    ensures
        u.after() == (BasicThread { tid: u.tid, ..t.after() }),
        t.pc is CopyA || t.pc is CopyB || t.pc is Multiply || t.pc is Commit ==> u.action() is Skip,
{
}

/// The wait for the product of a slice is exact. All threads meet after each
/// slice, so at slice `k_idx` the barrier has completed `k_idx` phases, or one
/// more when the product of this slice is done; the wait passes in the second
/// case alone.
pub proof fn law_product_wait_is_exact(t: BasicThread, done: nat)
    requires
        t.wf(),
        t.pc is WaitProduct,
        t.k_idx <= done <= t.k_idx + 1,
    ensures
        t.action() == (Action::WaitParity { bar: mma_bar(), parity: t.k_idx % 2 }),
        wait_passes(done, (t.k_idx % 2) as nat) <==> done == t.k_idx + 1,
{
}

/// A run can be taken in two parts.
proof fn lemma_run_splits(t: BasicThread, m: nat, n: nat)
    ensures
        run(t, m + n) == run(run(t, m), n),
    decreases n,
{
    if n > 0 {
        lemma_run_splits(t, m, (n - 1) as nat);
    }
}

/// Thread `tid` of the block of an output tile, before the setup.
pub open spec fn first(tid: u32, tile_m: u32, tile_n: u32) -> BasicThread {
    BasicThread {
        tid,
        tile_m,
        tile_n,
        pc: Pc::Setup { i: 0 },
        k_idx: 0,
        k_sub: 0,
        row_offset: 0,
        col_block: 0,
        local_idx: 0,
    }
}

/// Steps of a thread before its first drain.
pub open spec fn drain_start() -> nat {
    1414
}

/// Steps of a thread before the first word that it copies out.
pub open spec fn copy_start() -> nat {
    1431
}

/// Where a thread stands at the first slice, the first drain and the first word
/// that it copies out.
proof fn lemma_milestones(t: BasicThread)
    requires
        t == first(t.tid, t.tile_m, t.tile_n),
        t.wf(),
    ensures
        run(t, 6) == (BasicThread { pc: Pc::CopyA, ..t }),
        run(t, drain_start()) == (BasicThread { pc: Pc::Drain, ..t }),
        run(t, copy_start()) == (BasicThread {
            pc: Pc::CopyOut,
            local_idx: t.tid as usize,
            ..t
        }),
{
    reveal_with_fuel(run, 7);
    let s = run(t, 6);
    assert(s == (BasicThread { pc: Pc::CopyA, ..t }));
    law_every_slice_is_used(s, 11 * K_ITERS as nat);
    lemma_run_splits(t, 6, 11 * K_ITERS as nat);
    let d = run(t, drain_start());
    assert(d == (BasicThread { pc: Pc::Drain, ..t }));
    law_every_drain_is_made(d, 16);
    lemma_run_splits(t, drain_start(), 16);
    assert(run(t, 1430) == (BasicThread { pc: Pc::Meet, ..t }));
    assert(run(t, 1431) == run(t, 1430).after());
}

/// The memories after the setup are those before.
proof fn lemma_memories_split(slots: Slots, accums: Seq<Seq<Piece>>, t: BasicThread, n: nat)
    requires
        t.pc == (Pc::Setup { i: 0 }),
    ensures
        slots_of(slots, t, 6 + n) == slots_of(slots, run(t, 6), n),
        accums_of(accums, slots, t, 6 + n) == accums_of(accums, slots, run(t, 6), n),
    decreases n,
{
    if n == 0 {
        reveal_with_fuel(run, 7);
        reveal_with_fuel(slots_of, 7);
        reveal_with_fuel(accums_of, 7);
    } else {
        lemma_memories_split(slots, accums, t, (n - 1) as nat);
        lemma_run_splits(t, 6, (n - 1) as nat);
    }
}

/// The block of an output tile: what its memories hold at the start, and the
/// order in which its warps come to drain.
pub struct TileBlock {
    pub tile_m: u32,
    pub tile_n: u32,
    pub slots: Slots,
    pub accums: Seq<Seq<Piece>>,
    pub smem: Seq<Source>,
    pub order: Seq<int>,
}

impl TileBlock {
    /// The tile is one of C, and all four warps drain.
    pub open spec fn wf(self) -> bool {
        &&& self.tile_m < TILES_M && self.tile_n < TILES_N
        &&& self.slots.has(1) && self.accums.len() == 1
        &&& self.smem.len() == TILE_WORDS
        &&& forall|k: int| 0 <= k < self.order.len() ==> 0 <= #[trigger] self.order[k] < 4
        &&& forall|warp_id: int| 0 <= warp_id < 4 ==> #[trigger] self.order.contains(warp_id)
    }

    /// What a thread does at a step from its start.
    pub open spec fn action(self, tid: int, step: int) -> Action {
        run(first(tid as u32, self.tile_m, self.tile_n), step as nat).action()
    }

    /// The accumulator when the first thread is done with the slices.
    pub open spec fn accums_end(self) -> Seq<Seq<Piece>> {
        accums_of(
            self.accums,
            self.slots,
            first(0, self.tile_m, self.tile_n),
            drain_start(),
        )
    }

    /// The packed tile when all warps have drained.
    pub open spec fn smem_end(self) -> Seq<Source> {
        tile_after_warps(
            self.smem,
            self.accums_end(),
            |warp_id: int, i: int, lane: int|
                self.action(warp_id * 32 + lane, drain_start() as int + i),
            self.order,
        )
    }

    /// What a thread writes to C.
    pub open spec fn writes(self, tid: int) -> Map<int, Source> {
        writes_after(
            Map::<int, Source>::empty(),
            self.smem_end(),
            |i: int| self.action(tid, copy_start() as int + i),
            64,
        )
    }
}

/// A block leaves the tile of A · B in its packed tile, whatever its memories
/// held and in whatever order its warps drained.
pub proof fn law_block_packs_its_tile(b: TileBlock, w: int)
    requires
        b.wf(),
        0 <= w < TILE_WORDS,
    ensures
        b.accums_end()[0] == whole(b.tile_m as int, b.tile_n as int),
        holds_word(b.smem_end(), b.tile_m as int, b.tile_n as int, w),
{
    let t = first(0, b.tile_m, b.tile_n);
    lemma_milestones(t);
    lemma_memories_split(b.slots, b.accums, t, 11 * K_ITERS as nat);
    law_tile_is_the_product(b.slots, b.accums, run(t, 6), 11 * K_ITERS as nat);
    let actions = |warp_id: int, i: int, lane: int|
        b.action(warp_id * 32 + lane, drain_start() as int + i);
    assert forall|warp_id: int, i: int, lane: int|
        0 <= warp_id < 4 && 0 <= i < 16 && 0 <= lane < 32 implies #[trigger] actions(
        warp_id,
        i,
        lane,
    ) == (Action::Drain { drain: drain_at(0, warp_id, lane, i / 8 * 16, i % 8) }) by {
        let u = first((warp_id * 32 + lane) as u32, b.tile_m, b.tile_n);
        assert(u.tid / 32 == warp_id && u.tid % 32 == lane);
        lemma_milestones(u);
        law_every_drain_is_made(run(u, drain_start()), i as nat);
        lemma_run_splits(u, drain_start(), i as nat);
    }
    law_four_warps_store_the_tile(
        b.smem,
        b.accums_end(),
        actions,
        b.order,
        b.tile_m as int,
        b.tile_n as int,
        w,
    );
}

/// A thread of a block writes finished words and nothing else, its own among
/// them.
pub proof fn law_block_writes_its_tile(b: TileBlock, tid: int)
    requires
        b.wf(),
        0 <= tid < BLOCK,
    ensures
        all_finished(b.writes(tid)),
        covers_strided(b.writes(tid), b.tile_m as int, b.tile_n as int, BLOCK as int, tid),
{
    let t = first(tid as u32, b.tile_m, b.tile_n);
    assert(tid / 32 < 4 && 0 <= tid % 32 < 32);
    lemma_milestones(t);
    let o = run(t, copy_start());
    assert forall|w: int| 0 <= w < TILE_WORDS implies #[trigger] holds_word(
        b.smem_end(),
        o.tile_m as int,
        o.tile_n as int,
        w,
    ) by {
        law_block_packs_its_tile(b, w);
    }
    let none = Map::<int, Source>::empty();
    law_thread_writes_finished_words(none, b.smem_end(), o);
    let here = |i: int| run(o, i as nat).action();
    let from_start = |i: int| b.action(tid, copy_start() as int + i);
    lemma_same_writes(none, b.smem_end(), t, here, from_start, 64);
}

/// Numbering a thread's steps from its start or from its first copy makes no
/// difference.
proof fn lemma_same_writes(
    writes: Map<int, Source>,
    smem: Seq<Source>,
    t: BasicThread,
    here: spec_fn(int) -> Action,
    from_start: spec_fn(int) -> Action,
    n: int,
)
    requires
        0 <= n,
        forall|i: int| #[trigger] here(i) == run(run(t, copy_start()), i as nat).action(),
        forall|i: int| #[trigger] from_start(i) == run(
            t,
            (copy_start() as int + i) as nat,
        ).action(),
    ensures
        writes_after(writes, smem, here, n) == writes_after(writes, smem, from_start, n),
    decreases n,
{
    if n > 0 {
        lemma_same_writes(writes, smem, t, here, from_start, n - 1);
        lemma_run_splits(t, copy_start(), (n - 1) as nat);
        assert(here(n - 1) == from_start(n - 1));
    }
}

/// Some block is that of the tile.
pub open spec fn some_block_has(blocks: Seq<TileBlock>, tile_m: int, tile_n: int) -> bool {
    exists|i: int|
        0 <= i < blocks.len() && (#[trigger] blocks[i]).tile_m == tile_m && blocks[i].tile_n
            == tile_n
}

/// These are writes of a thread of one of the blocks.
pub open spec fn of_a_thread(blocks: Seq<TileBlock>, writes: Map<int, Source>) -> bool {
    exists|i: int, tid: int|
        0 <= i < blocks.len() && 0 <= tid < BLOCK && writes == #[trigger] blocks[i].writes(tid)
}

/// A launch with a block for every output tile leaves the product in C, whatever
/// C and the memories of the blocks held before, and in whatever order the
/// threads of all blocks wrote.
pub proof fn law_launch_leaves_the_product(
    c: Seq<u32>,
    blocks: Seq<TileBlock>,
    threads: Seq<Map<int, Source>>,
    unit: spec_fn(Source) -> u32,
)
    requires
        c.len() == c_words(),
        forall|i: int| 0 <= i < blocks.len() ==> (#[trigger] blocks[i]).wf(),
        forall|tile_m: int, tile_n: int|
            0 <= tile_m < TILES_M && 0 <= tile_n < TILES_N ==> #[trigger] some_block_has(
                blocks,
                tile_m,
                tile_n,
            ),
        forall|j: int| 0 <= j < threads.len() ==> of_a_thread(blocks, #[trigger] threads[j]),
        forall|i: int, tid: int|
            0 <= i < blocks.len() && 0 <= tid < BLOCK ==> threads.contains(
                #[trigger] blocks[i].writes(tid),
            ),
    ensures
        c_after(c, threads, unit) == product_words(unit),
{
    assert forall|j: int| 0 <= j < threads.len() implies all_finished(#[trigger] threads[j]) by {
        assert(of_a_thread(blocks, threads[j]));
        let (i, tid) = choose|i: int, tid: int|
            0 <= i < blocks.len() && 0 <= tid < BLOCK && threads[j] == #[trigger] blocks[i].writes(
                tid,
            );
        law_block_writes_its_tile(blocks[i], tid);
    }
    assert forall|tile_m: int, tile_n: int, rest: int|
        0 <= tile_m < TILES_M && 0 <= tile_n < TILES_N && 0 <= rest
            < BLOCK implies #[trigger] some_thread_covers(
        threads,
        tile_m,
        tile_n,
        BLOCK as int,
        rest,
    ) by {
        assert(some_block_has(blocks, tile_m, tile_n));
        let i = choose|i: int|
            0 <= i < blocks.len() && (#[trigger] blocks[i]).tile_m == tile_m && blocks[i].tile_n
                == tile_n;
        law_block_writes_its_tile(blocks[i], rest);
        assert(threads.contains(blocks[i].writes(rest)));
        let j = choose|j: int| 0 <= j < threads.len() && threads[j] == blocks[i].writes(rest);
        assert(covers_strided(threads[j], tile_m, tile_n, BLOCK as int, rest));
    }
    law_launch_of_tiles_leaves_the_product(c, threads, unit, BLOCK as int);
}

/// The setup, step by step: all threads make both barriers ready together, make
/// that visible to the copy engine and meet, allocate tensor memory and meet.
pub proof fn law_setup_prepares_the_block(t: BasicThread, n: nat)
    requires
        t.wf(),
        t.pc == (Pc::Setup { i: 0 }),
        n < SETUP,
    ensures
        ({
            let action = run(t, n).action();
            &&& n == 0 ==> action == (Action::InitBarrier {
                bar: Bar::Tma { slot: 0 },
                count: 128,
                together: true,
            })
            &&& n == 1 ==> action == (Action::InitBarrier {
                bar: Bar::Mma { slot: 0 },
                count: 1,
                together: true,
            })
            &&& action is Fence <==> n == 2
            &&& action is Sync <==> n == 3 || n == 5
            &&& action is AllocTmem <==> n == 4
            &&& n + 1 == SETUP ==> run(t, n + 1).pc is CopyA && run(t, n + 1).k_idx == 0
        }),
{
    lemma_setup_passes(t, n);
}

} // verus!
