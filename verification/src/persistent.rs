//! The work-stealing matrix product: six warps share each thread block.
//!
//! Warp 4 copies tiles of A and B into a ring of shared-memory slots, warp 5
//! multiplies them into one of two accumulators, and warps 0 to 3 drain the
//! finished accumulator into C. A block starts on the tile of its own number
//! and then steals clusters of blocks that have not started, until none are
//! left.
use vstd::prelude::*;
use crate::device::{first_lane_only, only_first_lane, Action, Bar, Operand, Reply};
use crate::dims::{
    tile_of, BK, BM, BN, CLUSTER_SIZE, COMBINED_BYTES, K_ITERS, MMAS_PER_STEP, MMA_K_BYTES,
    TILES_M, TILES_N, TILE_WIDTH, TOTAL_TILES,
};
use crate::epilogue::{
    copy_at, copy_out, drain, drain_at, drain_in_range, CopyOut, Drain, COL_BLOCKS, DRAIN_ROWS,
    PER_WARP_BOUNDS, ROWS_PER_WARP,
};
use crate::ring::{parity, slot};

verus! {

/// Slots of the ring between the copying and the multiplying warp.
pub const STAGES: u32 = 4;

/// Accumulators between the multiplying and the draining warps.
pub const NUM_ACCUM_STAGES: u32 = 2;

/// Warp that copies tiles in.
pub const TMA_WARP: u32 = 4;

/// Warp that multiplies.
pub const MMA_WARP: u32 = 5;

/// Threads that drain an accumulator.
pub const EPILOGUE_THREADS: u32 = 128;

/// Bytes of the answer to a work-stealing request.
pub const CLC_BYTES: u32 = 16;

/// Where the copying warp stands.
#[derive(Clone, Copy, PartialEq, Eq, Structural, Debug)]
pub enum ProducerPc {
    Publish,
    WaitSlot,
    CopyA,
    CopyB,
    Expect,
    Steal,
    Decode,
    Finished,
}

/// A lane of the copying warp.
///
/// `ctaid` is the block whose tile is being copied, `left` the number of
/// blocks of the same cluster that follow, `global_k` counts pipeline steps
/// over all tiles and `clc_iter` the work-stealing requests.
#[derive(Clone, Copy, PartialEq, Eq, Structural, Debug)]
pub struct Producer {
    pub pc: ProducerPc,
    pub lane0: bool,
    pub ctaid: u32,
    pub left: u32,
    pub k_idx: u32,
    pub global_k: u32,
    pub clc_iter: u32,
}

impl Producer {
    pub open spec fn wf(self) -> bool {
        &&& self.ctaid + self.left < TOTAL_TILES
        &&& self.left < CLUSTER_SIZE
        &&& self.k_idx < K_ITERS
    }

    /// The replies that this lane can be given: a stolen cluster is one of the
    /// grid.
    pub open spec fn accepts(self, reply: Reply) -> bool {
        self.pc is Decode && reply.flag != 0 ==> reply.x + CLUSTER_SIZE <= TOTAL_TILES
    }

    pub open spec fn slot(self) -> u32 {
        self.global_k % STAGES
    }

    /// What the lane does next.
    pub open spec fn action(self, reply: Reply) -> Action {
        let bar = Bar::Tma { slot: self.slot() };
        match self.pc {
            ProducerPc::Publish => first_lane_only(
                self.lane0,
                Action::PublishTile {
                    tile_m: self.ctaid % TILES_M,
                    tile_n: self.ctaid / TILES_M,
                },
            ),
            ProducerPc::WaitSlot => Action::WaitParity {
                bar: Bar::Mma { slot: self.slot() },
                parity: (self.global_k / STAGES) % 2,
            },
            ProducerPc::CopyA => first_lane_only(
                self.lane0,
                Action::CopyTile {
                    operand: Operand::A,
                    slot: self.slot(),
                    x: (self.k_idx * BK) as i32,
                    y: ((self.ctaid % TILES_M) * BM) as i32,
                    bar,
                },
            ),
            ProducerPc::CopyB => first_lane_only(
                self.lane0,
                Action::CopyTile {
                    operand: Operand::B,
                    slot: self.slot(),
                    x: (self.k_idx * BK) as i32,
                    y: ((self.ctaid / TILES_M) * BN) as i32,
                    bar,
                },
            ),
            ProducerPc::Expect => first_lane_only(
                self.lane0,
                Action::ArriveExpect { bar, bytes: COMBINED_BYTES },
            ),
            ProducerPc::Steal => Action::StealWork {
                parity: self.clc_iter % 2,
                bytes: CLC_BYTES,
            },
            ProducerPc::Decode => first_lane_only(
                self.lane0,
                if reply.flag == 0 {
                    Action::PublishDone
                } else {
                    Action::PublishTile { tile_m: reply.x % TILES_M, tile_n: reply.x / TILES_M }
                },
            ),
            ProducerPc::Finished => Action::Exit,
        }
    }

    /// Where the lane stands afterwards.
    pub open spec fn after(self, reply: Reply) -> Producer {
        match self.pc {
            ProducerPc::Publish => Producer { pc: ProducerPc::WaitSlot, k_idx: 0, ..self },
            ProducerPc::WaitSlot => Producer { pc: ProducerPc::CopyA, ..self },
            ProducerPc::CopyA => Producer { pc: ProducerPc::CopyB, ..self },
            ProducerPc::CopyB => Producer { pc: ProducerPc::Expect, ..self },
            ProducerPc::Expect => {
                let global_k = self.global_k.wrapping_add(1);
                if self.k_idx + 1 < K_ITERS {
                    Producer {
                        pc: ProducerPc::WaitSlot,
                        k_idx: (self.k_idx + 1) as u32,
                        global_k,
                        ..self
                    }
                } else if self.left > 0 {
                    Producer {
                        pc: ProducerPc::Publish,
                        ctaid: (self.ctaid + 1) as u32,
                        left: (self.left - 1) as u32,
                        k_idx: 0,
                        global_k,
                        ..self
                    }
                } else {
                    Producer { pc: ProducerPc::Steal, k_idx: 0, global_k, ..self }
                }
            },
            ProducerPc::Steal => Producer {
                pc: ProducerPc::Decode,
                clc_iter: self.clc_iter.wrapping_add(1),
                ..self
            },
            ProducerPc::Decode => if reply.flag == 0 {
                Producer { pc: ProducerPc::Finished, ..self }
            } else {
                Producer {
                    pc: ProducerPc::WaitSlot,
                    ctaid: reply.x,
                    left: (CLUSTER_SIZE - 1) as u32,
                    k_idx: 0,
                    ..self
                }
            },
            ProducerPc::Finished => self,
        }
    }

    /// A lane of the copying warp of block `ctaid`, before its own tile.
    pub fn new(lane0: bool, ctaid: u32) -> (r: Producer)
        requires
            ctaid < TOTAL_TILES,
        ensures
            r == (Producer {
                pc: ProducerPc::Publish,
                lane0,
                ctaid,
                left: 0,
                k_idx: 0,
                global_k: 0,
                clc_iter: 0,
            }),
            r.wf(),
    {
        Producer {
            pc: ProducerPc::Publish,
            lane0,
            ctaid,
            left: 0,
            k_idx: 0,
            global_k: 0,
            clc_iter: 0,
        }
    }

    /// Take the reply to the last action and give the next one.
    pub fn step(&mut self, reply: Reply) -> (action: Action)
        requires
            old(self).wf(),
            old(self).accepts(reply),
        ensures
            action == old(self).action(reply),
            *final(self) == old(self).after(reply),
            final(self).wf(),
    {
        let stage: u32 = slot(self.global_k, STAGES);
        let bar: Bar = Bar::Tma { slot: stage };
        let (tile_m, tile_n) = tile_of(self.ctaid);
        match self.pc {
            ProducerPc::Publish => {
                self.pc = ProducerPc::WaitSlot;
                self.k_idx = 0;
                only_first_lane(self.lane0, Action::PublishTile { tile_m, tile_n })
            },
            ProducerPc::WaitSlot => {
                self.pc = ProducerPc::CopyA;
                Action::WaitParity {
                    bar: Bar::Mma { slot: stage },
                    parity: parity(self.global_k, STAGES),
                }
            },
            ProducerPc::CopyA => {
                self.pc = ProducerPc::CopyB;
                let x: i32 = (self.k_idx as usize * BK) as i32;
                let y: i32 = (tile_m as usize * BM) as i32;
                only_first_lane(
                    self.lane0,
                    Action::CopyTile { operand: Operand::A, slot: stage, x, y, bar },
                )
            },
            ProducerPc::CopyB => {
                self.pc = ProducerPc::Expect;
                let x: i32 = (self.k_idx as usize * BK) as i32;
                let y: i32 = (tile_n as usize * BN) as i32;
                only_first_lane(
                    self.lane0,
                    Action::CopyTile { operand: Operand::B, slot: stage, x, y, bar },
                )
            },
            ProducerPc::Expect => {
                self.global_k = self.global_k.wrapping_add(1);
                if self.k_idx + 1 < K_ITERS {
                    self.pc = ProducerPc::WaitSlot;
                    self.k_idx = self.k_idx + 1;
                } else {
                    self.k_idx = 0;
                    if self.left > 0 {
                        self.pc = ProducerPc::Publish;
                        self.ctaid = self.ctaid + 1;
                        self.left = self.left - 1;
                    } else {
                        self.pc = ProducerPc::Steal;
                    }
                }
                only_first_lane(self.lane0, Action::ArriveExpect { bar, bytes: COMBINED_BYTES })
            },
            ProducerPc::Steal => {
                let clc_parity: u32 = parity(self.clc_iter, 1);
                self.pc = ProducerPc::Decode;
                self.clc_iter = self.clc_iter.wrapping_add(1);
                Action::StealWork { parity: clc_parity, bytes: CLC_BYTES }
            },
            ProducerPc::Decode => {
                if reply.flag == 0 {
                    self.pc = ProducerPc::Finished;
                    only_first_lane(self.lane0, Action::PublishDone)
                } else {
                    self.pc = ProducerPc::WaitSlot;
                    self.ctaid = reply.x;
                    self.left = CLUSTER_SIZE - 1;
                    self.k_idx = 0;
                    let (m, n) = tile_of(reply.x);
                    only_first_lane(self.lane0, Action::PublishTile { tile_m: m, tile_n: n })
                }
            },
            ProducerPc::Finished => Action::Exit,
        }
    }
}

/// Where the multiplying warp stands.
#[derive(Clone, Copy, PartialEq, Eq, Structural, Debug)]
pub enum ConsumerPc {
    WaitTile,
    ReadInfo,
    Begin,
    WaitSlot,
    Multiply,
    CommitSlot,
    CommitAccum,
    Finished,
}

/// A lane of the multiplying warp.
///
/// `tile_iter` counts tiles, `global_k` pipeline steps over all tiles;
/// `tile_parity` is the parity of the next announcement.
#[derive(Clone, Copy, PartialEq, Eq, Structural, Debug)]
pub struct Consumer {
    pub pc: ConsumerPc,
    pub lane0: bool,
    pub tile_iter: u32,
    pub tile_parity: u32,
    pub k_idx: u32,
    pub k_sub: u32,
    pub global_k: u32,
}

impl Consumer {
    pub open spec fn wf(self) -> bool {
        &&& self.tile_parity < 2
        &&& self.k_idx < K_ITERS
        &&& self.k_sub < MMAS_PER_STEP
    }

    pub open spec fn slot(self) -> u32 {
        self.global_k % STAGES
    }

    pub open spec fn accum(self) -> u32 {
        self.tile_iter % NUM_ACCUM_STAGES
    }

    /// What the lane does next.
    pub open spec fn action(self, reply: Reply) -> Action {
        match self.pc {
            ConsumerPc::WaitTile => Action::WaitParity {
                bar: Bar::TileReady,
                parity: self.tile_parity,
            },
            ConsumerPc::ReadInfo => Action::ReadTileInfo,
            ConsumerPc::Begin => if reply.flag == 0 {
                Action::Exit
            } else if self.tile_iter >= NUM_ACCUM_STAGES {
                Action::WaitParity {
                    bar: Bar::AccumEmpty { slot: self.accum() },
                    parity: (((self.tile_iter - NUM_ACCUM_STAGES) as u32) / NUM_ACCUM_STAGES) % 2,
                }
            } else {
                Action::Skip
            },
            ConsumerPc::WaitSlot => Action::WaitParity {
                bar: Bar::Tma { slot: self.slot() },
                parity: (self.global_k / STAGES) % 2,
            },
            ConsumerPc::Multiply => first_lane_only(
                self.lane0,
                Action::Mma {
                    slot: self.slot(),
                    k_offset: (self.k_sub * MMA_K_BYTES) as u64,
                    tmem_offset: (self.accum() * BN) as u32,
                    accumulate: self.k_idx > 0 || self.k_sub > 0,
                },
            ),
            ConsumerPc::CommitSlot => first_lane_only(
                self.lane0,
                Action::Commit { bar: Bar::Mma { slot: self.slot() } },
            ),
            ConsumerPc::CommitAccum => first_lane_only(
                self.lane0,
                Action::Commit { bar: Bar::AccumFull { slot: self.accum() } },
            ),
            ConsumerPc::Finished => Action::Exit,
        }
    }

    /// Where the lane stands afterwards.
    pub open spec fn after(self, reply: Reply) -> Consumer {
        match self.pc {
            ConsumerPc::WaitTile => Consumer {
                pc: ConsumerPc::ReadInfo,
                tile_parity: (1 - self.tile_parity) as u32,
                ..self
            },
            ConsumerPc::ReadInfo => Consumer { pc: ConsumerPc::Begin, ..self },
            ConsumerPc::Begin => if reply.flag == 0 {
                Consumer { pc: ConsumerPc::Finished, ..self }
            } else {
                Consumer { pc: ConsumerPc::WaitSlot, k_idx: 0, ..self }
            },
            ConsumerPc::WaitSlot => Consumer { pc: ConsumerPc::Multiply, k_sub: 0, ..self },
            ConsumerPc::Multiply => if self.k_sub + 1 < MMAS_PER_STEP {
                Consumer { k_sub: (self.k_sub + 1) as u32, ..self }
            } else {
                Consumer { pc: ConsumerPc::CommitSlot, k_sub: 0, ..self }
            },
            ConsumerPc::CommitSlot => {
                let global_k = self.global_k.wrapping_add(1);
                if self.k_idx + 1 < K_ITERS {
                    Consumer {
                        pc: ConsumerPc::WaitSlot,
                        k_idx: (self.k_idx + 1) as u32,
                        global_k,
                        ..self
                    }
                } else {
                    Consumer { pc: ConsumerPc::CommitAccum, k_idx: 0, global_k, ..self }
                }
            },
            ConsumerPc::CommitAccum => Consumer {
                pc: ConsumerPc::WaitTile,
                tile_iter: self.tile_iter.wrapping_add(1),
                ..self
            },
            ConsumerPc::Finished => self,
        }
    }

    /// A lane of the multiplying warp, before the first tile.
    pub fn new(lane0: bool) -> (r: Consumer)
        ensures
            r == (Consumer {
                pc: ConsumerPc::WaitTile,
                lane0,
                tile_iter: 0,
                tile_parity: 0,
                k_idx: 0,
                k_sub: 0,
                global_k: 0,
            }),
            r.wf(),
    {
        Consumer {
            pc: ConsumerPc::WaitTile,
            lane0,
            tile_iter: 0,
            tile_parity: 0,
            k_idx: 0,
            k_sub: 0,
            global_k: 0,
        }
    }

    /// Take the reply to the last action and give the next one.
    pub fn step(&mut self, reply: Reply) -> (action: Action)
        requires
            old(self).wf(),
        ensures
            action == old(self).action(reply),
            *final(self) == old(self).after(reply),
            final(self).wf(),
    {
        let stage: u32 = slot(self.global_k, STAGES);
        let accum: u32 = slot(self.tile_iter, NUM_ACCUM_STAGES);
        match self.pc {
            ConsumerPc::WaitTile => {
                let awaited: u32 = self.tile_parity;
                self.pc = ConsumerPc::ReadInfo;
                self.tile_parity = flip(awaited);
                Action::WaitParity { bar: Bar::TileReady, parity: awaited }
            },
            ConsumerPc::ReadInfo => {
                self.pc = ConsumerPc::Begin;
                Action::ReadTileInfo
            },
            ConsumerPc::Begin => {
                if reply.flag == 0 {
                    self.pc = ConsumerPc::Finished;
                    Action::Exit
                } else {
                    self.pc = ConsumerPc::WaitSlot;
                    self.k_idx = 0;
                    if self.tile_iter >= NUM_ACCUM_STAGES {
                        let empty_parity: u32 = parity(
                            self.tile_iter - NUM_ACCUM_STAGES,
                            NUM_ACCUM_STAGES,
                        );
                        Action::WaitParity {
                            bar: Bar::AccumEmpty { slot: accum },
                            parity: empty_parity,
                        }
                    } else {
                        Action::Skip
                    }
                }
            },
            ConsumerPc::WaitSlot => {
                self.pc = ConsumerPc::Multiply;
                self.k_sub = 0;
                Action::WaitParity {
                    bar: Bar::Tma { slot: stage },
                    parity: parity(self.global_k, STAGES),
                }
            },
            ConsumerPc::Multiply => {
                let mma: Action = Action::Mma {
                    slot: stage,
                    k_offset: self.k_sub as u64 * MMA_K_BYTES,
                    tmem_offset: (accum as usize * BN) as u32,
                    // accumulate always except for the very first time.
                    accumulate: self.k_idx > 0 || self.k_sub > 0,
                };
                if self.k_sub + 1 < MMAS_PER_STEP {
                    self.k_sub = self.k_sub + 1;
                } else {
                    self.pc = ConsumerPc::CommitSlot;
                    self.k_sub = 0;
                }
                only_first_lane(self.lane0, mma)
            },
            ConsumerPc::CommitSlot => {
                self.global_k = self.global_k.wrapping_add(1);
                if self.k_idx + 1 < K_ITERS {
                    self.pc = ConsumerPc::WaitSlot;
                    self.k_idx = self.k_idx + 1;
                } else {
                    self.pc = ConsumerPc::CommitAccum;
                    self.k_idx = 0;
                }
                only_first_lane(self.lane0, Action::Commit { bar: Bar::Mma { slot: stage } })
            },
            ConsumerPc::CommitAccum => {
                self.pc = ConsumerPc::WaitTile;
                self.tile_iter = self.tile_iter.wrapping_add(1);
                only_first_lane(self.lane0, Action::Commit { bar: Bar::AccumFull { slot: accum } })
            },
            ConsumerPc::Finished => Action::Exit,
        }
    }
}

/// The other parity.
fn flip(parity: u32) -> (r: u32)
    requires
        parity < 2,
    ensures
        r == 1 - parity,
{
    assert(parity ^ 1 == 1 - parity) by (bit_vector)
        requires
            parity < 2,
    ;
    parity ^ 1
}

/// Where a draining thread stands.
#[derive(Clone, Copy, PartialEq, Eq, Structural, Debug)]
pub enum EpiloguePc {
    WaitTile,
    ReadInfo,
    Begin,
    Drain,
    CopyOut,
    Release,
    Finished,
}

/// A thread of the draining warps.
///
/// `tile_iter` counts tiles; `tile_m` and `tile_n` name the tile that is being
/// drained.
#[derive(Clone, Copy, PartialEq, Eq, Structural, Debug)]
pub struct Epilogue {
    pub pc: EpiloguePc,
    pub warp_id: u32,
    pub lane_id: u32,
    pub tile_iter: u32,
    pub tile_parity: u32,
    pub tile_m: u32,
    pub tile_n: u32,
    pub row_offset: u32,
    pub col_block: u32,
    pub local_idx: usize,
}

impl Epilogue {
    pub open spec fn wf(self) -> bool {
        &&& self.tile_parity < 2
        &&& self.tile_m < TILES_M
        &&& self.tile_n < TILES_N
        &&& drain_in_range(
            self.warp_id as int,
            self.lane_id as int,
            self.row_offset as int,
            self.col_block as int,
        )
        &&& self.local_idx < PER_WARP_BOUNDS
    }

    /// The replies that this thread can be given: an announced tile is one of
    /// the grid.
    pub open spec fn accepts(self, reply: Reply) -> bool {
        self.pc is Begin && reply.flag != 0 ==> reply.x < TILES_M && reply.y < TILES_N
    }

    pub open spec fn accum(self) -> u32 {
        self.tile_iter % NUM_ACCUM_STAGES
    }

    /// The addresses of the drain at this point of the loop.
    pub open spec fn drain(self) -> Drain {
        drain_at(
            self.accum() * BN,
            self.warp_id as int,
            self.lane_id as int,
            self.row_offset as int,
            self.col_block as int,
        )
    }

    /// The word that is copied out at this point of the loop.
    pub open spec fn copy(self) -> CopyOut {
        copy_at(
            self.tile_m as int,
            self.tile_n as int,
            self.warp_id * ROWS_PER_WARP * TILE_WIDTH + self.local_idx,
        )
    }

    /// What the thread does next.
    pub open spec fn action(self, reply: Reply) -> Action {
        match self.pc {
            EpiloguePc::WaitTile => Action::WaitParity {
                bar: Bar::TileReady,
                parity: self.tile_parity,
            },
            EpiloguePc::ReadInfo => Action::ReadTileInfo,
            EpiloguePc::Begin => if reply.flag == 0 {
                Action::Exit
            } else {
                Action::WaitParity {
                    bar: Bar::AccumFull { slot: self.accum() },
                    parity: (self.tile_iter / NUM_ACCUM_STAGES) % 2,
                }
            },
            EpiloguePc::Drain => Action::Drain { drain: self.drain() },
            EpiloguePc::CopyOut => Action::CopyOut { copy: self.copy() },
            EpiloguePc::Release => Action::Arrive { bar: Bar::AccumEmpty { slot: self.accum() } },
            EpiloguePc::Finished => Action::Exit,
        }
    }

    /// Where the thread stands afterwards.
    pub open spec fn after(self, reply: Reply) -> Epilogue {
        match self.pc {
            EpiloguePc::WaitTile => Epilogue {
                pc: EpiloguePc::ReadInfo,
                tile_parity: (1 - self.tile_parity) as u32,
                ..self
            },
            EpiloguePc::ReadInfo => Epilogue { pc: EpiloguePc::Begin, ..self },
            EpiloguePc::Begin => if reply.flag == 0 {
                Epilogue { pc: EpiloguePc::Finished, ..self }
            } else {
                Epilogue {
                    pc: EpiloguePc::Drain,
                    tile_m: reply.x,
                    tile_n: reply.y,
                    row_offset: 0,
                    col_block: 0,
                    ..self
                }
            },
            EpiloguePc::Drain => if self.col_block + 1 < COL_BLOCKS {
                Epilogue { col_block: (self.col_block + 1) as u32, ..self }
            } else if self.row_offset + DRAIN_ROWS < ROWS_PER_WARP {
                Epilogue {
                    row_offset: (self.row_offset + DRAIN_ROWS) as u32,
                    col_block: 0,
                    ..self
                }
            } else {
                Epilogue {
                    pc: EpiloguePc::CopyOut,
                    row_offset: 0,
                    col_block: 0,
                    local_idx: self.lane_id as usize,
                    ..self
                }
            },
            EpiloguePc::CopyOut => if self.local_idx + 32 < PER_WARP_BOUNDS {
                Epilogue { local_idx: (self.local_idx + 32) as usize, ..self }
            } else {
                Epilogue { pc: EpiloguePc::Release, local_idx: 0, ..self }
            },
            EpiloguePc::Release => Epilogue {
                pc: EpiloguePc::WaitTile,
                tile_iter: self.tile_iter.wrapping_add(1),
                ..self
            },
            EpiloguePc::Finished => self,
        }
    }

    /// A draining thread, before the first tile.
    pub fn new(warp_id: u32, lane_id: u32) -> (r: Epilogue)
        requires
            warp_id < 4,
            lane_id < 32,
        ensures
            r == (Epilogue {
                pc: EpiloguePc::WaitTile,
                warp_id,
                lane_id,
                tile_iter: 0,
                tile_parity: 0,
                tile_m: 0,
                tile_n: 0,
                row_offset: 0,
                col_block: 0,
                local_idx: 0,
            }),
            r.wf(),
    {
        Epilogue {
            pc: EpiloguePc::WaitTile,
            warp_id,
            lane_id,
            tile_iter: 0,
            tile_parity: 0,
            tile_m: 0,
            tile_n: 0,
            row_offset: 0,
            col_block: 0,
            local_idx: 0,
        }
    }

    /// Take the reply to the last action and give the next one.
    pub fn step(&mut self, reply: Reply) -> (action: Action)
        requires
            old(self).wf(),
            old(self).accepts(reply),
        ensures
            action == old(self).action(reply),
            *final(self) == old(self).after(reply),
            final(self).wf(),
    {
        let accum: u32 = slot(self.tile_iter, NUM_ACCUM_STAGES);
        match self.pc {
            EpiloguePc::WaitTile => {
                let awaited: u32 = self.tile_parity;
                self.pc = EpiloguePc::ReadInfo;
                self.tile_parity = flip(awaited);
                Action::WaitParity { bar: Bar::TileReady, parity: awaited }
            },
            EpiloguePc::ReadInfo => {
                self.pc = EpiloguePc::Begin;
                Action::ReadTileInfo
            },
            EpiloguePc::Begin => {
                if reply.flag == 0 {
                    self.pc = EpiloguePc::Finished;
                    Action::Exit
                } else {
                    self.pc = EpiloguePc::Drain;
                    self.tile_m = reply.x;
                    self.tile_n = reply.y;
                    self.row_offset = 0;
                    self.col_block = 0;
                    Action::WaitParity {
                        bar: Bar::AccumFull { slot: accum },
                        parity: parity(self.tile_iter, NUM_ACCUM_STAGES),
                    }
                }
            },
            EpiloguePc::Drain => {
                let piece: Drain = drain(
                    (accum as usize * BN) as u32,
                    self.warp_id,
                    self.lane_id,
                    self.row_offset,
                    self.col_block,
                );
                if self.col_block + 1 < COL_BLOCKS {
                    self.col_block = self.col_block + 1;
                } else {
                    self.col_block = 0;
                    if self.row_offset + DRAIN_ROWS < ROWS_PER_WARP {
                        self.row_offset = self.row_offset + DRAIN_ROWS;
                    } else {
                        self.pc = EpiloguePc::CopyOut;
                        self.row_offset = 0;
                        self.local_idx = self.lane_id as usize;
                    }
                }
                Action::Drain { drain: piece }
            },
            EpiloguePc::CopyOut => {
                let base_row: usize = (self.warp_id * ROWS_PER_WARP) as usize;
                let copy: CopyOut = copy_out(self.tile_m, self.tile_n, base_row, self.local_idx);
                if self.local_idx + 32 < PER_WARP_BOUNDS {
                    self.local_idx = self.local_idx + 32;
                } else {
                    self.pc = EpiloguePc::Release;
                    self.local_idx = 0;
                }
                Action::CopyOut { copy }
            },
            EpiloguePc::Release => {
                self.pc = EpiloguePc::WaitTile;
                self.tile_iter = self.tile_iter.wrapping_add(1);
                Action::Arrive { bar: Bar::AccumEmpty { slot: accum } }
            },
            EpiloguePc::Finished => Action::Exit,
        }
    }
}

} // verus!
