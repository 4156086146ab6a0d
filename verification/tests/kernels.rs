//! Whole thread blocks of the tensor-core kernels on a simulated device.
use oxide_kernels::device::{no_reply, Action, Bar, Operand, Reply};
use oxide_kernels::dims::{tile_of, BM, BN, K_ITERS, TILE_WIDTH, WIDTH};
use oxide_kernels::gemm::{gemm, Idiom, Thread};
use oxide_kernels::selection::{gemm_arith, gemm_branch, gemm_match, ArrayBases, Placed, StaticAddrs};
use oxide_kernels::tcgen05_basic::{gemm_tcgen05_basic, BasicThread};
use oxide_kernels::warp_specialized::{gemm_warp_specialized, WarpThread};
use std::collections::HashMap;

struct Phases {
    count: u32,
    pending: u32,
    completed: u32,
}

/// One block: barriers, slots, accumulators, the packed tile and C.
struct Device {
    bars: Vec<(Bar, Phases)>,
    tokens: Vec<u32>,
    slots_a: HashMap<u32, (i32, i32)>,
    slots_b: HashMap<u32, (i32, i32)>,
    accums: HashMap<u32, Vec<(i32, i32, i32)>>,
    runs: HashMap<usize, (i32, i32)>,
    info: (u32, u32, u32),
    steals: Vec<Reply>,
    stolen: u32,
    c: HashMap<usize, u32>,
    products: usize,
}

enum Outcome {
    Done(Reply),
    Waits,
    Meets,
    Exits,
}

impl Device {
    fn new(threads: usize, steals: Vec<Reply>) -> Device {
        Device {
            bars: Vec::new(),
            tokens: vec![0; threads],
            slots_a: HashMap::new(),
            slots_b: HashMap::new(),
            accums: HashMap::new(),
            runs: HashMap::new(),
            info: (0, 0, 0),
            steals,
            stolen: 0,
            c: HashMap::new(),
            products: 0,
        }
    }

    fn bar(&mut self, bar: Bar) -> &mut Phases {
        &mut self.bars.iter_mut().find(|(b, _)| *b == bar).expect("barrier in use").1
    }

    fn arrive(&mut self, thread: usize, bar: Bar) {
        let p = self.bar(bar);
        let token = p.completed;
        p.pending += 1;
        if p.pending == p.count {
            p.pending = 0;
            p.completed += 1;
        }
        self.tokens[thread] = token;
    }

    fn perform(&mut self, thread: usize, action: Action) -> Outcome {
        match action {
            Action::Skip | Action::Fence | Action::AllocTmem { columns: _ } | Action::DeallocTmem => {}
            Action::InitBarrier { bar, count, together } => {
                if !self.bars.iter().any(|(b, _)| *b == bar) {
                    self.bars.push((bar, Phases { count, pending: 0, completed: 0 }));
                }
                if together {
                    return Outcome::Meets;
                }
            }
            Action::InvalBarrier { bar } => self.bars.retain(|(b, _)| *b != bar),
            Action::Sync => return Outcome::Meets,
            Action::Arrive { bar } | Action::ArriveExpect { bar, bytes: _ } | Action::Commit { bar } => {
                self.arrive(thread, bar)
            }
            Action::WaitParity { bar, parity } => {
                if self.bar(bar).completed % 2 == parity {
                    return Outcome::Waits;
                }
            }
            Action::WaitArrival { bar } => {
                let token = self.tokens[thread];
                if self.bar(bar).completed <= token {
                    return Outcome::Waits;
                }
            }
            Action::PublishTile { tile_m, tile_n } => {
                self.info = (tile_m, tile_n, 1);
                self.arrive(thread, Bar::TileReady);
            }
            Action::PublishDone => {
                self.info.2 = 0;
                self.arrive(thread, Bar::TileReady);
            }
            Action::ReadTileInfo => {
                let (x, y, flag) = self.info;
                return Outcome::Done(Reply { flag, x, y });
            }
            Action::StealWork { parity, bytes } => {
                assert_eq!(bytes, 16);
                assert_eq!(parity, self.stolen % 2);
                let reply = self.steals[self.stolen as usize];
                // the last lane of the warp has heard the answer
                if thread % 32 == 31 {
                    self.stolen += 1;
                }
                return Outcome::Done(reply);
            }
            Action::CopyTile { operand, slot, x, y, bar } => {
                assert_eq!(bar, Bar::Tma { slot });
                match operand {
                    Operand::A => self.slots_a.insert(slot, (x, y)),
                    Operand::B => self.slots_b.insert(slot, (x, y)),
                };
            }
            Action::Mma { slot, k_offset, tmem_offset, accumulate } => {
                let (ax, ay) = self.slots_a[&slot];
                let (bx, by) = self.slots_b[&slot];
                assert_eq!(ax, bx);
                let piece = ax / 16 + (k_offset / 32) as i32;
                let acc = self.accums.entry(tmem_offset).or_default();
                if !accumulate {
                    acc.clear();
                }
                acc.push((ay, by, piece));
                self.products += 1;
            }
            Action::Drain { drain } => {
                let column = drain.tmem_a & 0xFFFF;
                let stage = column / 128 * 128;
                let acc = &self.accums[&stage];
                let (ay, by, _) = acc[0];
                let whole: Vec<(i32, i32, i32)> = (0..512).map(|i| (ay, by, i)).collect();
                assert_eq!(*acc, whole, "an accumulator is drained before it is whole");
                if thread % 32 < 16 {
                    assert_eq!(drain.smem_lo % 16, 0);
                    assert_eq!(drain.smem_hi, drain.smem_lo + 8 * 256);
                    self.runs.insert(drain.smem_lo / 16, (ay, by));
                    self.runs.insert(drain.smem_hi / 16, (ay, by));
                }
            }
            Action::CopyOut { copy } => {
                let (ay, by) = self.runs[&(copy.smem_idx * 4 / 16)];
                let row = ay as usize + copy.smem_idx / TILE_WIDTH;
                let word = by as usize / 2 + copy.smem_idx % TILE_WIDTH;
                assert_eq!(copy.global_idx, row * WIDTH + word);
                *self.c.entry(copy.global_idx).or_default() += 1;
            }
            Action::Exit => return Outcome::Exits,
        }
        Outcome::Done(no_reply())
    }
}

/// Run the threads of a block to their end, a step of each in turn.
fn run_block(device: &mut Device, threads: usize, mut step: impl FnMut(usize, Reply) -> Action) {
    let mut pending: Vec<Option<Action>> = vec![None; threads];
    let mut replies: Vec<Reply> = vec![no_reply(); threads];
    let mut meeting = vec![false; threads];
    let mut exited = vec![false; threads];
    let mut idle = 0;
    while !exited.iter().all(|e| *e) {
        let mut moved = false;
        for t in 0..threads {
            if exited[t] || meeting[t] {
                continue;
            }
            let action = pending[t].unwrap_or_else(|| step(t, replies[t]));
            pending[t] = Some(action);
            match device.perform(t, action) {
                Outcome::Done(reply) => {
                    replies[t] = reply;
                    pending[t] = None;
                    moved = true;
                }
                Outcome::Waits => {}
                Outcome::Meets => {
                    meeting[t] = true;
                    pending[t] = None;
                    moved = true;
                }
                Outcome::Exits => {
                    exited[t] = true;
                    moved = true;
                }
            }
        }
        if (0..threads).all(|t| meeting[t]) {
            meeting = vec![false; threads];
            moved = true;
        }
        idle = if moved { 0 } else { idle + 1 };
        assert!(idle < 2, "the block is stuck");
    }
}

/// Every word of the tiles, and no other, has been written, each once.
fn wrote_exactly(device: &Device, tiles: &[(u32, u32)]) {
    assert_eq!(device.c.len(), tiles.len() * BM * TILE_WIDTH);
    assert!(device.c.values().all(|n| *n == 1));
    for (m, n) in tiles {
        for row in 0..BM {
            for word in 0..TILE_WIDTH {
                let idx = (*m as usize * BM + row) * WIDTH + *n as usize * TILE_WIDTH + word;
                assert!(device.c.contains_key(&idx));
            }
        }
    }
}

fn steals() -> Vec<Reply> {
    vec![
        Reply { flag: 1, x: 60, y: 0 },
        Reply { flag: 1, x: 4092, y: 0 },
        Reply { flag: 0, x: 0, y: 0 },
    ]
}

fn stolen_tiles(own: u32) -> Vec<(u32, u32)> {
    let mut blocks = vec![own];
    blocks.extend(60..64);
    blocks.extend(4092..4096);
    blocks.into_iter().map(tile_of).collect()
}

#[test]
fn work_stealing_block_computes_its_tiles() {
    for idiom in [Idiom::Arrays, Idiom::Statics] {
        let mut threads: Vec<Thread> = (0..192).map(|t| Thread::new(idiom, t, 70)).collect();
        let mut device = Device::new(192, steals());
        run_block(&mut device, 192, |t, reply| gemm(&mut threads[t], reply));
        wrote_exactly(&device, &stolen_tiles(70));
        assert_eq!(device.products, 9 * 4 * K_ITERS as usize);
        assert!(device.bars.is_empty());
    }
}

fn bases() -> ArrayBases {
    ArrayBases {
        smem_a: 0,
        smem_b: 65536,
        tma_bars: 131072,
        mma_bars: 131104,
        accum_full: 131136,
        accum_empty: 131152,
        tile_ready: 131168,
        clc: 131176,
    }
}

fn statics() -> StaticAddrs {
    StaticAddrs {
        smem_a: [0, 16384, 32768, 49152],
        smem_b: [65536, 81920, 98304, 114688],
        tma_bars: [131072, 131080, 131088, 131096],
        mma_bars: [131104, 131112, 131120, 131128],
        accum_full: [131136, 131144],
        accum_empty: [131152, 131160],
        tile_ready: 131168,
        clc: 131176,
    }
}

/// What each thread did after the setup, with the addresses.
fn placed_trace(
    idiom: Idiom,
    mut step: impl FnMut(&mut Thread, Reply) -> Placed,
) -> (Vec<Vec<Placed>>, Device) {
    let mut threads: Vec<Thread> = (0..192).map(|t| Thread::new(idiom, t, 70)).collect();
    let mut device = Device::new(192, steals());
    let mut traces: Vec<Vec<Placed>> = vec![Vec::new(); 192];
    run_block(&mut device, 192, |t, reply| {
        let placed = step(&mut threads[t], reply);
        traces[t].push(placed);
        placed.action
    });
    for trace in traces.iter_mut() {
        trace.drain(..21);
        let cleanup = trace.iter().position(|p| p.action == Action::DeallocTmem).unwrap();
        trace.truncate(cleanup);
    }
    (traces, device)
}

#[test]
fn the_three_builds_agree() {
    let (bases, statics) = (bases(), statics());
    let (arith, d1) = placed_trace(Idiom::Arrays, |t, r| gemm_arith(&bases, t, r));
    let (by_match, d2) = placed_trace(Idiom::Statics, |t, r| gemm_match(&statics, t, r));
    let (by_branch, d3) = placed_trace(Idiom::Statics, |t, r| gemm_branch(&statics, t, r));
    assert!(arith == by_match);
    assert!(arith == by_branch);
    assert!(d1.c == d2.c && d1.c == d3.c);
    wrote_exactly(&d1, &stolen_tiles(70));
}

#[test]
fn addresses_of_a_stage() {
    let bases = bases();
    let mut thread = Thread::new(Idiom::Arrays, 0, 0);
    // the first two barriers are those of the first slot
    let first = gemm_arith(&bases, &mut thread, no_reply());
    assert_eq!(first.action, Action::InitBarrier { bar: Bar::Tma { slot: 0 }, count: 1, together: false });
    assert_eq!(first.bar, Some(131072));
    let second = gemm_arith(&bases, &mut thread, no_reply());
    assert_eq!(second.bar, Some(131104));
    let third = gemm_arith(&bases, &mut thread, no_reply());
    assert_eq!(third.action, Action::InitBarrier { bar: Bar::Tma { slot: 1 }, count: 1, together: false });
    assert_eq!(third.bar, Some(131080));
    assert_eq!((third.smem_a, third.smem_b), (None, None));
}

#[test]
fn setup_of_the_separate_barriers() {
    let mut thread = Thread::new(Idiom::Statics, 5, 0);
    let mut inits = Vec::new();
    for _ in 0..14 {
        inits.push(gemm(&mut thread, no_reply()));
    }
    assert_eq!(inits[4], Action::InitBarrier { bar: Bar::Mma { slot: 0 }, count: 1, together: true });
    assert_eq!(inits[10], Action::InitBarrier { bar: Bar::AccumEmpty { slot: 0 }, count: 128, together: true });
    assert_eq!(inits[13], Action::InitBarrier { bar: Bar::Clc, count: 1, together: true });
    assert_eq!(gemm(&mut thread, no_reply()), Action::AllocTmem { columns: 256 });
    assert_eq!(gemm(&mut thread, no_reply()), Action::Sync);
    // only the first thread arrives in advance
    for _ in 0..4 {
        assert_eq!(gemm(&mut thread, no_reply()), Action::Skip);
    }
    assert_eq!(gemm(&mut thread, no_reply()), Action::Sync);
    assert_eq!(
        gemm(&mut thread, no_reply()),
        Action::WaitParity { bar: Bar::TileReady, parity: 0 }
    );
}

#[test]
fn warps_beyond_the_sixth_only_clean_up() {
    let mut thread = Thread::new(Idiom::Arrays, 192, 0);
    for _ in 0..21 {
        gemm(&mut thread, no_reply());
    }
    assert_eq!(gemm(&mut thread, no_reply()), Action::Sync);
    assert_eq!(gemm(&mut thread, no_reply()), Action::DeallocTmem);
}

#[test]
fn warp_specialized_block_computes_its_tile() {
    let mut threads: Vec<WarpThread> = (0..192).map(|t| WarpThread::new(t, 3, 63)).collect();
    let mut device = Device::new(192, Vec::new());
    run_block(&mut device, 192, |t, _| gemm_warp_specialized(&mut threads[t]));
    wrote_exactly(&device, &[(3, 63)]);
    assert_eq!(device.products, 4 * K_ITERS as usize);
    assert_eq!(device.slots_a[&1], (127 * 64, 3 * 128));
    assert_eq!(device.slots_b[&1], (127 * 64, 63 * BN as i32));
    assert!(device.bars.is_empty());
}

#[test]
fn basic_block_computes_its_tile() {
    let mut threads: Vec<BasicThread> = (0..128).map(|t| BasicThread::new(t, 63, 0)).collect();
    let mut device = Device::new(128, Vec::new());
    run_block(&mut device, 128, |t, _| gemm_tcgen05_basic(&mut threads[t]));
    wrote_exactly(&device, &[(63, 0)]);
    assert_eq!(device.products, 4 * K_ITERS as usize);
    assert!(device.bars.is_empty());
}

#[test]
fn exit_is_final() {
    let mut thread = WarpThread::new(40, 0, 0);
    let mut last = Action::Skip;
    for _ in 0..2000 {
        last = gemm_warp_specialized(&mut thread);
    }
    assert_eq!(last, Action::Exit);
}
