//! A thread of the work-stealing matrix product, from setup to cleanup.
//!
//! Launch dims: grid (`TOTAL_TILES`, 1, 1), cluster (`CLUSTER_SIZE`, 1, 1),
//! block (192, 1, 1).
use vstd::prelude::*;
use crate::device::{
    first_lane_only, only_first_lane, touches_below, uses, Action, Bar, Reply,
};
use crate::dims::TOTAL_TILES;
use crate::persistent::{
    Consumer, ConsumerPc, Epilogue, EpiloguePc, Producer, ProducerPc, EPILOGUE_THREADS, MMA_WARP,
    STAGES, TMA_WARP,
};

verus! {

/// How the resources of a pipeline stage are declared: in arrays indexed by
/// the stage, or one by one.
#[derive(Clone, Copy, PartialEq, Eq, Structural, Debug)]
pub enum Idiom {
    Arrays,
    Statics,
}

/// Barriers of the block.
pub const BARRIERS: u32 = 14;

/// Barriers that the arrays hold.
pub const ARRAY_BARRIERS: u32 = 12;

/// Columns of tensor memory, enough for both accumulators.
pub const TMEM_COLUMNS: u32 = 256;

/// Actions before the warps part.
pub const SETUP_STEPS: u32 = 21;

/// Actions after the warps have met again.
pub const CLEANUP_STEPS: u32 = 16;

/// The barriers in the order in which they are made ready and put out of use.
pub open spec fn barrier_at(idiom: Idiom, i: u32) -> Bar {
    if i == 12 {
        Bar::TileReady
    } else if i >= 13 {
        Bar::Clc
    } else if idiom is Statics {
        if i < 4 {
            Bar::Tma { slot: i }
        } else if i < 8 {
            Bar::Mma { slot: (i - 4) as u32 }
        } else if i < 10 {
            Bar::AccumFull { slot: (i - 8) as u32 }
        } else {
            Bar::AccumEmpty { slot: (i - 10) as u32 }
        }
    } else if i < 8 {
        if i % 2 == 0 {
            Bar::Tma { slot: i / 2 }
        } else {
            Bar::Mma { slot: i / 2 }
        }
    } else {
        if i % 2 == 0 {
            Bar::AccumFull { slot: ((i - 8) as u32) / 2 }
        } else {
            Bar::AccumEmpty { slot: ((i - 8) as u32) / 2 }
        }
    }
}

/// Arrivals that complete a phase of a barrier: every draining thread for an
/// emptied accumulator, one otherwise.
pub open spec fn arrivals_of(bar: Bar) -> u32 {
    if bar is AccumEmpty {
        EPILOGUE_THREADS
    } else {
        1
    }
}

/// Whether the first thread handles a barrier alone: those in arrays are
/// handled without the others.
pub open spec fn handled_alone(idiom: Idiom, i: u32) -> bool {
    idiom is Arrays && i < ARRAY_BARRIERS
}

fn barrier(idiom: Idiom, i: u32) -> (r: Bar)
    ensures
        r == barrier_at(idiom, i),
{
    if i == 12 {
        Bar::TileReady
    } else if i >= 13 {
        Bar::Clc
    } else {
        match idiom {
            Idiom::Statics => {
                if i < 4 {
                    Bar::Tma { slot: i }
                } else if i < 8 {
                    Bar::Mma { slot: i - 4 }
                } else if i < 10 {
                    Bar::AccumFull { slot: i - 8 }
                } else {
                    Bar::AccumEmpty { slot: i - 10 }
                }
            },
            Idiom::Arrays => {
                let first: bool = i % 2 == 0;
                if i < 8 {
                    if first {
                        Bar::Tma { slot: i / 2 }
                    } else {
                        Bar::Mma { slot: i / 2 }
                    }
                } else {
                    if first {
                        Bar::AccumFull { slot: (i - 8) / 2 }
                    } else {
                        Bar::AccumEmpty { slot: (i - 8) / 2 }
                    }
                }
            },
        }
    }
}

fn arrivals(bar: Bar) -> (r: u32)
    ensures
        r == arrivals_of(bar),
{
    match bar {
        Bar::AccumEmpty { slot: _ } => EPILOGUE_THREADS,
        _ => 1,
    }
}

/// Step `i` of the setup: barriers, tensor memory, and one arrival in advance
/// at each slot, so that the first round does not stall.
pub open spec fn setup_action(idiom: Idiom, thread0: bool, i: u32) -> Action {
    if i < BARRIERS {
        let bar = barrier_at(idiom, i);
        first_lane_only(
            thread0 || !handled_alone(idiom, i),
            Action::InitBarrier {
                bar,
                count: arrivals_of(bar),
                together: !handled_alone(idiom, i),
            },
        )
    } else if i == 14 {
        Action::AllocTmem { columns: TMEM_COLUMNS }
    } else if i == 15 || i >= 20 {
        Action::Sync
    } else {
        first_lane_only(thread0, Action::Arrive { bar: Bar::Mma { slot: (i - 16) as u32 } })
    }
}

fn setup(idiom: Idiom, thread0: bool, i: u32) -> (r: Action)
    ensures
        r == setup_action(idiom, thread0, i),
{
    if i < BARRIERS {
        let bar: Bar = barrier(idiom, i);
        let alone: bool = match idiom {
            Idiom::Arrays => i < ARRAY_BARRIERS,
            Idiom::Statics => false,
        };
        only_first_lane(
            thread0 || !alone,
            Action::InitBarrier { bar, count: arrivals(bar), together: !alone },
        )
    } else if i == 14 {
        Action::AllocTmem { columns: TMEM_COLUMNS }
    } else if i == 15 || i >= 20 {
        Action::Sync
    } else {
        only_first_lane(thread0, Action::Arrive { bar: Bar::Mma { slot: i - 16 } })
    }
}

/// Step `i` of the cleanup.
pub open spec fn cleanup_action(idiom: Idiom, thread0: bool, i: u32) -> Action {
    if i == 0 {
        Action::Sync
    } else if i == 1 {
        Action::DeallocTmem
    } else {
        let n = (i - 2) as u32;
        first_lane_only(
            thread0 || !handled_alone(idiom, n),
            Action::InvalBarrier { bar: barrier_at(idiom, n) },
        )
    }
}

fn cleanup(idiom: Idiom, thread0: bool, i: u32) -> (r: Action)
    ensures
        r == cleanup_action(idiom, thread0, i),
{
    if i == 0 {
        Action::Sync
    } else if i == 1 {
        Action::DeallocTmem
    } else {
        let n: u32 = i - 2;
        let alone: bool = match idiom {
            Idiom::Arrays => n < ARRAY_BARRIERS,
            Idiom::Statics => false,
        };
        only_first_lane(thread0 || !alone, Action::InvalBarrier { bar: barrier(idiom, n) })
    }
}

/// Where a thread stands.
#[allow(inconsistent_fields)]
#[derive(Clone, Copy, PartialEq, Eq, Structural, Debug)]
pub enum ThreadPc {
    Setup { i: u32 },
    Produce { lane: Producer },
    Consume { lane: Consumer },
    Drain { thread: Epilogue },
    Cleanup { i: u32 },
    Done,
}

/// Thread `tid` of block `ctaid`.
#[derive(Clone, Copy, PartialEq, Eq, Structural, Debug)]
pub struct Thread {
    pub idiom: Idiom,
    pub tid: u32,
    pub ctaid: u32,
    pub pc: ThreadPc,
}

impl Thread {
    pub open spec fn wf(self) -> bool {
        &&& self.ctaid < TOTAL_TILES
        &&& match self.pc {
            ThreadPc::Setup { i } => i < SETUP_STEPS,
            ThreadPc::Produce { lane } => lane.wf(),
            ThreadPc::Consume { lane } => lane.wf(),
            ThreadPc::Drain { thread } => thread.wf(),
            ThreadPc::Cleanup { i } => i < CLEANUP_STEPS,
            ThreadPc::Done => true,
        }
    }

    /// The replies that the thread can be given.
    pub open spec fn accepts(self, reply: Reply) -> bool {
        match self.pc {
            ThreadPc::Produce { lane } => lane.accepts(reply),
            ThreadPc::Drain { thread } => thread.accepts(reply),
            _ => true,
        }
    }

    /// The part that the thread's warp plays, at its start.
    pub open spec fn role(self) -> ThreadPc {
        let warp = self.tid / 32;
        let lane = self.tid % 32;
        if warp == TMA_WARP {
            ThreadPc::Produce {
                lane: Producer {
                    pc: ProducerPc::Publish,
                    lane0: lane == 0,
                    ctaid: self.ctaid,
                    left: 0,
                    k_idx: 0,
                    global_k: 0,
                    clc_iter: 0,
                },
            }
        } else if warp == MMA_WARP {
            ThreadPc::Consume {
                lane: Consumer {
                    pc: ConsumerPc::WaitTile,
                    lane0: lane == 0,
                    tile_iter: 0,
                    tile_parity: 0,
                    k_idx: 0,
                    k_sub: 0,
                    global_k: 0,
                },
            }
        } else if warp < 4 {
            ThreadPc::Drain {
                thread: Epilogue {
                    pc: EpiloguePc::WaitTile,
                    warp_id: warp,
                    lane_id: lane,
                    tile_iter: 0,
                    tile_parity: 0,
                    tile_m: 0,
                    tile_n: 0,
                    row_offset: 0,
                    col_block: 0,
                    local_idx: 0,
                },
            }
        } else {
            ThreadPc::Cleanup { i: 0 }
        }
    }

    /// What the warp's part has the thread do; `Exit` when the part is over.
    pub open spec fn role_action(self, reply: Reply) -> Action {
        match self.pc {
            ThreadPc::Produce { lane } => lane.action(reply),
            ThreadPc::Consume { lane } => lane.action(reply),
            ThreadPc::Drain { thread } => thread.action(reply),
            _ => Action::Exit,
        }
    }

    /// What the thread does next.
    pub open spec fn action(self, reply: Reply) -> Action {
        match self.pc {
            ThreadPc::Setup { i } => setup_action(self.idiom, self.tid == 0, i),
            ThreadPc::Cleanup { i } => cleanup_action(self.idiom, self.tid == 0, i),
            ThreadPc::Done => Action::Exit,
            _ => if self.role_action(reply) is Exit {
                Action::Sync
            } else {
                self.role_action(reply)
            },
        }
    }

    /// Where the thread stands afterwards.
    pub open spec fn after(self, reply: Reply) -> Thread {
        let pc = match self.pc {
            ThreadPc::Setup { i } => if i + 1 < SETUP_STEPS {
                ThreadPc::Setup { i: (i + 1) as u32 }
            } else {
                self.role()
            },
            ThreadPc::Cleanup { i } => if i + 1 < CLEANUP_STEPS {
                ThreadPc::Cleanup { i: (i + 1) as u32 }
            } else {
                ThreadPc::Done
            },
            ThreadPc::Done => ThreadPc::Done,
            _ => if self.role_action(reply) is Exit {
                ThreadPc::Cleanup { i: 1 }
            } else {
                match self.pc {
                    ThreadPc::Produce { lane } => ThreadPc::Produce { lane: lane.after(reply) },
                    ThreadPc::Consume { lane } => ThreadPc::Consume { lane: lane.after(reply) },
                    ThreadPc::Drain { thread } => ThreadPc::Drain { thread: thread.after(reply) },
                    other => other,
                }
            },
        };
        Thread { pc, ..self }
    }

    /// Thread `tid` of block `ctaid`, before the setup.
    pub fn new(idiom: Idiom, tid: u32, ctaid: u32) -> (r: Thread)
        requires
            ctaid < TOTAL_TILES,
        ensures
            r == (Thread { idiom, tid, ctaid, pc: ThreadPc::Setup { i: 0 } }),
            r.wf(),
    {
        Thread { idiom, tid, ctaid, pc: ThreadPc::Setup { i: 0 } }
    }

    fn enter_role(&self) -> (r: ThreadPc)
        requires
            self.ctaid < TOTAL_TILES,
        ensures
            r == self.role(),
            (Thread { pc: r, ..*self }).wf(),
    {
        let warp_id: u32 = self.tid / 32;
        let lane_id: u32 = self.tid % 32;
        if warp_id == TMA_WARP {
            ThreadPc::Produce { lane: Producer::new(lane_id == 0, self.ctaid) }
        } else if warp_id == MMA_WARP {
            ThreadPc::Consume { lane: Consumer::new(lane_id == 0) }
        } else if warp_id < 4 {
            ThreadPc::Drain { thread: Epilogue::new(warp_id, lane_id) }
        } else {
            ThreadPc::Cleanup { i: 0 }
        }
    }
}

/// What a thread of the work-stealing matrix product does next, given the
/// reply to what it did last.
pub fn gemm(thread: &mut Thread, reply: Reply) -> (action: Action)
    requires
        old(thread).wf(),
        old(thread).accepts(reply),
    ensures
        action == old(thread).action(reply),
        *final(thread) == old(thread).after(reply),
        final(thread).wf(),
{
    let thread0: bool = thread.tid == 0;
    match thread.pc {
        ThreadPc::Setup { i } => {
            if i + 1 < SETUP_STEPS {
                thread.pc = ThreadPc::Setup { i: i + 1 };
            } else {
                let role: ThreadPc = thread.enter_role();
                thread.pc = role;
            }
            setup(thread.idiom, thread0, i)
        },
        ThreadPc::Produce { lane } => {
            let mut next: Producer = lane;
            let action: Action = next.step(reply);
            leave_or_stay(thread, action, ThreadPc::Produce { lane: next })
        },
        ThreadPc::Consume { lane } => {
            let mut next: Consumer = lane;
            let action: Action = next.step(reply);
            leave_or_stay(thread, action, ThreadPc::Consume { lane: next })
        },
        ThreadPc::Drain { thread: part } => {
            let mut next: Epilogue = part;
            let action: Action = next.step(reply);
            leave_or_stay(thread, action, ThreadPc::Drain { thread: next })
        },
        ThreadPc::Cleanup { i } => {
            if i + 1 < CLEANUP_STEPS {
                thread.pc = ThreadPc::Cleanup { i: i + 1 };
            } else {
                thread.pc = ThreadPc::Done;
            }
            cleanup(thread.idiom, thread0, i)
        },
        ThreadPc::Done => Action::Exit,
    }
}

/// A warp whose part is over meets the others; otherwise it goes on.
fn leave_or_stay(thread: &mut Thread, action: Action, next: ThreadPc) -> (r: Action)
    ensures
        action is Exit ==> r is Sync && *final(thread) == (Thread {
            pc: ThreadPc::Cleanup { i: 1 },
            ..*old(thread)
        }),
        !(action is Exit) ==> r == action && *final(thread) == (Thread {
            pc: next,
            ..*old(thread)
        }),
{
    match action {
        Action::Exit => {
            thread.pc = ThreadPc::Cleanup { i: 1 };
            Action::Sync
        },
        other => {
            thread.pc = next;
            other
        },
    }
}

/// Position in the order of the separate barriers of the barrier that the
/// arrays have at `i`.
pub open spec fn static_position(i: u32) -> u32 {
    if i >= ARRAY_BARRIERS {
        i
    } else if i < 8 {
        (i / 2 + 4 * (i % 2)) as u32
    } else {
        (8 + ((i - 8) as u32) / 2 + 2 * (i % 2)) as u32
    }
}

/// Both idioms make the same barriers ready, each once.
pub proof fn law_idioms_have_the_same_barriers(i: u32, j: u32)
    requires
        i < BARRIERS,
        j < BARRIERS,
    ensures
        static_position(i) < BARRIERS,
        barrier_at(Idiom::Arrays, i) == barrier_at(Idiom::Statics, static_position(i)),
        barrier_at(Idiom::Statics, i) == barrier_at(Idiom::Statics, j) <==> i == j,
        barrier_at(Idiom::Arrays, i) == barrier_at(Idiom::Arrays, j) <==> i == j,
{
}

/// Each slot of the ring is given one arrival in advance: the setup arrives
/// once at each of the `STAGES` barriers.
pub proof fn law_setup_frees_every_slot(idiom: Idiom, stage: u32, i: u32)
    requires
        stage < STAGES,
        i < SETUP_STEPS,
    ensures
        setup_action(idiom, true, i) == (Action::Arrive { bar: Bar::Mma { slot: stage } }) <==> i
            == 16 + stage,
{
}

/// A thread after `n` steps, given the replies.
pub open spec fn run(t: Thread, replies: spec_fn(nat) -> Reply, n: nat) -> Thread
    decreases n,
{
    if n == 0 {
        t
    } else {
        run(t, replies, (n - 1) as nat).after(replies((n - 1) as nat))
    }
}

impl Thread {
    /// The thread plays the part of its warp and lane.
    pub open spec fn in_role(self) -> bool {
        match self.pc {
            ThreadPc::Produce { lane } => self.tid / 32 == TMA_WARP && lane.lane0 == (self.tid % 32
                == 0),
            ThreadPc::Consume { lane } => self.tid / 32 == MMA_WARP && lane.lane0 == (self.tid % 32
                == 0),
            ThreadPc::Drain { thread } => self.tid / 32 < 4 && thread.warp_id == self.tid / 32
                && thread.lane_id == self.tid % 32,
            _ => true,
        }
    }

    /// The barrier at which the thread, or hardware on its behalf, arrives with
    /// its next action. Of a request for work the first lane takes care.
    pub open spec fn arrives_at(self, reply: Reply) -> Option<Bar> {
        match self.action(reply) {
            Action::Arrive { bar } => Some(bar),
            Action::ArriveExpect { bar, bytes: _ } => Some(bar),
            Action::Commit { bar } => Some(bar),
            Action::PublishTile { tile_m: _, tile_n: _ } => Some(Bar::TileReady),
            Action::PublishDone => Some(Bar::TileReady),
            Action::StealWork { parity: _, bytes: _ } => if self.tid % 32 == 0 {
                Some(Bar::Clc)
            } else {
                None
            },
            _ => None,
        }
    }
}

/// Threads that arrive at a barrier once in each of its phases: the draining
/// threads for an emptied accumulator, the first lane of one warp otherwise.
pub open spec fn arriver(bar: Bar, tid: int) -> bool {
    match bar {
        Bar::AccumEmpty { slot: _ } => tid / 32 < 4,
        Bar::Tma { slot: _ } | Bar::TileReady | Bar::Clc => tid == TMA_WARP * 32,
        _ => tid == MMA_WARP * 32,
    }
}

/// Threads below `n` that arrive at a barrier.
pub open spec fn arrivers(bar: Bar, n: int) -> int
    decreases n,
{
    if n <= 0 {
        0
    } else {
        arrivers(bar, n - 1) + if arriver(bar, n - 1) {
            1int
        } else {
            0int
        }
    }
}

proof fn lemma_arrivers(bar: Bar, n: int)
    requires
        0 <= n <= 192,
        !(bar is Compute),
    ensures
        arrivers(bar, n) == if bar is AccumEmpty {
            if n < 128 {
                n
            } else {
                128
            }
        } else if bar is Tma || bar is TileReady || bar is Clc {
            if n <= 128 {
                0
            } else {
                1int
            }
        } else {
            if n <= 160 {
                0
            } else {
                1int
            }
        },
    decreases n,
{
    if n > 0 {
        lemma_arrivers(bar, n - 1);
    }
}

/// The count of a barrier is the number of threads of the block that arrive in
/// a phase, and past the setup no other thread arrives.
pub proof fn law_counts_are_those_of_the_arrivers(t: Thread, reply: Reply, bar: Bar)
    requires
        !(bar is Compute),
        t.in_role(),
        t.wf(),
    ensures
        arrivals_of(bar) == arrivers(bar, 192),
        !(t.pc is Setup) && t.arrives_at(reply) == Some(bar) ==> arriver(bar, t.tid as int),
        t.after(reply).in_role(),
{
    lemma_arrivers(bar, 192);
}

/// A draining thread arrives once at the barrier of its accumulator for each
/// tile: exactly with the step that takes it to the next tile.
pub proof fn law_draining_thread_arrives_once_a_tile(t: Thread, e: Epilogue, reply: Reply)
    requires
        t.pc == (ThreadPc::Drain { thread: e }),
        e.wf(),
    ensures
        t.arrives_at(reply) is Some <==> e.pc is Release,
        e.pc is Release ==> t.arrives_at(reply) == Some(
            Bar::AccumEmpty { slot: e.tile_iter % 2 },
        ) && e.after(reply).tile_iter == e.tile_iter.wrapping_add(1),
        !(e.pc is Release) ==> e.after(reply).tile_iter == e.tile_iter,
{
}

/// The replies that a thread gets are ones that it can be given.
pub open spec fn replies_fit(t: Thread, replies: spec_fn(nat) -> Reply) -> bool {
    forall|i: nat| (#[trigger] run(t, replies, i)).accepts(replies(i))
}

/// The setup takes its steps in order, and nothing comes back to it.
proof fn lemma_setup_passes(t: Thread, replies: spec_fn(nat) -> Reply, n: nat)
    requires
        t.wf(),
        t.pc == (ThreadPc::Setup { i: 0 }),
        replies_fit(t, replies),
    ensures
        n < SETUP_STEPS ==> run(t, replies, n) == (Thread {
            pc: ThreadPc::Setup { i: n as u32 },
            ..t
        }),
        n == SETUP_STEPS ==> run(t, replies, n) == (Thread { pc: t.role(), ..t }),
        n >= SETUP_STEPS ==> !(run(t, replies, n).pc is Setup),
        run(t, replies, n).wf(),
        run(t, replies, n).in_role(),
        run(t, replies, n).tid == t.tid,
        run(t, replies, n).idiom == t.idiom,
    decreases n,
{
    if n > 0 {
        lemma_setup_passes(t, replies, (n - 1) as nat);
        let before = run(t, replies, (n - 1) as nat);
        assert(before.accepts(replies((n - 1) as nat)));
        lemma_step_keeps(before, replies((n - 1) as nat));
    }
}

/// A step keeps a thread well-formed and in its role.
proof fn lemma_step_keeps(t: Thread, reply: Reply)
    requires
        t.wf(),
        t.in_role(),
        t.accepts(reply),
    ensures
        t.after(reply).wf(),
        t.after(reply).in_role(),
        t.after(reply).tid == t.tid,
        t.after(reply).idiom == t.idiom,
        !(t.pc is Setup) ==> !(t.after(reply).pc is Setup),
{
}

/// Step of the setup in which the first thread makes a barrier ready.
pub open spec fn ready_step(idiom: Idiom, bar: Bar) -> nat {
    match idiom {
        Idiom::Arrays => match bar {
            Bar::Tma { slot } => 2 * slot as nat,
            Bar::Mma { slot } => 2 * slot as nat + 1,
            Bar::AccumFull { slot } => 8 + 2 * slot as nat,
            Bar::AccumEmpty { slot } => 9 + 2 * slot as nat,
            Bar::TileReady => 12,
            _ => 13,
        },
        Idiom::Statics => match bar {
            Bar::Tma { slot } => slot as nat,
            Bar::Mma { slot } => 4 + slot as nat,
            Bar::AccumFull { slot } => 8 + slot as nat,
            Bar::AccumEmpty { slot } => 10 + slot as nat,
            Bar::TileReady => 12,
            _ => 13,
        },
    }
}

/// A barrier of the block: four of each for the slots, two of each for the
/// accumulators, and two more.
pub open spec fn is_barrier(bar: Bar) -> bool {
    match bar {
        Bar::Tma { slot } => slot < 4,
        Bar::Mma { slot } => slot < 4,
        Bar::AccumFull { slot } => slot < 2,
        Bar::AccumEmpty { slot } => slot < 2,
        Bar::TileReady => true,
        Bar::Clc => true,
        Bar::Compute => false,
    }
}

/// Whatever a thread uses is a barrier of the block.
proof fn lemma_uses_a_barrier(t: Thread, reply: Reply, bar: Bar)
    requires
        t.wf(),
        t.accepts(reply),
        uses(t.action(reply), bar),
    ensures
        is_barrier(bar),
        !(t.pc is Cleanup),
{
}

/// The first thread makes a barrier ready in its step.
proof fn lemma_ready_step(idiom: Idiom, ctaid: u32, reply: Reply, bar: Bar)
    requires
        is_barrier(bar),
    ensures
        ready_step(idiom, bar) < 14,
        ({
            let zero = Thread {
                idiom,
                tid: 0,
                ctaid,
                pc: ThreadPc::Setup { i: ready_step(idiom, bar) as u32 },
            };
            zero.action(reply) matches Action::InitBarrier { bar: b, count, together: _ } && b
                == bar && count == arrivers(bar, 192)
        }),
{
    lemma_arrivers(bar, 192);
    let i = ready_step(idiom, bar) as u32;
    assert(barrier_at(idiom, i) == bar);
}

/// In the setup barriers are used only after the first meeting.
proof fn lemma_setup_uses(t: Thread, reply: Reply, bar: Bar)
    requires
        t.pc is Setup,
        uses(t.action(reply), bar),
    ensures
        t.pc->Setup_i >= 16,
{
}

/// A barrier is used only after the first thread has made it ready, for as many
/// arrivals as threads arrive in a phase, and all threads have met since.
#[verifier::rlimit(60)]
pub proof fn law_barriers_are_ready_before_use(
    t: Thread,
    replies: spec_fn(nat) -> Reply,
    n: nat,
    bar: Bar,
)
    requires
        t.wf(),
        t.pc == (ThreadPc::Setup { i: 0 }),
        replies_fit(t, replies),
        uses(run(t, replies, n).action(replies(n)), bar),
    ensures
        ({
            let zero = Thread { tid: 0, pc: ThreadPc::Setup { i: ready_step(t.idiom, bar) as u32 }, ..t };
            &&& ready_step(t.idiom, bar) < 15
            &&& zero.action(replies(n)) matches Action::InitBarrier { bar: b, count, together: _ }
                && b == bar && count == arrivers(bar, 192)
            &&& run(t, replies, 15).action(replies(15)) is Sync
            &&& 15 < n
        }),
{
    lemma_setup_passes(t, replies, n);
    lemma_setup_passes(t, replies, 15);
    assert(run(t, replies, n).accepts(replies(n)));
    lemma_uses_a_barrier(run(t, replies, n), replies(n), bar);
    lemma_ready_step(t.idiom, t.ctaid, replies(n), bar);
    if n < SETUP_STEPS {
        lemma_setup_uses(run(t, replies, n), replies(n), bar);
    }
    assert(setup_action(t.idiom, t.tid == 0, 15) is Sync);
}

/// Every thread makes ready a barrier of its own accord only once, and the first
/// thread makes every barrier ready, each once.
pub proof fn law_setup_readies_every_barrier(idiom: Idiom, ctaid: u32, reply: Reply, bar: Bar, i: u32)
    requires
        is_barrier(bar),
        i < SETUP_STEPS,
    ensures
        ({
            let zero = Thread { idiom, tid: 0, ctaid, pc: ThreadPc::Setup { i } };
            zero.action(reply) matches Action::InitBarrier { bar: b, count: _, together: _ } && b
                == bar <==> i == ready_step(idiom, bar)
        }),
{
}

/// Columns that a thread touches in tensor memory.
proof fn lemma_columns(t: Thread, reply: Reply)
    requires
        t.wf(),
        t.accepts(reply),
    ensures
        touches_below(t.action(reply), 256),
{
    if t.pc is Drain {
        let e = t.pc->Drain_thread;
        if e.pc is Drain {
            let row = crate::epilogue::drain_row(e.warp_id as int, e.row_offset as int);
            let col = e.accum() * 128 + e.col_block * 16;
            assert(0 <= row < 128 && 0 <= col <= 240);
            assert((row * 0x1_0000 + col) % 0x1_0000 == col);
            assert((row * 0x1_0000 + (col + 8)) % 0x1_0000 == col + 8);
            assert(e.drain().tmem_a == row * 0x1_0000 + col);
            assert(e.drain().tmem_b == row * 0x1_0000 + (col + 8));
        }
    }
}

/// Tensor memory is touched only after it was allocated with enough columns for
/// both accumulators and all threads have met since, and given back only after
/// that.
pub proof fn law_tensor_memory_is_there_when_touched(
    t: Thread,
    replies: spec_fn(nat) -> Reply,
    n: nat,
)
    requires
        t.wf(),
        t.pc == (ThreadPc::Setup { i: 0 }),
        replies_fit(t, replies),
        ({
            let action = run(t, replies, n).action(replies(n));
            action is Mma || action is Drain || action is DeallocTmem
        }),
    ensures
        run(t, replies, 14).action(replies(14)) == (Action::AllocTmem { columns: 256 }),
        run(t, replies, 20).action(replies(20)) is Sync,
        20 < n,
        touches_below(run(t, replies, n).action(replies(n)), 256),
{
    lemma_setup_passes(t, replies, n);
    lemma_setup_passes(t, replies, 14);
    lemma_setup_passes(t, replies, 20);
    assert(run(t, replies, n).accepts(replies(n)));
    lemma_columns(run(t, replies, n), replies(n));
}

/// The parts that the warps play: warp 4 copies, warp 5 multiplies, warps 0 to 3
/// drain, and all others only clean up.
pub proof fn law_warps_play_their_parts(t: Thread)
    ensures
        t.role() is Produce <==> t.tid / 32 == 4,
        t.role() is Consume <==> t.tid / 32 == 5,
        t.role() is Drain <==> t.tid / 32 < 4,
        t.tid / 32 > 5 ==> t.role() == (ThreadPc::Cleanup { i: 0 }),
        t.role() matches ThreadPc::Produce { lane } ==> lane.ctaid == t.ctaid && lane.left == 0
            && lane.pc is Publish && lane.lane0 == (t.tid % 32 == 0),
        t.role() matches ThreadPc::Consume { lane } ==> lane.pc is WaitTile && lane.lane0 == (t.tid
            % 32 == 0),
        t.role() matches ThreadPc::Drain { thread } ==> thread.pc is WaitTile && thread.warp_id
            == t.tid / 32 && thread.lane_id == t.tid % 32,
{
}

/// A thread whose part is over meets the others before anything is given back:
/// the step to the release of tensor memory is a meeting.
pub proof fn law_threads_meet_before_the_cleanup(t: Thread, reply: Reply)
    requires
        t.wf(),
        t.accepts(reply),
    ensures
        t.after(reply).action(reply) is DeallocTmem ==> t.action(reply) is Sync,
        t.after(reply).pc is Cleanup && !(t.pc is Cleanup) && !(t.pc is Setup) ==> t.action(
            reply,
        ) is Sync,
{
}

/// The cleanup gives the tensor memory back and then puts each barrier out of use
/// once, by the first thread at least; nothing is used in it, and nothing is done
/// after it.
pub proof fn law_cleanup_puts_all_out_of_use(t: Thread, reply: Reply, bar: Bar)
    requires
        t.wf(),
        t.pc is Cleanup || t.pc is Done,
        is_barrier(bar),
    ensures
        ({
            let i = t.pc->Cleanup_i;
            &&& t.pc is Cleanup && i == 1 <==> t.action(reply) is DeallocTmem
            &&& t.tid == 0 ==> (t.action(reply) == (Action::InvalBarrier { bar }) <==> t.pc is Cleanup
                && i == 2 + ready_step(t.idiom, bar))
            &&& t.pc is Cleanup ==> t.after(reply).pc == if i < 15 {
                ThreadPc::Cleanup { i: (i + 1) as u32 }
            } else {
                ThreadPc::Done
            }
            &&& t.pc is Done ==> t.action(reply) is Exit && t.after(reply) == t
            &&& !uses(t.action(reply), bar)
        }),
{
}

/// A barrier is made ready and put out of use by the first thread alone or by all
/// threads together: where it is together for one thread it is for all, and
/// otherwise all but the first do nothing. All threads take the same steps.
pub proof fn law_barriers_are_handled_alone_or_together(t: Thread, u: Thread, reply: Reply)
    requires
        t.tid == 0,
        u == (Thread { tid: u.tid, ..t }),
        u.tid != 0,
        t.wf(),
        t.pc is Setup || t.pc is Cleanup,
    ensures
        u.action(reply) == t.action(reply) || u.action(reply) is Skip,
        t.action(reply) is InitBarrier ==> (t.action(reply)->InitBarrier_together <==> u.action(
            reply,
        ) == t.action(reply)),
        t.action(reply) is Sync || t.action(reply) is AllocTmem || t.action(reply) is DeallocTmem
            ==> u.action(reply) == t.action(reply),
        t.action(reply) is Arrive ==> u.action(reply) is Skip,
        t.pc is Setup && !(t.after(reply).pc is Setup) ==> !(u.after(reply).pc is Setup),
{
}

/// The setup arrives once at the barrier of each slot, by the first thread alone,
/// and at no other barrier.
pub proof fn law_setup_arrives_once_at_each_slot(t: Thread, reply: Reply, slot: u32)
    requires
        t.wf(),
        t.pc is Setup,
        slot < 4,
    ensures
        t.arrives_at(reply) == Some(Bar::Mma { slot }) <==> t.tid == 0 && t.pc == (ThreadPc::Setup {
            i: (16 + slot) as u32,
        }),
        t.arrives_at(reply) matches Some(bar) ==> bar is Mma,
        t.pc matches ThreadPc::Setup { i } ==> (i == 15 || i == 20 <==> t.action(reply) is Sync),
{
}

/// Copies and products are made by the first lane of their warp alone.
pub proof fn law_only_first_lanes_act(t: Thread, reply: Reply)
    requires
        t.wf(),
        t.in_role(),
    ensures
        t.action(reply) is CopyTile ==> t.tid == 128,
        t.action(reply) is Mma ==> t.tid == 160,
        t.action(reply) is Commit ==> t.tid == 160,
        t.action(reply) is PublishTile || t.action(reply) is PublishDone ==> t.tid == 128,
        t.action(reply) is ArriveExpect ==> t.tid == 128,
        t.action(reply) is StealWork ==> t.tid / 32 == 4,
        t.action(reply) is Drain || t.action(reply) is CopyOut ==> t.tid / 32 < 4,
{
}

} // verus!
