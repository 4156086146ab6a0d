//! What the three parts of the work-stealing matrix product do over whole
//! tiles, and why they agree.
//!
//! Pipeline steps are numbered over all tiles of a block: step
//! `K_ITERS * tile + k` loads and multiplies slice `k` of its tile. The
//! counters are 32 bits wide and wrap; slots and parities do not notice.
use vstd::prelude::*;
use crate::device::{Action, Bar, Operand, Reply};
use crate::dims::{
    BK, BM, BN, CLUSTER_SIZE, COMBINED_BYTES, K_ITERS, MMAS_PER_STEP, TILES_M, TILES_N,
    TILE_WIDTH,
};
use crate::epilogue::{copy_at, drain_at, COL_BLOCKS, PER_WARP_BOUNDS, ROWS_PER_WARP, TILE_WORDS};
use crate::gemm::{Thread, ThreadPc};
use crate::math::{lemma_join, lemma_split};
use crate::persistent::{
    Consumer, ConsumerPc, Epilogue, EpiloguePc, Producer, ProducerPc, CLC_BYTES, NUM_ACCUM_STAGES,
    STAGES,
};
use crate::ring::{
    free_phases, full_phases, law_consumer_wait_is_exact, law_producer_wait_is_exact,
    law_slot_holds_its_step, law_slots_within_a_round_differ, parity_of, ring_inv, slot_of, visits, wait_passes,
};

verus! {

/// A count as a 32-bit counter shows it.
#[verifier::opaque]
pub open spec fn shown(count: nat) -> u32 {
    (count % 0x1_0000_0000) as u32
}

/// A counter that has wrapped still gives the slot and the parity of its step.
pub proof fn law_wrapping_keeps_slots(step: nat)
    ensures
        shown(step) % STAGES == slot_of(step, STAGES as nat),
        (shown(step) / STAGES) % 2 == parity_of(step, STAGES as nat),
{
    reveal(shown);
    let t = step as int;
    let (wraps, count) = (t / 0x1_0000_0000, t % 0x1_0000_0000);
    lemma_join(t, 0x1_0000_0000);
    let (round, slot) = (count / 4, count % 4);
    lemma_join(count, 4);
    lemma_split(t, 4, 0x4000_0000 * wraps + round, slot);
    let (half, parity) = (round / 2, round % 2);
    lemma_join(round, 2);
    lemma_split(0x4000_0000 * wraps + round, 2, 0x2000_0000 * wraps + half, parity);
}

/// A tile counter that has wrapped still gives the accumulator and the parity of
/// its tile.
pub proof fn law_wrapping_keeps_accumulators(tile: nat)
    ensures
        shown(tile) % NUM_ACCUM_STAGES == slot_of(tile, NUM_ACCUM_STAGES as nat),
        slot_of(tile, NUM_ACCUM_STAGES as nat) == tile % 2,
        (shown(tile) / NUM_ACCUM_STAGES) % 2 == parity_of(tile, NUM_ACCUM_STAGES as nat),
{
    reveal(shown);
    let t = tile as int;
    let (wraps, count) = (t / 0x1_0000_0000, t % 0x1_0000_0000);
    lemma_join(t, 0x1_0000_0000);
    let (half, odd) = (count / 2, count % 2);
    lemma_join(count, 2);
    lemma_split(t, 2, 0x8000_0000 * wraps + half, odd);
    let (quarter, parity) = (half / 2, half % 2);
    lemma_join(half, 2);
    lemma_split(0x8000_0000 * wraps + half, 2, 0x4000_0000 * wraps + quarter, parity);
}

/// A counter goes up by one, around the end of its range too.
proof fn lemma_shown_next(count: nat)
    ensures
        shown(count).wrapping_add(1) == shown(count + 1),
{
    reveal(shown);
}

/// A counter that has not wrapped shows its count.
proof fn lemma_shown_exact(count: nat)
    ensures
        count < 0x1_0000_0000 ==> shown(count) == count,
{
    reveal(shown);
}

/// Counting on from what a counter shows.
proof fn lemma_shown_on(count: nat, more: nat)
    ensures
        shown(shown(count) as nat + more) == shown(count + more),
{
    reveal(shown);
}

/// Whether this step of the copying warp starts a tile.
pub open spec fn starts_tile(p: Producer, reply: Reply) -> bool {
    p.pc is Publish || (p.pc is Decode && reply.flag != 0)
}

/// The copying warp has started `started` tiles and its step counter agrees.
pub open spec fn producer_numbered(p: Producer, started: nat) -> bool {
    match p.pc {
        ProducerPc::WaitSlot | ProducerPc::CopyA | ProducerPc::CopyB | ProducerPc::Expect => {
            &&& started >= 1
            &&& p.global_k == shown(((started - 1) * K_ITERS + p.k_idx) as nat)
        },
        _ => p.global_k == shown((started * K_ITERS) as nat),
    }
}

/// The step counter of the copying warp numbers the slices of all tiles
/// through: every step keeps it right.
#[verifier::rlimit(40)]
pub proof fn law_producer_numbering(p: Producer, reply: Reply, started: nat)
    requires
        p.wf(),
        producer_numbered(p, started),
    ensures
        producer_numbered(
            p.after(reply),
            if starts_tile(p, reply) {
                started + 1
            } else {
                started
            },
        ),
{
    if p.pc is Expect {
        lemma_shown_next(((started - 1) * K_ITERS + p.k_idx) as nat);
    }
}

/// The copying warp fills slice `k` of a tile as the ring step of that number:
/// it waits for the slot of that step, copies columns `k * BK` on of the rows
/// of A and of Bᵀ that the tile needs, and announces their bytes.
#[verifier::rlimit(40)]
pub proof fn law_producer_fills_its_step(p: Producer, reply: Reply, started: nat)
    requires
        p.wf(),
        p.lane0,
        started >= 1,
        producer_numbered(p, started),
    ensures
        ({
            let g = ((started - 1) * K_ITERS + p.k_idx) as nat;
            let slot = slot_of(g, STAGES as nat) as u32;
            let bar = Bar::Tma { slot };
            let x = (p.k_idx * BK) as i32;
            &&& p.pc is WaitSlot ==> p.action(reply) == (Action::WaitParity {
                bar: Bar::Mma { slot },
                parity: parity_of(g, STAGES as nat) as u32,
            })
            &&& p.pc is CopyA ==> p.action(reply) == (Action::CopyTile {
                operand: Operand::A,
                slot,
                x,
                y: ((p.ctaid % TILES_M) * BM) as i32,
                bar,
            })
            &&& p.pc is CopyB ==> p.action(reply) == (Action::CopyTile {
                operand: Operand::B,
                slot,
                x,
                y: ((p.ctaid / TILES_M) * BN) as i32,
                bar,
            })
            &&& p.pc is Expect ==> p.action(reply) == (Action::ArriveExpect {
                bar,
                bytes: COMBINED_BYTES,
            })
        }),
{
    let g = ((started - 1) * K_ITERS + p.k_idx) as nat;
    law_wrapping_keeps_slots(g);
}

/// The copying warp after `n` steps, given the replies.
pub open spec fn producer_run(p: Producer, replies: spec_fn(nat) -> Reply, n: nat) -> Producer
    decreases n,
{
    if n == 0 {
        p
    } else {
        let before = producer_run(p, replies, (n - 1) as nat);
        before.after(replies((n - 1) as nat))
    }
}

/// Where the copying warp stands `i` steps into the slices of a tile.
pub open spec fn producer_at(p: Producer, i: nat) -> Producer {
    Producer {
        pc: if i % 4 == 0 {
            ProducerPc::WaitSlot
        } else if i % 4 == 1 {
            ProducerPc::CopyA
        } else if i % 4 == 2 {
            ProducerPc::CopyB
        } else {
            ProducerPc::Expect
        },
        k_idx: (i / 4) as u32,
        global_k: shown(p.global_k as nat + i / 4),
        ..p
    }
}

/// A tile takes the copying warp four steps for each of its slices, in order
/// and each once; then it goes on to the next block of the cluster, or steals.
pub proof fn law_producer_copies_every_slice(
    p: Producer,
    replies: spec_fn(nat) -> Reply,
    n: nat,
)
    requires
        p.wf(),
        p.pc is WaitSlot,
        p.k_idx == 0,
        n <= 4 * K_ITERS,
    ensures
        n < 4 * K_ITERS ==> producer_run(p, replies, n) == producer_at(p, n),
        n == 4 * K_ITERS ==> producer_run(p, replies, n) == if p.left > 0 {
            Producer {
                pc: ProducerPc::Publish,
                ctaid: (p.ctaid + 1) as u32,
                left: (p.left - 1) as u32,
                global_k: shown((p.global_k + K_ITERS) as nat),
                ..p
            }
        } else {
            Producer {
                pc: ProducerPc::Steal,
                global_k: shown((p.global_k + K_ITERS) as nat),
                ..p
            }
        },
    decreases n,
{
    lemma_shown_exact(p.global_k as nat);
    if n > 0 {
        law_producer_copies_every_slice(p, replies, (n - 1) as nat);
        lemma_shown_next(p.global_k as nat + (n - 1) as nat / 4);
    }
}

/// A stolen cluster is worked off block by block: after a steal that brought
/// block `first`, the copying warp is at block `first` with the other blocks
/// of its cluster to follow.
pub proof fn law_stolen_cluster_is_taken_whole(p: Producer, reply: Reply)
    requires
        p.pc is Decode,
        reply.flag != 0,
        p.accepts(reply),
    ensures
        p.after(reply).pc is WaitSlot,
        p.after(reply).ctaid == reply.x,
        p.after(reply).left == CLUSTER_SIZE - 1,
        p.after(reply).wf(),
{
}

/// A run of the copying warp can be taken in two parts.
proof fn lemma_producer_run_splits(
    p: Producer,
    replies: spec_fn(nat) -> Reply,
    m: nat,
    n: nat,
)
    ensures
        producer_run(p, replies, m + n) == producer_run(
            producer_run(p, replies, m),
            |i: nat| replies(m + i),
            n,
        ),
    decreases n,
{
    if n > 0 {
        lemma_producer_run_splits(p, replies, m, (n - 1) as nat);
    }
}

/// Steps of the copying warp from the first slice of a block to that of the
/// next block of the cluster: four for each slice, and the announcement.
pub open spec fn block_steps() -> nat {
    513
}

/// The blocks of a cluster are worked off one after the other: from the first
/// slice of a block with `left` blocks to follow, the copying warp comes to the
/// first slice of each of them in turn, and after the last it steals.
pub proof fn law_cluster_is_worked_off(
    p: Producer,
    replies: spec_fn(nat) -> Reply,
    j: nat,
)
    requires
        p.wf(),
        p.pc is WaitSlot,
        p.k_idx == 0,
        j <= p.left,
    ensures
        producer_run(p, replies, j * block_steps()) == (Producer {
            ctaid: (p.ctaid + j) as u32,
            left: (p.left - j) as u32,
            global_k: shown((p.global_k + j * K_ITERS) as nat),
            ..p
        }),
        producer_run(p, replies, p.left as nat * block_steps() + 4 * K_ITERS as nat) == (Producer {
            pc: ProducerPc::Steal,
            ctaid: (p.ctaid + p.left) as u32,
            left: 0,
            global_k: shown((p.global_k + (p.left + 1) * K_ITERS) as nat),
            ..p
        }),
{
    lemma_block_by_block(p, replies, j);
    lemma_block_by_block(p, replies, p.left as nat);
    let m = p.left as nat * block_steps();
    let last = producer_run(p, replies, m);
    let shifted = |i: nat| replies(m + i);
    lemma_producer_run_splits(p, replies, m, 4 * K_ITERS as nat);
    law_producer_copies_every_slice(last, shifted, 4 * K_ITERS as nat);
    lemma_shown_on(p.global_k as nat + p.left as nat * K_ITERS as nat, K_ITERS as nat);
}

proof fn lemma_block_by_block(p: Producer, replies: spec_fn(nat) -> Reply, j: nat)
    requires
        p.wf(),
        p.pc is WaitSlot,
        p.k_idx == 0,
        j <= p.left,
    ensures
        producer_run(p, replies, j * block_steps()) == (Producer {
            ctaid: (p.ctaid + j) as u32,
            left: (p.left - j) as u32,
            global_k: shown((p.global_k + j * K_ITERS) as nat),
            ..p
        }),
    decreases j,
{
    lemma_shown_exact(p.global_k as nat);
    if j > 0 {
        let i = (j - 1) as nat;
        lemma_block_by_block(p, replies, i);
        lemma_shown_on(p.global_k as nat + i * K_ITERS as nat, K_ITERS as nat);
        let m = i * block_steps();
        let here = producer_run(p, replies, m);
        let shifted = |k: nat| replies(m + k);
        lemma_producer_run_splits(p, replies, m, 4 * K_ITERS as nat);
        law_producer_copies_every_slice(here, shifted, 4 * K_ITERS as nat);
        assert(j * block_steps() == m + 4 * K_ITERS as nat + 1);
        assert(producer_run(p, replies, j * block_steps()) == producer_run(
            p,
            replies,
            m + 4 * K_ITERS as nat,
        ).after(replies(m + 4 * K_ITERS as nat)));
    }
}

/// The copying warp stops exactly when a steal brings nothing, and then says so.
pub proof fn law_producer_stops_without_work(p: Producer, reply: Reply)
    requires
        p.wf(),
        !(p.pc is Finished),
    ensures
        p.after(reply).pc is Finished <==> p.pc is Decode && reply.flag == 0,
        p.after(reply).pc is Finished && p.lane0 ==> p.action(reply) is PublishDone,
{
}

/// The lanes of the copying warp stay together: they go through the same
/// states, and a lane other than the first does what the first does or nothing.
pub proof fn law_producer_lanes_stay_together(p: Producer, q: Producer, reply: Reply)
    requires
        q == (Producer { lane0: false, ..p }),
    ensures
        q.after(reply) == (Producer { lane0: false, ..p.after(reply) }),
        q.action(reply) == p.action(reply) || q.action(reply) is Skip,
{
}

/// The multiplying warp is at tile number `tile` and its counters agree.
pub open spec fn consumer_numbered(c: Consumer, tile: nat) -> bool {
    &&& c.tile_iter == shown(tile)
    &&& match c.pc {
        ConsumerPc::WaitTile => {
            &&& c.tile_parity == tile % 2
            &&& c.global_k == shown((tile * K_ITERS) as nat)
        },
        ConsumerPc::CommitAccum => {
            &&& c.tile_parity == 1 - tile % 2
            &&& c.global_k == shown((tile * K_ITERS + K_ITERS) as nat)
        },
        ConsumerPc::WaitSlot | ConsumerPc::Multiply | ConsumerPc::CommitSlot => {
            &&& c.tile_parity == 1 - tile % 2
            &&& c.global_k == shown((tile * K_ITERS + c.k_idx) as nat)
        },
        _ => {
            &&& c.tile_parity == 1 - tile % 2
            &&& c.global_k == shown((tile * K_ITERS) as nat)
        },
    }
}

/// The step counter of the multiplying warp numbers the slices of all tiles
/// through, as that of the copying warp does.
#[verifier::rlimit(40)]
pub proof fn law_consumer_numbering(c: Consumer, reply: Reply, tile: nat)
    requires
        c.wf(),
        consumer_numbered(c, tile),
    ensures
        consumer_numbered(
            c.after(reply),
            if c.pc is CommitAccum {
                tile + 1
            } else {
                tile
            },
        ),
{
    if c.pc is CommitSlot {
        lemma_shown_next((tile * K_ITERS + c.k_idx) as nat);
    } else if c.pc is CommitAccum {
        lemma_shown_next(tile);
    }
}

/// The multiplying warp uses slice `k` of tile `tile` as the ring step of that
/// number: it waits for the copy of that step, multiplies in its slot, and
/// hands the slot back.
#[verifier::rlimit(40)]
pub proof fn law_consumer_uses_its_step(c: Consumer, reply: Reply, tile: nat)
    requires
        c.wf(),
        c.lane0,
        consumer_numbered(c, tile),
    ensures
        ({
            let g = (tile * K_ITERS + c.k_idx) as nat;
            let slot = slot_of(g, STAGES as nat) as u32;
            &&& c.pc is WaitTile ==> c.action(reply) == (Action::WaitParity {
                bar: Bar::TileReady,
                parity: (tile % 2) as u32,
            })
            &&& c.pc is WaitSlot ==> c.action(reply) == (Action::WaitParity {
                bar: Bar::Tma { slot },
                parity: parity_of(g, STAGES as nat) as u32,
            })
            &&& c.pc is Multiply ==> c.action(reply) == (Action::Mma {
                slot,
                k_offset: (c.k_sub * 32) as u64,
                tmem_offset: ((tile % 2) * BN) as u32,
                accumulate: !(c.k_idx == 0 && c.k_sub == 0),
            })
            &&& c.pc is CommitSlot ==> c.action(reply) == (Action::Commit {
                bar: Bar::Mma { slot },
            })
            &&& c.pc is CommitAccum ==> c.action(reply) == (Action::Commit {
                bar: Bar::AccumFull { slot: (tile % 2) as u32 },
            })
        }),
{
    let g = (tile * K_ITERS + c.k_idx) as nat;
    law_wrapping_keeps_slots(g);
    law_wrapping_keeps_accumulators(tile);
}

/// The multiplying warp after `n` steps, given the replies.
pub open spec fn consumer_run(c: Consumer, replies: spec_fn(nat) -> Reply, n: nat) -> Consumer
    decreases n,
{
    if n == 0 {
        c
    } else {
        let before = consumer_run(c, replies, (n - 1) as nat);
        before.after(replies((n - 1) as nat))
    }
}

/// Where the multiplying warp stands `i` steps into the slices of a tile.
pub open spec fn consumer_at(c: Consumer, i: nat) -> Consumer {
    Consumer {
        pc: if i % 6 == 0 {
            ConsumerPc::WaitSlot
        } else if i % 6 == 5 {
            ConsumerPc::CommitSlot
        } else {
            ConsumerPc::Multiply
        },
        k_idx: (i / 6) as u32,
        k_sub: if i % 6 == 0 || i % 6 == 5 {
            0
        } else {
            (i % 6 - 1) as u32
        },
        global_k: shown(c.global_k as nat + i / 6),
        ..c
    }
}

/// A tile takes the multiplying warp one wait, `MMAS_PER_STEP` products and
/// one hand-back for each of its slices, in order and each once; only the very
/// first product starts the accumulator anew.
pub proof fn law_consumer_multiplies_every_slice(
    c: Consumer,
    replies: spec_fn(nat) -> Reply,
    n: nat,
)
    requires
        c.wf(),
        c.pc is WaitSlot,
        c.k_idx == 0,
        c.k_sub == 0,
        n <= 6 * K_ITERS,
    ensures
        n < 6 * K_ITERS ==> consumer_run(c, replies, n) == consumer_at(c, n),
        n == 6 * K_ITERS ==> consumer_run(c, replies, n) == (Consumer {
            pc: ConsumerPc::CommitAccum,
            global_k: shown((c.global_k + K_ITERS) as nat),
            ..c
        }),
    decreases n,
{
    assert(MMAS_PER_STEP == 4);
    lemma_shown_exact(c.global_k as nat);
    if n > 0 {
        law_consumer_multiplies_every_slice(c, replies, (n - 1) as nat);
        lemma_shown_next(c.global_k as nat + (n - 1) as nat / 6);
    }
}

/// The lanes of the multiplying warp stay together.
pub proof fn law_consumer_lanes_stay_together(c: Consumer, d: Consumer, reply: Reply)
    requires
        d == (Consumer { lane0: false, ..c }),
    ensures
        d.after(reply) == (Consumer { lane0: false, ..c.after(reply) }),
        d.action(reply) == c.action(reply) || d.action(reply) is Skip,
{
}

/// The multiplying warp never misses an announcement. While it waits for tile
/// `tile`, having released all steps before it, the copying warp, at most
/// `STAGES` steps ahead, has announced that tile or is about to; so the parity
/// wait passes exactly when the tile has been announced.
pub proof fn law_consumer_tile_wait_is_exact(filled: nat, tile: nat, announced: nat)
    requires
        ring_inv(filled, (tile * K_ITERS) as nat, STAGES as nat),
        // the copying warp is in its last announced tile, or between tiles
        filled <= announced * K_ITERS,
        announced >= 1 ==> (announced - 1) * K_ITERS <= filled,
    ensures
        tile <= announced <= tile + 1,
        wait_passes(announced, tile % 2) <==> tile < announced,
{
}

/// A draining thread that waits for tile `tile` is let through exactly when an
/// odd number of tiles has been announced from that one on; so, as long as no
/// later tile has been, exactly when the tile has been announced.
pub proof fn law_epilogue_tile_wait_is_exact(tile: nat, announced: nat)
    requires
        tile <= announced,
    ensures
        wait_passes(announced, tile % 2) <==> (announced - tile) % 2 == 1,
        announced <= tile + 1 ==> (wait_passes(announced, tile % 2) <==> tile < announced),
{
}

/// The multiplying warp's wait for an empty accumulator is exact: at tile
/// `tile`, with `drained` tiles drained, it passes (or is not made, in the
/// first round) exactly when the tile that used the accumulator before has
/// been drained.
#[verifier::rlimit(40)]
pub proof fn law_accumulator_wait_is_exact(c: Consumer, reply: Reply, tile: nat, drained: nat)
    requires
        c.wf(),
        c.pc is Begin,
        reply.flag != 0,
        tile < 0x1_0000_0000,
        consumer_numbered(c, tile),
        ring_inv(tile, drained, NUM_ACCUM_STAGES as nat),
    ensures
        tile < NUM_ACCUM_STAGES ==> c.action(reply) is Skip && tile < drained
            + NUM_ACCUM_STAGES,
        tile >= NUM_ACCUM_STAGES ==> c.action(reply) == (Action::WaitParity {
            bar: Bar::AccumEmpty { slot: slot_of(tile, NUM_ACCUM_STAGES as nat) as u32 },
            parity: parity_of((tile - NUM_ACCUM_STAGES) as nat, NUM_ACCUM_STAGES as nat) as u32,
        }) && (wait_passes(
            visits(drained, slot_of(tile, NUM_ACCUM_STAGES as nat), NUM_ACCUM_STAGES as nat),
            parity_of((tile - NUM_ACCUM_STAGES) as nat, NUM_ACCUM_STAGES as nat),
        ) <==> tile < drained + NUM_ACCUM_STAGES),
{
    law_wrapping_keeps_accumulators(tile);
    lemma_shown_exact(tile);
    if tile >= NUM_ACCUM_STAGES {
        law_producer_wait_is_exact(tile, drained, NUM_ACCUM_STAGES as nat);
    }
}

/// A draining thread is at tile number `tile` and its counters agree.
pub open spec fn epilogue_numbered(e: Epilogue, tile: nat) -> bool {
    &&& e.tile_iter == shown(tile)
    &&& e.tile_parity == if e.pc is WaitTile {
        (tile % 2) as int
    } else {
        1 - tile % 2
    }
}

/// The tile counter of a draining thread goes up by one with each tile.
pub proof fn law_epilogue_numbering(e: Epilogue, reply: Reply, tile: nat)
    requires
        e.wf(),
        epilogue_numbered(e, tile),
    ensures
        epilogue_numbered(
            e.after(reply),
            if e.pc is Release {
                tile + 1
            } else {
                tile
            },
        ),
{
    if e.pc is Release {
        lemma_shown_next(tile);
    }
}

/// A draining thread waits for tile `tile` as the ring step of that number,
/// drains the accumulator of that number, and hands it back; the tile that it
/// writes is the one that it was told of.
#[verifier::rlimit(40)]
pub proof fn law_epilogue_drains_its_tile(e: Epilogue, reply: Reply, tile: nat)
    requires
        e.wf(),
        epilogue_numbered(e, tile),
    ensures
        ({
            let slot = slot_of(tile, NUM_ACCUM_STAGES as nat) as u32;
            &&& e.pc is WaitTile ==> e.action(reply) == (Action::WaitParity {
                bar: Bar::TileReady,
                parity: (tile % 2) as u32,
            })
            &&& e.pc is Begin && reply.flag != 0 ==> e.action(reply) == (Action::WaitParity {
                bar: Bar::AccumFull { slot },
                parity: parity_of(tile, NUM_ACCUM_STAGES as nat) as u32,
            })
            &&& e.pc is Drain ==> e.action(reply) == (Action::Drain {
                drain: drain_at(
                    tile as int % 2 * BN,
                    e.warp_id as int,
                    e.lane_id as int,
                    e.row_offset as int,
                    e.col_block as int,
                ),
            })
            &&& e.pc is Release ==> e.action(reply) == (Action::Arrive {
                bar: Bar::AccumEmpty { slot },
            })
        }),
        e.pc is Begin && reply.flag != 0 ==> e.after(reply).tile_m == reply.x && e.after(
            reply,
        ).tile_n == reply.y,
{
    law_wrapping_keeps_accumulators(tile);
}

/// A draining thread after `n` steps, given the replies.
pub open spec fn epilogue_run(e: Epilogue, replies: spec_fn(nat) -> Reply, n: nat) -> Epilogue
    decreases n,
{
    if n == 0 {
        e
    } else {
        let before = epilogue_run(e, replies, (n - 1) as nat);
        before.after(replies((n - 1) as nat))
    }
}

/// Drains and copies that a thread makes for one tile.
pub open spec fn epilogue_steps() -> nat {
    80
}

/// Where a draining thread stands `i` steps into a tile: 16 drains, two rows
/// of `COL_BLOCKS`, and then 64 words at a distance of 32.
pub open spec fn epilogue_at(e: Epilogue, i: nat) -> Epilogue {
    if i < 16 {
        Epilogue {
            row_offset: (i / 8 * 16) as u32,
            col_block: (i % 8) as u32,
            ..e
        }
    } else {
        Epilogue {
            pc: EpiloguePc::CopyOut,
            row_offset: 0,
            col_block: 0,
            local_idx: (e.lane_id + (i - 16) * 32) as usize,
            ..e
        }
    }
}

/// A draining thread makes every drain of its warp's rows once, copies every
/// word of its lane once, and then hands the accumulator back.
pub proof fn law_epilogue_takes_the_whole_tile(
    e: Epilogue,
    replies: spec_fn(nat) -> Reply,
    n: nat,
)
    requires
        e.wf(),
        e.pc is Drain,
        e.row_offset == 0,
        e.col_block == 0,
        n <= epilogue_steps(),
    ensures
        n < epilogue_steps() ==> epilogue_run(e, replies, n) == epilogue_at(e, n),
        n == epilogue_steps() ==> epilogue_run(e, replies, n) == (Epilogue {
            pc: EpiloguePc::Release,
            local_idx: 0,
            ..e
        }),
    decreases n,
{
    assert(COL_BLOCKS == 8 && PER_WARP_BOUNDS == 2048);
    if n > 0 {
        law_epilogue_takes_the_whole_tile(e, replies, (n - 1) as nat);
    }
}

/// Every word of a tile is copied out: word `w` by one lane of the warp whose
/// rows it lies in.
pub proof fn law_each_word_has_its_lane(
    e: Epilogue,
    replies: spec_fn(nat) -> Reply,
    reply: Reply,
    w: nat,
)
    requires
        e.wf(),
        e.pc is Drain,
        e.row_offset == 0,
        e.col_block == 0,
        w < TILE_WORDS,
        e.warp_id == w / 2048,
        e.lane_id == w % 32,
    ensures
        epilogue_run(e, replies, 16 + (w % 2048) / 32).action(reply) == (Action::CopyOut {
            copy: copy_at(e.tile_m as int, e.tile_n as int, w as int),
        }),
{
    let n = 16 + (w % 2048) / 32;
    law_epilogue_takes_the_whole_tile(e, replies, n);
    assert(e.warp_id * ROWS_PER_WARP * TILE_WIDTH == (w / 2048) * 2048);
    assert(e.lane_id + (n - 16) * 32 == w % 2048);
}

/// All parts of a block start with their counters at their first tile.
pub proof fn law_numbering_starts_right(t: Thread)
    ensures
        match t.role() {
            ThreadPc::Produce { lane } => producer_numbered(lane, 0),
            ThreadPc::Consume { lane } => consumer_numbered(lane, 0),
            ThreadPc::Drain { thread } => epilogue_numbered(thread, 0),
            _ => true,
        },
{
    lemma_shown_exact(0);
}

/// Ring steps that the copying warp has completed.
pub open spec fn filled_by(p: Producer, started: nat) -> nat {
    match p.pc {
        ProducerPc::WaitSlot | ProducerPc::CopyA | ProducerPc::CopyB | ProducerPc::Expect => (
        started * K_ITERS - K_ITERS + p.k_idx) as nat,
        _ => (started * K_ITERS) as nat,
    }
}

/// Ring steps that the multiplying warp has released.
pub open spec fn released_by(c: Consumer, tile: nat) -> nat {
    match c.pc {
        ConsumerPc::CommitAccum => (tile * K_ITERS + K_ITERS) as nat,
        ConsumerPc::WaitSlot | ConsumerPc::Multiply | ConsumerPc::CommitSlot => (tile * K_ITERS
            + c.k_idx) as nat,
        _ => (tile * K_ITERS) as nat,
    }
}

/// Invariant of the copying and the multiplying warp of one block, whatever
/// the order in which they take their steps. Copies and products are taken to
/// complete when they are announced; that they complete later only makes the
/// waits on them longer.
pub open spec fn pipeline_inv(p: Producer, started: nat, c: Consumer, tile: nat) -> bool {
    let filled = filled_by(p, started);
    let released = released_by(c, tile);
    &&& p.wf()
    &&& c.wf()
    &&& producer_numbered(p, started)
    &&& consumer_numbered(c, tile)
    &&& ring_inv(filled, released, STAGES as nat)
    &&& (p.pc is CopyA || p.pc is CopyB || p.pc is Expect) ==> filled < released + STAGES
    &&& (c.pc is Multiply || c.pc is CommitSlot) ==> released < filled
}

/// Whether the copying warp can take its next step: if it waits for a slot,
/// the barrier lets it through.
pub open spec fn producer_may_step(p: Producer, started: nat, c: Consumer, tile: nat) -> bool {
    let g = filled_by(p, started);
    p.pc is WaitSlot ==> wait_passes(
        free_phases(released_by(c, tile), slot_of(g, STAGES as nat), STAGES as nat),
        parity_of(g, STAGES as nat),
    )
}

/// Whether the multiplying warp can take its next step: if it waits for a
/// slot, the barrier lets it through.
pub open spec fn consumer_may_step(p: Producer, started: nat, c: Consumer, tile: nat) -> bool {
    let g = released_by(c, tile);
    c.pc is WaitSlot ==> wait_passes(
        full_phases(filled_by(p, started), slot_of(g, STAGES as nat), STAGES as nat),
        parity_of(g, STAGES as nat),
    )
}

/// Every step of either warp keeps the pipeline invariant.
#[verifier::rlimit(40)]
pub proof fn law_pipeline_inv_is_kept(
    p: Producer,
    started: nat,
    c: Consumer,
    tile: nat,
    reply: Reply,
)
    requires
        pipeline_inv(p, started, c, tile),
    ensures
        p.accepts(reply) && producer_may_step(p, started, c, tile) ==> pipeline_inv(
            p.after(reply),
            if starts_tile(p, reply) {
                started + 1
            } else {
                started
            },
            c,
            tile,
        ),
        consumer_may_step(p, started, c, tile) ==> pipeline_inv(
            p,
            started,
            c.after(reply),
            if c.pc is CommitAccum {
                tile + 1
            } else {
                tile
            },
        ),
{
    let filled = filled_by(p, started);
    let released = released_by(c, tile);
    law_producer_numbering(p, reply, started);
    law_consumer_numbering(c, reply, tile);
    law_producer_wait_is_exact(filled, released, STAGES as nat);
    law_consumer_wait_is_exact(filled, released, STAGES as nat);
}

/// A block never loads into the slot that is being multiplied.
pub proof fn law_copies_spare_the_slot_in_use(p: Producer, started: nat, c: Consumer, tile: nat)
    requires
        pipeline_inv(p, started, c, tile),
        p.pc is CopyA || p.pc is CopyB || p.pc is Expect,
        c.pc is Multiply || c.pc is CommitSlot,
    ensures
        slot_of(filled_by(p, started), STAGES as nat) != slot_of(
            released_by(c, tile),
            STAGES as nat,
        ),
{
    law_slots_within_a_round_differ(filled_by(p, started), released_by(c, tile), STAGES as nat);
}

/// A product reads the slice it means: whenever the multiplying warp works on
/// slice `k_idx` of tile `tile`, the copying warp has filled that slice of that
/// tile into its slot, and nothing has come into the slot since.
pub proof fn law_products_read_their_own_slice(
    p: Producer,
    started: nat,
    c: Consumer,
    tile: nat,
    other: nat,
)
    requires
        pipeline_inv(p, started, c, tile),
        c.pc is Multiply,
        other < filled_by(p, started),
        slot_of(other, STAGES as nat) == slot_of(
            (tile * K_ITERS + c.k_idx) as nat,
            STAGES as nat,
        ),
    ensures
        tile * K_ITERS + c.k_idx < filled_by(p, started),
        other <= tile * K_ITERS + c.k_idx,
{
    law_slot_holds_its_step(
        filled_by(p, started),
        released_by(c, tile),
        other,
        STAGES as nat,
    );
}

/// The pipeline never deadlocks: when both warps wait for a slot, one of them
/// is let through.
pub proof fn law_pipeline_makes_progress(p: Producer, started: nat, c: Consumer, tile: nat)
    requires
        pipeline_inv(p, started, c, tile),
    ensures
        producer_may_step(p, started, c, tile) || consumer_may_step(p, started, c, tile),
{
    law_producer_wait_is_exact(filled_by(p, started), released_by(c, tile), STAGES as nat);
    law_consumer_wait_is_exact(filled_by(p, started), released_by(c, tile), STAGES as nat);
}

/// The copying warp announces the tile that it copies next: the tile of the
/// block that it is at, row first. It is a tile of C, so that a draining thread
/// can be given what was announced.
pub proof fn law_announced_tile_is_the_copied_one(p: Producer, reply: Reply)
    requires
        p.wf(),
        p.accepts(reply),
    ensures
        p.action(reply) matches Action::PublishTile { tile_m, tile_n } ==> {
            &&& tile_m == p.after(reply).ctaid % TILES_M
            &&& tile_n == p.after(reply).ctaid / TILES_M
            &&& tile_m < TILES_M
            &&& tile_n < TILES_N
        },
        p.lane0 && starts_tile(p, reply) <==> p.action(reply) is PublishTile,
{
}

/// The wait for the answer to a request for work is exact: request number
/// `asked` waits for the phase of its number, and passes exactly when it has
/// been answered; requests are numbered one after the other.
pub proof fn law_steal_wait_is_exact(p: Producer, reply: Reply, asked: nat, answered: nat)
    requires
        p.wf(),
        p.clc_iter == shown(asked),
        asked <= answered <= asked + 1,
    ensures
        p.pc is Steal ==> p.action(reply) == (Action::StealWork {
            parity: (asked % 2) as u32,
            bytes: CLC_BYTES,
        }),
        wait_passes(answered, asked % 2) <==> answered == asked + 1,
        p.after(reply).clc_iter == shown(
            if p.pc is Steal {
                asked + 1
            } else {
                asked
            },
        ),
{
    lemma_shown_next(asked);
    law_wrapping_keeps_accumulators(asked);
}

/// Invariant of the multiplying warp and a draining thread of one block,
/// whatever the order in which they take their steps. `drained` tiles have been
/// handed back by all draining threads, this one included.
pub open spec fn accum_inv(c: Consumer, tile: nat, e: Epilogue, etile: nat, drained: nat) -> bool {
    &&& c.wf()
    &&& e.wf()
    &&& consumer_numbered(c, tile)
    &&& epilogue_numbered(e, etile)
    &&& drained <= etile <= tile <= drained + NUM_ACCUM_STAGES
    &&& (c.pc is WaitSlot || c.pc is Multiply || c.pc is CommitSlot || c.pc is CommitAccum) ==> tile
        < drained + NUM_ACCUM_STAGES
    &&& (e.pc is Drain || e.pc is CopyOut || e.pc is Release) ==> etile < tile
}

/// Whether the multiplying warp can take its next step, as far as the
/// accumulators go: if it waits for an empty one, the barrier lets it through.
pub open spec fn consumer_finds_room(c: Consumer, reply: Reply, drained: nat) -> bool {
    c.pc is Begin ==> (c.action(reply) matches Action::WaitParity { bar, parity } ==> wait_passes(
        visits(drained, c.accum() as nat, NUM_ACCUM_STAGES as nat),
        parity as nat,
    ))
}

/// Whether a draining thread can take its next step, as far as the accumulators
/// go: if it waits for a full one, the barrier lets it through.
pub open spec fn epilogue_finds_tile(e: Epilogue, reply: Reply, tile: nat) -> bool {
    e.pc is Begin ==> (e.action(reply) matches Action::WaitParity { bar, parity } ==> wait_passes(
        full_phases(tile, e.accum() as nat, NUM_ACCUM_STAGES as nat),
        parity as nat,
    ))
}

/// Every step of the multiplying warp and of a draining thread keeps the
/// invariant of the accumulators, and so does the last of the draining threads
/// handing a tile back.
#[verifier::rlimit(40)]
pub proof fn law_accum_inv_is_kept(
    c: Consumer,
    tile: nat,
    e: Epilogue,
    etile: nat,
    drained: nat,
    reply: Reply,
)
    requires
        accum_inv(c, tile, e, etile, drained),
        tile < 0x1_0000_0000,
    ensures
        consumer_finds_room(c, reply, drained) ==> accum_inv(
            c.after(reply),
            if c.pc is CommitAccum {
                tile + 1
            } else {
                tile
            },
            e,
            etile,
            drained,
        ),
        e.accepts(reply) && epilogue_finds_tile(e, reply, tile) ==> accum_inv(
            c,
            tile,
            e.after(reply),
            if e.pc is Release {
                etile + 1
            } else {
                etile
            },
            drained,
        ),
        drained < etile ==> accum_inv(c, tile, e, etile, drained + 1),
{
    law_consumer_numbering(c, reply, tile);
    law_epilogue_numbering(e, reply, etile);
    if c.pc is Begin && reply.flag != 0 {
        law_accumulator_wait_is_exact(c, reply, tile, drained);
    }
    law_epilogue_drains_its_tile(e, reply, etile);
    law_consumer_wait_is_exact(tile, etile, NUM_ACCUM_STAGES as nat);
}

/// An accumulator is not multiplied into while it is being drained: the
/// multiplying warp and a draining thread at work are at different ones.
pub proof fn law_products_spare_the_accumulator_in_use(
    c: Consumer,
    tile: nat,
    e: Epilogue,
    etile: nat,
    drained: nat,
)
    requires
        accum_inv(c, tile, e, etile, drained),
        c.pc is Multiply,
        e.pc is Drain,
    ensures
        c.accum() != e.accum(),
{
    law_wrapping_keeps_accumulators(tile);
    law_wrapping_keeps_accumulators(etile);
}

/// Bytes of the tile that a copy brings: 128 rows of 64 entries, two bytes each.
pub open spec fn copied_bytes(action: Action) -> int {
    if action is CopyTile {
        16384
    } else {
        0
    }
}

/// The copying warp announces at a barrier what it has started to copy with it
/// since it announced last, all of it and no more: for each slice the tile of A
/// and the tile of B, both into the slot of the barrier.
pub proof fn law_announced_bytes_are_the_copied_ones(p: Producer, reply: Reply)
    requires
        p.wf(),
        p.pc is CopyA,
        p.lane0,
    ensures
        ({
            let (first, second, third) = (
                p.action(reply),
                p.after(reply).action(reply),
                p.after(reply).after(reply).action(reply),
            );
            &&& first matches Action::CopyTile { operand: Operand::A, slot: _, x: _, y: _, bar: _ }
            &&& second matches Action::CopyTile {
                operand: Operand::B,
                slot: _,
                x: _,
                y: _,
                bar: _,
            }
            &&& third matches Action::ArriveExpect { bar, bytes } && {
                &&& bytes == copied_bytes(first) + copied_bytes(second)
                &&& first->CopyTile_bar == bar && second->CopyTile_bar == bar
                &&& bar == (Bar::Tma { slot: first->CopyTile_slot })
                &&& second->CopyTile_slot == first->CopyTile_slot
            }
        }),
{
}

/// The multiplying warp and the draining threads read the tile record once for
/// each announcement, right after they have waited for it, and stop exactly where
/// it says that there are no more tiles.
pub proof fn law_record_is_read_after_each_announcement(c: Consumer, e: Epilogue, reply: Reply)
    requires
        c.wf(),
        e.wf(),
    ensures
        c.action(reply) is ReadTileInfo <==> c.pc is ReadInfo,
        c.pc is WaitTile ==> c.after(reply).pc is ReadInfo && c.action(reply) is WaitParity,
        c.pc is ReadInfo ==> c.after(reply).pc is Begin,
        c.after(reply).pc is ReadInfo <==> c.pc is WaitTile,
        !(c.pc is Finished) ==> (c.after(reply).pc is Finished <==> c.pc is Begin && reply.flag
            == 0),
        e.action(reply) is ReadTileInfo <==> e.pc is ReadInfo,
        e.pc is WaitTile ==> e.after(reply).pc is ReadInfo && e.action(reply) is WaitParity,
        e.pc is ReadInfo ==> e.after(reply).pc is Begin,
        e.after(reply).pc is ReadInfo <==> e.pc is WaitTile,
        !(e.pc is Finished) ==> (e.after(reply).pc is Finished <==> e.pc is Begin && reply.flag
            == 0),
{
}

/// Lanes of the copying warp other than the first copy, announce and publish
/// nothing, and ask for work together with the first; 16 bytes answer a request.
pub proof fn law_other_lanes_copy_nothing(q: Producer, reply: Reply)
    requires
        q.wf(),
        !q.lane0,
    ensures
        q.pc is Publish || q.pc is CopyA || q.pc is CopyB || q.pc is Expect || q.pc is Decode
            ==> q.action(reply) is Skip,
        q.pc is WaitSlot ==> q.action(reply) is WaitParity,
        q.pc is Steal ==> q.action(reply) is StealWork && q.action(reply)->StealWork_bytes == 16,
{
}

/// Lanes of the multiplying warp other than the first multiply and commit nothing,
/// and wait with the first.
pub proof fn law_other_lanes_multiply_nothing(d: Consumer, reply: Reply)
    requires
        d.wf(),
        !d.lane0,
    ensures
        d.pc is Multiply || d.pc is CommitSlot || d.pc is CommitAccum ==> d.action(reply) is Skip,
        d.pc is WaitTile || d.pc is WaitSlot ==> d.action(reply) is WaitParity,
{
}

/// The draining threads drain, copy out and hand back without waiting in between:
/// what they do between two announcements is the wait for the tile, the drains,
/// the copies and one arrival.
pub proof fn law_draining_takes_its_course(e: Epilogue, reply: Reply)
    requires
        e.wf(),
    ensures
        e.action(reply) is Drain <==> e.pc is Drain,
        e.action(reply) is CopyOut <==> e.pc is CopyOut,
        e.action(reply) is Arrive <==> e.pc is Release,
        e.pc is Begin && reply.flag != 0 ==> e.after(reply).pc is Drain && e.after(
            reply,
        ).row_offset == 0 && e.after(reply).col_block == 0 && e.action(reply) is WaitParity,
        e.pc is Release ==> e.after(reply).pc is WaitTile,
{
}

} // verus!
