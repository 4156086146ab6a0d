//! A block of the work-stealing product with its memories, and why what it
//! writes to C is the product.
//!
//! A block is followed through its copying warp, its multiplying warp and one
//! of its draining warps, in whatever order they take their steps as long as
//! the barriers let them. Copies and products are taken to complete when they
//! are announced; the lanes of a warp go together.
use vstd::prelude::*;
use crate::device::{Action, Bar, Reply};
use crate::dims::{BK, BM, BN, MMAS_PER_STEP, TILES_M, TILES_N};
use crate::epilogue::{copy_at, drain_at, global_word, TILE_WORDS};
use crate::gemm::{Thread, ThreadPc};
use crate::memory::{
    accums_after, all_finished, all_pieces, c_after, c_words, covers, drain_number, holds_word,
    launch_completed, law_completed_launch_leaves_the_product,
    law_drain_moves_entries_to_their_place, law_launches_agree, law_quarters_of_tiles_make_up_c,
    lemma_copies_are_finished, lemma_drain_number, lemma_next_product, product_words, products,
    slots_after, some_warp_covers, tile_after, whole, writes_after, written, Piece, Slots, Source,
};
use crate::persistent::{Consumer, ConsumerPc, Epilogue, Producer, STAGES};
use crate::ring::{law_consumer_wait_is_exact, parity_of};
use crate::schedule::{
    accum_inv, consumer_finds_room, consumer_may_step, epilogue_finds_tile, filled_by,
    law_accum_inv_is_kept, law_announced_tile_is_the_copied_one, law_consumer_uses_its_step,
    law_numbering_starts_right, law_pipeline_inv_is_kept, law_wrapping_keeps_accumulators,
    law_wrapping_keeps_slots, pipeline_inv, producer_may_step, released_by, starts_tile,
};

verus! {

/// A block: its three warps by their first lanes, with the numbers of the tiles
/// at which they are, the tiles that were announced, and the memories.
/// `drained` tiles have been handed back by all draining warps, and `writes` is
/// what this draining warp has written to C.
pub struct Block {
    pub p: Producer,
    pub started: nat,
    pub c: Consumer,
    pub tile: nat,
    pub e: Epilogue,
    pub etile: nat,
    pub drained: nat,
    pub tiles: Seq<(int, int)>,
    pub slots: Slots,
    pub accums: Seq<Seq<Piece>>,
    pub smem: Seq<Source>,
    pub writes: Map<int, Source>,
}

/// The tiles that were announced after an action.
pub open spec fn tiles_after(tiles: Seq<(int, int)>, action: Action) -> Seq<(int, int)> {
    match action {
        Action::PublishTile { tile_m, tile_n } => tiles.push((tile_m as int, tile_n as int)),
        _ => tiles,
    }
}

/// The block after a step of the copying warp.
pub open spec fn copy_turn(b: Block, reply: Reply) -> Block {
    Block {
        p: b.p.after(reply),
        started: if starts_tile(b.p, reply) {
            b.started + 1
        } else {
            b.started
        },
        tiles: tiles_after(b.tiles, b.p.action(reply)),
        slots: slots_after(b.slots, b.p.action(reply)),
        ..b
    }
}

/// The block after a step of the multiplying warp.
pub open spec fn multiply_turn(b: Block, reply: Reply) -> Block {
    Block {
        c: b.c.after(reply),
        tile: if b.c.pc is CommitAccum {
            b.tile + 1
        } else {
            b.tile
        },
        slots: slots_after(b.slots, b.c.action(reply)),
        accums: accums_after(b.accums, b.slots, b.c.action(reply)),
        ..b
    }
}

/// Lane `lane` of the warp whose first lane is `e`.
pub open spec fn lane_of(e: Epilogue, lane: int) -> Epilogue {
    Epilogue {
        lane_id: lane as u32,
        local_idx: if e.pc is CopyOut {
            (e.local_idx + lane) as usize
        } else {
            e.local_idx
        },
        ..e
    }
}

/// The lanes of a draining warp stay together.
pub proof fn law_epilogue_lanes_stay_together(e: Epilogue, reply: Reply, lane: int)
    requires
        e.wf(),
        e.lane_id == 0,
        e.pc is CopyOut ==> e.local_idx as int % 32 == 0,
        0 <= lane < 32,
    ensures
        lane_of(e, lane).after(reply) == lane_of(e.after(reply), lane),
{
}

/// The block after a step of all lanes of the draining warp.
pub open spec fn drain_turn(b: Block, reply: Reply) -> Block {
    let actions = |lane: int| lane_of(b.e, lane).action(reply);
    Block {
        e: b.e.after(reply),
        etile: if b.e.pc is Release {
            b.etile + 1
        } else {
            b.etile
        },
        smem: tile_after(b.smem, b.accums, actions, 32),
        writes: writes_after(b.writes, b.smem, actions, 32),
        ..b
    }
}

/// The block after the last of its draining warps has handed a tile back.
pub open spec fn hand_back(b: Block) -> Block {
    Block { drained: b.drained + 1, ..b }
}

/// Announcements made so far: the tiles, and that there are no more.
pub open spec fn announcements(b: Block) -> nat {
    if b.p.pc is Finished {
        b.started + 1
    } else {
        b.started
    }
}

/// The tile record as it stands: the last announcement.
pub open spec fn shows_record(b: Block, reply: Reply) -> bool {
    if b.p.pc is Finished {
        reply.flag == 0
    } else {
        &&& b.started > 0
        &&& reply.flag != 0
        &&& (reply.x as int, reply.y as int) == b.tiles.last()
    }
}

/// The tile record that the draining warp has read is that of its tile; where it
/// says that there are no more tiles, the warp has drained them all.
pub open spec fn record_is_right(b: Block, reply: Reply) -> bool {
    b.e.pc is Begin ==> if reply.flag != 0 {
        b.etile < b.started && (reply.x as int, reply.y as int) == b.tiles[b.etile as int]
    } else {
        b.p.pc is Finished && b.etile == b.started
    }
}

/// The record that is read shows the last announcement; that is the one for the
/// draining warp as long as no later one has been made.
pub proof fn law_record_is_right_until_the_next_announcement(b: Block, reply: Reply)
    requires
        block_inv(b),
        announcements(b) == b.etile + 1,
        shows_record(b, reply),
    ensures
        record_is_right(b, reply),
{
    reveal(block_inv);
}

/// Products that the multiplying warp has made for its tile.
pub open spec fn made_by(c: Consumer) -> int {
    match c.pc {
        ConsumerPc::WaitSlot => c.k_idx * 4,
        ConsumerPc::Multiply => c.k_idx * 4 + c.k_sub,
        ConsumerPc::CommitSlot => c.k_idx * 4 + 4,
        ConsumerPc::CommitAccum => all_pieces(),
        _ => 0,
    }
}

/// The slot of ring step `g` holds its slice of the rows of A that its tile
/// needs.
pub open spec fn holds_a(b: Block, g: int) -> bool {
    &&& b.slots.a[g % 4] == (g % 128 * BK, b.tiles[g / 128].0 * BM)
    &&& b.slots.a_bar[g % 4] is None || b.slots.a_bar[g % 4] == Some(Bar::Tma { slot: (g % 4) as u32 })
}

/// The slot of ring step `g` holds its slice of the rows of the transposed B
/// that its tile needs.
pub open spec fn holds_b(b: Block, g: int) -> bool {
    &&& b.slots.b[g % 4] == (g % 128 * BK, b.tiles[g / 128].1 * BN)
    &&& b.slots.b_bar[g % 4] is None || b.slots.b_bar[g % 4] == Some(Bar::Tma { slot: (g % 4) as u32 })
}

/// The slot of ring step `g` holds its slice of both operands.
pub open spec fn holds_slice(b: Block, g: int) -> bool {
    holds_a(b, g) && holds_b(b, g)
}

/// The accumulator of tile number `t` holds all products of the tile.
pub open spec fn holds_tile(b: Block, t: int) -> bool {
    b.accums[t % 2] == whole(b.tiles[t].0, b.tiles[t].1)
}

/// The draining warp has written its words of tile number `t`.
pub open spec fn wrote_tile(b: Block, t: int) -> bool {
    covers(b.writes, b.tiles[t].0, b.tiles[t].1, b.e.warp_id as int)
}

/// What copying and multiplying have brought about.
pub open spec fn fed(b: Block) -> bool {
    &&& pipeline_inv(b.p, b.started, b.c, b.tile)
    &&& b.p.lane0 && b.c.lane0
    &&& b.tiles.len() == b.started
    &&& forall|t: int|
        0 <= t < b.started ==> 0 <= (#[trigger] b.tiles[t]).0 < TILES_M && 0 <= b.tiles[t].1
            < TILES_N
    &&& (b.p.pc is WaitSlot || b.p.pc is CopyA || b.p.pc is CopyB || b.p.pc is Expect)
        ==> b.tiles[b.started - 1] == (
        b.p.ctaid as int % TILES_M as int,
        b.p.ctaid as int / TILES_M as int,
    )
    &&& b.slots.has(4)
    &&& (b.c.pc is Multiply || b.c.pc is CommitSlot) ==> b.slots.arrived(
        released_by(b.c, b.tile) as int % 4,
    )
    &&& forall|g: int|
        released_by(b.c, b.tile) <= g < filled_by(b.p, b.started) ==> #[trigger] holds_slice(b, g)
    &&& (b.p.pc is CopyB || b.p.pc is Expect) ==> holds_a(b, filled_by(b.p, b.started) as int)
    &&& b.p.pc is Expect ==> holds_b(b, filled_by(b.p, b.started) as int)
}

/// What the accumulators hold.
pub open spec fn accumulated(b: Block) -> bool {
    &&& accum_inv(b.c, b.tile, b.e, b.etile, b.drained)
    &&& b.accums.len() == 2
    &&& made_by(b.c) > 0 ==> b.tile < b.started && b.accums[b.tile as int % 2] == products(
        b.tiles[b.tile as int].0,
        b.tiles[b.tile as int].1,
        made_by(b.c),
    )
    &&& forall|t: int| b.drained <= t < b.tile ==> #[trigger] holds_tile(b, t)
}

/// What the draining warp has stored and written.
pub open spec fn drained_right(b: Block) -> bool {
    let warp = b.e.warp_id as int;
    let (m, n) = (b.e.tile_m as int, b.e.tile_n as int);
    &&& b.e.lane_id == 0
    &&& b.smem.len() == TILE_WORDS
    &&& (b.e.pc is Drain || b.e.pc is CopyOut || b.e.pc is Release) ==> (m, n)
        == b.tiles[b.etile as int]
    &&& b.e.pc is Drain ==> forall|w: int|
        warp * 2048 <= w < warp * 2048 + 2048 && drain_number(w) < b.e.row_offset as int / 16 * 8
            + b.e.col_block ==> #[trigger] holds_word(b.smem, m, n, w)
    &&& (b.e.pc is CopyOut || b.e.pc is Release) ==> forall|w: int|
        warp * 2048 <= w < warp * 2048 + 2048 ==> #[trigger] holds_word(b.smem, m, n, w)
    &&& b.e.pc is CopyOut ==> b.e.local_idx as int % 32 == 0 && forall|w: int|
        warp * 2048 <= w < warp * 2048 + b.e.local_idx ==> b.writes.contains_key(
            #[trigger] global_word(m, n, w),
        )
    &&& b.e.pc is Release ==> covers(b.writes, m, n, warp)
    &&& all_finished(b.writes)
    &&& forall|t: int| 0 <= t < b.etile ==> #[trigger] wrote_tile(b, t)
    &&& b.e.pc is Finished ==> b.p.pc is Finished && b.etile == b.started
}

/// Invariant of a block with its memories.
#[verifier::opaque]
pub open spec fn block_inv(b: Block) -> bool {
    &&& fed(b)
    &&& accumulated(b)
    &&& drained_right(b)
}

/// A slot keeps its slice while the next one is copied.
#[verifier::rlimit(60)]
proof fn lemma_copies_spare_slices(b: Block, reply: Reply, g: int)
    requires
        fed(b),
        b.p.accepts(reply),
        producer_may_step(b.p, b.started, b.c, b.tile),
        released_by(b.c, b.tile) <= g < filled_by(b.p, b.started),
    ensures
        holds_slice(copy_turn(b, reply), g),
        b.slots.arrived(g % 4) ==> copy_turn(b, reply).slots.arrived(g % 4),
{
    let n = copy_turn(b, reply);
    assert(holds_slice(b, g));
    let f = filled_by(b.p, b.started) as int;
    let (quotient, slot) = (g / 128, g % 4);
    assert(f <= b.started * 128);
    assert(0 <= quotient < b.started);
    lemma_announcements_agree(b, reply);
    assert(n.tiles[quotient] == b.tiles[quotient]);
    if b.p.pc is CopyA || b.p.pc is CopyB {
        assert(g < f < g + 4);
        assert(f % 4 != slot);
        law_wrapping_keeps_slots(f as nat);
        assert(b.p.slot() == f % 4);
        assert(n.slots.a[slot] == b.slots.a[slot]);
        assert(n.slots.b[slot] == b.slots.b[slot]);
        assert(n.slots.a_bar[slot] == b.slots.a_bar[slot]);
        assert(n.slots.b_bar[slot] == b.slots.b_bar[slot]);
    } else {
        assert(n.slots.a[slot] == b.slots.a[slot] && n.slots.b[slot] == b.slots.b[slot]);
        assert(n.slots.a_bar[slot] == b.slots.a_bar[slot]);
        assert(n.slots.b_bar[slot] == b.slots.b_bar[slot]);
    }
}

/// What a copy puts into its slot.
#[verifier::rlimit(60)]
proof fn lemma_copies_fill_slots(b: Block, reply: Reply)
    requires
        fed(b),
        b.p.accepts(reply),
        producer_may_step(b.p, b.started, b.c, b.tile),
    ensures
        ({
            let n = copy_turn(b, reply);
            let f = filled_by(b.p, b.started) as int;
            &&& (b.p.pc is CopyA || b.p.pc is CopyB || b.p.pc is Expect) ==> filled_by(
                n.p,
                n.started,
            ) == f + if b.p.pc is Expect {
                1int
            } else {
                0int
            }
            &&& (b.p.pc is CopyA || b.p.pc is CopyB || b.p.pc is Expect) ==> holds_a(n, f)
            &&& (b.p.pc is CopyB || b.p.pc is Expect) ==> holds_b(n, f)
            &&& !(b.p.pc is Expect) ==> filled_by(n.p, n.started) == f
            &&& n.slots.has(4)
        }),
{
    let n = copy_turn(b, reply);
    let f = filled_by(b.p, b.started) as int;
    law_wrapping_keeps_slots(f as nat);
    if b.p.pc is CopyA || b.p.pc is CopyB || b.p.pc is Expect {
        assert(f == (b.started - 1) * 128 + b.p.k_idx);
        assert(f / 128 == b.started - 1 && f % 128 == b.p.k_idx);
        assert(b.p.slot() == f % 4);
        assert(n.tiles == b.tiles);
    }
}

/// The announced tile is the one that is copied.
proof fn lemma_announcements_agree(b: Block, reply: Reply)
    requires
        fed(b),
        b.p.accepts(reply),
        producer_may_step(b.p, b.started, b.c, b.tile),
    ensures
        ({
            let n = copy_turn(b, reply);
            &&& n.tiles.len() == n.started
            &&& forall|t: int|
                0 <= t < n.started ==> 0 <= (#[trigger] n.tiles[t]).0 < TILES_M && 0 <= n.tiles[t].1
                    < TILES_N
            &&& forall|t: int| 0 <= t < b.started ==> #[trigger] n.tiles[t] == b.tiles[t]
            &&& (n.p.pc is WaitSlot || n.p.pc is CopyA || n.p.pc is CopyB || n.p.pc is Expect)
                ==> n.tiles[n.started - 1] == (
                n.p.ctaid as int % TILES_M as int,
                n.p.ctaid as int / TILES_M as int,
            )
        }),
{
    law_announced_tile_is_the_copied_one(b.p, reply);
    let n = copy_turn(b, reply);
    assert forall|t: int| 0 <= t < b.started implies #[trigger] n.tiles[t] == b.tiles[t] by {}
}

/// A step of the copying warp that the barriers let through keeps the
/// invariant: it copies slices of the tile that it announced.
#[verifier::rlimit(60)]
pub proof fn law_copies_keep_the_invariant(b: Block, reply: Reply)
    requires
        block_inv(b),
        b.p.accepts(reply),
        producer_may_step(b.p, b.started, b.c, b.tile),
    ensures
        block_inv(copy_turn(b, reply)),
{
    reveal(block_inv);
    let n = copy_turn(b, reply);
    law_pipeline_inv_is_kept(b.p, b.started, b.c, b.tile, reply);
    lemma_copies_fill_slots(b, reply);
    lemma_announcements_agree(b, reply);
    let f = filled_by(b.p, b.started) as int;
    assert forall|g: int|
        released_by(n.c, n.tile) <= g < filled_by(n.p, n.started) implies #[trigger] holds_slice(
        n,
        g,
    ) by {
        if g < f {
            lemma_copies_spare_slices(b, reply, g);
        }
    }
    if b.c.pc is Multiply || b.c.pc is CommitSlot {
        lemma_copies_spare_slices(b, reply, released_by(b.c, b.tile) as int);
    }
    assert(fed(n));
    assert(b.tile <= b.started);
    assert forall|t: int| n.drained <= t < n.tile implies #[trigger] holds_tile(n, t) by {
        assert(holds_tile(b, t));
    }
    assert(accumulated(n));
    assert forall|t: int| 0 <= t < n.etile implies #[trigger] wrote_tile(n, t) by {
        assert(wrote_tile(b, t));
    }
    assert(drained_right(n));
}

/// A step of the multiplying warp brings no flight up, and its wait for a slot
/// brings the tiles of that slot down.
#[verifier::rlimit(60)]
proof fn lemma_waits_land_slices(b: Block, reply: Reply)
    requires
        fed(b),
        consumer_may_step(b.p, b.started, b.c, b.tile),
    ensures
        ({
            let n = multiply_turn(b, reply);
            &&& n.slots.has(4)
            &&& forall|i: int|
                0 <= i < 4 ==> (#[trigger] n.slots.a_bar[i] is None || n.slots.a_bar[i]
                    == b.slots.a_bar[i])
            &&& forall|i: int|
                0 <= i < 4 ==> (#[trigger] n.slots.b_bar[i] is None || n.slots.b_bar[i]
                    == b.slots.b_bar[i])
            &&& b.c.pc is WaitSlot ==> n.slots.arrived(released_by(b.c, b.tile) as int % 4)
            &&& b.c.pc is Multiply ==> n.slots.arrived(released_by(b.c, b.tile) as int % 4)
        }),
{
    let n = multiply_turn(b, reply);
    let g = released_by(b.c, b.tile);
    law_consumer_uses_its_step(b.c, reply, b.tile);
    if b.c.pc is WaitSlot {
        law_consumer_wait_is_exact(filled_by(b.p, b.started), g, STAGES as nat);
        assert(holds_slice(b, g as int));
        assert(b.c.action(reply) == (Action::WaitParity {
            bar: Bar::Tma { slot: (g % 4) as u32 },
            parity: parity_of(g, 4) as u32,
        }));
        assert(n.slots.arrived(g as int % 4));
    }
}

/// A step of the multiplying warp that the barriers let through keeps the
/// invariant: it adds the next product of its tile to the tile's accumulator.
#[verifier::rlimit(100)]
pub proof fn law_products_keep_the_invariant(b: Block, reply: Reply)
    requires
        block_inv(b),
        b.tile < 0x1_0000_0000,
        consumer_may_step(b.p, b.started, b.c, b.tile),
        consumer_finds_room(b.c, reply, b.drained),
    ensures
        block_inv(multiply_turn(b, reply)),
{
    reveal(block_inv);
    let n = multiply_turn(b, reply);
    law_pipeline_inv_is_kept(b.p, b.started, b.c, b.tile, reply);
    law_accum_inv_is_kept(b.c, b.tile, b.e, b.etile, b.drained, reply);
    law_consumer_uses_its_step(b.c, reply, b.tile);
    assert(MMAS_PER_STEP == 4 && STAGES == 4);
    assert(n.tiles == b.tiles && n.slots.a == b.slots.a && n.slots.b == b.slots.b);
    lemma_waits_land_slices(b, reply);
    assert forall|g: int|
        released_by(n.c, n.tile) <= g < filled_by(n.p, n.started) implies #[trigger] holds_slice(
        n,
        g,
    ) by {
        assert(holds_slice(b, g));
    }
    assert(fed(n));
    let t = b.tile as int;
    if b.c.pc is Multiply {
        let g = t * 128 + b.c.k_idx;
        assert(holds_slice(b, g));
        assert(g / 128 == t && g % 128 == b.c.k_idx);
        assert(b.c.k_idx * 64 / 16 == b.c.k_idx * 4);
        assert((b.c.k_sub * 32) / 32 == b.c.k_sub as int);
        lemma_next_product(b.tiles[t].0, b.tiles[t].1, made_by(b.c));
        law_wrapping_keeps_accumulators(b.tile);
        assert(b.c.accum() == t % 2);
        assert((t % 2) * 128 / 128 == t % 2);
        assert(n.accums[t % 2] == products(b.tiles[t].0, b.tiles[t].1, made_by(n.c)));
    }
    assert forall|u: int| n.drained <= u < n.tile implies #[trigger] holds_tile(n, u) by {
        if u < b.tile {
            assert(holds_tile(b, u));
            assert(b.c.pc is Multiply ==> u == t - 1);
        }
    }
    assert(accumulated(n));
    assert forall|u: int| 0 <= u < n.etile implies #[trigger] wrote_tile(n, u) by {
        assert(wrote_tile(b, u));
    }
}

/// A step of the draining warp that the barriers let through keeps the
/// invariant: it drains the accumulator of its tile and writes the tile's words
/// to the tile's place in C.
#[verifier::rlimit(100)]
pub proof fn law_drains_keep_the_invariant(b: Block, reply: Reply)
    requires
        block_inv(b),
        b.e.accepts(reply),
        b.tile < 0x1_0000_0000,
        record_is_right(b, reply),
        epilogue_finds_tile(b.e, reply, b.tile),
    ensures
        block_inv(drain_turn(b, reply)),
{
    reveal(block_inv);
    let n = drain_turn(b, reply);
    law_accum_inv_is_kept(b.c, b.tile, b.e, b.etile, b.drained, reply);
    assert(n.p == b.p && n.c == b.c && n.slots == b.slots && n.accums == b.accums);
    assert forall|g: int|
        released_by(n.c, n.tile) <= g < filled_by(n.p, n.started) implies #[trigger] holds_slice(
        n,
        g,
    ) by {
        assert(holds_slice(b, g));
    }
    assert(fed(n));
    assert forall|u: int| n.drained <= u < n.tile implies #[trigger] holds_tile(n, u) by {
        assert(holds_tile(b, u));
    }
    assert(accumulated(n));
    if b.e.pc is Drain {
        lemma_drain_turn(b, reply);
    } else {
        lemma_no_drain(b, reply);
    }
    if b.e.pc is CopyOut {
        lemma_copy_out_turn(b, reply);
    } else {
        lemma_no_copy(b, reply);
    }
    let warp = b.e.warp_id as int;
    assert forall|u: int| 0 <= u < n.etile implies #[trigger] wrote_tile(n, u) by {
        if u < b.etile {
            assert(wrote_tile(b, u));
            assert forall|w: int|
                warp * 2048 <= w < warp * 2048 + 2048 implies n.writes.contains_key(
                #[trigger] global_word(b.tiles[u].0, b.tiles[u].1, w),
            ) by {
                assert(b.writes.contains_key(global_word(b.tiles[u].0, b.tiles[u].1, w)));
            }
        }
    }
}

/// A drain stores its part of the tile.
#[verifier::rlimit(60)]
proof fn lemma_drain_turn(b: Block, reply: Reply)
    requires
        block_inv(b),
        b.e.pc is Drain,
    ensures
        ({
            let n = drain_turn(b, reply);
            let (m, k) = (b.e.tile_m as int, b.e.tile_n as int);
            let warp = b.e.warp_id as int;
            let done = b.e.row_offset as int / 16 * 8 + b.e.col_block;
            &&& n.smem.len() == TILE_WORDS
            &&& forall|w: int|
                warp * 2048 <= w < warp * 2048 + 2048 && drain_number(w) < done + 1
                    ==> #[trigger] holds_word(n.smem, m, k, w)
        }),
{
    reveal(block_inv);
    let n = drain_turn(b, reply);
    let (m, k) = (b.e.tile_m as int, b.e.tile_n as int);
    let warp = b.e.warp_id as int;
    let done = b.e.row_offset as int / 16 * 8 + b.e.col_block;
    let actions = |lane: int| lane_of(b.e, lane).action(reply);
    let t = b.etile as int;
    let stage = t % 2;
    assert(holds_tile(b, t));
    law_wrapping_keeps_accumulators(b.etile);
    assert(b.e.accum() == stage);
    assert(done / 8 * 16 == b.e.row_offset && done % 8 == b.e.col_block);
    assert forall|lane: int| 0 <= lane < 32 implies #[trigger] actions(lane) == (Action::Drain {
        drain: drain_at(
            stage * BN,
            warp,
            lane,
            b.e.row_offset as int,
            b.e.col_block as int,
        ),
    }) by {}
    assert forall|w: int|
        warp * 2048 <= w < warp * 2048 + 2048 && drain_number(w) < done + 1 implies #[trigger] holds_word(
        n.smem,
        m,
        k,
        w,
    ) by {
        assert(w / 2048 == warp);
        lemma_drain_number(w, warp, done);
        law_drain_moves_entries_to_their_place(
            b.smem,
            b.accums,
            actions,
            stage,
            warp,
            b.e.row_offset as int,
            b.e.col_block as int,
            w,
        );
        if drain_number(w) < done {
            assert(holds_word(b.smem, m, k, w));
        }
    }
    law_drain_moves_entries_to_their_place(
        b.smem,
        b.accums,
        actions,
        stage,
        warp,
        b.e.row_offset as int,
        b.e.col_block as int,
        0,
    );
    assert forall|w: int| warp * 2048 <= w < warp * 2048 + 2048 implies drain_number(w) < 16 by {
        lemma_drain_number(w, warp, 0);
    }
}

proof fn lemma_lanes_leave_tile(b: Block, reply: Reply, lanes: int)
    requires
        !(b.e.pc is Drain),
        0 <= lanes <= 32,
    ensures
        tile_after(b.smem, b.accums, |lane: int| lane_of(b.e, lane).action(reply), lanes) == b.smem,
    decreases lanes,
{
    if lanes > 0 {
        lemma_lanes_leave_tile(b, reply, lanes - 1);
    }
}

/// A step that drains nothing leaves the packed tile alone.
proof fn lemma_no_drain(b: Block, reply: Reply)
    requires
        !(b.e.pc is Drain),
    ensures
        drain_turn(b, reply).smem == b.smem,
{
    lemma_lanes_leave_tile(b, reply, 32);
}

proof fn lemma_lanes_write_nothing(b: Block, reply: Reply, lanes: int)
    requires
        !(b.e.pc is CopyOut),
        0 <= lanes <= 32,
    ensures
        writes_after(b.writes, b.smem, |lane: int| lane_of(b.e, lane).action(reply), lanes)
            == b.writes,
    decreases lanes,
{
    if lanes > 0 {
        lemma_lanes_write_nothing(b, reply, lanes - 1);
    }
}

/// A step that copies nothing writes nothing.
proof fn lemma_no_copy(b: Block, reply: Reply)
    requires
        !(b.e.pc is CopyOut),
    ensures
        drain_turn(b, reply).writes == b.writes,
{
    lemma_lanes_write_nothing(b, reply, 32);
}

/// The lanes copy the next words of the tile.
#[verifier::rlimit(60)]
proof fn lemma_copy_out_turn(b: Block, reply: Reply)
    requires
        block_inv(b),
        b.e.pc is CopyOut,
    ensures
        ({
            let n = drain_turn(b, reply);
            let (m, k) = (b.e.tile_m as int, b.e.tile_n as int);
            let warp = b.e.warp_id as int;
            &&& all_finished(n.writes)
            &&& forall|p: int| #[trigger] b.writes.contains_key(p) ==> n.writes.contains_key(p)
            &&& forall|w: int|
                warp * 2048 <= w < warp * 2048 + b.e.local_idx + 32 ==> n.writes.contains_key(
                    #[trigger] global_word(m, k, w),
                )
        }),
{
    reveal(block_inv);
    let n = drain_turn(b, reply);
    let (m, k) = (b.e.tile_m as int, b.e.tile_n as int);
    let warp = b.e.warp_id as int;
    let actions = |lane: int| lane_of(b.e, lane).action(reply);
    let base = warp * 2048 + b.e.local_idx;
    let words = |lane: int| base + lane;
    assert(b.e.local_idx + 32 <= 2048);
    assert forall|lane: int| 0 <= lane < 32 implies #[trigger] actions(lane) == (Action::CopyOut {
        copy: copy_at(m, k, words(lane)),
    }) && 0 <= words(lane) < TILE_WORDS && holds_word(b.smem, m, k, words(lane)) by {
        assert(warp * 32 * 64 + (b.e.local_idx + lane) == words(lane));
    }
    lemma_copies_are_finished(b.writes, b.smem, actions, m, k, words, 32);
    assert forall|w: int|
        warp * 2048 <= w < warp * 2048 + b.e.local_idx + 32 implies n.writes.contains_key(
        #[trigger] global_word(m, k, w),
    ) by {
        if w < base {
            assert(b.writes.contains_key(global_word(m, k, w)));
        } else {
            assert(words(w - base) == w);
            assert(n.writes.contains_key(global_word(m, k, words(w - base))));
        }
    }
}

/// The last of the draining warps handing a tile back keeps the invariant.
pub proof fn law_hand_back_keeps_the_invariant(b: Block)
    requires
        block_inv(b),
        b.drained < b.etile,
        b.tile < 0x1_0000_0000,
    ensures
        block_inv(hand_back(b)),
{
    reveal(block_inv);
    let n = hand_back(b);
    assert forall|g: int|
        released_by(n.c, n.tile) <= g < filled_by(n.p, n.started) implies #[trigger] holds_slice(
        n,
        g,
    ) by {
        assert(holds_slice(b, g));
    }
    assert forall|u: int| n.drained <= u < n.tile implies #[trigger] holds_tile(n, u) by {
        assert(holds_tile(b, u));
    }
    assert forall|u: int| 0 <= u < n.etile implies #[trigger] wrote_tile(n, u) by {
        assert(wrote_tile(b, u));
    }
}

/// The parts of a block as three of its threads take them up after the setup,
/// and nothing has been announced or written.
pub open spec fn begins(b: Block, copier: Thread, multiplier: Thread, drainer: Thread) -> bool {
    &&& copier.wf() && copier.role() == (ThreadPc::Produce { lane: b.p })
    &&& multiplier.role() == (ThreadPc::Consume { lane: b.c })
    &&& drainer.role() == (ThreadPc::Drain { thread: b.e })
    &&& copier.tid % 32 == 0 && multiplier.tid % 32 == 0 && drainer.tid % 32 == 0
    &&& b.started == 0 && b.tile == 0 && b.etile == 0 && b.drained == 0
    &&& b.tiles.len() == 0
    &&& b.slots.has(4) && b.accums.len() == 2
    &&& b.smem.len() == TILE_WORDS
    &&& b.writes == Map::<int, Source>::empty()
}

/// A block starts in its invariant, whatever its memories hold and whatever the
/// build of the kernel.
pub proof fn law_block_starts_right(
    b: Block,
    copier: Thread,
    multiplier: Thread,
    drainer: Thread,
)
    requires
        begins(b, copier, multiplier, drainer),
    ensures
        block_inv(b),
{
    reveal(block_inv);
    law_numbering_starts_right(copier);
    law_numbering_starts_right(multiplier);
    law_numbering_starts_right(drainer);
}

/// A drained accumulator holds the tile of A · B: whenever the draining warp
/// drains, it drains all products of the tile that it is at, in order and each
/// once, and nothing else.
pub proof fn law_drained_tile_is_the_product(b: Block, reply: Reply, lane: int)
    requires
        block_inv(b),
        b.e.pc is Drain,
        0 <= lane < 32,
    ensures
        ({
            let t = b.etile as int;
            &&& lane_of(b.e, lane).action(reply) == (Action::Drain {
                drain: drain_at(
                    t % 2 * BN,
                    b.e.warp_id as int,
                    lane,
                    b.e.row_offset as int,
                    b.e.col_block as int,
                ),
            })
            &&& b.accums[t % 2] == whole(b.tiles[t].0, b.tiles[t].1)
            &&& (b.e.tile_m as int, b.e.tile_n as int) == b.tiles[t]
        }),
{
    reveal(block_inv);
    law_wrapping_keeps_accumulators(b.etile);
    assert(holds_tile(b, b.etile as int));
}

/// What a draining warp has written to C is the product, and it has written its
/// quarter of every tile that it has handed back.
pub proof fn law_written_words_are_the_product(b: Block, t: int)
    requires
        block_inv(b),
        0 <= t < b.etile,
    ensures
        all_finished(b.writes),
        covers(b.writes, b.tiles[t].0, b.tiles[t].1, b.e.warp_id as int),
{
    reveal(block_inv);
    assert(wrote_tile(b, t));
}

/// A draining warp that has come to its end has handed back every tile that its
/// block has announced, and no more will be.
pub proof fn law_ended_warp_has_drained_all_tiles(b: Block)
    requires
        block_inv(b),
        b.e.pc is Finished,
    ensures
        b.etile == b.started,
        b.tiles.len() == b.started,
        b.p.pc is Finished,
{
    reveal(block_inv);
}

/// A block has announced this tile as its tile number `t`, and is followed
/// through this draining warp.
pub open spec fn is_at(b: Block, tile_m: int, tile_n: int, warp_id: int, t: int) -> bool {
    0 <= t < b.started && b.tiles[t] == (tile_m, tile_n) && b.e.warp_id == warp_id
}

/// Some block, followed through this draining warp, has announced the tile.
pub open spec fn started_somewhere(
    ends: Seq<Block>,
    tile_m: int,
    tile_n: int,
    warp_id: int,
) -> bool {
    exists|i: int, t: int|
        0 <= i < ends.len() && #[trigger] is_at(ends[i], tile_m, tile_n, warp_id, t)
}

/// What the draining warps at these ends have written.
pub open spec fn writes_of(ends: Seq<Block>) -> Seq<Map<int, Source>> {
    ends.map_values(|b: Block| b.writes)
}

/// The ends of all blocks of a launch, once for each of their four draining
/// warps: the warps have come to their end, and every tile of C was started by
/// some block.
pub open spec fn launch_ended(ends: Seq<Block>) -> bool {
    &&& forall|i: int| 0 <= i < ends.len() ==> block_inv(#[trigger] ends[i]) && ends[i].e.pc is Finished
    &&& forall|tile_m: int, tile_n: int, warp_id: int|
        0 <= tile_m < TILES_M && 0 <= tile_n < TILES_N && 0 <= warp_id < 4
            ==> #[trigger] started_somewhere(ends, tile_m, tile_n, warp_id)
}

/// A launch whose blocks have all come to their end is complete when every tile
/// of C was started by one of them: each of its four draining warps has then
/// written its quarter.
pub proof fn law_launch_is_completed(ends: Seq<Block>)
    requires
        launch_ended(ends),
    ensures
        launch_completed(writes_of(ends)),
{
    let warps = writes_of(ends);
    assert forall|i: int| 0 <= i < warps.len() implies all_finished(#[trigger] warps[i]) by {
        assert(block_inv(ends[i]));
        reveal(block_inv);
    }
    assert forall|tile_m: int, tile_n: int, warp_id: int|
        0 <= tile_m < TILES_M && 0 <= tile_n < TILES_N && 0 <= warp_id
            < 4 implies #[trigger] some_warp_covers(warps, tile_m, tile_n, warp_id) by {
        assert(started_somewhere(ends, tile_m, tile_n, warp_id));
        let (i, t) = choose|i: int, t: int|
            0 <= i < ends.len() && #[trigger] is_at(ends[i], tile_m, tile_n, warp_id, t);
        assert(block_inv(ends[i]));
        law_ended_warp_has_drained_all_tiles(ends[i]);
        law_written_words_are_the_product(ends[i], t);
        assert(covers(warps[i], tile_m, tile_n, warp_id));
    }
    assert forall|p: int| 0 <= p < c_words() implies #[trigger] written(warps, p) by {
        law_quarters_of_tiles_make_up_c(warps, p);
    }
}

/// A step of one of the parts of a block, with the reply that it is given.
pub enum Turn {
    Copy { reply: Reply },
    Multiply { reply: Reply },
    Drain { reply: Reply },
    HandBack,
}

/// Whether a turn can be taken: the barriers let it through, the replies are of
/// this grid, and a tile record is that of the tile.
pub open spec fn allowed(b: Block, turn: Turn) -> bool {
    &&& b.tile < 0x1_0000_0000
    &&& match turn {
        Turn::Copy { reply } => b.p.accepts(reply) && producer_may_step(
            b.p,
            b.started,
            b.c,
            b.tile,
        ),
        Turn::Multiply { reply } => consumer_may_step(b.p, b.started, b.c, b.tile)
            && consumer_finds_room(b.c, reply, b.drained),
        Turn::Drain { reply } => b.e.accepts(reply) && record_is_right(b, reply)
            && epilogue_finds_tile(b.e, reply, b.tile),
        Turn::HandBack => b.drained < b.etile,
    }
}

/// The block after a turn.
pub open spec fn after_turn(b: Block, turn: Turn) -> Block {
    match turn {
        Turn::Copy { reply } => copy_turn(b, reply),
        Turn::Multiply { reply } => multiply_turn(b, reply),
        Turn::Drain { reply } => drain_turn(b, reply),
        Turn::HandBack => hand_back(b),
    }
}

/// The block after the first `n` of these turns.
pub open spec fn play(b: Block, turns: Seq<Turn>, n: int) -> Block
    decreases n,
{
    if n <= 0 {
        b
    } else {
        after_turn(play(b, turns, n - 1), turns[n - 1])
    }
}

/// The invariant holds throughout: after any number of turns in any order, as
/// long as each could be taken.
pub proof fn law_invariant_holds_throughout(b: Block, turns: Seq<Turn>, n: int)
    requires
        block_inv(b),
        0 <= n <= turns.len(),
        forall|i: int| 0 <= i < n ==> allowed(play(b, turns, i), #[trigger] turns[i]),
    ensures
        block_inv(play(b, turns, n)),
    decreases n,
{
    if n > 0 {
        law_invariant_holds_throughout(b, turns, n - 1);
        let before = play(b, turns, n - 1);
        assert(allowed(before, turns[n - 1]));
        match turns[n - 1] {
            Turn::Copy { reply } => law_copies_keep_the_invariant(before, reply),
            Turn::Multiply { reply } => law_products_keep_the_invariant(before, reply),
            Turn::Drain { reply } => law_drains_keep_the_invariant(before, reply),
            Turn::HandBack => law_hand_back_keeps_the_invariant(before),
        }
    }
}

/// A launch that has come to its end leaves the product, whatever C held before.
/// So two launches on the same A and B, of the same build or of different ones,
/// leave the same words bit by bit, and launching again changes nothing.
pub proof fn law_launches_leave_the_product(
    c: Seq<u32>,
    other: Seq<u32>,
    ends: Seq<Block>,
    other_ends: Seq<Block>,
    unit: spec_fn(Source) -> u32,
)
    requires
        c.len() == c_words(),
        other.len() == c_words(),
        launch_ended(ends),
        launch_ended(other_ends),
    ensures
        c_after(c, writes_of(ends), unit) == product_words(unit),
        c_after(other, writes_of(other_ends), unit) == c_after(c, writes_of(ends), unit),
        c_after(c_after(c, writes_of(ends), unit), writes_of(other_ends), unit) == c_after(
            c,
            writes_of(ends),
            unit,
        ),
{
    law_launch_is_completed(ends);
    law_launch_is_completed(other_ends);
    law_completed_launch_leaves_the_product(c, writes_of(ends), unit);
    law_launches_agree(c, other, writes_of(ends), writes_of(other_ends), unit);
}

} // verus!
