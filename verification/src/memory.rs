//! What the memories of a block hold, as far as it can be told from where it
//! came: tiles in the slots, products in the accumulators, words in the packed
//! tile and in C.
//!
//! The tensor core multiplies pieces of the contraction that are 16 long. Which
//! numbers it makes of them is its own business; which pieces it is given, and
//! where its results go, is told here.
use vstd::prelude::*;
use crate::device::{Action, Bar, Operand};
use crate::dims::{BM, BN, M, MMA_K, MMA_K_BYTES, TILES_M, TILES_N, TILE_WIDTH, WIDTH};
use crate::epilogue::{
    copy_at, drain_at, drain_in_range, drain_row, global_word, law_every_word_is_written,
    law_global_word_is_one_to_one,
    store_col, Drain, TILE_WORDS,
};

verus! {

/// A product of a piece of 128 rows of A and a piece of 128 rows of the
/// transposed B: the first row of each, and the number of the piece along the
/// contraction.
pub struct Piece {
    pub a_row: int,
    pub b_row: int,
    pub a_k: int,
    pub b_k: int,
}

/// Column and row of the tiles that the slots hold. A tile is in flight from the
/// start of its copy until someone has waited at the barrier of the copy;
/// `a_bar` and `b_bar` name that barrier while it is.
pub struct Slots {
    pub a: Seq<(int, int)>,
    pub b: Seq<(int, int)>,
    pub a_bar: Seq<Option<Bar>>,
    pub b_bar: Seq<Option<Bar>>,
}

impl Slots {
    /// There are this many slots.
    pub open spec fn has(self, n: nat) -> bool {
        &&& self.a.len() == n && self.b.len() == n
        &&& self.a_bar.len() == n && self.b_bar.len() == n
    }

    /// Both tiles of a slot have arrived.
    pub open spec fn arrived(self, slot: int) -> bool {
        self.a_bar[slot] is None && self.b_bar[slot] is None
    }
}

/// The flights that are left when someone has waited at a barrier.
pub open spec fn landed(flights: Seq<Option<Bar>>, bar: Bar) -> Seq<Option<Bar>> {
    Seq::new(
        flights.len(),
        |i: int|
            if flights[i] == Some(bar) {
                None
            } else {
                flights[i]
            },
    )
}

/// A packed word: row and column, in words, of an accumulator that held these
/// products.
pub struct Source {
    pub pieces: Seq<Piece>,
    pub row: int,
    pub col: int,
}

/// The slots after an action. A wait is taken to have been let through.
pub open spec fn slots_after(slots: Slots, action: Action) -> Slots {
    match action {
        Action::CopyTile { operand: Operand::A, slot, x, y, bar } => Slots {
            a: slots.a.update(slot as int, (x as int, y as int)),
            a_bar: slots.a_bar.update(slot as int, Some(bar)),
            ..slots
        },
        Action::CopyTile { operand: Operand::B, slot, x, y, bar } => Slots {
            b: slots.b.update(slot as int, (x as int, y as int)),
            b_bar: slots.b_bar.update(slot as int, Some(bar)),
            ..slots
        },
        Action::WaitParity { bar, parity: _ } => Slots {
            a_bar: landed(slots.a_bar, bar),
            b_bar: landed(slots.b_bar, bar),
            ..slots
        },
        Action::WaitArrival { bar } => Slots {
            a_bar: landed(slots.a_bar, bar),
            b_bar: landed(slots.b_bar, bar),
            ..slots
        },
        _ => slots,
    }
}

/// The product that an instruction makes from a slot, `k_offset` bytes along. Of
/// tiles in flight it makes nothing that belongs to any tile.
pub open spec fn piece_from(slots: Slots, slot: int, k_offset: int) -> Piece {
    let along = k_offset / MMA_K_BYTES as int;
    if slots.arrived(slot) {
        Piece {
            a_row: slots.a[slot].1,
            b_row: slots.b[slot].1,
            a_k: slots.a[slot].0 / MMA_K as int + along,
            b_k: slots.b[slot].0 / MMA_K as int + along,
        }
    } else {
        Piece { a_row: -1, b_row: -1, a_k: -1, b_k: -1 }
    }
}

/// The accumulators after an action. They lie side by side in tensor memory,
/// `BN` columns each.
pub open spec fn accums_after(
    accums: Seq<Seq<Piece>>,
    slots: Slots,
    action: Action,
) -> Seq<Seq<Piece>> {
    match action {
        Action::Mma { slot, k_offset, tmem_offset, accumulate } => {
            let i = tmem_offset as int / BN as int;
            let piece = piece_from(slots, slot as int, k_offset as int);
            accums.update(
                i,
                if accumulate {
                    accums[i].push(piece)
                } else {
                    seq![piece]
                },
            )
        },
        _ => accums,
    }
}

/// The first `n` products of output tile (`tile_m`, `tile_n`), in order and
/// each once: its rows of A with its rows of the transposed B, piece by piece.
pub open spec fn products(tile_m: int, tile_n: int, n: int) -> Seq<Piece> {
    Seq::new(
        n as nat,
        |i: int| Piece { a_row: tile_m * BM, b_row: tile_n * BN, a_k: i, b_k: i },
    )
}

/// Pieces of the whole contraction.
pub open spec fn all_pieces() -> int {
    512
}

/// All products of an output tile: the tile of A · B.
pub open spec fn whole(tile_m: int, tile_n: int) -> Seq<Piece> {
    products(tile_m, tile_n, all_pieces())
}

/// One product more.
pub(crate) proof fn lemma_next_product(tile_m: int, tile_n: int, n: int)
    requires
        0 <= n,
    ensures
        products(tile_m, tile_n, n).push(
            Piece { a_row: tile_m * BM, b_row: tile_n * BN, a_k: n, b_k: n },
        ) == products(tile_m, tile_n, n + 1),
        seq![Piece { a_row: tile_m * BM, b_row: tile_n * BN, a_k: 0, b_k: 0 }] == products(
            tile_m,
            tile_n,
            1,
        ),
{
    assert(products(tile_m, tile_n, n).push(
        Piece { a_row: tile_m * BM, b_row: tile_n * BN, a_k: n, b_k: n },
    ) =~= products(tile_m, tile_n, n + 1));
    assert(seq![Piece { a_row: tile_m * BM, b_row: tile_n * BN, a_k: 0, b_k: 0 }] =~= products(
        tile_m,
        tile_n,
        1,
    ));
}

/// The packed tile after the stores of one lane of a drain. A lane below 8
/// names the rows of the first load, one from 8 to 15 those of the second; a
/// row is eight entries, four words.
pub open spec fn lane_stored(
    smem: Seq<Source>,
    accums: Seq<Seq<Piece>>,
    lane: int,
    drain: Drain,
) -> Seq<Source> {
    let tmem = if lane < 8 {
        drain.tmem_a as int
    } else {
        drain.tmem_b as int
    };
    let pieces = accums[tmem % 0x1_0000 / BN as int];
    let row = tmem / 0x1_0000 + lane % 8;
    let col = tmem % 0x1_0000 % BN as int / 2;
    let lo = drain.smem_lo as int / 4;
    let hi = drain.smem_hi as int / 4;
    Seq::new(
        smem.len(),
        |w: int|
            if lo <= w < lo + 4 {
                Source { pieces, row, col: col + (w - lo) }
            } else if hi <= w < hi + 4 {
                Source { pieces, row: row + 8, col: col + (w - hi) }
            } else {
                smem[w]
            },
    )
}

/// The packed tile after what one lane does.
pub open spec fn tile_after_lane(
    smem: Seq<Source>,
    accums: Seq<Seq<Piece>>,
    lane: int,
    action: Action,
) -> Seq<Source> {
    match action {
        Action::Drain { drain } => if lane < 16 {
            lane_stored(smem, accums, lane, drain)
        } else {
            smem
        },
        _ => smem,
    }
}

/// The packed tile after what the first `lanes` lanes of a warp do.
pub open spec fn tile_after(
    smem: Seq<Source>,
    accums: Seq<Seq<Piece>>,
    actions: spec_fn(int) -> Action,
    lanes: int,
) -> Seq<Source>
    decreases lanes,
{
    if lanes <= 0 {
        smem
    } else {
        tile_after_lane(
            tile_after(smem, accums, actions, lanes - 1),
            accums,
            lanes - 1,
            actions(lanes - 1),
        )
    }
}

/// What has been written to C, by word, after what the first `lanes` lanes of a
/// warp do.
pub open spec fn writes_after(
    writes: Map<int, Source>,
    smem: Seq<Source>,
    actions: spec_fn(int) -> Action,
    lanes: int,
) -> Map<int, Source>
    decreases lanes,
{
    if lanes <= 0 {
        writes
    } else {
        let before = writes_after(writes, smem, actions, lanes - 1);
        match actions(lanes - 1) {
            Action::CopyOut { copy } => before.insert(
                copy.global_idx as int,
                smem[copy.smem_idx as int],
            ),
            _ => before,
        }
    }
}

/// Whether a word of the packed tile lies in the part that a drain covers.
pub open spec fn in_drain(w: int, warp_id: int, row_offset: int, col_block: int) -> bool {
    &&& drain_row(warp_id, row_offset) <= w / 64 < drain_row(warp_id, row_offset) + 16
    &&& w % 64 / 8 == col_block
}

/// Lane that stores a word.
spec fn lane_of(w: int) -> int {
    (w / 64) % 8 + 8 * (w % 64 / 4 % 2)
}

/// The addresses of a lane's part in a drain, from its row `s` of eight and the
/// load `q` that it names the rows of.
proof fn lemma_lane_addresses(
    stage: int,
    warp_id: int,
    s: int,
    q: int,
    row_offset: int,
    col_block: int,
)
    requires
        0 <= s < 8,
        q == 0 || q == 1,
        drain_in_range(warp_id, 8 * q + s, row_offset, col_block),
        stage == 0 || stage == 1,
    ensures
        ({
            let lane = 8 * q + s;
            let d = drain_at(stage * BN, warp_id, lane, row_offset, col_block);
            let row = drain_row(warp_id, row_offset);
            let tmem = if lane < 8 {
                d.tmem_a as int
            } else {
                d.tmem_b as int
            };
            &&& lane % 8 == s
            &&& 0 <= row && row + 16 <= 128 && row % 16 == 0
            &&& tmem / 0x1_0000 == row
            &&& tmem % 0x1_0000 / 128 == stage
            &&& tmem % 0x1_0000 % 128 == col_block * 16 + 8 * q
            &&& d.smem_lo == ((row + s) * 64 + col_block * 8 + 4 * q) * 4
            &&& d.smem_hi == ((row + s + 8) * 64 + col_block * 8 + 4 * q) * 4
        }),
{
    let lane = 8 * q + s;
    let d = drain_at(stage * BN, warp_id, lane, row_offset, col_block);
    let row = drain_row(warp_id, row_offset);
    let tcol = stage * 128 + col_block * 16 + 8 * q;
    let tmem = if lane < 8 {
        d.tmem_a as int
    } else {
        d.tmem_b as int
    };
    assert(lane % 8 == s);
    assert(0 <= row && row + 16 <= 128);
    assert(tmem == row * 0x1_0000 + tcol && 0 <= tcol < 256);
    assert(tmem / 0x1_0000 == row && tmem % 0x1_0000 == tcol);
    assert(tcol / 128 == stage && tcol % 128 == col_block * 16 + 8 * q);
    assert(store_col(lane, col_block) == col_block * 16 + 8 * q);
}

/// Which words a row of four starting at row `r`, block `col_block`, half `q`
/// has.
proof fn lemma_row_of_four(w: int, r: int, col_block: int, q: int)
    requires
        0 <= w < TILE_WORDS,
        0 <= r < 128,
        0 <= col_block < 8,
        q == 0 || q == 1,
    ensures
        ({
            let lo = r * 64 + col_block * 8 + 4 * q;
            lo <= w < lo + 4 <==> w / 64 == r && w % 64 / 8 == col_block && w % 64 / 4 % 2 == q
        }),
        w / 64 * 64 + w % 64 == w,
        0 <= w % 64 / 4 % 2 <= 1,
        0 <= w / 64 < 128,
{
    let (wr, wc) = (w / 64, w % 64);
    assert(w == wr * 64 + wc && 0 <= wc < 64 && 0 <= wr < 128);
    let (cb, half, rest) = (wc / 8, wc / 4 % 2, wc % 4);
    assert(wc == cb * 8 + half * 4 + rest && 0 <= half <= 1 && 0 <= rest < 4 && 0 <= cb < 8);
}

/// Which lane stores a word of a drain.
proof fn lemma_lane_of_word(w: int, row: int, s: int, q: int)
    requires
        0 <= w < TILE_WORDS,
        0 <= s < 8,
        q == 0 || q == 1,
        0 <= row,
        row % 16 == 0,
    ensures
        row <= w / 64 < row + 16 && lane_of(w) == 8 * q + s <==> (w / 64 == row + s || w / 64 == row
            + s + 8) && w % 64 / 4 % 2 == q,
{
    let wr = w / 64;
    let half = w % 64 / 4 % 2;
    let (e, f) = (wr / 8, wr % 8);
    assert(wr == e * 8 + f && 0 <= f < 8);
    let k = row / 16;
    assert(row == k * 16);
    assert(lane_of(w) == f + 8 * half);
    assert(row <= wr < row + 16 <==> e == 2 * k || e == 2 * k + 1);
}

/// Where one lane stores.
proof fn lemma_lane_stores(
    smem: Seq<Source>,
    accums: Seq<Seq<Piece>>,
    stage: int,
    warp_id: int,
    lane: int,
    row_offset: int,
    col_block: int,
    w: int,
)
    requires
        drain_in_range(warp_id, lane, row_offset, col_block),
        lane < 16,
        stage == 0 || stage == 1,
        smem.len() == TILE_WORDS,
        0 <= w < TILE_WORDS,
    ensures
        lane_stored(
            smem,
            accums,
            lane,
            drain_at(stage * BN, warp_id, lane, row_offset, col_block),
        )[w] == if in_drain(w, warp_id, row_offset, col_block) && lane_of(w) == lane {
            Source { pieces: accums[stage], row: w / 64, col: w % 64 }
        } else {
            smem[w]
        },
{
    let row = drain_row(warp_id, row_offset);
    let (q, s) = (lane / 8, lane % 8);
    assert(lane == 8 * q + s && 0 <= q <= 1 && 0 <= s < 8);
    lemma_lane_addresses(stage, warp_id, s, q, row_offset, col_block);
    lemma_row_of_four(w, row + s, col_block, q);
    lemma_row_of_four(w, row + s + 8, col_block, q);
    lemma_lane_of_word(w, row, s, q);
}

proof fn lemma_lanes_store(
    smem: Seq<Source>,
    accums: Seq<Seq<Piece>>,
    actions: spec_fn(int) -> Action,
    stage: int,
    warp_id: int,
    row_offset: int,
    col_block: int,
    lanes: int,
    w: int,
)
    requires
        drain_in_range(warp_id, 0, row_offset, col_block),
        0 <= lanes <= 32,
        stage == 0 || stage == 1,
        smem.len() == TILE_WORDS,
        0 <= w < TILE_WORDS,
        forall|lane: int|
            0 <= lane < 32 ==> #[trigger] actions(lane) == (Action::Drain {
                drain: drain_at(stage * BN, warp_id, lane, row_offset, col_block),
            }),
    ensures
        ({
            let r = tile_after(smem, accums, actions, lanes);
            &&& r.len() == TILE_WORDS
            &&& r[w] == if in_drain(w, warp_id, row_offset, col_block) && lane_of(w) < lanes {
                Source { pieces: accums[stage], row: w / 64, col: w % 64 }
            } else {
                smem[w]
            }
        }),
    decreases lanes,
{
    if lanes > 0 {
        let lane = lanes - 1;
        lemma_lanes_store(
            smem,
            accums,
            actions,
            stage,
            warp_id,
            row_offset,
            col_block,
            lane,
            w,
        );
        let before = tile_after(smem, accums, actions, lane);
        assert(actions(lane) == (Action::Drain {
            drain: drain_at(stage * BN, warp_id, lane, row_offset, col_block),
        }));
        if lane < 16 {
            lemma_lane_stores(
                before,
                accums,
                stage,
                warp_id,
                lane,
                row_offset,
                col_block,
                w,
            );
        }
    }
}

/// A drain of a warp puts every entry of the accumulator that it covers at the
/// same row and column of the packed tile, and leaves the rest alone.
pub proof fn law_drain_moves_entries_to_their_place(
    smem: Seq<Source>,
    accums: Seq<Seq<Piece>>,
    actions: spec_fn(int) -> Action,
    stage: int,
    warp_id: int,
    row_offset: int,
    col_block: int,
    w: int,
)
    requires
        drain_in_range(warp_id, 0, row_offset, col_block),
        stage == 0 || stage == 1,
        smem.len() == TILE_WORDS,
        0 <= w < TILE_WORDS,
        forall|lane: int|
            0 <= lane < 32 ==> #[trigger] actions(lane) == (Action::Drain {
                drain: drain_at(stage * BN, warp_id, lane, row_offset, col_block),
            }),
    ensures
        ({
            let r = tile_after(smem, accums, actions, 32);
            &&& r.len() == TILE_WORDS
            &&& r[w] == if in_drain(w, warp_id, row_offset, col_block) {
                Source { pieces: accums[stage], row: w / 64, col: w % 64 }
            } else {
                smem[w]
            }
        }),
{
    lemma_lanes_store(smem, accums, actions, stage, warp_id, row_offset, col_block, 32, w);
}

/// The packed tile after `n` turns of a warp, given what each lane does in each.
pub open spec fn tile_after_turns(
    smem: Seq<Source>,
    accums: Seq<Seq<Piece>>,
    actions: spec_fn(int, int) -> Action,
    n: int,
) -> Seq<Source>
    decreases n,
{
    if n <= 0 {
        smem
    } else {
        tile_after(
            tile_after_turns(smem, accums, actions, n - 1),
            accums,
            |lane: int| actions(n - 1, lane),
            32,
        )
    }
}

/// Number of the drain of a warp that stores a word of its rows.
pub open spec fn drain_number(w: int) -> int {
    w / 64 % 32 / 16 * 8 + w % 64 / 8
}

/// The drain of that number covers the word, and no other drain of a warp does.
pub(crate) proof fn lemma_drain_number(w: int, warp_id: int, i: int)
    requires
        0 <= w < TILE_WORDS,
        0 <= warp_id < 4,
        0 <= i < 16,
    ensures
        in_drain(w, warp_id, i / 8 * 16, i % 8) <==> w / 2048 == warp_id && drain_number(w) == i,
        drain_in_range(warp_id, 0, i / 8 * 16, i % 8),
        0 <= drain_number(w) < 16,
{
    let (r, c) = (w / 64, w % 64 / 8);
    assert(w / 2048 == r / 32);
    let (a, b, d) = (r / 32, r % 32 / 16, r % 16);
    assert(r == a * 32 + b * 16 + d && 0 <= d < 16 && 0 <= b <= 1);
    assert(0 <= c < 8);
    let (j, k) = (i / 8, i % 8);
    assert(i == j * 8 + k && 0 <= k < 8 && 0 <= j <= 1);
}

/// The drains of a warp, one after the other, move its rows of the accumulator
/// into the packed tile.
pub proof fn law_drains_move_the_rows_of_a_warp(
    smem: Seq<Source>,
    accums: Seq<Seq<Piece>>,
    actions: spec_fn(int, int) -> Action,
    stage: int,
    warp_id: int,
    n: int,
    w: int,
)
    requires
        0 <= n <= 16,
        0 <= warp_id < 4,
        stage == 0 || stage == 1,
        smem.len() == TILE_WORDS,
        0 <= w < TILE_WORDS,
        forall|i: int, lane: int|
            0 <= i < n && 0 <= lane < 32 ==> #[trigger] actions(i, lane) == (Action::Drain {
                drain: drain_at(stage * BN, warp_id, lane, i / 8 * 16, i % 8),
            }),
    ensures
        ({
            let r = tile_after_turns(smem, accums, actions, n);
            &&& r.len() == TILE_WORDS
            &&& r[w] == if w / 2048 == warp_id && drain_number(w) < n {
                Source { pieces: accums[stage], row: w / 64, col: w % 64 }
            } else {
                smem[w]
            }
        }),
    decreases n,
{
    if n > 0 {
        law_drains_move_the_rows_of_a_warp(smem, accums, actions, stage, warp_id, n - 1, w);
        lemma_drain_number(w, warp_id, n - 1);
        law_drain_moves_entries_to_their_place(
            tile_after_turns(smem, accums, actions, n - 1),
            accums,
            |lane: int| actions(n - 1, lane),
            stage,
            warp_id,
            (n - 1) / 8 * 16,
            (n - 1) % 8,
            w,
        );
    }
}

/// The packed tile after the sixteen drains of warps in this order, given what
/// each lane of each warp does in each turn.
pub open spec fn tile_after_warps(
    smem: Seq<Source>,
    accums: Seq<Seq<Piece>>,
    actions: spec_fn(int, int, int) -> Action,
    order: Seq<int>,
) -> Seq<Source>
    decreases order.len(),
{
    if order.len() == 0 {
        smem
    } else {
        tile_after_turns(
            tile_after_warps(smem, accums, actions, order.drop_last()),
            accums,
            |i: int, lane: int| actions(order.last(), i, lane),
            16,
        )
    }
}

proof fn lemma_warps_store(
    smem: Seq<Source>,
    accums: Seq<Seq<Piece>>,
    actions: spec_fn(int, int, int) -> Action,
    order: Seq<int>,
    w: int,
)
    requires
        smem.len() == TILE_WORDS,
        0 <= w < TILE_WORDS,
        forall|k: int| 0 <= k < order.len() ==> 0 <= #[trigger] order[k] < 4,
        forall|warp_id: int, i: int, lane: int|
            0 <= warp_id < 4 && 0 <= i < 16 && 0 <= lane < 32 ==> #[trigger] actions(
                warp_id,
                i,
                lane,
            ) == (Action::Drain { drain: drain_at(0, warp_id, lane, i / 8 * 16, i % 8) }),
    ensures
        ({
            let r = tile_after_warps(smem, accums, actions, order);
            &&& r.len() == TILE_WORDS
            &&& order.contains(w / 2048) ==> r[w] == (Source {
                pieces: accums[0],
                row: w / 64,
                col: w % 64,
            })
        }),
    decreases order.len(),
{
    if order.len() > 0 {
        let rest = order.drop_last();
        let last = order.last();
        assert(last == order[order.len() - 1]);
        assert forall|k: int| 0 <= k < rest.len() implies 0 <= #[trigger] rest[k] < 4 by {
            assert(rest[k] == order[k]);
        }
        lemma_warps_store(smem, accums, actions, rest, w);
        law_drains_move_the_rows_of_a_warp(
            tile_after_warps(smem, accums, actions, rest),
            accums,
            |i: int, lane: int| actions(last, i, lane),
            0,
            last,
            16,
            w,
        );
        lemma_drain_number(w, 0, 0);
        if order.contains(w / 2048) && w / 2048 != last {
            let k = choose|k: int| 0 <= k < order.len() && order[k] == w / 2048;
            assert(rest[k] == w / 2048);
        }
    }
}

/// The four warps of a block, in whatever order, move the whole accumulator into
/// the packed tile.
pub proof fn law_four_warps_store_the_tile(
    smem: Seq<Source>,
    accums: Seq<Seq<Piece>>,
    actions: spec_fn(int, int, int) -> Action,
    order: Seq<int>,
    tile_m: int,
    tile_n: int,
    w: int,
)
    requires
        smem.len() == TILE_WORDS,
        accums[0] == whole(tile_m, tile_n),
        0 <= w < TILE_WORDS,
        forall|k: int| 0 <= k < order.len() ==> 0 <= #[trigger] order[k] < 4,
        forall|warp_id: int| 0 <= warp_id < 4 ==> #[trigger] order.contains(warp_id),
        forall|warp_id: int, i: int, lane: int|
            0 <= warp_id < 4 && 0 <= i < 16 && 0 <= lane < 32 ==> #[trigger] actions(
                warp_id,
                i,
                lane,
            ) == (Action::Drain { drain: drain_at(0, warp_id, lane, i / 8 * 16, i % 8) }),
    ensures
        holds_word(tile_after_warps(smem, accums, actions, order), tile_m, tile_n, w),
{
    lemma_warps_store(smem, accums, actions, order, w);
    assert(0 <= w / 2048 < 4);
    assert(order.contains(w / 2048));
}

/// Everything written so far is what it is to be in the end.
pub open spec fn all_finished(writes: Map<int, Source>) -> bool {
    forall|p: int| #[trigger] writes.contains_key(p) ==> writes[p] == finished(p)
}

/// A word of the packed tile holds what its place in a tile of C is made of.
pub open spec fn holds_word(smem: Seq<Source>, tile_m: int, tile_n: int, w: int) -> bool {
    smem[w] == (Source { pieces: whole(tile_m, tile_n), row: w / 64, col: w % 64 })
}

/// The lanes of a warp copy words that hold what they should: everything that
/// is written is finished, and their words are among it.
pub(crate) proof fn lemma_copies_are_finished(
    writes: Map<int, Source>,
    smem: Seq<Source>,
    actions: spec_fn(int) -> Action,
    tile_m: int,
    tile_n: int,
    words: spec_fn(int) -> int,
    lanes: int,
)
    requires
        0 <= tile_m < TILES_M,
        0 <= tile_n < TILES_N,
        0 <= lanes,
        all_finished(writes),
        forall|lane: int|
            0 <= lane < lanes ==> (#[trigger] actions(lane) == (Action::CopyOut {
                copy: copy_at(tile_m, tile_n, words(lane)),
            }) && 0 <= words(lane) < TILE_WORDS && holds_word(
                smem,
                tile_m,
                tile_n,
                words(lane),
            )),
    ensures
        ({
            let r = writes_after(writes, smem, actions, lanes);
            &&& all_finished(r)
            &&& forall|p: int| #[trigger] writes.contains_key(p) ==> r.contains_key(p)
            &&& forall|lane: int|
                0 <= lane < lanes ==> r.contains_key(
                    #[trigger] global_word(tile_m, tile_n, words(lane)),
                )
        }),
    decreases lanes,
{
    if lanes > 0 {
        let lane = lanes - 1;
        lemma_copies_are_finished(writes, smem, actions, tile_m, tile_n, words, lane);
        assert(actions(lane) == (Action::CopyOut {
            copy: copy_at(tile_m, tile_n, words(lane)),
        }));
        law_word_of_a_whole_tile_is_finished(tile_m, tile_n, words(lane));
    }
}

/// What word `p` of C is made of: all products of its tile, at its row and
/// column of the tile.
pub open spec fn finished(p: int) -> Source {
    Source {
        pieces: whole(p / WIDTH as int / BM as int, p % WIDTH as int / TILE_WIDTH as int),
        row: p / WIDTH as int % BM as int,
        col: p % WIDTH as int % TILE_WIDTH as int,
    }
}

/// The word that a tile has at `w` is finished when it is made of all products
/// of that tile, at the row and the column of `w`.
pub proof fn law_word_of_a_whole_tile_is_finished(tile_m: int, tile_n: int, w: int)
    requires
        0 <= tile_m < TILES_M,
        0 <= tile_n < TILES_N,
        0 <= w < TILE_WORDS,
    ensures
        finished(global_word(tile_m, tile_n, w)) == (Source {
            pieces: whole(tile_m, tile_n),
            row: w / 64,
            col: w % 64,
        }),
        0 <= global_word(tile_m, tile_n, w) < M * WIDTH,
{
    law_global_word_is_one_to_one(tile_m, tile_n, w);
    let p = global_word(tile_m, tile_n, w);
    let (wr, wc) = (w / 64, w % 64);
    assert(w == wr * 64 + wc && 0 <= wc < 64 && 0 <= wr < 128);
    assert(p == (tile_m * 128 + wr) * 4096 + (tile_n * 64 + wc));
    assert(p / 4096 == tile_m * 128 + wr && p % 4096 == tile_n * 64 + wc);
}

/// Words of C.
pub open spec fn c_words() -> int {
    M * WIDTH
}

/// A word of C after the writes of a warp; what the hardware makes of a source
/// is `unit`.
pub open spec fn word_after(
    old_word: u32,
    writes: Map<int, Source>,
    unit: spec_fn(Source) -> u32,
    p: int,
) -> u32 {
    if writes.contains_key(p) {
        unit(writes[p])
    } else {
        old_word
    }
}

/// C after the writes of all warps of a launch, one warp after the other.
pub open spec fn c_after(
    c: Seq<u32>,
    warps: Seq<Map<int, Source>>,
    unit: spec_fn(Source) -> u32,
) -> Seq<u32>
    decreases warps.len(),
{
    if warps.len() == 0 {
        c
    } else {
        let before = c_after(c, warps.drop_last(), unit);
        Seq::new(c.len(), |p: int| word_after(before[p], warps.last(), unit, p))
    }
}

/// The C of a product: every word made of all products of its tile.
pub open spec fn product_words(unit: spec_fn(Source) -> u32) -> Seq<u32> {
    Seq::new(c_words() as nat, |p: int| unit(finished(p)))
}

/// A warp has written all its words of an output tile.
pub open spec fn covers(writes: Map<int, Source>, tile_m: int, tile_n: int, warp_id: int) -> bool {
    forall|w: int|
        warp_id * 2048 <= w < warp_id * 2048 + 2048 ==> writes.contains_key(
            #[trigger] global_word(tile_m, tile_n, w),
        )
}

/// A word of C has been written.
pub open spec fn written(warps: Seq<Map<int, Source>>, p: int) -> bool {
    exists|i: int| 0 <= i < warps.len() && (#[trigger] warps[i]).contains_key(p)
}

/// Only what is finished has been written, and every word of C has been.
pub open spec fn launch_completed(warps: Seq<Map<int, Source>>) -> bool {
    &&& forall|i: int| 0 <= i < warps.len() ==> all_finished(#[trigger] warps[i])
    &&& forall|p: int| 0 <= p < c_words() ==> #[trigger] written(warps, p)
}

/// Some warp has written this quarter of an output tile.
pub open spec fn some_warp_covers(
    warps: Seq<Map<int, Source>>,
    tile_m: int,
    tile_n: int,
    warp_id: int,
) -> bool {
    exists|i: int| 0 <= i < warps.len() && covers(#[trigger] warps[i], tile_m, tile_n, warp_id)
}

/// A launch has written every word of C when the four quarters of every output
/// tile have been written, each by some warp of some block.
pub proof fn law_quarters_of_tiles_make_up_c(warps: Seq<Map<int, Source>>, p: int)
    requires
        0 <= p < c_words(),
        forall|tile_m: int, tile_n: int, warp_id: int|
            0 <= tile_m < TILES_M && 0 <= tile_n < TILES_N && 0 <= warp_id < 4
                ==> #[trigger] some_warp_covers(warps, tile_m, tile_n, warp_id),
    ensures
        written(warps, p),
{
    let tile_m = p / WIDTH as int / BM as int;
    let tile_n = p % WIDTH as int / TILE_WIDTH as int;
    let w = (p / WIDTH as int % BM as int) * TILE_WIDTH + p % WIDTH as int % TILE_WIDTH as int;
    law_every_word_is_written(p);
    let warp_id = w / 2048;
    assert(warp_id * 2048 <= w < warp_id * 2048 + 2048 && 0 <= warp_id < 4);
    assert(some_warp_covers(warps, tile_m, tile_n, warp_id));
    let i = choose|i: int|
        0 <= i < warps.len() && covers(#[trigger] warps[i], tile_m, tile_n, warp_id);
    assert(warps[i].contains_key(global_word(tile_m, tile_n, w)));
}

/// Some thread has written the words of an output tile that leave `rest` when
/// divided by the number of threads.
pub open spec fn some_thread_covers(
    threads: Seq<Map<int, Source>>,
    tile_m: int,
    tile_n: int,
    stride: int,
    rest: int,
) -> bool {
    exists|i: int|
        0 <= i < threads.len() && covers_strided(
            #[trigger] threads[i],
            tile_m,
            tile_n,
            stride,
            rest,
        )
}

/// A thread has written its words of an output tile.
pub open spec fn covers_strided(
    writes: Map<int, Source>,
    tile_m: int,
    tile_n: int,
    stride: int,
    rest: int,
) -> bool {
    forall|w: int|
        0 <= w < TILE_WORDS && w % stride == rest ==> writes.contains_key(
            #[trigger] global_word(tile_m, tile_n, w),
        )
}

/// A launch with one block for each output tile has written every word of C
/// when each thread of each block has written its words.
pub proof fn law_threads_of_tiles_make_up_c(threads: Seq<Map<int, Source>>, stride: int, p: int)
    requires
        0 < stride,
        0 <= p < c_words(),
        forall|tile_m: int, tile_n: int, rest: int|
            0 <= tile_m < TILES_M && 0 <= tile_n < TILES_N && 0 <= rest < stride
                ==> #[trigger] some_thread_covers(threads, tile_m, tile_n, stride, rest),
    ensures
        written(threads, p),
{
    let tile_m = p / WIDTH as int / BM as int;
    let tile_n = p % WIDTH as int / TILE_WIDTH as int;
    let w = (p / WIDTH as int % BM as int) * TILE_WIDTH + p % WIDTH as int % TILE_WIDTH as int;
    law_every_word_is_written(p);
    crate::math::lemma_join(w, stride);
    assert(some_thread_covers(threads, tile_m, tile_n, stride, w % stride));
    let i = choose|i: int|
        0 <= i < threads.len() && covers_strided(
            #[trigger] threads[i],
            tile_m,
            tile_n,
            stride,
            w % stride,
        );
    assert(threads[i].contains_key(global_word(tile_m, tile_n, w)));
}

proof fn lemma_word_is_finished(
    c: Seq<u32>,
    warps: Seq<Map<int, Source>>,
    unit: spec_fn(Source) -> u32,
    p: int,
)
    requires
        0 <= p < c.len(),
        forall|i: int| 0 <= i < warps.len() ==> all_finished(#[trigger] warps[i]),
    ensures
        c_after(c, warps, unit).len() == c.len(),
        written(warps, p) ==> c_after(c, warps, unit)[p] == unit(finished(p)),
    decreases warps.len(),
{
    if warps.len() > 0 {
        let rest = warps.drop_last();
        assert forall|i: int| 0 <= i < rest.len() implies all_finished(#[trigger] rest[i]) by {
            assert(rest[i] == warps[i]);
        }
        lemma_word_is_finished(c, rest, unit, p);
        let last = warps.last();
        assert(all_finished(warps[warps.len() - 1]));
        if written(warps, p) {
            if !last.contains_key(p) {
                let i = choose|i: int|
                    0 <= i < warps.len() && (#[trigger] warps[i]).contains_key(p);
                assert(rest[i].contains_key(p));
            }
        }
    }
}

/// A completed launch writes every word of C, and what it leaves depends on A
/// and B alone: it is the product, whatever C held before, and in whatever
/// order the warps wrote.
pub proof fn law_completed_launch_leaves_the_product(
    c: Seq<u32>,
    warps: Seq<Map<int, Source>>,
    unit: spec_fn(Source) -> u32,
)
    requires
        c.len() == c_words(),
        launch_completed(warps),
    ensures
        c_after(c, warps, unit) == product_words(unit),
{
    let r = c_after(c, warps, unit);
    assert forall|p: int| 0 <= p < c_words() implies r.len() == c.len() && #[trigger] r[p] == unit(
        finished(p),
    ) by {
        lemma_word_is_finished(c, warps, unit, p);
        assert(written(warps, p));
    }
    if c_words() > 0 {
        assert(r[0] == unit(finished(0)));
    }
    assert(r =~= product_words(unit));
}

/// A launch with one block for each output tile is completed when each thread of
/// each block has written its words, and nothing but finished words; it then
/// leaves the product, whatever C held before.
pub proof fn law_launch_of_tiles_leaves_the_product(
    c: Seq<u32>,
    threads: Seq<Map<int, Source>>,
    unit: spec_fn(Source) -> u32,
    stride: int,
)
    requires
        c.len() == c_words(),
        0 < stride,
        forall|i: int| 0 <= i < threads.len() ==> all_finished(#[trigger] threads[i]),
        forall|tile_m: int, tile_n: int, rest: int|
            0 <= tile_m < TILES_M && 0 <= tile_n < TILES_N && 0 <= rest < stride
                ==> #[trigger] some_thread_covers(threads, tile_m, tile_n, stride, rest),
    ensures
        c_after(c, threads, unit) == product_words(unit),
{
    assert forall|p: int| 0 <= p < c_words() implies #[trigger] written(threads, p) by {
        law_threads_of_tiles_make_up_c(threads, stride, p);
    }
    law_completed_launch_leaves_the_product(c, threads, unit);
}

/// Launches of all builds on the same A and B leave the same words, and
/// launching again changes nothing: results do not add up over launches.
pub proof fn law_launches_agree(
    c: Seq<u32>,
    other: Seq<u32>,
    warps: Seq<Map<int, Source>>,
    other_warps: Seq<Map<int, Source>>,
    unit: spec_fn(Source) -> u32,
)
    requires
        c.len() == c_words(),
        other.len() == c_words(),
        launch_completed(warps),
        launch_completed(other_warps),
    ensures
        c_after(c, warps, unit) == c_after(other, other_warps, unit),
        c_after(c_after(c, warps, unit), other_warps, unit) == c_after(c, warps, unit),
{
    law_completed_launch_leaves_the_product(c, warps, unit);
    law_completed_launch_leaves_the_product(other, other_warps, unit);
    law_completed_launch_leaves_the_product(c_after(c, warps, unit), other_warps, unit);
}

} // verus!
