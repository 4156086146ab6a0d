//! Addresses of the epilogue: accumulators leave tensor memory for a packed
//! tile in shared memory, and the tile leaves shared memory for C.
//!
//! Tensor memory is addressed as `(row << 16) + column`. A store writes two
//! 8×8 matrices of bf16; lanes 0–7 give the row addresses of the first, lanes
//! 8–15 those of the second.
use vstd::prelude::*;
use crate::dims::{BM, BN, N, TILES_M, TILES_N, TILE_WIDTH, WIDTH};

verus! {

/// Rows of the output tile that one warp drains.
pub const ROWS_PER_WARP: u32 = 32;

/// Rows that one drain covers.
pub const DRAIN_ROWS: u32 = 16;

/// Columns that one drain covers.
pub const DRAIN_COLS: u32 = 16;

/// Drains side by side across the tile.
pub const COL_BLOCKS: u32 = 8;

/// Columns from the first to the second load of a drain.
pub const SECOND_LOAD: u32 = 8;

/// Bytes of one row of the packed tile.
pub const ROW_STRIDE_BYTES: usize = 256;

/// Words that one warp copies out.
pub const PER_WARP_BOUNDS: usize = 2048;

/// Words of a packed tile.
pub const TILE_WORDS: usize = 8192;

/// Addresses of one drain: two loads from tensor memory, relative to the
/// allocation, and the byte offsets into the packed tile at which this lane
/// has its two stores put their rows.
#[derive(Clone, Copy, PartialEq, Eq, Structural, Debug)]
pub struct Drain {
    pub tmem_a: u32,
    pub tmem_b: u32,
    pub smem_lo: usize,
    pub smem_hi: usize,
}

/// Word that leaves the packed tile, and where in C it goes.
#[derive(Clone, Copy, PartialEq, Eq, Structural, Debug)]
pub struct CopyOut {
    pub smem_idx: usize,
    pub global_idx: usize,
}

/// First row of the output tile that a drain covers.
pub open spec fn drain_row(warp_id: int, row_offset: int) -> int {
    warp_id * ROWS_PER_WARP + row_offset
}

/// Tensor-memory offset of a row and a column of the accumulator at
/// `stage_offset`.
pub open spec fn tmem_at(stage_offset: int, row: int, col: int) -> int {
    stage_offset + row * 0x1_0000 + col
}

/// Byte offset, in the packed tile, of the 16-byte run of a row that starts
/// at a column.
pub open spec fn smem_at(row: int, col: int) -> int {
    row * ROW_STRIDE_BYTES + col * 2
}

/// Column at which the matrix starts whose row address a lane gives.
pub open spec fn store_col(lane_id: int, col_block: int) -> int {
    col_block * DRAIN_COLS + if 8 <= lane_id < 16 {
        8int
    } else {
        0int
    }
}

/// A position in the loop over the drains of one warp.
pub open spec fn drain_in_range(warp_id: int, lane_id: int, row_offset: int, col_block: int) -> bool {
    &&& 0 <= warp_id < 4
    &&& 0 <= lane_id < 32
    &&& row_offset == 0 || row_offset == 16
    &&& 0 <= col_block < COL_BLOCKS
}

/// The addresses of one drain.
pub open spec fn drain_at(
    stage_offset: int,
    warp_id: int,
    lane_id: int,
    row_offset: int,
    col_block: int,
) -> Drain {
    let row = drain_row(warp_id, row_offset);
    let lane_row = row + lane_id % 8;
    let col = store_col(lane_id, col_block);
    Drain {
        tmem_a: tmem_at(stage_offset, row, col_block * DRAIN_COLS) as u32,
        tmem_b: tmem_at(stage_offset, row, col_block * DRAIN_COLS + SECOND_LOAD) as u32,
        smem_lo: smem_at(lane_row, col) as usize,
        smem_hi: smem_at(lane_row + 8, col) as usize,
    }
}

/// The addresses of one drain.
pub fn drain(
    stage_offset: u32,
    warp_id: u32,
    lane_id: u32,
    row_offset: u32,
    col_block: u32,
) -> (r: Drain)
    requires
        stage_offset <= BN,
        drain_in_range(warp_id as int, lane_id as int, row_offset as int, col_block as int),
    ensures
        ({
            let row = drain_row(warp_id as int, row_offset as int);
            let lane_row = row + lane_id as int % 8;
            let col = store_col(lane_id as int, col_block as int);
            &&& r.tmem_a == tmem_at(stage_offset as int, row, col_block * DRAIN_COLS)
            &&& r.tmem_b == tmem_at(
                stage_offset as int,
                row,
                col_block * DRAIN_COLS + SECOND_LOAD,
            )
            &&& r.smem_lo == smem_at(lane_row, col)
            &&& r.smem_hi == smem_at(lane_row + 8, col)
        }),
        r == drain_at(
            stage_offset as int,
            warp_id as int,
            lane_id as int,
            row_offset as int,
            col_block as int,
        ),
{
    let tmem_row: u32 = warp_id * ROWS_PER_WARP + row_offset;
    let col_offset: u32 = col_block * DRAIN_COLS;
    assert(tmem_row << 16u32 == tmem_row * 0x1_0000) by (bit_vector)
        requires
            tmem_row < 128,
    ;
    let tmem_a: u32 = stage_offset + (tmem_row << 16u32) + col_offset;
    let row_within_8: usize = (lane_id % 8) as usize;
    let matrix2: usize = if 8 <= lane_id && lane_id < 16 {
        16
    } else {
        0
    };
    let out_row_lo: usize = tmem_row as usize + row_within_8;
    let out_row_hi: usize = tmem_row as usize + row_within_8 + 8;
    Drain {
        tmem_a,
        tmem_b: tmem_a + SECOND_LOAD,
        smem_lo: out_row_lo * ROW_STRIDE_BYTES + col_offset as usize * 2 + matrix2,
        smem_hi: out_row_hi * ROW_STRIDE_BYTES + col_offset as usize * 2 + matrix2,
    }
}

/// Row of the output tile in which a word of it lies.
pub open spec fn word_row(word: int) -> int {
    word / TILE_WIDTH as int
}

/// Column, in words, of the output tile in which a word of it lies.
pub open spec fn word_col(word: int) -> int {
    word % TILE_WIDTH as int
}

/// Index in the packed C of word `word` of output tile (`tile_m`, `tile_n`).
pub open spec fn global_word(tile_m: int, tile_n: int, word: int) -> int {
    (tile_m * BM + word_row(word)) * WIDTH + tile_n * TILE_WIDTH + word_col(word)
}

/// Word `word` of output tile (`tile_m`, `tile_n`) and its place in C.
pub open spec fn copy_at(tile_m: int, tile_n: int, word: int) -> CopyOut {
    CopyOut { smem_idx: word as usize, global_idx: global_word(tile_m, tile_n, word) as usize }
}

/// Where word `local_idx` of the rows that start at `base_row` is copied.
pub fn copy_out(tile_m: u32, tile_n: u32, base_row: usize, local_idx: usize) -> (r: CopyOut)
    requires
        tile_m < TILES_M,
        tile_n < TILES_N,
        base_row * TILE_WIDTH + local_idx < TILE_WORDS,
    ensures
        r.smem_idx == base_row * TILE_WIDTH + local_idx,
        r.global_idx == global_word(tile_m as int, tile_n as int, r.smem_idx as int),
        r == copy_at(tile_m as int, tile_n as int, base_row * TILE_WIDTH + local_idx),
{
    let tile_row_base: usize = tile_m as usize * BM;
    let tile_col_base: usize = tile_n as usize * TILE_WIDTH;
    let local_row: usize = local_idx / TILE_WIDTH;
    let local_col: usize = local_idx % TILE_WIDTH;
    let global_row: usize = tile_row_base + base_row + local_row;
    let global_col: usize = tile_col_base + local_col;
    CopyOut {
        smem_idx: (base_row + local_row) * TILE_WIDTH + local_col,
        global_idx: global_row * WIDTH + global_col,
    }
}

/// As `copy_out` from the first row on, with the row and the column taken
/// from the bits of the index.
pub fn copy_out_flat(tile_m: u32, tile_n: u32, local_idx: usize) -> (r: CopyOut)
    requires
        tile_m < TILES_M,
        tile_n < TILES_N,
        local_idx < TILE_WORDS,
    ensures
        r.smem_idx == local_idx,
        r.global_idx == global_word(tile_m as int, tile_n as int, local_idx as int),
        r == copy_at(tile_m as int, tile_n as int, local_idx as int),
{
    assert(local_idx >> 6usize == local_idx / 64 && local_idx & 63 == local_idx % 64)
        by (bit_vector);
    let local_row: usize = local_idx >> 6usize;
    let local_col: usize = local_idx & 63;
    let global_row: usize = tile_m as usize * BM + local_row;
    let global_col: usize = tile_n as usize * TILE_WIDTH + local_col;
    CopyOut { smem_idx: local_idx, global_idx: global_row * WIDTH + global_col }
}

/// Every store address of a drain lies in the packed tile, and each row that
/// is stored keeps its place: tensor-memory row `r`, column `c` goes to the
/// byte of row `r`, column `c`.
pub proof fn law_drain_keeps_coordinates(
    warp_id: int,
    lane_id: int,
    row_offset: int,
    col_block: int,
)
    requires
        drain_in_range(warp_id, lane_id, row_offset, col_block),
        lane_id < 16,
    ensures
        ({
            let row = drain_row(warp_id, row_offset);
            let col = store_col(lane_id, col_block);
            &&& 0 <= row && row + DRAIN_ROWS <= BM
            &&& 0 <= col && col + 8 <= BN
            &&& smem_at(row + lane_id % 8 + 8, col) + 16 <= TILE_WORDS * 4
            &&& lane_id < 8 ==> tmem_at(0, row, col) == tmem_at(0, row, col_block * DRAIN_COLS)
            &&& lane_id >= 8 ==> tmem_at(0, row, col) == tmem_at(
                0,
                row,
                col_block * DRAIN_COLS + SECOND_LOAD,
            )
        }),
{
}

/// Which lane of which warp, at which point of its loop, stores the 16-byte
/// run of a row of the tile; `hi` tells the second store from the first.
pub open spec fn stores_run(
    warp_id: int,
    lane_id: int,
    row_offset: int,
    col_block: int,
    hi: bool,
    row: int,
    run: int,
) -> bool {
    &&& drain_in_range(warp_id, lane_id, row_offset, col_block)
    &&& lane_id < 16
    &&& smem_at(row, run * 8) == smem_at(
        drain_row(warp_id, row_offset) + lane_id % 8 + if hi {
            8int
        } else {
            0int
        },
        store_col(lane_id, col_block),
    )
}

/// The drains of the four warps fill the whole packed tile: each of its
/// 16-byte runs is stored.
#[verifier::rlimit(30)]
pub proof fn law_drains_fill_the_tile(row: int, run: int)
    requires
        0 <= row < BM,
        0 <= run < 16,
    ensures
        stores_run(
            row / 32,
            row % 8 + 8 * (run % 2),
            16 * ((row % 32) / 16),
            run / 2,
            row % 16 >= 8,
            row,
            run,
        ),
{
}

/// No run of the packed tile is stored twice.
#[verifier::rlimit(30)]
pub proof fn law_drains_store_once(
    warp_id: int,
    lane_id: int,
    row_offset: int,
    col_block: int,
    hi: bool,
    row: int,
    run: int,
)
    requires
        0 <= row < BM,
        0 <= run < 16,
        stores_run(warp_id, lane_id, row_offset, col_block, hi, row, run),
    ensures
        warp_id == row / 32,
        lane_id == row % 8 + 8 * (run % 2),
        row_offset == 16 * ((row % 32) / 16),
        col_block == run / 2,
        hi == (row % 16 >= 8),
{
}

/// A warp copies out only rows that it drained itself.
pub proof fn law_warp_copies_its_own_rows(warp_id: int, local_idx: int)
    requires
        0 <= warp_id < 4,
        0 <= local_idx < PER_WARP_BOUNDS,
    ensures
        warp_id * 32 <= word_row(warp_id * 32 * TILE_WIDTH + local_idx) < warp_id * 32 + 32,
{
}

/// Every word of the packed C is the word of exactly one tile: it is in
/// bounds, and tile and word come back out of its index.
#[verifier::rlimit(30)]
pub proof fn law_global_word_is_one_to_one(tile_m: int, tile_n: int, word: int)
    requires
        0 <= tile_m < TILES_M,
        0 <= tile_n < TILES_N,
        0 <= word < TILE_WORDS,
    ensures
        ({
            let w = global_word(tile_m, tile_n, word);
            &&& 0 <= w < crate::dims::M * WIDTH
            &&& tile_m == w / WIDTH as int / BM as int
            &&& tile_n == w % WIDTH as int / TILE_WIDTH as int
            &&& word == (w / WIDTH as int % BM as int) * TILE_WIDTH + w % WIDTH as int
                % TILE_WIDTH as int
        }),
{
}

/// A completed launch writes every word of C: each index is reached by its
/// tile and word.
#[verifier::rlimit(30)]
pub proof fn law_every_word_is_written(w: int)
    requires
        0 <= w < crate::dims::M * WIDTH,
    ensures
        ({
            let tile_m = w / WIDTH as int / BM as int;
            let tile_n = w % WIDTH as int / TILE_WIDTH as int;
            let word = (w / WIDTH as int % BM as int) * TILE_WIDTH + w % WIDTH as int
                % TILE_WIDTH as int;
            &&& 0 <= tile_m < TILES_M
            &&& 0 <= tile_n < TILES_N
            &&& 0 <= word < TILE_WORDS
            &&& global_word(tile_m, tile_n, word) == w
        }),
{
}

/// Lanes that start at their own number and advance by the number of lanes
/// share out the words of a warp, each to one lane at one round; the same
/// holds of the threads of a block, with the stride of the block.
pub proof fn law_strided_copies_share_out(word: int, stride: int, thread: int, round: int)
    requires
        0 <= word,
        0 < stride,
        0 <= thread < stride,
        0 <= round,
    ensures
        word == thread + round * stride <==> thread == word % stride && round == word / stride,
{
    crate::math::lemma_join(word, stride);
    assert(round * stride == stride * round) by (nonlinear_arith);
    if word == thread + round * stride {
        crate::math::lemma_split(word, stride, round, thread);
    }
}

/// Word `w` of the packed C holds, low half first, the two entries of C that
/// follow each other at `2 * w` in row-major order.
pub proof fn law_packed_word_holds_two_neighbours(row: int, col: int)
    requires
        0 <= row < crate::dims::M,
        0 <= col < N,
    ensures
        2 * (row * WIDTH + col / 2) + col % 2 == row * N + col,
{
}

/// An entry of C keeps its place all the way: entry (`row`, `col`) is row
/// `row % BM`, column `col % BN` of the accumulator of its tile, the same row
/// and column of the packed tile, and half `col % 2` of its word of C.
pub proof fn law_entry_reaches_its_place(row: int, col: int)
    requires
        0 <= row < crate::dims::M,
        0 <= col < N,
    ensures
        ({
            let tile_m = row / BM as int;
            let tile_n = col / BN as int;
            let word = (row % BM as int) * TILE_WIDTH + (col % BN as int) / 2;
            &&& 0 <= tile_m < TILES_M
            &&& 0 <= tile_n < TILES_N
            &&& 0 <= word < TILE_WORDS
            &&& smem_at(row % BM as int, col % BN as int) == 4 * word + 2 * (col % 2)
            &&& 2 * global_word(tile_m, tile_n, word) + col % 2 == row * N + col
        }),
{
}

} // verus!
