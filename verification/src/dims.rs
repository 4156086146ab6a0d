//! Problem and tile sizes of the tensor-core kernels, and the numbering of
//! output tiles.
//!
//! `C[M×N] = A[M×K] · B[K×N]`, all row-major; each thread block produces one
//! `BM`×`BN` tile of C, stepping through the contraction `BK` at a time.
use vstd::prelude::*;

verus! {

/// Rows of A and C.
pub const M: usize = 8192;

/// Columns of B and C.
pub const N: usize = 8192;

/// Contraction length.
pub const K: usize = 8192;

/// Rows of an output tile.
pub const BM: usize = 128;

/// Columns of an output tile.
pub const BN: usize = 128;

/// Contraction length of one loaded tile.
pub const BK: usize = 64;

/// Bytes of a bf16.
pub const BF16_SIZE: usize = 2;

/// Bytes of one loaded tile of A.
pub const A_TILE_BYTES: usize = 16384;

/// Bytes of one loaded tile of B.
pub const B_TILE_BYTES: usize = 16384;

/// Bytes that one pipeline step loads.
pub const COMBINED_BYTES: u32 = 32768;

/// Words of the packed output tile in shared memory, two bf16 each.
pub const OUTPUT_SIZE: usize = 8192;

/// Output tiles along M.
pub const TILES_M: u32 = 64;

/// Output tiles along N.
pub const TILES_N: u32 = 64;

/// Output tiles in all.
pub const TOTAL_TILES: u32 = 4096;

/// Pipeline steps that one output tile takes.
pub const K_ITERS: u32 = 128;

/// Contraction length of one tensor-core instruction.
pub const MMA_K: usize = 16;

/// Instructions that one pipeline step issues.
pub const MMAS_PER_STEP: u32 = 4;

/// Bytes along K between the operands of two successive instructions.
pub const MMA_K_BYTES: u64 = 32;

/// Bytes from one core matrix of an operand to its neighbour along K: a row of
/// eight bf16.
pub const LBO_BYTES: u32 = 16;

/// Bytes from one row of core matrices of an operand to the next: eight rows of
/// the loaded tile.
pub const SBO_BYTES: u32 = 1024;

/// Consecutive thread blocks that are scheduled, and stolen, together.
pub const CLUSTER_SIZE: u32 = 4;

/// Words of one row of the packed output matrix.
pub const WIDTH: usize = 4096;

/// Words of one row of a packed output tile.
pub const TILE_WIDTH: usize = 64;

/// The derived sizes are what the problem and tile sizes make them.
pub proof fn law_derived_sizes()
    ensures
        A_TILE_BYTES == BM * BK * BF16_SIZE,
        B_TILE_BYTES == BK * BN * BF16_SIZE,
        COMBINED_BYTES == A_TILE_BYTES + B_TILE_BYTES,
        OUTPUT_SIZE * BF16_SIZE == BM * BN,
        TILES_M * BM == M,
        TILES_N * BN == N,
        TOTAL_TILES == TILES_M * TILES_N,
        K_ITERS * BK == K,
        MMAS_PER_STEP * MMA_K == BK,
        MMA_K_BYTES == MMA_K * BF16_SIZE,
        MMA_K_BYTES == 2 * LBO_BYTES,
        LBO_BYTES == 8 * BF16_SIZE,
        SBO_BYTES == 8 * BK * BF16_SIZE,
        WIDTH * 2 == N,
        TILE_WIDTH * 2 == BN,
        TOTAL_TILES % CLUSTER_SIZE == 0,
{
}

/// The output tile of a thread block, tiles being numbered down the columns
/// of C.
pub fn tile_of(ctaid: u32) -> (r: (u32, u32))
    ensures
        r.0 == ctaid as int % TILES_M as int,
        r.1 == ctaid as int / TILES_M as int,
        r.0 < TILES_M,
{
    (ctaid % TILES_M, ctaid / TILES_M)
}

/// The blocks of a full grid and the tiles of C correspond one to one.
pub proof fn law_blocks_and_tiles_correspond(tile_m: int, tile_n: int, ctaid: int)
    ensures
        (0 <= tile_m < TILES_M && 0 <= tile_n < TILES_N && ctaid == tile_n * TILES_M + tile_m) <==> (
        0 <= ctaid < TOTAL_TILES && tile_m == ctaid % TILES_M as int && tile_n == ctaid
            / TILES_M as int),
{
}

/// The blocks of one cluster work on vertically adjacent tiles: `CLUSTER_SIZE`
/// consecutive blocks from a multiple of it share one column of tiles.
pub proof fn law_cluster_stays_in_one_column(first: int, step: int)
    requires
        0 <= first,
        first % CLUSTER_SIZE as int == 0,
        0 <= step < CLUSTER_SIZE,
    ensures
        (first + step) / TILES_M as int == first / TILES_M as int,
        (first + step) % TILES_M as int == first % TILES_M as int + step,
{
}

} // verus!
