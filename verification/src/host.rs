//! Host side of the tensor-core product: tensor maps, buffers, launches, and
//! the figures that are reported.
use vstd::prelude::*;
use crate::dims::{
    A_TILE_BYTES, BF16_SIZE, BK, BM, BN, B_TILE_BYTES, COMBINED_BYTES, K, K_ITERS, M, N, TILES_M,
    TILES_N, TOTAL_TILES, WIDTH,
};
use crate::launch::LaunchConfig;
use crate::tensor_map::{
    create_tma_descriptor, law_map_leads_to_row_major_entries, DataType, TensorMap,
};

verus! {

/// Threads of a block of the work-stealing product: six warps.
pub const BLOCK_DIM: u32 = 192;

/// Words of the packed C.
pub const C_WORDS: usize = 33554432;

/// Launch geometry of the work-stealing product: one block per output tile, in
/// one row.
pub fn launch() -> (r: LaunchConfig)
    ensures
        r == (LaunchConfig {
            grid_dim: (TOTAL_TILES, 1, 1),
            block_dim: (BLOCK_DIM, 1, 1),
            shared_mem_bytes: 0,
        }),
        r.grid_dim.0 == (M as int / BM as int) * (N as int / BN as int),
{
    LaunchConfig {
        grid_dim: (((M / BM) * (N / BN)) as u32, 1, 1),
        block_dim: (BLOCK_DIM, 1, 1),
        shared_mem_bytes: 0,
    }
}

/// Launch geometry of a plane of blocks.
pub fn plane_config(grid: (u32, u32), block: (u32, u32)) -> (r: LaunchConfig)
    ensures
        r == (LaunchConfig {
            grid_dim: (grid.0, grid.1, 1),
            block_dim: (block.0, block.1, 1),
            shared_mem_bytes: 0,
        }),
{
    LaunchConfig {
        grid_dim: (grid.0, grid.1, 1),
        block_dim: (block.0, block.1, 1),
        shared_mem_bytes: 0,
    }
}

/// A build of the work-stealing product.
#[derive(Clone, Copy, PartialEq, Eq, Structural, Debug)]
pub enum Kernel {
    Gemm,
    Arith,
    Match,
    Branch,
}

/// A launch: the build, its geometry, and what it is handed.
#[derive(Clone, Copy, PartialEq, Eq, Debug)]
pub struct Launch {
    pub kernel: Kernel,
    pub config: LaunchConfig,
    pub a_map: TensorMap,
    pub b_map: TensorMap,
    pub c_words: usize,
}

/// State of `C = A · B` that outlives a launch: the maps of A and of the
/// transposed B, and the size of the packed C.
#[derive(Clone, Copy, PartialEq, Eq, Debug)]
pub struct Gemm {
    pub a_map: TensorMap,
    pub b_map: TensorMap,
    pub c: usize,
}

impl Gemm {
    /// The maps and the buffer are those of matrices at these addresses: A is
    /// `M`×`K` and the transposed B is `N`×`K`, both copied `BK` at a time.
    pub open spec fn is_for(self, a: u64, b_t: u64) -> bool {
        &&& self.a_map.describes(
            DataType::BFloat16,
            a,
            K as u64,
            M as u64,
            BK as u32,
            BM as u32,
        )
        &&& self.a_map.swizzle is Bytes128
        &&& self.b_map.describes(
            DataType::BFloat16,
            b_t,
            K as u64,
            N as u64,
            BK as u32,
            BN as u32,
        )
        &&& self.b_map.swizzle is Bytes128
        &&& self.c == C_WORDS
    }

    /// A launch of one of the builds on this state.
    pub open spec fn launch_of(self, kernel: Kernel) -> Launch {
        Launch {
            kernel,
            config: LaunchConfig {
                grid_dim: (TOTAL_TILES, 1, 1),
                block_dim: (BLOCK_DIM, 1, 1),
                shared_mem_bytes: 0,
            },
            a_map: self.a_map,
            b_map: self.b_map,
            c_words: self.c,
        }
    }

    /// The state for an A and a transposed B at these addresses.
    pub fn new(a: u64, b_t: u64) -> (r: Gemm)
        ensures
            r.is_for(a, b_t),
    {
        Gemm {
            a_map: create_tma_descriptor(a, K as u64, M as u64, BK as u32, BM as u32),
            b_map: create_tma_descriptor(b_t, K as u64, N as u64, BK as u32, BN as u32),
            c: M * N / 2,
        }
    }

    /// Launch the product.
    pub fn launch(&self) -> (r: Launch)
        ensures
            r == self.launch_of(Kernel::Gemm),
    {
        Launch {
            kernel: Kernel::Gemm,
            config: launch(),
            a_map: self.a_map,
            b_map: self.b_map,
            c_words: self.c,
        }
    }

    /// Launch the build with its resources in arrays.
    pub fn launch_arith(&self) -> (r: Launch)
        ensures
            r == self.launch_of(Kernel::Arith),
    {
        Launch { kernel: Kernel::Arith, ..self.launch() }
    }

    /// Launch the build that selects the resources of a stage.
    pub fn launch_match(&self) -> (r: Launch)
        ensures
            r == self.launch_of(Kernel::Match),
    {
        Launch { kernel: Kernel::Match, ..self.launch() }
    }

    /// Launch the build with a branch for each stage.
    pub fn launch_branch(&self) -> (r: Launch)
        ensures
            r == self.launch_of(Kernel::Branch),
    {
        Launch { kernel: Kernel::Branch, ..self.launch() }
    }
}

/// One product of an A and a transposed B at these addresses: its state and
/// its one launch.
pub fn matmul(a: u64, b_t: u64) -> (r: (Gemm, Launch))
    ensures
        r.0.is_for(a, b_t),
        r.1 == r.0.launch_of(Kernel::Gemm),
{
    let gemm: Gemm = Gemm::new(a, b_t);
    let launch: Launch = gemm.launch();
    (gemm, launch)
}

/// The boxes of the maps suit the kernels: their rows are exactly 128 bytes
/// long, as the exchange within 128 bytes needs, they fill the tiles in shared
/// memory, and together they are what a pipeline step waits for.
pub proof fn law_boxes_suit_the_kernels(gemm: Gemm, a: u64, b_t: u64)
    requires
        gemm.is_for(a, b_t),
    ensures
        gemm.a_map.inner_bytes() == 128,
        gemm.b_map.inner_bytes() == 128,
        gemm.a_map.box_bytes() == A_TILE_BYTES,
        gemm.b_map.box_bytes() == B_TILE_BYTES,
        gemm.a_map.box_bytes() + gemm.b_map.box_bytes() == COMBINED_BYTES,
{
    assert(gemm.a_map.box_dim@[0] == 64 && gemm.a_map.box_dim@[1] == 128);
    assert(gemm.b_map.box_dim@[0] == 64 && gemm.b_map.box_dim@[1] == 128);
}

/// Every box that a block copies lies in its matrix: slice `k` of tile
/// (`tile_m`, `tile_n`) never reaches beyond an edge.
pub proof fn law_boxes_lie_in_their_matrices(
    gemm: Gemm,
    a: u64,
    b_t: u64,
    tile_m: int,
    tile_n: int,
    k: int,
)
    requires
        gemm.is_for(a, b_t),
        0 <= tile_m < TILES_M,
        0 <= tile_n < TILES_N,
        0 <= k < K_ITERS,
    ensures
        k * BK + gemm.a_map.box_dim@[0] <= gemm.a_map.global_dim@[0],
        tile_m * BM + gemm.a_map.box_dim@[1] <= gemm.a_map.global_dim@[1],
        k * BK + gemm.b_map.box_dim@[0] <= gemm.b_map.global_dim@[0],
        tile_n * BN + gemm.b_map.box_dim@[1] <= gemm.b_map.global_dim@[1],
{
    assert(gemm.a_map.box_dim@[0] == 64 && gemm.a_map.box_dim@[1] == 128);
    assert(gemm.b_map.box_dim@[0] == 64 && gemm.b_map.box_dim@[1] == 128);
    assert(gemm.a_map.global_dim@[0] == K && gemm.a_map.global_dim@[1] == M);
    assert(gemm.b_map.global_dim@[0] == K && gemm.b_map.global_dim@[1] == N);
}

/// C has a word for every two entries, and the grid a block for every tile.
pub proof fn law_launch_covers_c()
    ensures
        C_WORDS == M * WIDTH,
        2 * C_WORDS == M * N,
        TOTAL_TILES * (BM * BN) == M * N,
{
}

/// Floating-point operations of the product: one multiplication and one
/// addition per term.
pub fn flops() -> (r: u64)
    ensures
        r == 2 * M * N * K,
{
    2 * M as u64 * N as u64 * K as u64
}

/// Bytes that the product has to move at least: A and B read once, C written
/// once, two bytes per entry.
pub fn min_traffic() -> (r: u64)
    ensures
        r == BF16_SIZE * (M * K + K * N + M * N),
{
    BF16_SIZE as u64 * (M as u64 * K as u64 + K as u64 * N as u64 + M as u64 * N as u64)
}

/// Positions at which two outputs differ, as far as both go.
pub open spec fn differing(c: Seq<u32>, reference: Seq<u32>) -> nat
    decreases c.len(),
{
    if c.len() == 0 {
        0
    } else {
        let i = c.len() - 1;
        differing(c.drop_last(), reference) + if i < reference.len() && c[i] != reference[i] {
            1nat
        } else {
            0nat
        }
    }
}

/// Count the positions at which two outputs differ.
pub fn mismatches(c: &[u32], reference: &[u32]) -> (r: usize)
    ensures
        r == differing(c@, reference@),
        r <= c@.len(),
{
    let mut count: usize = 0;
    let mut i: usize = 0;
    while i < c.len()
        invariant
            i <= c@.len(),
            count <= i,
            count == differing(c@.subrange(0, i as int), reference@),
        decreases c@.len() - i,
    {
        proof {
            assert(c@.subrange(0, i + 1).drop_last() =~= c@.subrange(0, i as int));
        }
        if i < reference.len() && c[i] != reference[i] {
            count += 1;
        }
        i += 1;
    }
    assert(c@.subrange(0, c@.len() as int) =~= c@);
    count
}

/// No mismatch means that the outputs agree word by word.
pub proof fn law_no_mismatch_means_equal(c: Seq<u32>, reference: Seq<u32>)
    requires
        c.len() <= reference.len(),
    ensures
        differing(c, reference) == 0 <==> c == reference.subrange(0, c.len() as int),
    decreases c.len(),
{
    if c.len() > 0 {
        let i = c.len() - 1;
        law_no_mismatch_means_equal(c.drop_last(), reference);
        let r = reference.subrange(0, c.len() as int);
        assert(r.drop_last() =~= reference.subrange(0, i));
        if c.drop_last() == r.drop_last() && c[i] == reference[i] {
            assert(c =~= r);
        }
    } else {
        assert(c =~= reference.subrange(0, 0));
    }
}

/// Output tile in which an entry of C lies, and its place in the tile.
pub fn entry_place(i: usize, j: usize) -> (r: ((usize, usize), (usize, usize)))
    ensures
        r.0.0 == i as int / BM as int,
        r.0.1 == j as int / BN as int,
        r.1.0 == i as int % BM as int,
        r.1.1 == j as int % BN as int,
{
    ((i / BM, j / BN), (i % BM, j % BN))
}

/// The count of mismatches grows by one with each position at which the outputs
/// differ, and by nothing otherwise.
pub proof fn law_mismatches_count_differing_positions(c: Seq<u32>, reference: Seq<u32>, word: u32)
    ensures
        differing(Seq::<u32>::empty(), reference) == 0,
        differing(c.push(word), reference) == differing(c, reference) + if c.len() < reference.len()
            && word != reference[c.len() as int] {
            1int
        } else {
            0int
        },
        c.len() <= reference.len() && c == reference.subrange(0, c.len() as int) ==> differing(
            c,
            reference,
        ) == 0,
{
    assert(c.push(word).drop_last() =~= c);
    if c.len() <= reference.len() {
        law_no_mismatch_means_equal(c, reference);
    }
}

/// The state of a product leads the copy engine to the entries of A and of the
/// transposed B: entry (`row`, `k`) of either lies `row * K + k` entries of two
/// bytes behind its address, and C has a word for every two entries.
pub proof fn law_state_leads_to_the_matrices(gemm: Gemm, a: u64, b_t: u64, row: int, k: int)
    requires
        gemm.is_for(a, b_t),
    ensures
        gemm.a_map.global_address + row * gemm.a_map.global_strides@[0] + k * 2 == a + (row * 8192
            + k) * 2,
        gemm.b_map.global_address + row * gemm.b_map.global_strides@[0] + k * 2 == b_t + (row * 8192
            + k) * 2,
        gemm.a_map.global_dim@ == seq![8192u64, 8192u64],
        gemm.b_map.global_dim@ == seq![8192u64, 8192u64],
        gemm.a_map.box_dim@ == seq![64u32, 128u32],
        gemm.b_map.box_dim@ == seq![64u32, 128u32],
        gemm.a_map.swizzle is Bytes128 && gemm.b_map.swizzle is Bytes128,
        gemm.c == 8192 * 8192 / 2,
{
    law_map_leads_to_row_major_entries(
        gemm.a_map,
        DataType::BFloat16,
        a,
        8192,
        8192,
        64,
        128,
        row,
        k,
    );
    law_map_leads_to_row_major_entries(
        gemm.b_map,
        DataType::BFloat16,
        b_t,
        8192,
        8192,
        64,
        128,
        row,
        k,
    );
}

/// All builds are launched alike: one block for each of the 64 by 64 output tiles
/// in one row, six warps each, on the maps and the buffer of the state.
pub proof fn law_builds_are_launched_alike(gemm: Gemm, kernel: Kernel)
    ensures
        gemm.launch_of(kernel).kernel == kernel,
        gemm.launch_of(kernel).config.grid_dim == (4096u32, 1u32, 1u32),
        gemm.launch_of(kernel).config.block_dim == (192u32, 1u32, 1u32),
        gemm.launch_of(kernel).config.shared_mem_bytes == 0,
        gemm.launch_of(kernel).a_map == gemm.a_map,
        gemm.launch_of(kernel).b_map == gemm.b_map,
        gemm.launch_of(kernel).c_words == gemm.c,
{
}

} // verus!
