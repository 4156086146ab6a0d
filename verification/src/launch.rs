//! Launch geometry.
use vstd::prelude::*;

verus! {

/// Blocks of a grid, threads of a block and bytes of dynamic shared memory.
#[derive(Clone, Copy, PartialEq, Eq, Debug)]
pub struct LaunchConfig {
    pub grid_dim: (u32, u32, u32),
    pub block_dim: (u32, u32, u32),
    pub shared_mem_bytes: u32,
}

} // verus!
