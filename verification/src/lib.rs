//! Verified logic of a set of GPU kernels: tiled matrix multiplication, tree
//! reduction and vector addition, with the host-side arithmetic around them.

pub mod bf16;
pub mod block;
pub mod device;
pub mod dims;
pub mod epilogue;
pub mod exact;
pub mod gemm;
pub mod host;
pub mod launch;
mod math;
pub mod matrix;
pub mod memory;
pub mod persistent;
pub mod product;
pub mod reduction;
pub mod register_tiles;
pub mod ring;
pub mod scalar;
pub mod schedule;
pub mod selection;
pub mod setup;
pub mod shared_tiles;
pub mod sums;
pub mod tcgen05_basic;
pub mod tensor_map;
pub mod timing;
pub mod tma_pipeline;
pub mod uniform;
pub mod vecadd;
pub mod vecsum;
pub mod warp_specialized;
