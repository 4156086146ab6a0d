# oxide_kernels

Verified logic of a set of GPU kernels: matrix products from the plainest one to
a work-stealing tensor-core pipeline, tree reductions and vector addition,
together with the host-side arithmetic around them.

## Layout

- `src/` is the library, verified with Verus.
  - `ring`, `device`, `dims`, `epilogue`: parity rings, what a thread asks of the
    hardware, sizes and tile numbering, and the addresses by which accumulators
    reach C.
  - `persistent`, `gemm`, `schedule`, `selection`: the work-stealing product as
    machines for its warps, the laws that tie them together, and its three ways
    to select the resources of a stage.
  - `memory`, `block`, `exact`: what slots, accumulators, packed tile and C hold,
    why what a launch leaves in C is the product, and which entries of A · B its
    words are where the arithmetic is exact.
  - `warp_specialized`, `tcgen05_basic`: the two tensor-core products with one
    tile per block.
  - `scalar`, `product`, `shared_tiles`, `register_tiles`, `tma_pipeline`: the
    products without tensor cores, for every type with a sum and a product.
  - `sums`, `vecsum`, `reduction`, `vecadd`: orders of addition, partial sums, the
    passes of a reduction, vector addition.
  - `bf16`, `uniform`, `matrix`: bit patterns of numbers, reproducible input,
    transposition.
  - `tensor_map`, `launch`, `host`, `setup`, `timing`: what the driver is asked for,
    and in which order.
- `tests/` runs the library: whole thread blocks on a simulated device, and the
  numeric kernels on whole numbers and on singles.
- `app/` drives the library on a GPU: device code that performs the actions of
  the machines, and host programs that check and time the kernels. It needs a
  CUDA toolkit and the cuda-oxide device crate.

## How the kernels are stated

A kernel that talks to the hardware is a machine: a step takes the answer to the
last action and gives the next one. The contract of a step says which action it
gives and where the thread stands afterwards. Laws say what becomes of it: an
invariant over the memories of a block is kept by every step that the barriers
let through, so that each accumulator that is drained holds all products of its
tile of A · B, and every word that is written to C is in its place.

The work-stealing product has one tile record, and nothing keeps its copying warp
from announcing the next tile before a slow draining warp has read the record of
its own. The laws on what it writes assume that the record which a draining warp
reads is that of its tile, which holds as long as no later announcement has been
made; the products with one tile per block need no such assumption. That every
tile is started by some block, whether launched or stolen, is the hardware's
promise, and the laws on whole launches take it as given.

A kernel that only computes takes a whole thread block through its phases. Its
contract says what C, or the sum, is afterwards, in the order in which the
numbers are added up, so that it holds for rounded arithmetic too.
