//! Products and sums without tensor cores.
use oxide_kernels::product::{gemm_naive, Shape};
use oxide_kernels::reduction::{PassInput, ReduceAction, ReducePlan};
use oxide_kernels::register_tiles::{fetch_at, gemm_register, store_at};
use oxide_kernels::scalar::Scalar;
use oxide_kernels::shared_tiles::gemm_smem;
use oxide_kernels::tma_pipeline::{copy_box, gemm_tma_pipeline, PipeAction, PipeThread};
use oxide_kernels::vecadd::vecadd;
use oxide_kernels::vecsum::{
    block_reduce, block_sum, pass_config, reduce, round_up, vecsum, vecsum_naive, vecsum_recursive,
    vecsum_shared_v1, vecsum_shared_v2, warp_reduce,
};

#[derive(Clone, Copy, PartialEq, Debug)]
struct Single(f32);

impl Scalar for Single {
    fn nothing() -> Single {
        Single::zero()
    }

    fn sum(self, rhs: Single) -> Single {
        self.plus(rhs)
    }

    fn product(self, rhs: Single) -> Single {
        self.times(rhs)
    }

    fn zero() -> Single {
        Single(0.0)
    }

    fn plus(self, rhs: Single) -> Single {
        Single(self.0 + rhs.0)
    }

    fn times(self, rhs: Single) -> Single {
        Single(self.0 * rhs.0)
    }
}

fn noise(n: usize, seed: u32) -> Vec<u32> {
    let mut x = seed;
    (0..n)
        .map(|_| {
            x = x.wrapping_mul(1664525).wrapping_add(1013904223);
            x
        })
        .collect()
}

fn singles(n: usize, seed: u32) -> Vec<Single> {
    noise(n, seed).into_iter().map(|x| Single(x as f32 / 4294967296.0 - 0.5)).collect()
}

fn product<T: Scalar>(a: &[T], b: &[T], shape: Shape) -> Vec<T> {
    let mut c = Vec::new();
    for row in 0..shape.m {
        for col in 0..shape.n {
            let mut sum = T::zero();
            for i in 0..shape.k {
                sum = sum.plus(a[row * shape.k + i].times(b[i * shape.n + col]));
            }
            c.push(sum);
        }
    }
    c
}

#[test]
fn naive_product_entry_by_entry() {
    let shape = Shape { m: 3, n: 4, k: 5 };
    let (a, b) = (noise(15, 1), noise(20, 2));
    let mut c = vec![7u32; 12];
    gemm_naive(&a, &b, &mut c, shape, 3, 0);
    gemm_naive(&a, &b, &mut c, shape, 0, 4);
    assert_eq!(c, vec![7u32; 12]);
    for row in 0..3 {
        for col in 0..4 {
            gemm_naive(&a, &b, &mut c, shape, row, col);
        }
    }
    assert_eq!(c, product(&a, &b, shape));
    let mut one = vec![0u32; 1];
    gemm_naive(&vec![2, 3], &vec![5, 7], &mut one, Shape { m: 1, n: 1, k: 2 }, 0, 0);
    assert_eq!(one, vec![31]);
}

#[test]
fn register_and_pipeline_agree_with_naive_bit_by_bit() {
    let shape = Shape { m: 256, n: 128, k: 64 };
    let (a, b) = (singles(shape.m * shape.k, 3), singles(shape.k * shape.n, 4));
    let want = product(&a, &b, shape);
    let mut c1 = vec![Single(9.0); shape.m * shape.n];
    let mut c2 = c1.clone();
    gemm_register(&a, &b, &mut c1, shape, 0, 1);
    gemm_tma_pipeline(&a, &b, &mut c2, shape, 0, 1);
    for x in 0..c1.len() {
        let expected = if x / shape.n >= 128 { want[x] } else { Single(9.0) };
        assert_eq!(c1[x].0.to_bits(), expected.0.to_bits());
        assert_eq!(c2[x].0.to_bits(), expected.0.to_bits());
    }
    gemm_register(&a, &b, &mut c1, shape, 0, 0);
    gemm_tma_pipeline(&a, &b, &mut c2, shape, 0, 0);
    assert!(c1 == want);
    assert!(c2 == want);
}

#[test]
fn product_of_no_terms_is_zero() {
    let shape = Shape { m: 128, n: 128, k: 0 };
    let none: Vec<u32> = Vec::new();
    let mut c = vec![5u32; 128 * 128];
    gemm_register(&none, &none, &mut c, shape, 0, 0);
    assert_eq!(c, vec![0u32; 128 * 128]);
    let mut c = vec![5u32; 128 * 128];
    gemm_tma_pipeline(&none, &none, &mut c, shape, 0, 0);
    assert_eq!(c, vec![0u32; 128 * 128]);
}

#[test]
fn shared_tiles_overwrite_what_is_there() {
    let shape = Shape { m: 64, n: 128, k: 128 };
    let (a, b) = (noise(shape.m * shape.k, 5), noise(shape.k * shape.n, 6));
    let before = noise(shape.m * shape.n, 7);
    let mut c = before.clone();
    gemm_smem(&a, &b, &mut c, shape, 1, 0);
    let want = product(&a, &b, shape);
    for x in 0..c.len() {
        let expected = if x % 128 >= 64 { want[x] } else { before[x] };
        assert_eq!(c[x], expected);
    }
}

#[test]
fn threads_outside_of_c_write_nothing() {
    let shape = Shape { m: 64, n: 64, k: 64 };
    let (a, b) = (noise(4096, 15), noise(4096, 16));
    let want = product(&a, &b, shape);
    // a C that ends in the middle of a row
    let mut c = vec![7u32; 100];
    gemm_smem(&a, &b, &mut c, shape, 0, 0);
    assert_eq!(c[..], want[..100]);
    let mut c = vec![7u32; 100];
    gemm_naive(&a, &b, &mut c, shape, 1, 36);
    assert_eq!(c, vec![7u32; 100]);
    gemm_naive(&a, &b, &mut c, shape, 1, 35);
    assert_eq!(c[99], want[99]);
    // a C that has more rows than the product
    let mut c = vec![7u32; 65 * 64];
    gemm_naive(&a, &b, &mut c, shape, 64, 0);
    assert_eq!(c, vec![7u32; 65 * 64]);
}

#[test]
fn fetches_and_stores_of_a_thread() {
    let shape = Shape { m: 256, n: 256, k: 64 };
    // thread (tx, ty) = (3, 2), second fetch of slice 1, tile at (128, 128)
    let f = fetch_at(shape, 128, 128, 1, 2 * 16 + 3, 1);
    assert_eq!(f.cell_a, (2 + 16) * 16 + 3);
    assert_eq!(f.from_a, (128 + 2 + 16) * 64 + 16 + 3);
    assert_eq!(f.cell_b, 2 * 128 + 3 + 16);
    assert_eq!(f.from_b, (16 + 2) * 256 + 128 + 16 + 3);
    assert_eq!(store_at(shape, 128, 128, 2 * 16 + 3, 9), (128 + 16 + 1) * 256 + 128 + 24 + 1);
}

#[test]
fn boxes_are_filled_up_with_zeros() {
    let m: Vec<u32> = (1..=6).collect();
    assert_eq!(copy_box(&m, 3, 2, 1, 0, 2, 2), vec![2, 3, 5, 6]);
    assert_eq!(copy_box(&m, 3, 2, 2, 1, 2, 2), vec![6, 0, 0, 0]);
}

#[test]
fn order_of_the_pipeline() {
    let mut th = PipeThread::new(true, 128, 256, 2);
    let mut trace = Vec::new();
    loop {
        let action = th.step();
        if action == PipeAction::Exit {
            break;
        }
        trace.push(action);
    }
    let want = vec![
        PipeAction::InitBarrier { buffer: 0, count: 256 },
        PipeAction::InitBarrier { buffer: 1, count: 256 },
        PipeAction::Fence,
        PipeAction::Sync,
        PipeAction::CopyA { buffer: 0, x: 0, y: 128 },
        PipeAction::CopyB { buffer: 0, x: 256, y: 0 },
        PipeAction::ArriveExpect { buffer: 0, bytes: 16384 },
        PipeAction::CopyA { buffer: 1, x: 16, y: 128 },
        PipeAction::CopyB { buffer: 1, x: 256, y: 16 },
        PipeAction::ArriveExpect { buffer: 1, bytes: 16384 },
        PipeAction::WaitArrival { buffer: 0 },
        PipeAction::Multiply { buffer: 0 },
        PipeAction::Fence,
        PipeAction::Sync,
        PipeAction::WaitArrival { buffer: 1 },
        PipeAction::Multiply { buffer: 1 },
        PipeAction::Fence,
        PipeAction::Sync,
        PipeAction::Store,
        PipeAction::Sync,
        PipeAction::InvalBarrier { buffer: 0 },
        PipeAction::InvalBarrier { buffer: 1 },
    ];
    assert_eq!(trace, want);
    let mut other = PipeThread::new(false, 128, 256, 2);
    assert_eq!(other.step(), PipeAction::Skip);
}

#[test]
fn vectors_are_added_number_by_number() {
    let (a, b) = (vec![1u32, 2, u32::MAX], vec![10u32, 20, 2]);
    let mut c = vec![0u32; 3];
    for i in 0..5 {
        vecadd(&a, &b, &mut c, i);
    }
    assert_eq!(c, vec![11, 22, 1]);
}

fn tree(v: &[f32]) -> f32 {
    if v.len() == 1 {
        return v[0];
    }
    let s = v.len() / 2;
    let w: Vec<f32> = (0..s).map(|i| v[i] + v[i + s]).collect();
    tree(&w)
}

#[test]
fn warp_reduction_leaves_the_sum_in_every_lane() {
    let mut v = [0u32; 32];
    for i in 0..32 {
        v[i] = 1 << i;
    }
    assert_eq!(warp_reduce(&v), [u32::MAX; 32]);
    let mut f = [Single(0.0); 32];
    for (i, x) in singles(32, 8).into_iter().enumerate() {
        f[i] = x;
    }
    let plain: Vec<f32> = f.iter().map(|x| x.0).collect();
    assert_eq!(warp_reduce(&f)[0].0.to_bits(), tree(&plain).to_bits());
}

#[test]
fn partial_sums_of_blocks() {
    let a = singles(1024, 9);
    let mut warp = vec![Single(1.0); 4];
    let mut rec = vec![Single(1.0); 4];
    vecsum(&a, &mut warp, 2);
    vecsum_recursive(&a, &mut rec, 2);
    let block: Vec<f32> = a[512..768].iter().map(|x| x.0).collect();
    assert_eq!(warp[2].0.to_bits(), tree(&block).to_bits());
    assert!(warp == rec);
    assert_eq!(warp[1], Single(1.0));
}

#[test]
fn atomic_sums_in_any_order() {
    let a = noise(1024, 10);
    let want = a.iter().fold(3u32, |x, y| x.wrapping_add(*y));
    let (mut v1, mut v2, mut naive) = (vec![3u32, 5], vec![3u32, 5], vec![3u32, 5]);
    for b in [2, 0, 3, 1] {
        vecsum_shared_v1(&a, &mut v1, b);
        vecsum_shared_v2(&a, &mut v2, b);
    }
    for i in (0..1024).rev() {
        vecsum_naive(&a, &mut naive, i);
    }
    assert_eq!(v1, vec![want, 5]);
    assert_eq!(v2, vec![want, 5]);
    assert_eq!(naive, vec![want, 5]);
}

#[test]
fn one_thread_adds_a_block_from_the_front() {
    let a = singles(256, 11);
    let mut out = vec![Single(0.25)];
    vecsum_shared_v1(&a, &mut out, 0);
    let sum = a.iter().fold(0.0f32, |x, y| x + y.0);
    assert_eq!(out[0].0.to_bits(), (0.25 + sum).to_bits());
}

#[test]
fn reduction_takes_passes_until_one_number_is_left() {
    for len in [256, 512, 65536, 65792, 262144] {
        let a = noise(len, 12);
        assert_eq!(reduce(&a), a.iter().fold(0u32, |x, y| x.wrapping_add(*y)));
    }
    // two blocks, then their two partial sums and zeros
    let a = singles(512, 13);
    let plain: Vec<f32> = a.iter().map(|x| x.0).collect();
    let want = tree(&plain[..256]) + tree(&plain[256..]);
    assert_eq!(reduce(&a).0.to_bits(), want.to_bits());
}

#[test]
fn padding_changes_no_sum() {
    let a = singles(512, 17);
    let mut padded = a.clone();
    padded.resize(256 * 300, Single(0.0));
    assert_eq!(reduce(&a), reduce(&padded));
    let block = singles(37, 18);
    let mut padded = block.clone();
    padded.resize(256, Single(0.0));
    assert_eq!(block_reduce(&block), block_reduce(&padded));
    padded.truncate(64);
    assert_eq!(block_reduce(&block), block_reduce(&padded));
}

#[test]
fn padding_keeps_negative_zero_equal() {
    let a = vec![Single(-0.0); 256];
    let mut padded = a.clone();
    padded.resize(512, Single(0.0));
    let (x, y) = (reduce(&a).0, reduce(&padded).0);
    assert_ne!(x.to_bits(), y.to_bits());
    assert_eq!(x, y);
}

#[test]
fn host_block_sum_is_that_of_the_kernels() {
    let a = singles(1024, 20);
    let mut out = vec![Single(0.0); 4];
    for b in 0..4 {
        vecsum(&a, &mut out, b);
        let sum = block_sum(&a[b * 256..b * 256 + 256]);
        assert_eq!(sum.0.to_bits(), out[b].0.to_bits());
    }
}

#[test]
fn whole_numbers_are_added_exactly() {
    // sizes come to 2^24
    let mut a: Vec<Single> = (0..256).map(|i| Single(((i * 37 % 256) as f32 - 128.0) * 512.0)).collect();
    a[0] = Single(0.0);
    let want: f64 = a.iter().map(|x| x.0 as f64).sum();
    assert!(a.iter().map(|x| x.0.abs() as f64).sum::<f64>() <= 16777216.0);
    assert_eq!(block_sum(&a).0 as f64, want);
    assert_eq!(block_reduce(&a).0 as f64, want);
    assert_eq!(reduce(&a).0 as f64, want);
}

#[test]
fn passes_of_a_reduction() {
    let mut plan = ReducePlan::new(1 << 24);
    let mut actions = Vec::new();
    loop {
        let action = plan.step(true);
        actions.push(action);
        if action == ReduceAction::Finish {
            break;
        }
    }
    let launch = |blocks, input| ReduceAction::Launch { config: pass_config(blocks), input };
    assert_eq!(
        actions,
        vec![
            ReduceAction::Allocate { len: 65536 },
            launch(65536, PassInput::Vector),
            ReduceAction::Allocate { len: 256 },
            launch(256, PassInput::Previous),
            ReduceAction::Allocate { len: 256 },
            launch(1, PassInput::Previous),
            ReduceAction::ReadBack,
            ReduceAction::Finish,
        ]
    );
    let mut plan = ReducePlan::new(256);
    assert_eq!(plan.step(true), ReduceAction::Allocate { len: 256 });
    assert_eq!(plan.step(true), launch(1, PassInput::Vector));
    assert_eq!(plan.step(true), ReduceAction::ReadBack);
}

#[test]
fn failure_ends_a_reduction() {
    let mut plan = ReducePlan::new(512);
    assert_eq!(plan.step(true), ReduceAction::Allocate { len: 256 });
    assert_eq!(plan.step(false), ReduceAction::Fail);
    assert_eq!(plan.step(true), ReduceAction::Fail);
}

#[test]
fn all_lanes_hear_the_same_sum() {
    let mut f = [Single(0.0); 32];
    for (i, x) in singles(32, 19).into_iter().enumerate() {
        f[i] = x;
    }
    let r = warp_reduce(&f);
    assert!(r.iter().all(|x| x.0.to_bits() == r[0].0.to_bits()));
}

#[test]
fn blocks_by_neighbours() {
    assert_eq!(block_reduce(&vec![1u32, 2, 3]), 6);
    assert_eq!(block_reduce(&Vec::<u32>::new()), 0);
    let a = noise(256, 14);
    assert_eq!(block_reduce(&a), a.iter().fold(0u32, |x, y| x.wrapping_add(*y)));
    // ((1e8 + 1) + (-1e8 + 1)) loses what 1e8 - 1e8 first keeps
    let v: Vec<Single> = vec![Single(1.0e8), Single(1.0), Single(-1.0e8), Single(1.0)];
    assert_eq!(block_reduce(&v).0, 0.0);
    assert_eq!(tree(&[1.0e8, 1.0, -1.0e8, 1.0]), 2.0);
}

#[test]
fn rounding_up_and_pass_geometry() {
    assert_eq!(round_up(0, 256), 0);
    assert_eq!(round_up(1, 256), 256);
    assert_eq!(round_up(256, 256), 256);
    assert_eq!(round_up(257, 256), 512);
    assert_eq!(round_up(10, 3), 12);
    let c = pass_config(65536);
    assert_eq!((c.grid_dim, c.block_dim, c.shared_mem_bytes), ((65536, 1, 1), (256, 1, 1), 0));
    assert_eq!(pass_config(0x1_0000_0002).grid_dim, (2, 1, 1));
}
