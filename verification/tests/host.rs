//! Launches, tensor maps, timing and figures.
use oxide_kernels::dims::tile_of;
use oxide_kernels::epilogue::{copy_out, copy_out_flat, drain, CopyOut, Drain};
use oxide_kernels::host::{
    entry_place, flops, launch, matmul, min_traffic, mismatches, plane_config, Gemm, Kernel,
};
use oxide_kernels::setup::{GemmSetup, SetupAction};
use oxide_kernels::tensor_map::{
    create_tma_descriptor, create_tma_descriptor_f32, encoded, DataType, EncodeError,
    Interleave, L2Promotion, OobFill, Swizzle,
};
use oxide_kernels::timing::{time_gpu_iters, Timing, TimingAction};

#[test]
fn launch_geometry() {
    let c = launch();
    assert_eq!((c.grid_dim, c.block_dim, c.shared_mem_bytes), ((4096, 1, 1), (192, 1, 1), 0));
    let c = plane_config((256, 128), (32, 16));
    assert_eq!((c.grid_dim, c.block_dim, c.shared_mem_bytes), ((256, 128, 1), (32, 16, 1), 0));
}

#[test]
fn maps_of_matrices() {
    let m = create_tma_descriptor(0x1000, 8192, 4096, 64, 128);
    assert_eq!(m.data_type, DataType::BFloat16);
    assert_eq!(m.swizzle, Swizzle::Bytes128);
    assert_eq!(m.rank, 2);
    assert_eq!(m.global_address, 0x1000);
    assert_eq!(m.global_dim, [8192, 4096]);
    assert_eq!(m.global_strides, [16384]);
    assert_eq!(m.box_dim, [64, 128]);
    assert_eq!(m.element_strides, [1, 1]);
    assert_eq!(m.interleave, Interleave::Off);
    assert_eq!(m.l2_promotion, L2Promotion::Off);
    assert_eq!(m.oob_fill, OobFill::Zeros);
    let m = create_tma_descriptor_f32(0x2000, 8192, 4096, 128, 16);
    assert_eq!(m.data_type, DataType::Float32);
    assert_eq!(m.swizzle, Swizzle::Plain);
    assert_eq!(m.global_strides, [32768]);
    assert_eq!(m.box_dim, [128, 16]);
    assert_eq!(m.interleave, Interleave::Off);
    assert_eq!(m.l2_promotion, L2Promotion::Off);
    assert_eq!(m.oob_fill, OobFill::Zeros);
    let m = create_tma_descriptor_f32(0x1000, 4096, 1024, 16, 128);
    assert_eq!((m.rank, m.global_address), (2, 0x1000));
    assert_eq!((m.global_dim, m.global_strides), ([4096, 1024], [16384]));
    assert_eq!((m.box_dim, m.element_strides), ([16, 128], [1, 1]));
}

#[test]
fn answers_of_the_driver() {
    assert_eq!(encoded(DataType::BFloat16, 0), Ok(()));
    assert_eq!(
        encoded(DataType::Float32, 1),
        Err(EncodeError { data_type: DataType::Float32, code: 1 })
    );
}

#[test]
fn builds_share_maps_and_buffer() {
    let g = Gemm::new(16, 32);
    assert_eq!(g.c, 8192 * 8192 / 2);
    assert_eq!(g.a_map, create_tma_descriptor(16, 8192, 8192, 64, 128));
    assert_eq!(g.b_map, create_tma_descriptor(32, 8192, 8192, 64, 128));
    let launches =
        [g.launch(), g.launch_arith(), g.launch_match(), g.launch_branch()];
    let kernels = [Kernel::Gemm, Kernel::Arith, Kernel::Match, Kernel::Branch];
    for (l, k) in launches.iter().zip(kernels) {
        assert_eq!(l.kernel, k);
        assert_eq!(l.config, launch());
        assert_eq!((l.a_map, l.b_map, l.c_words), (g.a_map, g.b_map, g.c));
    }
    let (state, once) = matmul(16, 32);
    assert!(state == g);
    assert!(once == g.launch());
}

#[test]
fn setup_allocates_zeros_then_maps() {
    let g = Gemm::new(16, 32);
    let mut setup = GemmSetup::new(16, 32);
    let want = [
        SetupAction::AllocateZeros { words: 8192 * 8192 / 2 },
        SetupAction::EncodeA { map: g.a_map },
        SetupAction::UploadA,
        SetupAction::EncodeB { map: g.b_map },
        SetupAction::UploadB,
        SetupAction::Finish { gemm: g },
        SetupAction::Finish { gemm: g },
    ];
    for action in want {
        assert_eq!(setup.step(true), action);
    }
}

#[test]
fn failure_ends_a_setup() {
    let mut setup = GemmSetup::new(16, 32);
    setup.step(true);
    assert_eq!(setup.step(false), SetupAction::Fail);
    assert_eq!(setup.step(true), SetupAction::Fail);
}

#[test]
fn figures() {
    assert_eq!(flops(), 1_099_511_627_776);
    assert_eq!(min_traffic(), 402_653_184);
    assert_eq!(entry_place(300, 127), ((2, 0), (44, 127)));
    assert_eq!(mismatches(&vec![1, 2, 3], &vec![1, 5, 4]), 2);
    assert_eq!(mismatches(&vec![1, 2, 3], &vec![1]), 0);
    assert_eq!(mismatches(&vec![1, 2], &vec![1, 2]), 0);
}

fn trace(warmup: usize, iters: usize) -> Vec<TimingAction> {
    let mut t = Timing::new(warmup, iters);
    let mut actions = Vec::new();
    loop {
        let action = time_gpu_iters(&mut t, true);
        actions.push(action);
        if action == TimingAction::Finish {
            return actions;
        }
    }
}

#[test]
fn warmup_then_timed_launches() {
    assert_eq!(
        trace(2, 1),
        vec![
            TimingAction::Launch,
            TimingAction::Launch,
            TimingAction::Synchronize,
            TimingAction::RecordStart,
            TimingAction::Launch,
            TimingAction::RecordEnd,
            TimingAction::ReadElapsed,
            TimingAction::Finish,
        ]
    );
    assert_eq!(trace(500, 1000).len(), 1505);
}

#[test]
fn failure_ends_a_measurement() {
    let mut t = Timing::new(2, 2);
    assert_eq!(time_gpu_iters(&mut t, true), TimingAction::Launch);
    assert_eq!(time_gpu_iters(&mut t, false), TimingAction::Fail);
    assert_eq!(time_gpu_iters(&mut t, true), TimingAction::Fail);
}

#[test]
fn tiles_are_numbered_down_the_columns() {
    assert_eq!(tile_of(0), (0, 0));
    assert_eq!(tile_of(63), (63, 0));
    assert_eq!(tile_of(64), (0, 1));
    assert_eq!(tile_of(4095), (63, 63));
}

#[test]
fn addresses_of_the_epilogue() {
    // second accumulator, warp 1, lane 9, lower rows, columns from 48
    assert_eq!(
        drain(128, 1, 9, 16, 3),
        Drain {
            tmem_a: 128 + (48 << 16) + 48,
            tmem_b: 128 + (48 << 16) + 56,
            smem_lo: 49 * 256 + 96 + 16,
            smem_hi: 57 * 256 + 96 + 16,
        }
    );
    assert_eq!(
        copy_out(1, 2, 32, 65),
        CopyOut { smem_idx: 33 * 64 + 1, global_idx: (128 + 33) * 4096 + 128 + 1 }
    );
    for i in [0, 63, 64, 8191] {
        assert_eq!(copy_out_flat(3, 4, i), copy_out(3, 4, 0, i));
    }
}
