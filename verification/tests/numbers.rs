//! Bit patterns of numbers, and reproducible input.
use oxide_kernels::bf16::{from_packed_bf16, to_bf16, Bf16, F32};
use oxide_kernels::uniform::uniform_vec;

#[test]
fn rounding_agrees_with_half() {
    let lowers = [0u32, 1, 0x7FFF, 0x8000, 0x8001, 0xFFFF];
    let mut v = Vec::new();
    for upper in 0..=0xFFFFu32 {
        for lower in lowers {
            v.push(F32 { bits: upper << 16 | lower });
        }
    }
    let r = to_bf16(&v);
    assert_eq!(r.len(), v.len());
    for i in 0..v.len() {
        assert_eq!(r[i].bits, half::bf16::from_f32(f32::from_bits(v[i].bits)).to_bits());
    }
}

#[test]
fn rounding_is_to_the_nearest_even() {
    let cases = [
        (0x3F80_0000u32, 0x3F80u16),
        (0x3F80_8000, 0x3F80),
        (0x3F81_8000, 0x3F82),
        (0x3F80_8001, 0x3F81),
        (0x7F7F_FFFF, 0x7F80),
        (0xFF80_0000, 0xFF80),
        (0x7F80_0001, 0x7FC0),
        (0x8000_0000, 0x8000),
    ];
    for (bits, want) in cases {
        assert_eq!(to_bf16(&vec![F32 { bits }]), vec![Bf16 { bits: want }]);
    }
}

#[test]
fn unpacking_takes_the_lower_half_first() {
    assert_eq!(
        from_packed_bf16(&vec![0x4000_3F80, 0xFF81_0001]),
        vec![
            F32 { bits: 0x3F80_0000 },
            F32 { bits: 0x4000_0000 },
            F32 { bits: 0x0001_0000 },
            F32 { bits: 0xFFC1_0000 },
        ]
    );
    assert!(from_packed_bf16(&Vec::new()).is_empty());
    for h in 0..=0xFFFFu32 {
        let r = from_packed_bf16(&vec![h]);
        assert_eq!(r[0].bits, half::bf16::from_bits(h as u16).to_f32().to_bits());
        assert_eq!(r[1].bits, 0);
    }
}

#[test]
fn rounding_undoes_unpacking() {
    for h in 0..=0xFFFFu32 {
        let back = to_bf16(&from_packed_bf16(&vec![h << 16]));
        let nan = h & 0x7FFF > 0x7F80;
        assert_eq!(back[1].bits as u32, if nan { h | 0x40 } else { h });
    }
}

fn reference(n: usize, seed: u64) -> Vec<f32> {
    let mut state = seed;
    (0..n)
        .map(|_| {
            state = state.wrapping_add(0x9E3779B97F4A7C15);
            let mut z = state;
            z = (z ^ (z >> 30)).wrapping_mul(0xBF58476D1CE4E5B9);
            z = (z ^ (z >> 27)).wrapping_mul(0x94D049BB133111EB);
            z ^= z >> 31;
            let unit = (z >> 40) as f32 / (1u32 << 24) as f32;
            unit * 2.0 - 1.0
        })
        .collect()
}

#[test]
fn draws_are_exact_and_in_range() {
    for seed in [0, 1, 2, u64::MAX] {
        let v = uniform_vec(100_000, seed);
        let want = reference(100_000, seed);
        for (x, y) in v.iter().zip(&want) {
            assert_eq!(x.bits, y.to_bits());
            assert!(*y >= -1.0 && *y < 1.0);
        }
    }
    assert!(uniform_vec(0, 5).is_empty());
}

#[test]
fn first_draw_of_seed_zero() {
    // the first output of splitmix64 from zero is 0xE220A8397B1DCDAF
    let want = (0xE220A8u32 as f32 / 16777216.0) * 2.0 - 1.0;
    assert_eq!(uniform_vec(1, 0)[0].bits, want.to_bits());
}

#[test]
fn draws_are_reproducible() {
    let a = uniform_vec(1000, 42);
    let b = uniform_vec(2000, 42);
    assert_eq!(a[..], b[..1000]);
    assert_ne!(a, uniform_vec(1000, 43));
}
