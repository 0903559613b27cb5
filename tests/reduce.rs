use slicesimd::{
    reduce_add, reduce_add_in_place, reduce_add_in_space, reduce_add_iter, ComputeSpace,
    HorizontalSlice, TargetFeatures,
};

fn targets() -> Vec<TargetFeatures> {
    let scalar = TargetFeatures::scalar();
    let full = TargetFeatures::x86_full();
    let mut sse2_only = TargetFeatures::scalar();
    sse2_only.x86 = true;
    sse2_only.sse = true;
    sse2_only.sse2 = true;
    let mut avx2 = sse2_only;
    avx2.sse3 = true;
    avx2.sse4 = true;
    avx2.avx = true;
    avx2.avx2 = true;
    let mut forced = full;
    forced.force_naive = true;
    let mut no_bw = full;
    no_bw.avx512bw = false;
    vec![scalar, sse2_only, avx2, full, forced, no_bw]
}

/// Pseudo-random values from a fixed seed.
fn values_i32(n: usize, seed: u64) -> Vec<i32> {
    let mut state = seed;
    let mut out = Vec::with_capacity(n);
    for _ in 0..n {
        state = state
            .wrapping_mul(6364136223846793005)
            .wrapping_add(1442695040888963407);
        out.push((state >> 32) as i32);
    }
    out
}

fn naive_i32(v: &[i32]) -> i32 {
    v.iter().fold(0i32, |a, b| a.wrapping_add(*b))
}

fn naive_u8(v: &[u8]) -> u8 {
    v.iter().fold(0u8, |a, b| a.wrapping_add(*b))
}

#[test]
fn test_slice() {
    let v = vec![1, 2, 3, 4];
    assert_eq!(reduce_add_iter(&TargetFeatures::x86_full(), v), 10);
}

#[test]
fn concrete_five_integers() {
    for f in targets() {
        let values = [1, 2, 3, 4, 5];
        assert_eq!(values[..].reduce_add(&f), 15);
        let mut buf = [1, 2, 3, 4, 5];
        let sum = buf[..].reduce_add_in_place(&f);
        assert_eq!(sum, 15);
        assert_eq!(buf[0], 15);
    }
}

#[test]
fn empty_and_single() {
    for f in targets() {
        let empty: [i64; 0] = [];
        assert_eq!(reduce_add(&f, &empty), 0);
        let mut empty_mut: [i64; 0] = [];
        assert_eq!(reduce_add_in_place(&f, &mut empty_mut), 0);
        assert_eq!(reduce_add(&f, &[-42i64]), -42);
        let mut one = [i16::MIN];
        assert_eq!(reduce_add_in_place(&f, &mut one), i16::MIN);
        assert_eq!(one[0], i16::MIN);
    }
}

#[test]
fn random_buffers_match_naive_sum() {
    for f in targets() {
        for (n, seed) in [(0usize, 1u64), (2, 2), (3, 3), (4, 4), (5, 5), (10_000, 6), (120_315, 7)] {
            let v = values_i32(n, seed);
            let expected = naive_i32(&v);
            assert_eq!(reduce_add(&f, &v), expected, "len {}", n);
            let mut space = vec![0i32; n];
            assert_eq!(reduce_add_in_space(&f, &v, &mut space), expected, "len {}", n);
            let mut copy = v.clone();
            assert_eq!(reduce_add_in_place(&f, &mut copy), expected, "len {}", n);
            if n > 0 {
                assert_eq!(copy[0], expected);
            }
        }
    }
}

#[test]
fn integer_sums_wrap() {
    let f = TargetFeatures::x86_full();
    assert_eq!(reduce_add(&f, &[200u8, 100]), 44);
    assert_eq!(reduce_add(&f, &[i32::MAX, 1]), i32::MIN);
    assert_eq!(reduce_add(&f, &[u64::MAX, u64::MAX, 2]), 0);
    let v = vec![255u8; 1000];
    assert_eq!(reduce_add(&f, &v), naive_u8(&v));
    assert_eq!(reduce_add(&f, &v), 24);
}

#[test]
fn in_place_first_slot_matches_in_space() {
    for f in targets() {
        let original = values_i32(1037, 11);
        let mut space = vec![7i32; original.len() + 3];
        let spaced = original[..].reduce_add_in_space(&f, &mut space);
        let mut buf = original.clone();
        buf[..].reduce_add_in_place(&f);
        assert_eq!(buf[0], spaced);
    }
}

#[test]
fn scratch_agrees_with_own_storage() {
    for f in targets() {
        for n in [1usize, 17, 64, 65, 999] {
            let v = values_i32(n, n as u64);
            let mut space = vec![-1i32; n];
            assert_eq!(reduce_add(&f, &v), reduce_add_in_space(&f, &v, &mut space));
        }
    }
}

#[test]
fn width_boundaries_i32() {
    for f in targets() {
        for width in [4usize, 8, 16] {
            let v = values_i32(width + 1, width as u64);
            let below = reduce_add(&f, &v[..width - 1]);
            let at = reduce_add(&f, &v[..width]);
            let above = reduce_add(&f, &v[..width + 1]);
            assert_eq!(at, below.wrapping_add(v[width - 1]));
            assert_eq!(above, at.wrapping_add(v[width]));
            assert_eq!(above, naive_i32(&v));
        }
    }
}

#[test]
fn width_boundaries_u8() {
    for f in targets() {
        for width in [16usize, 32, 64] {
            let v: Vec<u8> = (0..(2 * width + 1)).map(|i| (i * 37 + 11) as u8).collect();
            for n in [width - 1, width, width + 1, 2 * width, 2 * width + 1] {
                assert_eq!(reduce_add(&f, &v[..n]), naive_u8(&v[..n]), "len {}", n);
            }
        }
    }
}

#[test]
fn sixty_four_bit_lanes() {
    let f = TargetFeatures::x86_full();
    for n in [2usize, 3, 5, 8, 9, 33] {
        let v: Vec<u64> = (0..n as u64).map(|i| i * 1_000_000_007).collect();
        let expected = v.iter().fold(0u64, |a, b| a.wrapping_add(*b));
        assert_eq!(reduce_add(&f, &v), expected);
    }
}

#[test]
fn compute_space_is_reused() {
    let f = TargetFeatures::x86_full();
    let mut space = ComputeSpace::new();
    let big = values_i32(5000, 3);
    let small = values_i32(10, 4);
    assert_eq!(space.reduce_add(&f, &big), naive_i32(&big));
    assert_eq!(space.reduce_add(&f, &small), naive_i32(&small));
    assert_eq!(space.reduce_add(&f, &big), naive_i32(&big));
}
