use slicesimd::{
    is_naive, is_simd_128, is_simd_256, is_simd_512, is_simd_64, is_x86_avx, is_x86_avx512,
    is_x86_sse, is_x86_sse3, is_x86_sse4, lane_counts, Element, TargetFeatures,
};

#[test]
fn scalar_target_is_naive() {
    let f = TargetFeatures::scalar();
    assert!(is_naive(&f));
    assert!(!is_simd_64(&f));
    assert!(!is_simd_128(&f));
    assert!(!is_simd_256(&f));
    assert!(!is_simd_512(&f));
    assert!(lane_counts::<i32>(&f).is_empty());
}

#[test]
fn full_target_offers_every_width() {
    let f = TargetFeatures::x86_full();
    assert!(!is_naive(&f));
    assert!(!is_simd_64(&f));
    assert!(is_simd_128(&f) && is_simd_256(&f) && is_simd_512(&f));
    assert!(is_x86_sse(&f) && is_x86_sse3(&f) && is_x86_sse4(&f));
    assert!(is_x86_avx(&f) && is_x86_avx512(&f));
    assert_eq!(lane_counts::<i32>(&f), vec![16, 8, 4]);
    assert_eq!(lane_counts::<u8>(&f), vec![64, 32, 16]);
    assert_eq!(lane_counts::<i64>(&f), vec![8, 4, 2]);
}

#[test]
fn features_gate_widths() {
    let mut f = TargetFeatures::x86_full();
    f.avx512bw = false;
    assert_eq!(lane_counts::<u16>(&f), vec![16, 8]);
    assert_eq!(lane_counts::<u32>(&f), vec![16, 8, 4]);
    f.avx512_intrinsics = false;
    assert!(!is_simd_512(&f));
    assert!(!is_x86_avx512(&f));
    assert_eq!(lane_counts::<u32>(&f), vec![8, 4]);
    f.avx512f = false;
    f.avx2 = false;
    assert!(is_simd_256(&f));
    assert_eq!(lane_counts::<u32>(&f), vec![4]);
    f.force_naive = true;
    assert!(is_naive(&f));
    assert!(lane_counts::<u32>(&f).is_empty());
    let g = TargetFeatures::scalar();
    assert!(is_naive(&g));
    assert!(!is_x86_sse3(&g) && !is_x86_sse4(&g) && !is_x86_avx(&g));
}

#[test]
fn wider_widths_come_with_narrower_ones() {
    let mut chain = Vec::new();
    let mut f = TargetFeatures::scalar();
    chain.push(f);
    f.x86 = true;
    f.sse = true;
    chain.push(f);
    f.sse2 = true;
    f.sse3 = true;
    f.sse4 = true;
    chain.push(f);
    f.avx = true;
    chain.push(f);
    f.avx2 = true;
    f.avx512f = true;
    chain.push(f);
    f.avx512_intrinsics = true;
    chain.push(f);
    f.avx512bw = true;
    chain.push(f);
    for g in chain {
        assert!(!is_simd_512(&g) || is_simd_256(&g));
        assert!(!is_simd_256(&g) || is_simd_128(&g));
        assert!(!is_x86_avx512(&g) || is_x86_avx(&g));
        assert!(!is_x86_avx(&g) || (is_x86_sse4(&g) && is_x86_sse3(&g) && is_x86_sse(&g)));
        assert!(!is_x86_sse3(&g) || is_x86_sse(&g));
        assert_eq!(is_naive(&g), !is_simd_128(&g));
    }
}

#[test]
fn lanes_of_a_128_bit_register() {
    assert_eq!(<u8 as Element>::lanes_128(), 16);
    assert_eq!(<i16 as Element>::lanes_128(), 8);
    assert_eq!(<u32 as Element>::lanes_128(), 4);
    assert_eq!(<i64 as Element>::lanes_128(), 2);
    assert_eq!(<i8 as Element>::zero(), 0);
}
