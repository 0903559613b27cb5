use slicesimd::{
    apply, apply_assign_checked, apply_assign_unchecked, Op, TargetFeatures, VerticalAdd,
    VerticalDiv, VerticalMul, VerticalSub,
};

fn targets() -> Vec<TargetFeatures> {
    let mut sse2_only = TargetFeatures::scalar();
    sse2_only.x86 = true;
    sse2_only.sse = true;
    sse2_only.sse2 = true;
    let mut avx2 = sse2_only;
    avx2.sse3 = true;
    avx2.sse4 = true;
    avx2.avx = true;
    avx2.avx2 = true;
    vec![TargetFeatures::scalar(), sse2_only, avx2, TargetFeatures::x86_full()]
}

#[test]
fn concrete_add_scenario() {
    for f in targets() {
        let mut lhs = [1, 2, 3, 4, 5];
        let rhs = [6, 7, 8, 9, 10];
        lhs[..].add_assign(&f, &rhs);
        assert_eq!(lhs, [7, 9, 11, 13, 15]);
    }
}

#[test]
fn add_matches_elementwise_on_every_length() {
    for f in targets() {
        for n in 0usize..70 {
            let original: Vec<i16> = (0..n).map(|i| (i as i16) * 977 - 20_000).collect();
            let rhs: Vec<i16> = (0..n).map(|i| 30_000 - (i as i16) * 311).collect();
            let mut lhs = original.clone();
            lhs[..].add_assign(&f, &rhs);
            for i in 0..n {
                assert_eq!(lhs[i], original[i].wrapping_add(rhs[i]));
            }
        }
    }
}

#[test]
fn sub_and_mul_wrap() {
    for f in targets() {
        let mut a: Vec<u8> = (0..40u8).collect();
        let b: Vec<u8> = (0..40u8).map(|i| i.wrapping_mul(7).wrapping_add(3)).collect();
        let expected: Vec<u8> = a.iter().zip(&b).map(|(x, y)| x.wrapping_sub(*y)).collect();
        a[..].sub_assign(&f, &b);
        assert_eq!(a, expected);

        let mut c: Vec<i32> = (0..33).map(|i| i * 100_003 - 7).collect();
        let d: Vec<i32> = (0..33).map(|i| i * 65_537 + 1).collect();
        let expected: Vec<i32> = c.iter().zip(&d).map(|(x, y)| x.wrapping_mul(*y)).collect();
        c[..].mul_assign(&f, &d);
        assert_eq!(c, expected);
    }
}

#[test]
fn division_truncates_and_wraps() {
    for f in targets() {
        let mut a = [i8::MIN, 7, -7, 7, -7, 100];
        let b = [-1i8, 2, 2, -2, -2, 3];
        a[..].div_assign(&f, &b);
        assert_eq!(a, [i8::MIN, 3, -3, -3, 3, 33]);

        let mut c = [u64::MAX, 10, 9];
        let d = [2u64, 3, 10];
        c[..].div_assign(&f, &d);
        assert_eq!(c, [u64::MAX / 2, 3, 0]);
    }
}

#[test]
fn mismatched_lengths_are_refused() {
    let f = TargetFeatures::x86_full();
    let mut lhs = [1u32, 2, 3];
    let rhs = [1u32, 1];
    assert!(!lhs[..].add_assign_checked(&f, &rhs));
    assert_eq!(lhs, [1, 2, 3]);
    assert!(!lhs[..].sub_assign_checked(&f, &rhs));
    assert!(!lhs[..].mul_assign_checked(&f, &rhs));
    assert!(!lhs[..].div_assign_checked(&f, &rhs));
    assert!(!apply_assign_checked(&f, &mut lhs, &[1u32, 2, 3, 4], Op::Add));
    assert_eq!(lhs, [1, 2, 3]);
}

#[test]
fn checked_and_unchecked_agree() {
    let f = TargetFeatures::x86_full();
    let rhs: Vec<i64> = (0..21).map(|i| i * i - 50).collect();
    let mut a: Vec<i64> = (0..21).map(|i| i * 1_000_000_000_000).collect();
    let mut b = a.clone();
    assert!(a[..].add_assign_checked(&f, &rhs));
    b[..].add_assign_unchecked(&f, &rhs);
    assert_eq!(a, b);
    let mut c: Vec<i64> = (0..21).map(|i| i * 1_000_000_000_000).collect();
    apply_assign_unchecked(&f, &mut c, &rhs, Op::Add);
    assert_eq!(a, c);
}

#[test]
fn apply_gives_each_operation() {
    assert_eq!(apply(Op::Add, 250u8, 10), 4);
    assert_eq!(apply(Op::Sub, 3u16, 5), u16::MAX - 1);
    assert_eq!(apply(Op::Mul, i32::MAX, 2), -2);
    assert_eq!(apply(Op::Div, -9i64, 4), -2);
    assert_eq!(apply(Op::Div, i16::MIN, -1), i16::MIN);
}
