//! Vertical (elementwise) operations between two buffers of equal length.
//! The buffer is split into a head, a body of whole registers and a tail at
//! the widest register size; head and tail are split again at the next
//! narrower size, down to plain scalar code.
use crate::checks::{lane_counts, valid_lanes, TargetFeatures};
use crate::element::{apply, op_defined, op_result, operands_valid, Element, Op, Slice};
use crate::register::Register;
use vstd::pervasive::runtime_assert;
use vstd::prelude::*;

verus! {

/// `out` is `lhs` with `op` applied to each element, the element of `rhs` at
/// the same index on the right.
pub open spec fn applied<T: Element>(op: Op, lhs: Seq<T>, rhs: Seq<T>, out: Seq<T>) -> bool {
    &&& out.len() == lhs.len()
    &&& forall|i: int|
        0 <= i < lhs.len() ==> (#[trigger] out[i]).int_of() == op_result(op, lhs[i], rhs[i])
}

/// `out` is `lhs` with `op` applied at the indices `lo..hi`, and the same
/// elsewhere.
pub open spec fn applied_on<T: Element>(
    op: Op,
    lhs: Seq<T>,
    rhs: Seq<T>,
    out: Seq<T>,
    lo: int,
    hi: int,
) -> bool {
    &&& out.len() == lhs.len()
    &&& forall|i: int|
        lo <= i < hi ==> (#[trigger] out[i]).int_of() == op_result(op, lhs[i], rhs[i])
    &&& forall|i: int| 0 <= i < lhs.len() && !(lo <= i < hi) ==> #[trigger] out[i] == lhs[i]
}

proof fn lemma_applied_on_join<T: Element>(
    op: Op,
    s0: Seq<T>,
    rhs: Seq<T>,
    s1: Seq<T>,
    s2: Seq<T>,
    lo: int,
    mid: int,
    hi: int,
)
    requires
        0 <= lo <= mid <= hi <= s0.len(),
        applied_on(op, s0, rhs, s1, lo, mid),
        applied_on(op, s1, rhs, s2, mid, hi),
    ensures
        applied_on(op, s0, rhs, s2, lo, hi),
{
    assert forall|i: int| lo <= i < hi implies (#[trigger] s2[i]).int_of() == op_result(
        op,
        s0[i],
        rhs[i],
    ) by {
        if i < mid {
            assert(s2[i] == s1[i]);
        } else {
            assert(s1[i] == s0[i]);
        }
    }
}

/// The scalar path: `lhs[i] = lhs[i] op rhs[i]` for each `i` in `lo..hi`.
fn apply_scalar<T: Element>(lhs: &mut [T], rhs: &[T], lo: usize, hi: usize, op: Op)
    requires
        lo <= hi <= old(lhs)@.len(),
        old(lhs)@.len() == rhs@.len(),
        operands_valid(op, rhs@),
    ensures
        applied_on(op, old(lhs)@, rhs@, final(lhs)@, lo as int, hi as int),
{
    let mut i = lo;
    while i < hi
        invariant
            lo <= i <= hi <= lhs@.len(),
            lhs@.len() == rhs@.len(),
            operands_valid(op, rhs@),
            applied_on(op, old(lhs)@, rhs@, lhs@, lo as int, i as int),
        decreases hi - i,
    {
        assert(op_defined(op, rhs@[i as int]));
        let r = apply(op, lhs[i], rhs[i]);
        lhs[i] = r;
        i += 1;
    }
}

/// The register path: `count` whole registers of `w` lanes from `lo` on, each
/// loaded from both buffers, combined lane by lane and stored back.
fn apply_registers<T: Element>(
    lhs: &mut [T],
    rhs: &[T],
    lo: usize,
    count: usize,
    w: usize,
    op: Op,
)
    requires
        lo + count * w <= old(lhs)@.len(),
        old(lhs)@.len() == rhs@.len(),
        operands_valid(op, rhs@),
    ensures
        applied_on(op, old(lhs)@, rhs@, final(lhs)@, lo as int, lo + count * w),
{
    let len = lhs.len();
    let mut c: usize = 0;
    while c < count
        invariant
            c <= count,
            len == lhs@.len(),
            lo + count * w <= len,
            lhs@.len() == rhs@.len(),
            operands_valid(op, rhs@),
            applied_on(op, old(lhs)@, rhs@, lhs@, lo as int, lo + c * w),
        decreases count - c,
    {
        proof {
            assert(c * w + w <= count * w) by (nonlinear_arith)
                requires
                    c < count,
            ;
            assert((c + 1) * w == c * w + w) by (nonlinear_arith);
        }
        let start = lo + c * w;
        let ghost prev = lhs@;
        let mut a = Register::load(lhs, start, w);
        let b = Register::load(rhs, start, w);
        proof {
            assert forall|k: int| 0 <= k < b@.len() implies op_defined(op, #[trigger] b@[k]) by {
                assert(b@[k] == rhs@[start + k]);
            }
        }
        a.lanewise(&b, op);
        a.store(lhs, start);
        proof {
            assert forall|i: int| start <= i < start + w implies (#[trigger] lhs@[i]).int_of()
                == op_result(op, old(lhs)@[i], rhs@[i]) by {
                assert(lhs@[i] == a@[i - start]);
                assert(prev[i] == old(lhs)@[i]);
            }
            assert forall|i: int|
                0 <= i < lhs@.len() && !(start <= i < start + w) implies #[trigger] lhs@[i]
                == prev[i] by {
                if i < start {
                    assert(lhs@[i] == prev.subrange(0, start as int)[i]);
                } else {
                    assert(lhs@[i] == prev.subrange(start + w, prev.len() as int)[i - start - w]);
                }
            }
        }
        c += 1;
    }
}

/// Splits `lhs[lo..hi]` at register size `lanes[k]`: the head up to the
/// first index that is a multiple of the size, the body of whole registers,
/// and the tail. The body goes through registers; head and tail are split
/// again at the next narrower size, or handled by scalar code after the
/// narrowest.
fn apply_split<T: Element>(
    lhs: &mut [T],
    rhs: &[T],
    lo: usize,
    hi: usize,
    lanes: &Vec<usize>,
    k: usize,
    op: Op,
)
    requires
        lo <= hi <= old(lhs)@.len(),
        old(lhs)@.len() == rhs@.len(),
        operands_valid(op, rhs@),
        valid_lanes(lanes@),
        k <= lanes@.len(),
    ensures
        applied_on(op, old(lhs)@, rhs@, final(lhs)@, lo as int, hi as int),
    decreases lanes@.len() - k,
{
    if k >= lanes.len() {
        apply_scalar(lhs, rhs, lo, hi, op);
        return ;
    }
    let w = lanes[k];
    let skew = lo % w;
    let head_end = if skew == 0 {
        lo
    } else if hi - lo < w - skew {
        hi
    } else {
        lo + (w - skew)
    };
    let count = (hi - head_end) / w;
    proof {
        assert(count * w <= hi - head_end) by (nonlinear_arith)
            requires
                count == (hi - head_end) as int / w as int,
                w >= 2,
                head_end <= hi,
        ;
    }
    let body_end = head_end + count * w;
    let ghost s0 = lhs@;
    apply_split(lhs, rhs, lo, head_end, lanes, k + 1, op);
    let ghost s1 = lhs@;
    apply_registers(lhs, rhs, head_end, count, w, op);
    let ghost s2 = lhs@;
    apply_split(lhs, rhs, body_end, hi, lanes, k + 1, op);
    proof {
        lemma_applied_on_join(
            op,
            s0,
            rhs@,
            s1,
            s2,
            lo as int,
            head_end as int,
            body_end as int,
        );
        lemma_applied_on_join(op, s0, rhs@, s2, lhs@, lo as int, body_end as int, hi as int);
    }
}

/// Applies `op` to each element of `lhs`, the element of `rhs` at the same
/// index on the right, walking the register sizes the target offers.
/// The lengths must be equal; nothing checks it.
pub fn apply_assign_unchecked<T: Element>(
    features: &TargetFeatures,
    lhs: &mut [T],
    rhs: &[T],
    op: Op,
)
    requires
        old(lhs)@.len() == rhs@.len(),
        operands_valid(op, rhs@),
    ensures
        applied(op, old(lhs)@, rhs@, final(lhs)@),
{
    let lanes = lane_counts::<T>(features);
    let len = lhs.len();
    apply_split(lhs, rhs, 0, len, &lanes, 0, op);
}

/// Applies `op` as `apply_assign_unchecked` does where the lengths are
/// equal; otherwise leaves `lhs` as it is and returns false.
pub fn apply_assign_checked<T: Element>(
    features: &TargetFeatures,
    lhs: &mut [T],
    rhs: &[T],
    op: Op,
) -> (r: bool)
    requires
        old(lhs)@.len() == rhs@.len() ==> operands_valid(op, rhs@),
    ensures
        r == (old(lhs)@.len() == rhs@.len()),
        r ==> applied(op, old(lhs)@, rhs@, final(lhs)@),
        !r ==> final(lhs)@ == old(lhs)@,
{
    if lhs.len() != rhs.len() {
        return false;
    }
    apply_assign_unchecked(features, lhs, rhs, op);
    true
}

/// Elementwise addition of one buffer into another of the same length.
pub trait VerticalAdd<T: Element>: Slice<T> {
    /// `self[i] = self[i] + rhs[i]` for every index. The lengths
    /// must be equal; a call with unequal lengths panics before it writes
    /// anything.
    fn add_assign(&mut self, features: &TargetFeatures, rhs: &[T])
        requires
            old(self).elements().len() == rhs@.len(),
        ensures
            applied(Op::Add, old(self).elements(), rhs@, final(self).elements()),
    ;

    /// As `add_assign` where the lengths are equal; otherwise returns false
    /// and leaves the buffer as it is.
    fn add_assign_checked(&mut self, features: &TargetFeatures, rhs: &[T]) -> (r: bool)
        ensures
            r == (old(self).elements().len() == rhs@.len()),
            r ==> applied(Op::Add, old(self).elements(), rhs@, final(self).elements()),
            !r ==> final(self).elements() == old(self).elements(),
    ;

    /// As `add_assign`, with nothing checked at run time: the caller
    /// guarantees that the lengths are equal.
    fn add_assign_unchecked(&mut self, features: &TargetFeatures, rhs: &[T])
        requires
            old(self).elements().len() == rhs@.len(),
        ensures
            applied(Op::Add, old(self).elements(), rhs@, final(self).elements()),
    ;
}

impl<T: Element> VerticalAdd<T> for [T] {
    fn add_assign(&mut self, features: &TargetFeatures, rhs: &[T]) {
        let same_length = apply_assign_checked(features, self, rhs, Op::Add);
        runtime_assert(same_length);
    }

    fn add_assign_checked(&mut self, features: &TargetFeatures, rhs: &[T]) -> (r: bool) {
        apply_assign_checked(features, self, rhs, Op::Add)
    }

    fn add_assign_unchecked(&mut self, features: &TargetFeatures, rhs: &[T]) {
        apply_assign_unchecked(features, self, rhs, Op::Add);
    }
}

/// Elementwise subtraction of one buffer into another of the same length.
pub trait VerticalSub<T: Element>: Slice<T> {
    /// `self[i] = self[i] - rhs[i]` for every index. The lengths
    /// must be equal; a call with unequal lengths panics before it writes
    /// anything.
    fn sub_assign(&mut self, features: &TargetFeatures, rhs: &[T])
        requires
            old(self).elements().len() == rhs@.len(),
        ensures
            applied(Op::Sub, old(self).elements(), rhs@, final(self).elements()),
    ;

    /// As `sub_assign` where the lengths are equal; otherwise returns false
    /// and leaves the buffer as it is.
    fn sub_assign_checked(&mut self, features: &TargetFeatures, rhs: &[T]) -> (r: bool)
        ensures
            r == (old(self).elements().len() == rhs@.len()),
            r ==> applied(Op::Sub, old(self).elements(), rhs@, final(self).elements()),
            !r ==> final(self).elements() == old(self).elements(),
    ;

    /// As `sub_assign`, with nothing checked at run time: the caller
    /// guarantees that the lengths are equal.
    fn sub_assign_unchecked(&mut self, features: &TargetFeatures, rhs: &[T])
        requires
            old(self).elements().len() == rhs@.len(),
        ensures
            applied(Op::Sub, old(self).elements(), rhs@, final(self).elements()),
    ;
}

impl<T: Element> VerticalSub<T> for [T] {
    fn sub_assign(&mut self, features: &TargetFeatures, rhs: &[T]) {
        let same_length = apply_assign_checked(features, self, rhs, Op::Sub);
        runtime_assert(same_length);
    }

    fn sub_assign_checked(&mut self, features: &TargetFeatures, rhs: &[T]) -> (r: bool) {
        apply_assign_checked(features, self, rhs, Op::Sub)
    }

    fn sub_assign_unchecked(&mut self, features: &TargetFeatures, rhs: &[T]) {
        apply_assign_unchecked(features, self, rhs, Op::Sub);
    }
}

/// Elementwise multiplication of one buffer into another of the same length.
pub trait VerticalMul<T: Element>: Slice<T> {
    /// `self[i] = self[i] * rhs[i]` for every index. The lengths
    /// must be equal; a call with unequal lengths panics before it writes
    /// anything.
    fn mul_assign(&mut self, features: &TargetFeatures, rhs: &[T])
        requires
            old(self).elements().len() == rhs@.len(),
        ensures
            applied(Op::Mul, old(self).elements(), rhs@, final(self).elements()),
    ;

    /// As `mul_assign` where the lengths are equal; otherwise returns false
    /// and leaves the buffer as it is.
    fn mul_assign_checked(&mut self, features: &TargetFeatures, rhs: &[T]) -> (r: bool)
        ensures
            r == (old(self).elements().len() == rhs@.len()),
            r ==> applied(Op::Mul, old(self).elements(), rhs@, final(self).elements()),
            !r ==> final(self).elements() == old(self).elements(),
    ;

    /// As `mul_assign`, with nothing checked at run time: the caller
    /// guarantees that the lengths are equal.
    fn mul_assign_unchecked(&mut self, features: &TargetFeatures, rhs: &[T])
        requires
            old(self).elements().len() == rhs@.len(),
        ensures
            applied(Op::Mul, old(self).elements(), rhs@, final(self).elements()),
    ;
}

impl<T: Element> VerticalMul<T> for [T] {
    fn mul_assign(&mut self, features: &TargetFeatures, rhs: &[T]) {
        let same_length = apply_assign_checked(features, self, rhs, Op::Mul);
        runtime_assert(same_length);
    }

    fn mul_assign_checked(&mut self, features: &TargetFeatures, rhs: &[T]) -> (r: bool) {
        apply_assign_checked(features, self, rhs, Op::Mul)
    }

    fn mul_assign_unchecked(&mut self, features: &TargetFeatures, rhs: &[T]) {
        apply_assign_unchecked(features, self, rhs, Op::Mul);
    }
}

/// Elementwise division of one buffer into another of the same length.
pub trait VerticalDiv<T: Element>: Slice<T> {
    /// `self[i] = self[i] / rhs[i]` for every index. The lengths
    /// must be equal; a call with unequal lengths panics before it writes
    /// anything. No element of `rhs` may be zero.
    fn div_assign(&mut self, features: &TargetFeatures, rhs: &[T])
        requires
            old(self).elements().len() == rhs@.len(),
            operands_valid(Op::Div, rhs@),
        ensures
            applied(Op::Div, old(self).elements(), rhs@, final(self).elements()),
    ;

    /// As `div_assign` where the lengths are equal; otherwise returns false
    /// and leaves the buffer as it is.
    fn div_assign_checked(&mut self, features: &TargetFeatures, rhs: &[T]) -> (r: bool)
        requires
            old(self).elements().len() == rhs@.len() ==> operands_valid(Op::Div, rhs@),
        ensures
            r == (old(self).elements().len() == rhs@.len()),
            r ==> applied(Op::Div, old(self).elements(), rhs@, final(self).elements()),
            !r ==> final(self).elements() == old(self).elements(),
    ;

    /// As `div_assign`, with nothing checked at run time: the caller
    /// guarantees that the lengths are equal.
    fn div_assign_unchecked(&mut self, features: &TargetFeatures, rhs: &[T])
        requires
            old(self).elements().len() == rhs@.len(),
            operands_valid(Op::Div, rhs@),
        ensures
            applied(Op::Div, old(self).elements(), rhs@, final(self).elements()),
    ;
}

impl<T: Element> VerticalDiv<T> for [T] {
    fn div_assign(&mut self, features: &TargetFeatures, rhs: &[T]) {
        let same_length = apply_assign_checked(features, self, rhs, Op::Div);
        runtime_assert(same_length);
    }

    fn div_assign_checked(&mut self, features: &TargetFeatures, rhs: &[T]) -> (r: bool) {
        apply_assign_checked(features, self, rhs, Op::Div)
    }

    fn div_assign_unchecked(&mut self, features: &TargetFeatures, rhs: &[T]) {
        apply_assign_unchecked(features, self, rhs, Op::Div);
    }
}

} // verus!
