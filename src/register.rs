//! A vector register: a run of lanes loaded from a buffer, worked on as a
//! unit, and stored back or reduced. A register never outlives the operation
//! that loads it.
use crate::checks::is_pow2;
use crate::element::{apply, op_defined, op_result, operands_valid, wrap, Element, Op};
use crate::horizontal::{
    congruent, lemma_congruent_add, lemma_sum_extend, lemma_sum_split, lemma_value_wraps_to_itself,
    lemma_wrap_idempotent, sum_of,
};
use vstd::prelude::*;

verus! {

pub(crate) struct Register<T> {
    lanes: Vec<T>,
}

impl<T> View for Register<T> {
    type V = Seq<T>;

    closed spec fn view(&self) -> Seq<T> {
        self.lanes@
    }
}

impl<T: Element> Register<T> {
    /// Loads the `n` lanes `src[start..start + n]`.
    pub(crate) fn load(src: &[T], start: usize, n: usize) -> (r: Register<T>)
        requires
            start + n <= src@.len(),
        ensures
            r@ == src@.subrange(start as int, start + n),
    {
        let len = src.len();
        let mut lanes: Vec<T> = Vec::with_capacity(n);
        let mut i: usize = 0;
        while i < n
            invariant
                i <= n,
                start + n <= len,
                len == src@.len(),
                lanes@ =~= src@.subrange(start as int, start + i),
            decreases n - i,
        {
            lanes.push(src[start + i]);
            i += 1;
        }
        Register { lanes }
    }

    /// Applies `op` lane by lane, with the lanes of `rhs` on the right.
    pub(crate) fn lanewise(&mut self, rhs: &Register<T>, op: Op)
        requires
            old(self)@.len() == rhs@.len(),
            operands_valid(op, rhs@),
        ensures
            final(self)@.len() == old(self)@.len(),
            forall|i: int|
                0 <= i < old(self)@.len() ==> (#[trigger] final(self)@[i]).int_of() == op_result(
                    op,
                    old(self)@[i],
                    rhs@[i],
                ),
    {
        let n = self.lanes.len();
        let mut i: usize = 0;
        while i < n
            invariant
                i <= n,
                n == self@.len(),
                self@.len() == old(self)@.len(),
                self@.len() == rhs@.len(),
                operands_valid(op, rhs@),
                forall|k: int| i <= k < n ==> self@[k] == old(self)@[k],
                forall|k: int|
                    0 <= k < i ==> (#[trigger] self@[k]).int_of() == op_result(
                        op,
                        old(self)@[k],
                        rhs@[k],
                    ),
            decreases n - i,
        {
            let b = rhs.lanes[i];
            assert(op_defined(op, rhs@[i as int]));
            let r = apply(op, self.lanes[i], b);
            self.lanes.set(i, r);
            i += 1;
        }
    }

    /// Stores the lanes into `dst[start..start + n]`.
    pub(crate) fn store(&self, dst: &mut [T], start: usize)
        requires
            start + self@.len() <= old(dst)@.len(),
        ensures
            final(dst)@ == old(dst)@.subrange(0, start as int) + self@ + old(dst)@.subrange(
                start + self@.len(),
                old(dst)@.len() as int,
            ),
    {
        let n = self.lanes.len();
        let len = dst.len();
        let mut i: usize = 0;
        while i < n
            invariant
                i <= n,
                n == self@.len(),
                len == dst@.len(),
                len == old(dst)@.len(),
                start + n <= len,
                forall|k: int| 0 <= k < start ==> dst@[k] == old(dst)@[k],
                forall|k: int| start + n <= k < len ==> dst@[k] == old(dst)@[k],
                forall|k: int| start <= k < start + i ==> dst@[k] == self@[k - start],
            decreases n - i,
        {
            dst[start + i] = self.lanes[i];
            i += 1;
        }
        assert(dst@ =~= old(dst)@.subrange(0, start as int) + self@ + old(dst)@.subrange(
            start + self@.len(),
            old(dst)@.len() as int,
        ));
    }

    /// Reduces the register to the sum of its lanes: at each step every lane
    /// of the low half takes in its partner of the high half, until one lane
    /// is left.
    pub(crate) fn reduce_add(self) -> (r: T)
        requires
            is_pow2(self@.len()),
        ensures
            r.int_of() == wrap::<T>(sum_of(self@)),
    {
        let ghost lanes = self@;
        let n = self.lanes.len();
        let mut reg = self.lanes;
        assert(reg@.subrange(0, n as int) =~= lanes);
        let mut width: usize = n;
        while width > 1
            invariant
                1 <= width <= n,
                reg@.len() == n,
                is_pow2(width as nat),
                congruent::<T>(sum_of(reg@.subrange(0, width as int)), sum_of(lanes)),
            decreases width,
        {
            let half = width / 2;
            let ghost before = reg@;
            let mut j: usize = 0;
            while j < half
                invariant
                    half * 2 == width,
                    width <= n,
                    j <= half,
                    reg@.len() == n,
                    before.len() == n,
                    forall|k: int| j <= k < n ==> reg@[k] == before[k],
                    congruent::<T>(
                        sum_of(reg@.subrange(0, j as int)),
                        sum_of(before.subrange(0, j as int)) + sum_of(
                            before.subrange(half as int, half + j),
                        ),
                    ),
                decreases half - j,
            {
                let a = reg[j];
                let b = reg[j + half];
                let s = a.lane_add(b);
                let ghost prev = reg@;
                reg.set(j, s);
                proof {
                    lemma_sum_extend(reg@, 0, j + 1);
                    assert(reg@.subrange(0, j as int) =~= prev.subrange(0, j as int));
                    lemma_sum_extend(before, 0, j + 1);
                    lemma_sum_extend(before, half as int, half + j + 1);
                    lemma_value_wraps_to_itself(s);
                    lemma_wrap_idempotent::<T>(a.int_of() + b.int_of());
                    lemma_congruent_add::<T>(
                        sum_of(prev.subrange(0, j as int)),
                        sum_of(before.subrange(0, j as int)) + sum_of(
                            before.subrange(half as int, half + j),
                        ),
                        s.int_of(),
                        a.int_of() + b.int_of(),
                    );
                }
                j += 1;
            }
            proof {
                lemma_sum_split(before, 0, half as int, width as int);
            }
            width = half;
        }
        proof {
            lemma_sum_extend(reg@, 0, 1);
            assert(reg@.subrange(0, 0) =~= Seq::<T>::empty());
            lemma_value_wraps_to_itself(reg@[0]);
        }
        reg[0]
    }
}

} // verus!
