//! Horizontal reduction: the sum of every element of a buffer, computed by
//! reducing full registers with a shuffle-and-add tree and compacting the
//! partial sums into a shrinking prefix of working storage.
use crate::checks::{is_pow2, lane_counts, valid_lanes, TargetFeatures};
use crate::element::{lemma_wrap_add_left, lemma_wrap_near, wrap, Element, Slice};
use crate::register::Register;
use vstd::prelude::*;

verus! {

/// The exact integer sum of the elements.
pub open spec fn sum_of<T: Element>(s: Seq<T>) -> int
    decreases s.len(),
{
    if s.len() == 0 {
        0
    } else {
        sum_of(s.drop_last()) + s.last().int_of()
    }
}

/// The linear scalar sum: the elements added left to right with wrapping
/// addition, starting from zero.
pub open spec fn wrapping_sum<T: Element>(s: Seq<T>) -> int
    decreases s.len(),
{
    if s.len() == 0 {
        0
    } else {
        wrap::<T>(wrapping_sum(s.drop_last()) + s.last().int_of())
    }
}

/// `x` and `y` wrap to the same value of `T`.
pub open spec fn congruent<T: Element>(x: int, y: int) -> bool {
    wrap::<T>(x) == wrap::<T>(y)
}

pub proof fn lemma_wrap_idempotent<T: Element>(x: int)
    ensures
        wrap::<T>(wrap::<T>(x)) == wrap::<T>(x),
{
    lemma_wrap_add_left::<T>(x, 0);
}

pub proof fn lemma_congruent_add<T: Element>(x1: int, x2: int, y1: int, y2: int)
    requires
        congruent::<T>(x1, x2),
        congruent::<T>(y1, y2),
    ensures
        congruent::<T>(x1 + y1, x2 + y2),
{
    lemma_wrap_add_left::<T>(x1, y1);
    lemma_wrap_add_left::<T>(x2, y1);
    lemma_wrap_add_left::<T>(y1, x2);
    lemma_wrap_add_left::<T>(y2, x2);
}

pub proof fn lemma_value_wraps_to_itself<T: Element>(v: T)
    ensures
        wrap::<T>(v.int_of()) == v.int_of(),
{
    T::lemma_window();
    T::lemma_range(v);
    lemma_wrap_near(T::min_int(), T::modulus(), v.int_of(), v.int_of());
}

pub proof fn lemma_sum_concat<T: Element>(a: Seq<T>, b: Seq<T>)
    ensures
        sum_of(a + b) == sum_of(a) + sum_of(b),
    decreases b.len(),
{
    if b.len() > 0 {
        assert((a + b).drop_last() =~= a + b.drop_last());
        lemma_sum_concat(a, b.drop_last());
    } else {
        assert(a + b =~= a);
    }
}

/// Splitting a range of a sequence at `mid` splits its sum.
pub proof fn lemma_sum_split<T: Element>(s: Seq<T>, lo: int, mid: int, hi: int)
    requires
        0 <= lo <= mid <= hi <= s.len(),
    ensures
        sum_of(s.subrange(lo, hi)) == sum_of(s.subrange(lo, mid)) + sum_of(s.subrange(mid, hi)),
{
    assert(s.subrange(lo, hi) =~= s.subrange(lo, mid) + s.subrange(mid, hi));
    lemma_sum_concat(s.subrange(lo, mid), s.subrange(mid, hi));
}

/// Adding one more element at the end of a range.
pub proof fn lemma_sum_extend<T: Element>(s: Seq<T>, lo: int, hi: int)
    requires
        0 <= lo < hi <= s.len(),
    ensures
        sum_of(s.subrange(lo, hi)) == sum_of(s.subrange(lo, hi - 1)) + s[hi - 1].int_of(),
{
    assert(s.subrange(lo, hi).drop_last() =~= s.subrange(lo, hi - 1));
}

/// The linear wrapping sum is the exact sum, wrapped once.
pub proof fn lemma_wrapping_sum<T: Element>(s: Seq<T>)
    ensures
        wrapping_sum(s) == wrap::<T>(sum_of(s)),
    decreases s.len(),
{
    T::lemma_window();
    if s.len() == 0 {
        lemma_wrap_near(T::min_int(), T::modulus(), 0, 0);
    } else {
        lemma_wrapping_sum(s.drop_last());
        lemma_wrap_add_left::<T>(sum_of(s.drop_last()), s.last().int_of());
    }
}

/// Adds `v[start..end]` one element at a time.
fn linear_sum<T: Element>(v: &[T], start: usize, end: usize) -> (r: T)
    requires
        start <= end <= v@.len(),
    ensures
        r.int_of() == wrap::<T>(sum_of(v@.subrange(start as int, end as int))),
{
    let mut acc = T::zero();
    proof {
        T::lemma_window();
        lemma_wrap_near(T::min_int(), T::modulus(), 0, 0);
        assert(v@.subrange(start as int, start as int) =~= Seq::<T>::empty());
    }
    let mut i = start;
    while i < end
        invariant
            start <= i <= end <= v@.len(),
            acc.int_of() == wrap::<T>(sum_of(v@.subrange(start as int, i as int))),
        decreases end - i,
    {
        let x = v[i];
        let next = acc.lane_add(x);
        proof {
            lemma_sum_extend(v@, start as int, i + 1);
            lemma_wrap_add_left::<T>(sum_of(v@.subrange(start as int, i as int)), x.int_of());
        }
        acc = next;
        i += 1;
    }
    acc
}

/// Loads the `n` lanes `v[start..start + n]` into a register and reduces it.
fn reduce_lanes<T: Element>(v: &[T], start: usize, n: usize) -> (r: T)
    requires
        start + n <= v@.len(),
        is_pow2(n as nat),
    ensures
        r.int_of() == wrap::<T>(sum_of(v@.subrange(start as int, start + n))),
{
    Register::load(v, start, n).reduce_add()
}

/// The sizes of one compaction pass over `len` elements at `w` lanes: at
/// least one whole chunk, and a new working length below `len`.
proof fn lemma_pass_sizes(len: int, w: int, chunks: int)
    requires
        2 <= w <= len,
        chunks == len / w,
    ensures
        1 <= chunks < chunks * w <= len,
        chunks * w < len ==> chunks + 1 < len,
{
    assert(chunks * w <= len && chunks >= 1) by (nonlinear_arith)
        requires
            chunks == len / w,
            2 <= w <= len,
    ;
    assert(chunks < chunks * w) by (nonlinear_arith)
        requires
            chunks >= 1,
            w >= 2,
    ;
}

/// Chunk `i` of a pass lies within the whole chunks, past slot `i`.
proof fn lemma_chunk_bounds(i: int, w: int, chunks: int)
    requires
        0 <= i < chunks,
        w >= 2,
    ensures
        i < i * w + w <= chunks * w,
        (i + 1) * w == i * w + w,
{
    assert(i * w + w <= chunks * w && i < i * w + w) by (nonlinear_arith)
        requires
            i < chunks,
            w >= 2,
            0 <= i,
    ;
    assert((i + 1) * w == i * w + w) by (nonlinear_arith);
}

/// Slots `0..i` hold partial sums of `src[0..start]`; writing the sum of
/// `src[start..end]` into slot `i` makes slots `0..i + 1` hold partial sums
/// of `src[0..end]`.
proof fn lemma_slot_written<T: Element>(
    prev: Seq<T>,
    next: Seq<T>,
    src: Seq<T>,
    i: int,
    start: int,
    end: int,
)
    requires
        0 <= i < prev.len(),
        next == prev.update(i, next[i]),
        0 <= start <= end <= src.len(),
        next[i].int_of() == wrap::<T>(sum_of(src.subrange(start, end))),
        congruent::<T>(sum_of(prev.subrange(0, i)), sum_of(src.subrange(0, start))),
    ensures
        congruent::<T>(sum_of(next.subrange(0, i + 1)), sum_of(src.subrange(0, end))),
{
    assert(next.subrange(0, i) =~= prev.subrange(0, i));
    lemma_sum_extend(next, 0, i + 1);
    lemma_sum_split(src, 0, start, end);
    lemma_value_wraps_to_itself(next[i]);
    lemma_wrap_idempotent::<T>(sum_of(src.subrange(start, end)));
    lemma_congruent_add::<T>(
        sum_of(prev.subrange(0, i)),
        sum_of(src.subrange(0, start)),
        next[i].int_of(),
        sum_of(src.subrange(start, end)),
    );
}

/// One compaction pass at a register of `w` lanes, in place: chunk `i` of
/// `buf[0..len]` is reduced into slot `i`, the leftover tail is summed into
/// the slot after them, and the new working length is returned.
/// An empty tail takes no slot, so that every pass shortens the working
/// region, with registers of two lanes too.
fn compact_in_place<T: Element>(buf: &mut [T], len: usize, w: usize) -> (new_len: usize)
    requires
        2 <= w <= len <= old(buf)@.len(),
        is_pow2(w as nat),
    ensures
        final(buf)@.len() == old(buf)@.len(),
        1 <= new_len < len,
        congruent::<T>(
            sum_of(final(buf)@.subrange(0, new_len as int)),
            sum_of(old(buf)@.subrange(0, len as int)),
        ),
{
    let ghost orig = buf@;
    let chunks = len / w;
    proof {
        lemma_pass_sizes(len as int, w as int, chunks as int);
        assert(buf@.subrange(0, 0) =~= Seq::<T>::empty());
        assert(orig.subrange(0, 0) =~= Seq::<T>::empty());
    }
    let mut i: usize = 0;
    while i < chunks
        invariant
            2 <= w,
            is_pow2(w as nat),
            chunks * w <= len <= buf@.len(),
            buf@.len() == orig.len(),
            i <= chunks,
            forall|k: int| i * w <= k < len ==> buf@[k] == orig[k],
            congruent::<T>(
                sum_of(buf@.subrange(0, i as int)),
                sum_of(orig.subrange(0, (i * w) as int)),
            ),
        decreases chunks - i,
    {
        proof {
            lemma_chunk_bounds(i as int, w as int, chunks as int);
        }
        let start = i * w;
        let s = reduce_lanes(buf, start, w);
        let ghost prev = buf@;
        proof {
            assert(prev.subrange(start as int, start + w) =~= orig.subrange(
                start as int,
                start + w,
            ));
        }
        buf[i] = s;
        proof {
            lemma_slot_written(prev, buf@, orig, i as int, start as int, start + w);
        }
        i += 1;
    }
    let tail = chunks * w;
    if tail < len {
        let t = linear_sum(buf, tail, len);
        let ghost prev = buf@;
        proof {
            assert(prev.subrange(tail as int, len as int) =~= orig.subrange(
                tail as int,
                len as int,
            ));
        }
        buf[chunks] = t;
        proof {
            lemma_slot_written(prev, buf@, orig, chunks as int, tail as int, len as int);
        }
        chunks + 1
    } else {
        chunks
    }
}

/// One compaction pass at a register of `w` lanes from `src` into `dst`:
/// chunk `i` of `src` is reduced into `dst[i]`, and the leftover tail is
/// summed into the slot after them. Returns the number of slots written.
fn compact_into<T: Element>(src: &[T], dst: &mut [T], w: usize) -> (new_len: usize)
    requires
        2 <= w <= src@.len() <= old(dst)@.len(),
        is_pow2(w as nat),
    ensures
        final(dst)@.len() == old(dst)@.len(),
        1 <= new_len < src@.len(),
        congruent::<T>(sum_of(final(dst)@.subrange(0, new_len as int)), sum_of(src@)),
{
    let len = src.len();
    let chunks = len / w;
    proof {
        lemma_pass_sizes(len as int, w as int, chunks as int);
        assert(dst@.subrange(0, 0) =~= Seq::<T>::empty());
        assert(src@.subrange(0, 0) =~= Seq::<T>::empty());
        assert(src@.subrange(0, len as int) =~= src@);
    }
    let mut i: usize = 0;
    while i < chunks
        invariant
            2 <= w,
            is_pow2(w as nat),
            len == src@.len(),
            chunks * w <= len <= dst@.len(),
            dst@.len() == old(dst)@.len(),
            i <= chunks,
            congruent::<T>(
                sum_of(dst@.subrange(0, i as int)),
                sum_of(src@.subrange(0, (i * w) as int)),
            ),
        decreases chunks - i,
    {
        proof {
            lemma_chunk_bounds(i as int, w as int, chunks as int);
        }
        let start = i * w;
        let s = reduce_lanes(src, start, w);
        let ghost prev = dst@;
        dst[i] = s;
        proof {
            lemma_slot_written(prev, dst@, src@, i as int, start as int, start + w);
        }
        i += 1;
    }
    let tail = chunks * w;
    if tail < len {
        let t = linear_sum(src, tail, len);
        let ghost prev = dst@;
        dst[chunks] = t;
        proof {
            lemma_slot_written(prev, dst@, src@, chunks as int, tail as int, len as int);
        }
        chunks + 1
    } else {
        chunks
    }
}

/// Walks the register sizes `lanes[from..]`, widest first, compacting
/// `buf[0..len]` at each size until fewer than one register of elements is
/// left, then sums what remains and stores it in `buf[0]`.
fn cascade<T: Element>(buf: &mut [T], len: usize, lanes: &Vec<usize>, from: usize) -> (r: T)
    requires
        len <= old(buf)@.len(),
        len == 0 ==> old(buf)@.len() == 0,
        valid_lanes(lanes@),
        from <= lanes@.len(),
    ensures
        final(buf)@.len() == old(buf)@.len(),
        r.int_of() == wrap::<T>(sum_of(old(buf)@.subrange(0, len as int))),
        old(buf)@.len() > 0 ==> final(buf)@[0] == r,
{
    let ghost orig = buf@.subrange(0, len as int);
    let mut len = len;
    let mut k = from;
    while k < lanes.len()
        invariant
            len <= buf@.len(),
            len == 0 ==> buf@.len() == 0,
            buf@.len() == old(buf)@.len(),
            valid_lanes(lanes@),
            k <= lanes@.len(),
            congruent::<T>(sum_of(buf@.subrange(0, len as int)), sum_of(orig)),
        decreases lanes@.len() - k,
    {
        let w = lanes[k];
        while w <= len
            invariant
                len <= buf@.len(),
                len == 0 ==> buf@.len() == 0,
                buf@.len() == old(buf)@.len(),
                2 <= w <= 64,
                is_pow2(w as nat),
                congruent::<T>(sum_of(buf@.subrange(0, len as int)), sum_of(orig)),
            decreases len,
        {
            len = compact_in_place(buf, len, w);
        }
        k += 1;
    }
    let r = linear_sum(buf, 0, len);
    if len > 0 {
        buf[0] = r;
    }
    proof {
        lemma_wrap_idempotent::<T>(sum_of(orig));
    }
    r
}

/// Adds up every element of `items`, using `items` itself as working storage.
/// The sum is also left in `items[0]`; the other elements are left with
/// values that nothing specifies. Integers add with wrapping.
pub fn reduce_add_in_place<T: Element>(features: &TargetFeatures, items: &mut [T]) -> (r: T)
    ensures
        r.int_of() == wrapping_sum(old(items)@),
        final(items)@.len() == old(items)@.len(),
        old(items)@.len() > 0 ==> final(items)@[0] == r,
{
    let lanes = lane_counts::<T>(features);
    let len = items.len();
    proof {
        assert(items@.subrange(0, len as int) =~= items@);
        lemma_wrapping_sum(items@);
    }
    cascade(items, len, &lanes, 0)
}

/// Adds up every element of `items`, using `space` as working storage. The
/// former contents of `space` are never read. Integers add with wrapping.
pub fn reduce_add_in_space<T: Element>(
    features: &TargetFeatures,
    items: &[T],
    space: &mut [T],
) -> (r: T)
    requires
        old(space)@.len() >= items@.len(),
    ensures
        r.int_of() == wrapping_sum(items@),
        final(space)@.len() == old(space)@.len(),
{
    let lanes = lane_counts::<T>(features);
    let len = items.len();
    proof {
        lemma_wrapping_sum(items@);
        assert(items@.subrange(0, len as int) =~= items@);
    }
    let mut k: usize = 0;
    while k < lanes.len()
        invariant
            valid_lanes(lanes@),
            k <= lanes@.len(),
            len == items@.len(),
            space@.len() >= len,
            space@.len() == old(space)@.len(),
        decreases lanes@.len() - k,
    {
        let w = lanes[k];
        if w <= len {
            let new_len = compact_into(items, space, w);
            let r = cascade(space, new_len, &lanes, k);
            proof {
                lemma_wrapping_sum(items@);
            }
            return r;
        }
        k += 1;
    }
    proof {
        lemma_wrapping_sum(items@);
    }
    linear_sum(items, 0, len)
}

/// Working storage that reductions reuse from call to call. It only grows;
/// its contents are never read before they are written.
pub struct ComputeSpace<T> {
    space: Vec<T>,
}

impl<T: Element> ComputeSpace<T> {
    /// Empty working storage: the first reduction allocates it.
    pub fn new() -> (r: ComputeSpace<T>)
        ensures
            r.capacity() == 0,
    {
        ComputeSpace { space: Vec::new() }
    }

    /// How many elements the storage holds now.
    pub closed spec fn capacity(&self) -> nat {
        self.space@.len()
    }

    /// Adds up every element of `items`, growing the storage first where it
    /// is shorter than `items`. Integers add with wrapping.
    pub fn reduce_add(&mut self, features: &TargetFeatures, items: &[T]) -> (r: T)
        ensures
            r.int_of() == wrapping_sum(items@),
            final(self).capacity() == if old(self).capacity() >= items@.len() {
                old(self).capacity()
            } else {
                items@.len()
            },
    {
        let zero = T::zero();
        while self.space.len() < items.len()
            invariant
                old(self).space@.len() <= self.space@.len(),
                old(self).space@.len() < items@.len() ==> self.space@.len() <= items@.len(),
                old(self).space@.len() >= items@.len() ==> self.space@ == old(self).space@,
            decreases items@.len() - self.space@.len(),
        {
            self.space.push(zero);
        }
        reduce_add_in_space(features, items, self.space.as_mut_slice())
    }
}

/// Adds up every element of `items` without changing it, with working
/// storage of its own. Integers add with wrapping.
pub fn reduce_add<T: Element>(features: &TargetFeatures, items: &[T]) -> (r: T)
    ensures
        r.int_of() == wrapping_sum(items@),
{
    let mut space = ComputeSpace::new();
    space.reduce_add(features, items)
}

/// Adds up the values that `items` hands over, using their own storage as
/// working storage. Integers add with wrapping.
pub fn reduce_add_iter<T: Element>(features: &TargetFeatures, items: Vec<T>) -> (r: T)
    ensures
        r.int_of() == wrapping_sum(items@),
{
    let mut items = items;
    reduce_add_in_place(features, items.as_mut_slice())
}

/// The sum of no elements is zero, and the sum of one element is that
/// element.
pub proof fn law_reduce_identity<T: Element>(x: T)
    ensures
        wrapping_sum(Seq::<T>::empty()) == 0,
        wrapping_sum(seq![x]) == x.int_of(),
{
    assert(seq![x].drop_last() =~= Seq::<T>::empty());
    lemma_value_wraps_to_itself(x);
}

/// Two reductions of the same elements give the same value, whatever working
/// storage each one used: in particular `reduce_add` and
/// `reduce_add_in_space` agree on every buffer.
pub proof fn law_reductions_agree<T: Element>(items: Seq<T>, a: T, b: T)
    requires
        a.int_of() == wrapping_sum(items),
        b.int_of() == wrapping_sum(items),
    ensures
        a == b,
{
    T::lemma_injective(a, b);
}

/// After an in-place reduction of a non-empty buffer, its first element is
/// the value that a reduction of a copy of the original buffer, with
/// separate working storage, returns.
pub proof fn law_in_place_result<T: Element>(original: Seq<T>, after: Seq<T>, in_place: T, in_space: T)
    requires
        original.len() > 0,
        in_place.int_of() == wrapping_sum(original),
        after.len() == original.len(),
        after[0] == in_place,
        in_space.int_of() == wrapping_sum(original),
    ensures
        after[0] == in_space,
{
    T::lemma_injective(in_place, in_space);
}

/// Appending one element to a buffer adds that element to its sum, wherever
/// the new length falls with respect to the register sizes.
pub proof fn law_append_element<T: Element>(items: Seq<T>, x: T, before: T, after: T)
    requires
        before.int_of() == wrapping_sum(items),
        after.int_of() == wrapping_sum(items.push(x)),
    ensures
        after.int_of() == wrap::<T>(before.int_of() + x.int_of()),
{
    assert(items.push(x).drop_last() =~= items);
}

/// Horizontal reductions over a buffer.
pub trait HorizontalSlice<T: Element>: Slice<T> {
    /// Adds up all the elements, with working storage of its own. Integers
    /// add with wrapping.
    fn reduce_add(&self, features: &TargetFeatures) -> (r: T)
        ensures
            r.int_of() == wrapping_sum(self.elements()),
    ;

    /// Adds up all the elements, using `space` as working storage.
    fn reduce_add_in_space(&self, features: &TargetFeatures, space: &mut [T]) -> (r: T)
        requires
            old(space)@.len() >= self.elements().len(),
        ensures
            r.int_of() == wrapping_sum(self.elements()),
            final(space)@.len() == old(space)@.len(),
    ;

    /// Adds up all the elements, using the buffer itself as working storage.
    /// The sum is left in the first element; the others are left with values
    /// that nothing specifies.
    fn reduce_add_in_place(&mut self, features: &TargetFeatures) -> (r: T)
        ensures
            r.int_of() == wrapping_sum(old(self).elements()),
            final(self).elements().len() == old(self).elements().len(),
            old(self).elements().len() > 0 ==> final(self).elements()[0] == r,
    ;
}

impl<T: Element> HorizontalSlice<T> for [T] {
    fn reduce_add(&self, features: &TargetFeatures) -> (r: T) {
        reduce_add(features, self)
    }

    fn reduce_add_in_space(&self, features: &TargetFeatures, space: &mut [T]) -> (r: T) {
        reduce_add_in_space(features, self, space)
    }

    fn reduce_add_in_place(&mut self, features: &TargetFeatures) -> (r: T) {
        reduce_add_in_place(features, self)
    }
}

} // verus!
