//! Numeric elements: the scalar types a buffer can hold, with their
//! wrapping (modular) arithmetic stated over mathematical integers.
use vstd::arithmetic::div_mod::{
    lemma_div_basics, lemma_div_decreases, lemma_div_is_ordered_by_denominator,
    lemma_fundamental_div_mod, lemma_fundamental_div_mod_converse_mod,
};
use vstd::prelude::*;

verus! {

/// `x` brought into the window `[lo, lo + m)` by adding a multiple of `m`.
pub open spec fn wrap_int(lo: int, m: int, x: int) -> int {
    lo + (x - lo) % m
}

/// The value that wrapping arithmetic on `T` produces for the exact result `x`.
pub open spec fn wrap<T: Element>(x: int) -> int {
    wrap_int(T::min_int(), T::modulus(), x)
}

/// Quotient rounded toward zero, as integer division does.
pub open spec fn trunc_div(a: int, b: int) -> int {
    let q = abs(a) / abs(b);
    if (a < 0) != (b < 0) {
        -q
    } else {
        q
    }
}

pub open spec fn abs(a: int) -> int {
    if a < 0 {
        -a
    } else {
        a
    }
}

/// A primitive integer scalar. Addition, subtraction, multiplication and
/// division wrap around the type's range.
pub trait Element: Copy + Sized {
    /// The smallest value of the type.
    spec fn min_int() -> int;

    /// The number of values of the type.
    spec fn modulus() -> int;

    /// The value as a mathematical integer.
    spec fn int_of(self) -> int;

    /// How many values of the type fill a 128-bit register.
    spec fn lanes_128_spec() -> nat;

    proof fn lemma_window()
        ensures
            Self::modulus() > 0,
            Self::min_int() <= 0 < Self::min_int() + Self::modulus(),
    ;

    proof fn lemma_range(x: Self)
        ensures
            Self::min_int() <= x.int_of() < Self::min_int() + Self::modulus(),
    ;

    proof fn lemma_injective(x: Self, y: Self)
        ensures
            x.int_of() == y.int_of() ==> x == y,
    ;

    proof fn lemma_lanes()
        ensures
            Self::lanes_128_spec() == 2 || Self::lanes_128_spec() == 4 || Self::lanes_128_spec()
                == 8 || Self::lanes_128_spec() == 16,
    ;

    fn lanes_128() -> (r: usize)
        ensures
            r == Self::lanes_128_spec(),
    ;

    fn zero() -> (r: Self)
        ensures
            r.int_of() == 0,
    ;

    fn lane_add(self, rhs: Self) -> (r: Self)
        ensures
            r.int_of() == wrap_int(Self::min_int(), Self::modulus(), self.int_of() + rhs.int_of()),
    ;

    fn lane_sub(self, rhs: Self) -> (r: Self)
        ensures
            r.int_of() == wrap_int(Self::min_int(), Self::modulus(), self.int_of() - rhs.int_of()),
    ;

    fn lane_mul(self, rhs: Self) -> (r: Self)
        ensures
            r.int_of() == wrap_int(Self::min_int(), Self::modulus(), self.int_of() * rhs.int_of()),
    ;

    fn lane_div(self, rhs: Self) -> (r: Self)
        requires
            rhs.int_of() != 0,
        ensures
            r.int_of() == wrap_int(Self::min_int(), Self::modulus(), trunc_div(self.int_of(), rhs.int_of())),
    ;
}

/// A contiguous buffer of elements.
pub trait Slice<T: Element> {
    /// The elements, in order.
    spec fn elements(&self) -> Seq<T>;
}

impl<T: Element> Slice<T> for [T] {
    open spec fn elements(&self) -> Seq<T> {
        self@
    }
}

/// An elementwise binary operation.
#[derive(Clone, Copy, Debug, PartialEq, Eq, Structural)]
pub enum Op {
    Add,
    Sub,
    Mul,
    Div,
}

/// What `a op b` gives on `T`, as an integer.
pub open spec fn op_result<T: Element>(op: Op, a: T, b: T) -> int {
    match op {
        Op::Add => wrap::<T>(a.int_of() + b.int_of()),
        Op::Sub => wrap::<T>(a.int_of() - b.int_of()),
        Op::Mul => wrap::<T>(a.int_of() * b.int_of()),
        Op::Div => wrap::<T>(trunc_div(a.int_of(), b.int_of())),
    }
}

/// `b` may stand on the right of `op`: no division by zero.
pub open spec fn op_defined<T: Element>(op: Op, b: T) -> bool {
    op == Op::Div ==> b.int_of() != 0
}

/// Every element of `rhs` may stand on the right of `op`.
pub open spec fn operands_valid<T: Element>(op: Op, rhs: Seq<T>) -> bool {
    forall|i: int| 0 <= i < rhs.len() ==> op_defined(op, #[trigger] rhs[i])
}

/// Computes `a op b` with the type's wrapping arithmetic.
pub fn apply<T: Element>(op: Op, a: T, b: T) -> (r: T)
    requires
        op_defined(op, b),
    ensures
        r.int_of() == op_result(op, a, b),
{
    match op {
        Op::Add => a.lane_add(b),
        Op::Sub => a.lane_sub(b),
        Op::Mul => a.lane_mul(b),
        Op::Div => a.lane_div(b),
    }
}

/// A value already in the window is what wrapping any of its congruents gives.
pub proof fn lemma_wrap_unique(lo: int, m: int, x: int, y: int, k: int)
    requires
        m > 0,
        lo <= y < lo + m,
        x == y + k * m,
    ensures
        wrap_int(lo, m, x) == y,
{
    lemma_fundamental_div_mod_converse_mod(x - lo, m, k, y - lo);
}

/// The wrapped result of an exact value at most one window away.
pub proof fn lemma_wrap_near(lo: int, m: int, x: int, y: int)
    requires
        m > 0,
        lo <= y < lo + m,
        x == y || x == y + m || x == y - m,
    ensures
        wrap_int(lo, m, x) == y,
{
    if x == y {
        lemma_wrap_unique(lo, m, x, y, 0);
    } else if x == y + m {
        lemma_wrap_unique(lo, m, x, y, 1);
    } else {
        lemma_wrap_unique(lo, m, x, y, -1);
    }
}

/// Wrapping by taking the remainder, then moving the top half of the range down.
pub proof fn lemma_wrap_crop(lo: int, m: int, x: int, y: int)
    requires
        m > 0,
        lo <= 0 < lo + m,
        y == (if x % m >= lo + m {
            x % m - m
        } else {
            x % m
        }),
    ensures
        wrap_int(lo, m, x) == y,
{
    lemma_fundamental_div_mod(x, m);
    let q = x / m;
    if x % m >= lo + m {
        assert(x == y + (q + 1) * m) by (nonlinear_arith)
            requires
                x == m * q + x % m,
                y == x % m - m,
        ;
        lemma_wrap_unique(lo, m, x, y, q + 1);
    } else {
        assert(x == y + q * m) by (nonlinear_arith)
            requires
                x == m * q + x % m,
                y == x % m,
        ;
        lemma_wrap_unique(lo, m, x, y, q);
    }
}

/// Truncating division written out by the signs of its operands.
pub proof fn lemma_trunc_div_formula(x: int, d: int)
    requires
        d != 0,
    ensures
        trunc_div(x, d) == (if x == 0 {
            0
        } else if x > 0 && d > 0 {
            x / d
        } else if x < 0 && d < 0 {
            (x * -1) / (d * -1)
        } else if x < 0 {
            ((x * -1) / d) * -1
        } else {
            (x / (d * -1)) * -1
        }),
{
    if x == 0 {
        lemma_div_basics(abs(d));
    }
}

/// Wrapping division on a signed type: either the quotient fits, or the
/// dividend is the smallest value and the divisor is minus one, where the
/// quotient wraps back to the dividend.
pub proof fn lemma_signed_div(lo: int, m: int, a: int, b: int, r: int)
    requires
        m > 0,
        m == -2 * lo,
        lo <= a < lo + m,
        lo <= r < lo + m,
        b != 0,
        r == trunc_div(a, b) || (r == a && !(lo <= trunc_div(a, b) < lo + m)),
    ensures
        wrap_int(lo, m, trunc_div(a, b)) == r,
{
    let q = abs(a) / abs(b);
    if a != 0 {
        lemma_div_is_ordered_by_denominator(abs(a), 1, abs(b));
        lemma_div_basics(abs(a));
        assert(0 <= q <= abs(a));
    } else {
        lemma_div_basics(abs(b));
    }
    if r == trunc_div(a, b) {
        lemma_wrap_near(lo, m, trunc_div(a, b), r);
    } else {
        if abs(b) > 1 && a != 0 {
            lemma_div_decreases(abs(a), abs(b));
        }
        assert(a == lo && b == -1);
        lemma_wrap_near(lo, m, trunc_div(a, b), r);
    }
}

/// Wrapping an operand first does not change the wrapped sum.
pub proof fn lemma_wrap_add_left<T: Element>(x: int, y: int)
    ensures
        wrap::<T>(wrap::<T>(x) + y) == wrap::<T>(x + y),
{
    T::lemma_window();
    let lo = T::min_int();
    let m = T::modulus();
    lemma_fundamental_div_mod(x - lo, m);
    let q = (x - lo) / m;
    // wrap(x) + y differs from x + y by a multiple of m
    assert(x + y == (wrap::<T>(x) + y) + q * m) by (nonlinear_arith)
        requires
            x - lo == m * q + (x - lo) % m,
            wrap::<T>(x) == lo + (x - lo) % m,
    ;
    let w = wrap::<T>(x + y);
    lemma_fundamental_div_mod(x + y - lo, m);
    let p = (x + y - lo) / m;
    assert(wrap::<T>(x) + y == w + (p - q) * m) by (nonlinear_arith)
        requires
            x + y - lo == m * p + (x + y - lo) % m,
            w == lo + (x + y - lo) % m,
            x + y == (wrap::<T>(x) + y) + q * m,
    ;
    lemma_wrap_unique(lo, m, wrap::<T>(x) + y, w, p - q);
}

impl Element for u8 {
    open spec fn min_int() -> int {
        0
    }

    open spec fn modulus() -> int {
        0x100
    }

    open spec fn int_of(self) -> int {
        self as int
    }

    open spec fn lanes_128_spec() -> nat {
        16
    }

    proof fn lemma_window() {
    }

    proof fn lemma_range(x: u8) {
    }

    proof fn lemma_injective(x: u8, y: u8) {
    }

    proof fn lemma_lanes() {
    }

    fn lanes_128() -> usize {
        16
    }

    fn zero() -> u8 {
        0
    }

    fn lane_add(self, rhs: u8) -> u8 {
        let r = self.wrapping_add(rhs);
        proof {
            lemma_wrap_near(0, 0x100, self + rhs, r as int);
        }
        r
    }

    fn lane_sub(self, rhs: u8) -> u8 {
        let r = self.wrapping_sub(rhs);
        proof {
            lemma_wrap_near(0, 0x100, self - rhs, r as int);
        }
        r
    }

    fn lane_mul(self, rhs: u8) -> u8 {
        let r = self.wrapping_mul(rhs);
        proof {
            lemma_wrap_crop(0, 0x100, self * rhs, r as int);
        }
        r
    }

    fn lane_div(self, rhs: u8) -> u8 {
        let r = self / rhs;
        proof {
            lemma_wrap_near(0, 0x100, trunc_div(self as int, rhs as int), r as int);
        }
        r
    }
}

impl Element for u16 {
    open spec fn min_int() -> int {
        0
    }

    open spec fn modulus() -> int {
        0x1_0000
    }

    open spec fn int_of(self) -> int {
        self as int
    }

    open spec fn lanes_128_spec() -> nat {
        8
    }

    proof fn lemma_window() {
    }

    proof fn lemma_range(x: u16) {
    }

    proof fn lemma_injective(x: u16, y: u16) {
    }

    proof fn lemma_lanes() {
    }

    fn lanes_128() -> usize {
        8
    }

    fn zero() -> u16 {
        0
    }

    fn lane_add(self, rhs: u16) -> u16 {
        let r = self.wrapping_add(rhs);
        proof {
            lemma_wrap_near(0, 0x1_0000, self + rhs, r as int);
        }
        r
    }

    fn lane_sub(self, rhs: u16) -> u16 {
        let r = self.wrapping_sub(rhs);
        proof {
            lemma_wrap_near(0, 0x1_0000, self - rhs, r as int);
        }
        r
    }

    fn lane_mul(self, rhs: u16) -> u16 {
        let r = self.wrapping_mul(rhs);
        proof {
            lemma_wrap_crop(0, 0x1_0000, self * rhs, r as int);
        }
        r
    }

    fn lane_div(self, rhs: u16) -> u16 {
        let r = self / rhs;
        proof {
            lemma_wrap_near(0, 0x1_0000, trunc_div(self as int, rhs as int), r as int);
        }
        r
    }
}

impl Element for u32 {
    open spec fn min_int() -> int {
        0
    }

    open spec fn modulus() -> int {
        0x1_0000_0000
    }

    open spec fn int_of(self) -> int {
        self as int
    }

    open spec fn lanes_128_spec() -> nat {
        4
    }

    proof fn lemma_window() {
    }

    proof fn lemma_range(x: u32) {
    }

    proof fn lemma_injective(x: u32, y: u32) {
    }

    proof fn lemma_lanes() {
    }

    fn lanes_128() -> usize {
        4
    }

    fn zero() -> u32 {
        0
    }

    fn lane_add(self, rhs: u32) -> u32 {
        let r = self.wrapping_add(rhs);
        proof {
            lemma_wrap_near(0, 0x1_0000_0000, self + rhs, r as int);
        }
        r
    }

    fn lane_sub(self, rhs: u32) -> u32 {
        let r = self.wrapping_sub(rhs);
        proof {
            lemma_wrap_near(0, 0x1_0000_0000, self - rhs, r as int);
        }
        r
    }

    fn lane_mul(self, rhs: u32) -> u32 {
        let r = self.wrapping_mul(rhs);
        proof {
            lemma_wrap_crop(0, 0x1_0000_0000, self * rhs, r as int);
        }
        r
    }

    fn lane_div(self, rhs: u32) -> u32 {
        let r = self / rhs;
        proof {
            lemma_wrap_near(0, 0x1_0000_0000, trunc_div(self as int, rhs as int), r as int);
        }
        r
    }
}

impl Element for u64 {
    open spec fn min_int() -> int {
        0
    }

    open spec fn modulus() -> int {
        0x1_0000_0000_0000_0000
    }

    open spec fn int_of(self) -> int {
        self as int
    }

    open spec fn lanes_128_spec() -> nat {
        2
    }

    proof fn lemma_window() {
    }

    proof fn lemma_range(x: u64) {
    }

    proof fn lemma_injective(x: u64, y: u64) {
    }

    proof fn lemma_lanes() {
    }

    fn lanes_128() -> usize {
        2
    }

    fn zero() -> u64 {
        0
    }

    fn lane_add(self, rhs: u64) -> u64 {
        let r = self.wrapping_add(rhs);
        proof {
            lemma_wrap_near(0, 0x1_0000_0000_0000_0000, self + rhs, r as int);
        }
        r
    }

    fn lane_sub(self, rhs: u64) -> u64 {
        let r = self.wrapping_sub(rhs);
        proof {
            lemma_wrap_near(0, 0x1_0000_0000_0000_0000, self - rhs, r as int);
        }
        r
    }

    fn lane_mul(self, rhs: u64) -> u64 {
        let r = self.wrapping_mul(rhs);
        proof {
            lemma_wrap_crop(0, 0x1_0000_0000_0000_0000, self * rhs, r as int);
        }
        r
    }

    fn lane_div(self, rhs: u64) -> u64 {
        let r = self / rhs;
        proof {
            lemma_wrap_near(0, 0x1_0000_0000_0000_0000, trunc_div(self as int, rhs as int), r as int);
        }
        r
    }
}

impl Element for i8 {
    open spec fn min_int() -> int {
        -0x80
    }

    open spec fn modulus() -> int {
        0x100
    }

    open spec fn int_of(self) -> int {
        self as int
    }

    open spec fn lanes_128_spec() -> nat {
        16
    }

    proof fn lemma_window() {
    }

    proof fn lemma_range(x: i8) {
    }

    proof fn lemma_injective(x: i8, y: i8) {
    }

    proof fn lemma_lanes() {
    }

    fn lanes_128() -> usize {
        16
    }

    fn zero() -> i8 {
        0
    }

    fn lane_add(self, rhs: i8) -> i8 {
        let r = self.wrapping_add(rhs);
        proof {
            lemma_wrap_near(-0x80, 0x100, self + rhs, r as int);
        }
        r
    }

    fn lane_sub(self, rhs: i8) -> i8 {
        let r = self.wrapping_sub(rhs);
        proof {
            lemma_wrap_near(-0x80, 0x100, self - rhs, r as int);
        }
        r
    }

    fn lane_mul(self, rhs: i8) -> i8 {
        let r = self.wrapping_mul(rhs);
        proof {
            lemma_wrap_crop(-0x80, 0x100, self * rhs, r as int);
        }
        r
    }

    fn lane_div(self, rhs: i8) -> i8 {
        let r = match self.checked_div(rhs) {
            Some(q) => q,
            None => self,
        };
        proof {
            lemma_trunc_div_formula(self as int, rhs as int);
            lemma_signed_div(-0x80, 0x100, self as int, rhs as int, r as int);
        }
        r
    }
}

impl Element for i16 {
    open spec fn min_int() -> int {
        -0x8000
    }

    open spec fn modulus() -> int {
        0x1_0000
    }

    open spec fn int_of(self) -> int {
        self as int
    }

    open spec fn lanes_128_spec() -> nat {
        8
    }

    proof fn lemma_window() {
    }

    proof fn lemma_range(x: i16) {
    }

    proof fn lemma_injective(x: i16, y: i16) {
    }

    proof fn lemma_lanes() {
    }

    fn lanes_128() -> usize {
        8
    }

    fn zero() -> i16 {
        0
    }

    fn lane_add(self, rhs: i16) -> i16 {
        let r = self.wrapping_add(rhs);
        proof {
            lemma_wrap_near(-0x8000, 0x1_0000, self + rhs, r as int);
        }
        r
    }

    fn lane_sub(self, rhs: i16) -> i16 {
        let r = self.wrapping_sub(rhs);
        proof {
            lemma_wrap_near(-0x8000, 0x1_0000, self - rhs, r as int);
        }
        r
    }

    fn lane_mul(self, rhs: i16) -> i16 {
        let r = self.wrapping_mul(rhs);
        proof {
            lemma_wrap_crop(-0x8000, 0x1_0000, self * rhs, r as int);
        }
        r
    }

    fn lane_div(self, rhs: i16) -> i16 {
        let r = match self.checked_div(rhs) {
            Some(q) => q,
            None => self,
        };
        proof {
            lemma_trunc_div_formula(self as int, rhs as int);
            lemma_signed_div(-0x8000, 0x1_0000, self as int, rhs as int, r as int);
        }
        r
    }
}

impl Element for i32 {
    open spec fn min_int() -> int {
        -0x8000_0000
    }

    open spec fn modulus() -> int {
        0x1_0000_0000
    }

    open spec fn int_of(self) -> int {
        self as int
    }

    open spec fn lanes_128_spec() -> nat {
        4
    }

    proof fn lemma_window() {
    }

    proof fn lemma_range(x: i32) {
    }

    proof fn lemma_injective(x: i32, y: i32) {
    }

    proof fn lemma_lanes() {
    }

    fn lanes_128() -> usize {
        4
    }

    fn zero() -> i32 {
        0
    }

    fn lane_add(self, rhs: i32) -> i32 {
        let r = self.wrapping_add(rhs);
        proof {
            lemma_wrap_near(-0x8000_0000, 0x1_0000_0000, self + rhs, r as int);
        }
        r
    }

    fn lane_sub(self, rhs: i32) -> i32 {
        let r = self.wrapping_sub(rhs);
        proof {
            lemma_wrap_near(-0x8000_0000, 0x1_0000_0000, self - rhs, r as int);
        }
        r
    }

    fn lane_mul(self, rhs: i32) -> i32 {
        let r = self.wrapping_mul(rhs);
        proof {
            lemma_wrap_crop(-0x8000_0000, 0x1_0000_0000, self * rhs, r as int);
        }
        r
    }

    fn lane_div(self, rhs: i32) -> i32 {
        let r = match self.checked_div(rhs) {
            Some(q) => q,
            None => self,
        };
        proof {
            lemma_trunc_div_formula(self as int, rhs as int);
            lemma_signed_div(-0x8000_0000, 0x1_0000_0000, self as int, rhs as int, r as int);
        }
        r
    }
}

impl Element for i64 {
    open spec fn min_int() -> int {
        -0x8000_0000_0000_0000
    }

    open spec fn modulus() -> int {
        0x1_0000_0000_0000_0000
    }

    open spec fn int_of(self) -> int {
        self as int
    }

    open spec fn lanes_128_spec() -> nat {
        2
    }

    proof fn lemma_window() {
    }

    proof fn lemma_range(x: i64) {
    }

    proof fn lemma_injective(x: i64, y: i64) {
    }

    proof fn lemma_lanes() {
    }

    fn lanes_128() -> usize {
        2
    }

    fn zero() -> i64 {
        0
    }

    fn lane_add(self, rhs: i64) -> i64 {
        let r = self.wrapping_add(rhs);
        proof {
            lemma_wrap_near(-0x8000_0000_0000_0000, 0x1_0000_0000_0000_0000, self + rhs, r as int);
        }
        r
    }

    fn lane_sub(self, rhs: i64) -> i64 {
        let r = self.wrapping_sub(rhs);
        proof {
            lemma_wrap_near(-0x8000_0000_0000_0000, 0x1_0000_0000_0000_0000, self - rhs, r as int);
        }
        r
    }

    fn lane_mul(self, rhs: i64) -> i64 {
        let r = self.wrapping_mul(rhs);
        proof {
            lemma_wrap_crop(-0x8000_0000_0000_0000, 0x1_0000_0000_0000_0000, self * rhs, r as int);
        }
        r
    }

    fn lane_div(self, rhs: i64) -> i64 {
        let r = match self.checked_div(rhs) {
            Some(q) => q,
            None => self,
        };
        proof {
            lemma_trunc_div_formula(self as int, rhs as int);
            lemma_signed_div(-0x8000_0000_0000_0000, 0x1_0000_0000_0000_0000, self as int, rhs as int, r as int);
        }
        r
    }
}

} // verus!
