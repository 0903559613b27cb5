//! The capability model: which vector widths a build target offers, and the
//! register sizes (in lanes) that the engines walk for a given element type.
use crate::element::Element;
use vstd::prelude::*;

verus! {

/// The instruction-set facts of one build target. They are fixed for a build
/// and never change while it runs.
#[derive(Clone, Copy, Debug, PartialEq, Eq)]
pub struct TargetFeatures {
    /// The target is x86 or x86-64.
    pub x86: bool,
    pub sse: bool,
    pub sse2: bool,
    pub sse3: bool,
    pub sse4: bool,
    pub avx: bool,
    pub avx2: bool,
    pub avx512f: bool,
    pub avx512bw: bool,
    /// The toolchain offers the 512-bit intrinsics.
    pub avx512_intrinsics: bool,
    /// The scalar implementations are selected whatever the target offers.
    pub force_naive: bool,
}

impl TargetFeatures {
    /// The flags describe a real x86 build: every extension belongs to x86,
    /// and each one comes with every narrower one.
    pub open spec fn wf(&self) -> bool {
        &&& (self.sse || self.sse2 || self.sse3 || self.sse4 || self.avx || self.avx2
            || self.avx512f || self.avx512bw) ==> self.x86
        &&& self.sse2 ==> self.sse
        &&& self.sse3 ==> self.sse2
        &&& self.sse4 ==> self.sse3
        &&& self.avx ==> self.sse4
        &&& self.avx2 ==> self.avx
        &&& self.avx512f ==> self.avx2
        &&& self.avx512bw ==> self.avx512f
    }

    /// A target that offers no vector instructions.
    pub fn scalar() -> (r: TargetFeatures)
        ensures
            !r.x86 && !r.sse && !r.sse2 && !r.sse3 && !r.sse4 && !r.avx && !r.avx2,
            !r.avx512f && !r.avx512bw && !r.avx512_intrinsics && !r.force_naive,
            r.wf(),
    {
        TargetFeatures {
            x86: false,
            sse: false,
            sse2: false,
            sse3: false,
            sse4: false,
            avx: false,
            avx2: false,
            avx512f: false,
            avx512bw: false,
            avx512_intrinsics: false,
            force_naive: false,
        }
    }

    /// An x86 target with every extension the engines can use.
    pub fn x86_full() -> (r: TargetFeatures)
        ensures
            r.x86 && r.sse && r.sse2 && r.sse3 && r.sse4 && r.avx && r.avx2,
            r.avx512f && r.avx512bw && r.avx512_intrinsics && !r.force_naive,
            r.wf(),
    {
        TargetFeatures {
            x86: true,
            sse: true,
            sse2: true,
            sse3: true,
            sse4: true,
            avx: true,
            avx2: true,
            avx512f: true,
            avx512bw: true,
            avx512_intrinsics: true,
            force_naive: false,
        }
    }
}

/// SSE on x86: the 128-bit registers exist.
pub open spec fn is_x86_sse_spec(f: TargetFeatures) -> bool {
    f.x86 && f.sse
}

/// AVX on x86: the 256-bit registers exist.
pub open spec fn is_x86_avx_spec(f: TargetFeatures) -> bool {
    f.x86 && f.avx
}

/// AVX-512 on x86, with the intrinsics available: the 512-bit registers exist.
pub open spec fn is_x86_avx512_spec(f: TargetFeatures) -> bool {
    f.avx512_intrinsics && f.x86 && f.avx512f
}

/// The scalar implementations are in use.
pub open spec fn is_naive_spec(f: TargetFeatures) -> bool {
    f.force_naive || !is_x86_sse_spec(f)
}

/// No target offers 64-bit vector types.
pub fn is_simd_64(f: &TargetFeatures) -> (r: bool)
    requires
        f.wf(),
    ensures
        !r,
{
    false
}

/// The target offers 128-bit vector types and operations.
pub fn is_simd_128(f: &TargetFeatures) -> (r: bool)
    requires
        f.wf(),
    ensures
        r == is_x86_sse_spec(*f),
{
    is_x86_sse(f)
}

/// The target offers 256-bit vector types and operations.
pub fn is_simd_256(f: &TargetFeatures) -> (r: bool)
    requires
        f.wf(),
    ensures
        r == is_x86_avx_spec(*f),
        r ==> is_x86_sse_spec(*f),
{
    is_x86_avx(f)
}

/// The target offers 512-bit vector types and operations.
pub fn is_simd_512(f: &TargetFeatures) -> (r: bool)
    requires
        f.wf(),
    ensures
        r == is_x86_avx512_spec(*f),
        r ==> is_x86_avx_spec(*f),
{
    is_x86_avx512(f)
}

/// The target is x86 with SSE.
pub fn is_x86_sse(f: &TargetFeatures) -> (r: bool)
    requires
        f.wf(),
    ensures
        r == is_x86_sse_spec(*f),
{
    f.x86 && f.sse
}

/// The target is x86 with SSE3.
pub fn is_x86_sse3(f: &TargetFeatures) -> (r: bool)
    requires
        f.wf(),
    ensures
        r == (f.x86 && f.sse3),
        r ==> f.sse,
{
    f.x86 && f.sse3
}

/// The target is x86 with SSE4.
pub fn is_x86_sse4(f: &TargetFeatures) -> (r: bool)
    requires
        f.wf(),
    ensures
        r == (f.x86 && f.sse4),
        r ==> f.sse3,
{
    f.x86 && f.sse4
}

/// The target is x86 with AVX.
pub fn is_x86_avx(f: &TargetFeatures) -> (r: bool)
    requires
        f.wf(),
    ensures
        r == is_x86_avx_spec(*f),
        r ==> f.sse3,
        r ==> is_x86_sse_spec(*f),
{
    f.x86 && f.avx
}

/// The target is x86 with AVX-512, and the toolchain offers its intrinsics.
pub fn is_x86_avx512(f: &TargetFeatures) -> (r: bool)
    requires
        f.wf(),
    ensures
        r == is_x86_avx512_spec(*f),
        r ==> is_x86_avx_spec(*f),
{
    f.avx512_intrinsics && f.x86 && f.avx512f
}

/// The scalar implementations are in use: they were selected, or the target
/// offers no supported vector width.
pub fn is_naive(f: &TargetFeatures) -> (r: bool)
    requires
        f.wf(),
    ensures
        r == is_naive_spec(*f),
{
    f.force_naive || !is_x86_sse(f)
}

/// `n` is a power of two.
pub open spec fn is_pow2(n: nat) -> bool
    decreases n,
{
    if n <= 1 {
        n == 1
    } else {
        n % 2 == 0 && is_pow2(n / 2)
    }
}

/// Register sizes, in lanes, that an engine may walk: each a power of two
/// between 2 and 64.
pub open spec fn valid_lanes(s: Seq<usize>) -> bool {
    forall|i: int| 0 <= i < s.len() ==> 2 <= #[trigger] s[i] <= 64 && is_pow2(s[i] as nat)
}

/// The 512-bit registers hold elements of type `T` on this target.
pub open spec fn uses_512<T: Element>(f: TargetFeatures) -> bool {
    is_x86_avx512_spec(f) && (T::lanes_128_spec() <= 4 || f.avx512bw)
}

/// The 256-bit registers hold integer elements on this target.
pub open spec fn uses_256(f: TargetFeatures) -> bool {
    is_x86_avx_spec(f) && f.avx2
}

/// The 128-bit registers hold integer elements on this target.
pub open spec fn uses_128(f: TargetFeatures) -> bool {
    is_x86_sse_spec(f) && f.sse2
}

/// The register sizes, in lanes of `T`, that the engines walk on this target,
/// widest first; none where the scalar implementations are in use.
pub open spec fn lane_counts_spec<T: Element>(f: TargetFeatures) -> Seq<usize> {
    let n = T::lanes_128_spec();
    if is_naive_spec(f) {
        seq![]
    } else {
        (if uses_512::<T>(f) {
            seq![(4 * n) as usize]
        } else {
            seq![]
        }) + (if uses_256(f) {
            seq![(2 * n) as usize]
        } else {
            seq![]
        }) + (if uses_128(f) {
            seq![n as usize]
        } else {
            seq![]
        })
    }
}

proof fn lemma_lane_sizes(n: nat)
    requires
        n == 2 || n == 4 || n == 8 || n == 16,
    ensures
        is_pow2(n),
        is_pow2(2 * n),
        is_pow2(4 * n),
{
    reveal_with_fuel(is_pow2, 8);
}

/// The register sizes, in lanes of `T`, that the engines walk on this target,
/// widest first.
pub fn lane_counts<T: Element>(f: &TargetFeatures) -> (r: Vec<usize>)
    ensures
        r@ == lane_counts_spec::<T>(*f),
        valid_lanes(r@),
{
    let n = T::lanes_128();
    proof {
        T::lemma_lanes();
        lemma_lane_sizes(n as nat);
    }
    let mut r: Vec<usize> = Vec::new();
    if f.force_naive || !(f.x86 && f.sse) {
        return r;
    }
    if f.avx512_intrinsics && f.x86 && f.avx512f && (n <= 4 || f.avx512bw) {
        r.push(4 * n);
    }
    if f.x86 && f.avx && f.avx2 {
        r.push(2 * n);
    }
    if f.x86 && f.sse && f.sse2 {
        r.push(n);
    }
    assert(r@ =~= lane_counts_spec::<T>(*f));
    r
}

} // verus!
