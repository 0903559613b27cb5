//! Width-adaptive arithmetic over contiguous integer buffers: horizontal
//! reduction of a buffer to its sum, and elementwise operations between two
//! buffers of equal length. Both engines walk the register widths that the
//! build target offers, widest first, down to plain scalar code, and give the
//! same results as the scalar code on every target. The target's
//! capabilities are a value, `TargetFeatures`, that each operation is handed.
pub mod checks;
pub mod element;
pub mod horizontal;
mod register;
pub mod vertical;

pub use checks::{
    is_naive, is_simd_128, is_simd_256, is_simd_512, is_simd_64, is_x86_avx, is_x86_avx512,
    is_x86_sse, is_x86_sse3, is_x86_sse4, lane_counts, TargetFeatures,
};
pub use element::{apply, Element, Op, Slice};
pub use horizontal::{
    reduce_add, reduce_add_in_place, reduce_add_in_space, reduce_add_iter, ComputeSpace,
    HorizontalSlice,
};
pub use vertical::{
    apply_assign_checked, apply_assign_unchecked, VerticalAdd, VerticalDiv, VerticalMul,
    VerticalSub,
};
