//! Deterministic Q16.16 fixed-point arithmetic.
//!
//! A Q16.16 value is a signed 32-bit integer whose low 16 bits carry the
//! fraction and whose high bits carry the integer part, so `1.0` is stored
//! as `65536`. Every operation widens to a 64-bit intermediate, applies a
//! fixed rounding rule, and narrows back to 32 bits at a single, documented
//! truncation point. Each result is pinned to a mathematical function of
//! the inputs, so repeated calls with the same arguments return the same
//! bits on every platform.

pub mod fixed;
pub mod laws;

pub use fixed::div;
pub use fixed::mul;
pub use fixed::sqrt;
pub use fixed::FP_ONE;
