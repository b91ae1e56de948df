//! A separable two-dimensional transform engine over row-major sample grids,
//! with the frequency-domain mask and the colour conversion that go with it.
//!
//! The engine applies a caller-supplied one-dimensional kernel along the rows
//! of a grid, transposes, applies it along the former columns and transposes
//! back.  Everything that moves or selects cells (chunking, transposition,
//! low-frequency masking) is proved here; the arithmetic of the kernel itself
//! belongs to the caller, and every contract of the engine is stated relative
//! to it.
pub mod color;
pub mod layout;
pub mod mask;
pub mod pass;
pub mod transform;
