//! Owned slices of elements handed out by the vector type.
pub mod into_iter;
