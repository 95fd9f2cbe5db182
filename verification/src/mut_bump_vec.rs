//! Iteration over the elements of a vector that grows in a mutably borrowed
//! bump allocator.
pub mod into_iter;
