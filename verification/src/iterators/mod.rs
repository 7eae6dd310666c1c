//! The three ways to walk a container: by shared reference, by exclusive
//! reference, and by value.

pub mod into_iter;
pub mod iter;
pub mod iter_mut;
