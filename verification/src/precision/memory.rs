//! The memory that arrays of a numeric type take. Printing the table is left
//! to the program.

use vstd::prelude::*;

verus! {

/// The number of elements in the arrays that are measured.
pub const ARRAY_SIZE: usize = 1000;

pub struct MemoryAnalyzer;

impl MemoryAnalyzer {
    /// The whole kibibytes that `ARRAY_SIZE` values of `T` take.
    pub fn array_footprint_kib<T>() -> (r: usize)
        requires
            vstd::layout::size_of::<T>() * ARRAY_SIZE <= usize::MAX,
        ensures
            r == vstd::layout::size_of::<T>() * ARRAY_SIZE / 1024,
    {
        let size = core::mem::size_of::<T>();
        size * ARRAY_SIZE / 1024
    }
}

} // verus!
