//! A bootstrap memory allocator that serves one contiguous address range from
//! both ends: byte-granular allocations grow upward from the start, page
//! allocations grow downward from the end, and the two fronts never cross.

pub mod early;
pub mod error;
pub mod laws;
pub mod region;

pub use early::EarlyAllocator;
pub use error::AllocError;
pub use region::RegionModel;
