//! A generational-index allocator: a dense table of slots addressed by
//! handles that pair a position with a generation counter, so that a handle
//! taken before a slot was recycled can never reach the slot's new occupant.

pub mod error;
pub mod handle;
pub mod history;
pub mod laws;
pub mod table;
pub mod vec_based;

pub use error::AllocError;
pub use handle::GenIndex;
pub use vec_based::GenIndexAllocator;
