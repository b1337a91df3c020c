//! Verified core of a small unikernel.
//!
//! - [`allocator`]: the early allocator, which serves pages and bytes from
//!   one extent of physical memory.
//! - [`scheduler`]: the first-in, first-out ready queue.
//! - [`loader`]: the wire format of a flashed image, the staging of its
//!   applications, the system-call table and the application's address
//!   space.
//! - [`boot`]: the decisions taken while the system comes up.
//!
//! Every function states what it returns and changes over mathematical
//! views of the data. All of them are proved to do so but the calls into
//! the page bitmap and the byte pool, which are taken on trust and kept
//! apart in `allocator::bitmap` and `allocator::pool`. No function locks
//! anything: the caller sees to it that calls on one value do not overlap.

pub mod allocator;
pub mod boot;
pub mod loader;
pub mod scheduler;
