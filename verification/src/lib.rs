//! A fixed-capacity, word-granular arena allocator with typed store and load,
//! together with a few small text-counting and slice utilities.

pub mod access;
pub mod arena;
pub mod bits;
pub mod bus;
pub mod history;
pub mod layout;
pub mod options;
pub mod report;
pub mod repr;
pub mod split;
pub mod text;

pub use crate::access::{getter, setter, Plain};
pub use crate::arena::{init, malloc};
pub use crate::bus::Bus;
pub use crate::layout::{SIZE, WORD};
pub use crate::split::{split_at_mut, split_at_mut_unchecked};
