//! A streaming top-K frequency tracker for network addresses.
//!
//! The store counts how often each address has been seen and keeps, at all
//! times, a small table of the most frequently seen addresses in descending
//! order of count. Reading the table never re-sorts the population.
//!
//! * [`address`]: the identifier that is counted.
//! * [`model`]: the mathematical state of a store and the transition that
//!   one sighting causes.
//! * [`laws`]: what is proved of every state that a store can reach.
//! * [`counts`]: the executable map from address to count.
//! * [`store`]: the executable store and the [`IPStore`] interface.

pub mod address;
pub mod counts;
pub mod laws;
pub mod model;
pub mod store;

pub use address::Address;
pub use model::{Slot, State, TOP_COUNT};
pub use store::{IPStore, PulleyIPStore};
