//! An in-memory, bounded, cache-through cache.
//!
//! On a miss the cache populates an entry with a function supplied by the
//! caller; on an update a caller-supplied function computes the new value (or
//! the removal) from the previous one. When capacity is reached, a clock
//! (second-chance) evictor picks the entry that makes room.

pub mod cache;
pub mod eviction;
pub mod segment;

pub use cache::CacheThrough;
pub use eviction::{ClockEvictionStrategy, EvictionStrategy};
pub use segment::Segment;
