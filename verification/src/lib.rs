//! A bounded in-process cache: least-recently-used eviction combined with
//! optional per-entry time-to-live, for one owner or shared between threads.
//!
//! The crate is layered. [`recency::RecencyIndex`] keeps the keys in order of
//! use and [`entry_store::EntryStore`] keeps the values with their metadata;
//! [`engine::CacheEngine`] composes the two and enforces both policies. The
//! remaining modules are the caches built on the engine.

pub use clock::Clock;
pub use engine::{CacheEngine, Ratio};
pub use entry_store::{Entry, EntryStore};
pub use lru_cache::LRUCache;
pub use recency::RecencyIndex;
pub use thread_safe_ttl_cache::ThreadSafeTTLCache;
pub use ttl_cache::TTLCache;
pub use vec_lru_cache::VecLRUCache;

pub mod key;
pub mod seq_facts;
pub mod recency;
pub mod entry_store;
pub mod model;
pub mod history;
pub mod engine;
pub mod clock;
pub mod lru_cache;
pub mod vec_lru_cache;
pub mod ttl_cache;
pub mod thread_safe_ttl_cache;
