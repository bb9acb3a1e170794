//! Selection and bookkeeping engine for opening a loot chest: weighted draws
//! without replacement from a guaranteed pool and a chance pool, aggregate
//! counters kept equal to the per-item counts, and the exact set of store
//! writes that commits a session.
use vstd::prelude::*;

pub mod payment;
pub mod pool;
pub mod entropy;
pub mod session;
pub mod commit;
pub mod laws;
