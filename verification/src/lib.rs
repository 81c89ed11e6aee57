//! A component-pipeline runtime for soft real-time streaming work: a mutable
//! per-frame context carrying keyed byte buffers, timestamp statistics and an
//! error slot flows through ordered chains of processors, backed by
//! fixed-capacity buffer pools and an error-diversion path.

pub mod codec;
pub mod frame;
pub mod kvmap;
pub mod pipeline;
pub mod pool;
pub mod processor;
pub mod stats;
pub mod types;
