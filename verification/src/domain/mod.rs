pub mod buffer;
pub mod error;
pub mod latency;
pub mod types;
