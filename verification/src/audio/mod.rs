pub mod backend;
pub mod latency;
pub mod log_bridge;
pub mod rt_guard;
pub mod xrun;
