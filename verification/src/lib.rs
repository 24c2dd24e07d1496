//! Verified core of a real-time guitar processor: the latency-meter state
//! machine, the loopback latency estimator, device capability negotiation,
//! interleaved-buffer lane copies and the lock-free parameter cells.
pub mod audio;
pub mod config;
pub mod cpal_direct;
pub mod device;
pub mod domain;
pub mod gui;
pub mod params;
