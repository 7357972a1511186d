//! The serving loops' rules: one request at a time, or many sequences through one batched step.
pub mod advance;
pub mod batch;
pub mod caps;
pub mod gates;
pub mod pipe;
pub mod pool;
pub mod prefill;
pub mod scan;
pub mod segment;
pub mod serial;
pub mod slot;
pub mod speculate;
pub mod startup;
pub mod warmth;
