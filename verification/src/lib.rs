use vstd::prelude::*;

pub mod error;
pub mod knobs;
pub mod kv_plan;
pub mod qwen4exp;
pub mod request;
pub mod sampling;
pub mod service;
pub mod text;

verus! {

/// Tokens one KV block holds.
pub const BLOCK_TOKENS: usize = 16;

} // verus!
