//! What goes into the engine and what comes out: requests, events, finish reasons, run statistics.
use crate::error::EngineError;
use vstd::prelude::*;

verus! {

/// Why a sequence ended.
#[derive(Debug, Clone, Copy, PartialEq, Eq, Structural)]
pub enum FinishReason {
    /// hit a stop token
    Stop,
    /// hit max_tokens
    Length,
}

impl FinishReason {
    /// OpenAI `finish_reason` string.
    pub fn as_str(&self) -> (s: &'static str)
        ensures
            s@ == (match self {
                FinishReason::Stop => "stop"@,
                FinishReason::Length => "length"@,
            }),
    {
        match self {
            FinishReason::Stop => "stop",
            FinishReason::Length => "length",
        }
    }
}

/// The two image-serving geometries of the OCR family.
#[derive(Clone, Copy, Debug, PartialEq, Eq, Structural)]
pub enum OcrCropMode {
    /// One padded global view plus tiled crops (single image only).
    Gundam,
    /// The no-crop layout: one padded view per image.
    Base,
}

/// Engine-measured phase timings and counters of one request.
#[derive(Debug, Clone, Copy, PartialEq, Eq, Structural)]
pub struct RunStats {
    /// submit to admission
    pub queued_ms: u32,
    /// admission to prompt fully prefilled
    pub prefill_ms: u32,
    /// prefill done to finish
    pub decode_ms: u32,
    /// speculative tokens drafted for this sequence
    pub spec_drafted: u32,
    /// how many of those the verify pass accepted
    pub spec_accepted: u32,
    /// KV pages the sequence's whole context takes
    pub kv_pages: u32,
}

impl Default for RunStats {
    fn default() -> (s: Self)
        ensures
            s == (RunStats {
                queued_ms: 0,
                prefill_ms: 0,
                decode_ms: 0,
                spec_drafted: 0,
                spec_accepted: 0,
                kv_pages: 0,
            }),
    {
        RunStats {
            queued_ms: 0,
            prefill_ms: 0,
            decode_ms: 0,
            spec_drafted: 0,
            spec_accepted: 0,
            kv_pages: 0,
        }
    }
}

/// What a client sees of its request.
#[derive(Debug, Clone)]
pub enum TokenEvent {
    /// The prompt is in: `rows` KV rows, `cached` of them served from the prefix cache.
    Prefilled { cached: u32, rows: u32 },
    Token { id: u32 },
    Done(FinishReason, RunStats),
    Error(EngineError),
}

/// What the sampling settings of a request let the engine do with it. Fixed for its life.
#[derive(Debug, Clone, Copy, PartialEq, Eq, Structural)]
pub struct SamplingTraits {
    /// plain argmax
    pub pure_greedy: bool,
    /// greedy or temperature only: a row can be drawn on the device
    pub device_plannable: bool,
    /// truncation (top-k, top-p, min-p) that a device can draw
    pub trunc_plannable: bool,
    /// row-local sampling: exact under accept-while-match
    pub spec_safe: bool,
    /// greedy but for the no-repeat guard
    pub greedy_ngram_only: bool,
}

/// A generation request, as the scheduler sees it. The host keeps the request's channel, sampler
/// and output constraint under `id`.
#[derive(Debug, Clone)]
pub struct GenRequest {
    pub id: u64,
    /// Prompt token ids.
    pub prompt: Vec<u32>,
    pub max_tokens: usize,
    /// Generation ends when any of these is produced; not emitted.
    pub stop_tokens: Vec<u32>,
    pub sampling: SamplingTraits,
    /// The prompt carries image or audio chunks.
    pub multimodal: bool,
    /// The output is bound by a grammar.
    pub constrained: bool,
    /// Attach per-token logprobs with this many alternatives.
    pub logprobs: Option<u8>,
    /// When the request was submitted, in nanoseconds on the engine's clock.
    pub submitted: Option<u64>,
}

/// Milliseconds in `nanos`, at most what 32 bits hold.
pub open spec fn millis(nanos: int) -> int {
    if nanos / 1_000_000 <= u32::MAX {
        nanos / 1_000_000
    } else {
        u32::MAX as int
    }
}

/// A duration in nanoseconds as whole milliseconds, at most what 32 bits hold.
pub fn dur_ms(nanos: u64) -> (ms: u32)
    ensures
        ms == millis(nanos as int),
{
    let ms: u64 = nanos / 1_000_000;
    if ms <= u32::MAX as u64 {
        ms as u32
    } else {
        u32::MAX
    }
}

/// The span from `from` to `to`, nothing when the clock went backwards.
pub open spec fn span(from: int, to: int) -> int {
    if from <= to {
        to - from
    } else {
        0
    }
}

/// Whether `tokens` holds `id`.
pub fn has_token(tokens: &Vec<u32>, id: u32) -> (r: bool)
    ensures
        r == tokens@.contains(id),
{
    let mut i: usize = 0;
    while i < tokens.len()
        invariant
            i <= tokens.len(),
            forall|j: int| 0 <= j < i ==> tokens@[j] != id,
        decreases tokens.len() - i,
    {
        if tokens[i] == id {
            return true;
        }
        i = i + 1;
    }
    false
}

/// One constrained sampling step admits `id`: a stop token only when the output may end, any other
/// token when the grammar allows it.
pub fn token_legal(stop_tokens: &Vec<u32>, id: u32, may_stop: bool, allowed: bool) -> (r: bool)
    ensures
        r == (if stop_tokens@.contains(id) {
            may_stop
        } else {
            allowed
        }),
{
    if has_token(stop_tokens, id) {
        may_stop
    } else {
        allowed
    }
}

/// A picked token advances the grammar unless it is a stop token.
pub fn feeds_constraint(stop_tokens: &Vec<u32>, id: u32) -> (r: bool)
    ensures
        r == !stop_tokens@.contains(id),
{
    !has_token(stop_tokens, id)
}

/// A duration is written in whole milliseconds, the last one not rounded up, and one that 32 bits
/// cannot hold as the longest they can; a clock that runs back has taken no time.
pub proof fn law_durations_are_whole_milliseconds(from: int, to: int)
    requires
        0 <= from,
        0 <= to,
    ensures
        to <= from ==> span(from, to) == 0,
        from <= to ==> from + span(from, to) == to,
        0 <= millis(span(from, to)) <= u32::MAX,
        millis(span(from, to)) * 1_000_000 <= span(from, to),
        millis(span(from, to)) < u32::MAX ==> span(from, to) < (millis(span(from, to)) + 1)
            * 1_000_000,
{
}

} // verus!
