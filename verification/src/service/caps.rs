//! What the batched loop may do: what the backend offers, less what the operator switched off.
use vstd::prelude::*;

verus! {

/// What the backend offers.
#[derive(Debug, Clone, Copy, PartialEq, Eq, Structural)]
pub struct Backend {
    /// Rows can be drawn on the device.
    pub device_sampling: bool,
    /// A tick can be enqueued before the last one's tokens land.
    pub decode_pipe: bool,
    /// The device draws argmax for a row that only the no-repeat guard keeps from it.
    pub greedy_ngram: bool,
    /// Prompts can advance in chunks beside decode rows.
    pub chunked_prefill: bool,
    /// Multimodal prompts can take a slot.
    pub mm_slots: bool,
    /// Sequences that its draft state serves.
    pub live_cap: usize,
}

/// What the operator set.
#[derive(Debug, Clone, Copy, PartialEq, Eq, Structural)]
pub struct Switches {
    pub device_sampling: bool,
    pub decode_pipe: bool,
    pub chunked_prefill: bool,
    /// Prompts and decode rows share one pass.
    pub unified: bool,
    /// Speculation is pinned off.
    pub spec_off: bool,
    /// The speculation policy is to draft nothing.
    pub policy_off: bool,
    /// Sequences that a device-sampled round takes, as set.
    pub live_max: usize,
    /// Rows that a verify pass may hold.
    pub max_rows: usize,
}

/// What the batched loop may do.
#[derive(Debug, Clone, Copy, PartialEq, Eq, Structural)]
pub struct Caps {
    pub sampling: bool,
    pub pipe: bool,
    /// A row that only the no-repeat guard keeps off the device may be drawn there while the guard
    /// bans nothing.
    pub guard_ok: bool,
    pub chunked: bool,
    pub unified: bool,
    pub mm_slots: bool,
    pub spec: bool,
    /// Sequences that a device-sampled round takes.
    pub live_max: usize,
    /// Sequences that the backend's draft state serves.
    pub live_cap: usize,
}

/// The smallest of three numbers.
pub open spec fn least_of(a: usize, b: usize, c: usize) -> usize {
    if a <= b && a <= c {
        a
    } else if b <= c {
        b
    } else {
        c
    }
}

/// What the batched loop may do.
pub open spec fn granted(b: Backend, k: Switches) -> Caps {
    let sampling = b.device_sampling && k.device_sampling;
    let pipe = sampling && b.decode_pipe && k.decode_pipe;
    let chunked = b.chunked_prefill && k.chunked_prefill;
    Caps {
        sampling,
        pipe,
        guard_ok: sampling && !pipe && b.greedy_ngram,
        chunked,
        unified: chunked && k.unified,
        mm_slots: b.mm_slots,
        spec: !k.spec_off && !k.policy_off,
        live_max: least_of(k.live_max, k.max_rows, b.live_cap),
        live_cap: b.live_cap,
    }
}

/// What the batched loop may do.
pub fn capabilities(b: &Backend, k: &Switches) -> (c: Caps)
    ensures
        c == granted(*b, *k),
{
    let sampling: bool = b.device_sampling && k.device_sampling;
    let pipe: bool = sampling && b.decode_pipe && k.decode_pipe;
    let chunked: bool = b.chunked_prefill && k.chunked_prefill;
    let rows: usize = if k.live_max <= k.max_rows {
        k.live_max
    } else {
        k.max_rows
    };
    Caps {
        sampling,
        pipe,
        guard_ok: sampling && !pipe && b.greedy_ngram,
        chunked,
        unified: chunked && k.unified,
        mm_slots: b.mm_slots,
        spec: !k.spec_off && !k.policy_off,
        live_max: if rows <= b.live_cap {
            rows
        } else {
            b.live_cap
        },
        live_cap: b.live_cap,
    }
}

/// The no-repeat guard's argmax is never drawn on the device beside the pipe, whose plans are made
/// before the last token lands, so that the guard's verdict would be stale.
pub proof fn law_guard_never_meets_the_pipe(b: Backend, k: Switches)
    ensures
        !(granted(b, k).guard_ok && granted(b, k).pipe),
{
}

/// A device-sampled round never takes more sequences than the verify pass has rows for, or than the
/// backend's draft state serves.
pub proof fn law_rounds_fit_the_backend(b: Backend, k: Switches)
    ensures
        granted(b, k).live_max <= k.max_rows,
        granted(b, k).live_max <= granted(b, k).live_cap,
{
}

/// A capability is granted only where the backend has it and no switch is against it, and always
/// then.
pub proof fn law_caps_need_backend_and_switch(b: Backend, k: Switches)
    ensures
        granted(b, k).sampling <==> b.device_sampling && k.device_sampling,
        granted(b, k).pipe ==> granted(b, k).sampling && b.decode_pipe && k.decode_pipe,
        granted(b, k).sampling && b.decode_pipe && k.decode_pipe ==> granted(b, k).pipe,
        granted(b, k).guard_ok ==> granted(b, k).sampling && b.greedy_ngram,
        granted(b, k).sampling && b.greedy_ngram && !granted(b, k).pipe ==> granted(b, k).guard_ok,
        granted(b, k).unified ==> granted(b, k).chunked && k.unified,
        granted(b, k).chunked <==> b.chunked_prefill && k.chunked_prefill,
        granted(b, k).chunked && k.unified ==> granted(b, k).unified,
        granted(b, k).mm_slots == b.mm_slots,
        granted(b, k).spec <==> !(k.spec_off || k.policy_off),
{
}

/// Rounds are for as many sequences as the switches, the rows and the backend all allow, and no
/// fewer.
pub proof fn law_rounds_are_as_wide_as_allowed(b: Backend, k: Switches, n: usize)
    ensures
        n <= granted(b, k).live_max <==> n <= k.live_max && n <= k.max_rows && n <= b.live_cap,
        granted(b, k).live_cap == b.live_cap,
{
}

} // verus!
