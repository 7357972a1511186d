//! Pipelined decode: when a segment may begin, when it must end, and what a tick is.
use crate::sampling::{DevicePlan, RowSample};
use crate::service::batch::{Batch, BatchView};
use crate::service::gates::has_headroom;
use crate::service::gates;
use vstd::prelude::*;

verus! {

/// A segment shorter than this does not pay for its cold start.
pub const SHORT_SEGMENT: u32 = 12;

/// The most extra quiet that short segments add up to.
pub const BACKOFF_MAX: u32 = 192;

/// The economics of pipe segments: ticks since the last admission, and the extra quiet that
/// segments which died young have earned.
#[derive(Debug, Clone, Copy, PartialEq, Eq, Structural)]
pub struct PipePace {
    pub min_quiet: u32,
    pub since_admission: u32,
    pub backoff: u32,
    pub segment: u32,
}

/// The backoff after a segment of `ticks` ticks.
pub open spec fn next_backoff(backoff: u32, ticks: u32) -> int {
    if ticks < SHORT_SEGMENT {
        if 2 * backoff + 4 <= BACKOFF_MAX {
            2 * backoff + 4
        } else {
            BACKOFF_MAX as int
        }
    } else {
        backoff as int / 2
    }
}

/// One more, or as many as there can be.
pub open spec fn counted(n: u32) -> u32 {
    if n < u32::MAX {
        (n + 1) as u32
    } else {
        n
    }
}

impl PipePace {
    /// A fresh pace: quiet from the start, no backoff.
    pub fn new(min_quiet: u32) -> (p: Self)
        ensures
            p == (PipePace { min_quiet, since_admission: u32::MAX, backoff: 0, segment: 0 }),
    {
        PipePace { min_quiet, since_admission: u32::MAX, backoff: 0, segment: 0 }
    }

    /// Quiet enough for a segment to begin.
    pub open spec fn is_quiet(self) -> bool {
        self.since_admission >= (if self.min_quiet + self.backoff <= u32::MAX {
            self.min_quiet + self.backoff
        } else {
            u32::MAX as int
        })
    }

    /// Quiet enough for a segment to begin.
    pub fn quiet(&self) -> (r: bool)
        ensures
            r == self.is_quiet(),
    {
        self.since_admission >= self.min_quiet.saturating_add(self.backoff)
    }

    pub fn admitted(&mut self)
        ensures
            *final(self) == (PipePace { since_admission: 0, ..*old(self) }),
    {
        self.since_admission = 0;
    }

    /// A tick outside the pipe passed.
    pub fn ticked(&mut self)
        ensures
            *final(self) == (PipePace {
                since_admission: counted(old(self).since_admission),
                ..*old(self)
            }),
    {
        self.since_admission = self.since_admission.saturating_add(1);
    }

    /// A pipe tick passed.
    pub fn piped(&mut self)
        ensures
            *final(self) == (PipePace {
                since_admission: counted(old(self).since_admission),
                segment: counted(old(self).segment),
                ..*old(self)
            }),
    {
        self.since_admission = self.since_admission.saturating_add(1);
        self.segment = self.segment.saturating_add(1);
    }

    /// The segment is broken off: a short one doubles the backoff, a long one halves it.
    pub fn broken(&mut self)
        requires
            old(self).backoff <= BACKOFF_MAX,
        ensures
            final(self).backoff == next_backoff(old(self).backoff, old(self).segment),
            final(self).backoff <= BACKOFF_MAX,
            final(self).segment == 0,
            final(self).min_quiet == old(self).min_quiet,
            final(self).since_admission == old(self).since_admission,
    {
        if self.segment < SHORT_SEGMENT {
            let more: u32 = 2 * self.backoff + 4;
            self.backoff = if more <= BACKOFF_MAX {
                more
            } else {
                BACKOFF_MAX
            };
        } else {
            self.backoff = self.backoff / 2;
        }
        self.segment = 0;
    }
}

/// The pipe stays within reach after any churn: long segments bring the backoff down to nothing.
pub proof fn law_backoff_decays(backoff: u32, ticks: u32)
    requires
        backoff <= BACKOFF_MAX,
    ensures
        0 <= next_backoff(backoff, ticks) <= BACKOFF_MAX,
        ticks >= SHORT_SEGMENT && backoff > 0 ==> next_backoff(backoff, ticks) < backoff,
        ticks < SHORT_SEGMENT && backoff < BACKOFF_MAX ==> next_backoff(backoff, ticks) > backoff,
{
}

/// How long decode must have been quiet: longer where speculation will really run.
pub fn default_quiet(spec_capable: bool, spec_off: bool) -> (n: u32)
    ensures
        n == (if spec_capable && !spec_off {
            512u32
        } else {
            4u32
        }),
{
    if spec_capable && !spec_off {
        512
    } else {
        4
    }
}

/// A plan that can ride the pipe: drawn on the device, truncation only where the device does all of
/// it. Holes ride.
pub open spec fn rides(p: RowSample, trunc: bool) -> bool {
    match p {
        RowSample::Host => false,
        RowSample::Device(DevicePlan::TruncCat { .. }) => trunc,
        _ => true,
    }
}

/// Every row's plan can ride the pipe.
pub fn all_ride(plans: &Vec<RowSample>, trunc: bool) -> (r: bool)
    ensures
        r <==> forall|i: int| 0 <= i < plans@.len() ==> #[trigger] rides(plans@[i], trunc),
{
    let mut i: usize = 0;
    while i < plans.len()
        invariant
            i <= plans@.len(),
            forall|j: int| 0 <= j < i ==> #[trigger] rides(plans@[j], trunc),
        decreases plans@.len() - i,
    {
        let ok: bool = match plans[i] {
            RowSample::Host => false,
            RowSample::Device(DevicePlan::TruncCat { .. }) => trunc,
            _ => true,
        };
        if !ok {
            assert(!rides(plans@[i as int], trunc));
            return false;
        }
        i = i + 1;
    }
    true
}

/// A one-time hold that lines a cohort up: armed when the batch has drained, it engages once the
/// batch is full and lets go when enough slots are free.
#[derive(Debug, Clone, Copy, PartialEq, Eq, Structural)]
pub struct Resync {
    pub armed: bool,
    pub holding: bool,
}

/// Free slots that a resync waits for: as many as asked, but four fewer than there are.
pub open spec fn resync_wave(asked: int, width: int) -> int {
    let most = if width >= 4 {
        width - 4
    } else {
        0
    };
    if asked <= most {
        asked
    } else {
        most
    }
}

/// One observation of `free` slots out of `width`.
pub open spec fn resynced(r: Resync, wave: int, free: int, width: int) -> Resync {
    if wave <= 0 {
        r
    } else if free + 2 >= width {
        Resync { armed: true, ..r }
    } else if r.armed && free == 0 {
        Resync { armed: false, holding: true }
    } else if r.holding && free >= wave {
        Resync { holding: false, ..r }
    } else {
        r
    }
}

impl Resync {
    pub fn new(asked: usize) -> (r: Self)
        ensures
            r == (Resync { armed: asked > 0, holding: false }),
    {
        Resync { armed: asked > 0, holding: false }
    }

    /// Observe the batch; the free slots to wait for before the next request is looked at.
    pub fn poll_min(&mut self, asked: usize, predict_k: usize, free: usize, width: usize) -> (n:
        usize)
        requires
            free <= width,
        ensures
            *final(self) == resynced(
                *old(self),
                resync_wave(asked as int, width as int),
                free as int,
                width as int,
            ),
            n == (if final(self).holding {
                resync_wave(asked as int, width as int)
            } else {
                let k = if predict_k >= 1 {
                    predict_k as int
                } else {
                    1
                };
                if k <= width as int / 2 {
                    k
                } else {
                    width as int / 2
                }
            }),
    {
        let most: usize = width.saturating_sub(4);
        let wave: usize = if asked <= most {
            asked
        } else {
            most
        };
        if wave > 0 {
            if width - free <= 2 {
                self.armed = true;
            } else if self.armed && free == 0 {
                self.armed = false;
                self.holding = true;
            } else if self.holding && free >= wave {
                self.holding = false;
            }
        }
        if self.holding {
            wave
        } else {
            let k: usize = if predict_k >= 1 {
                predict_k
            } else {
                1
            };
            if k <= width / 2 {
                k
            } else {
                width / 2
            }
        }
    }
}

/// A hold that engaged lets go as soon as its wave is free, and does not engage again before the
/// batch has drained.
pub proof fn law_resync_is_one_shot(r: Resync, wave: int, free: int, width: int)
    requires
        wave > 0,
        0 <= free,
        free + 2 < width,
        !r.armed,
    ensures
        !resynced(r, wave, free, width).armed,
        resynced(r, wave, free, width).holding ==> r.holding && free < wave,
{
}

/// What to do with a running segment.
#[derive(Debug, Clone, Copy, PartialEq, Eq, Structural)]
pub enum PipeStep {
    /// Enqueue the next tick.
    Next,
    /// Drain and hand over to the scheduler.
    Break,
}

/// A running segment ends when a row needs the host, when a request has come, or when the pool may
/// run out.
pub fn pipe_step(host_row: bool, arrival: bool, pool_free: Option<usize>, rows: usize) -> (s:
    PipeStep)
    ensures
        s == (if host_row || arrival || !gates::headroom(pool_free, rows as int) {
            PipeStep::Break
        } else {
            PipeStep::Next
        }),
{
    if host_row || arrival || !has_headroom(pool_free, rows) {
        PipeStep::Break
    } else {
        PipeStep::Next
    }
}

/// A pipe that lost a sequence goes on as long as any is left below the mark: the dead row ticks as
/// a hole.
pub fn pipe_survives(died: bool, any_left: bool) -> (r: bool)
    ensures
        r == (!died || any_left),
{
    !died || any_left
}

/// A short text prompt may prefill under the running pipe.
pub fn may_overlap(multimodal: bool, prompt: usize, most: usize, scratch_fits: bool) -> (r: bool)
    ensures
        r == (!multimodal && prompt <= most && scratch_fits),
{
    !multimodal && prompt <= most && scratch_fits
}

/// How a row of a tick is drawn.
#[derive(Debug, Clone, Copy, PartialEq, Eq, Structural)]
pub enum Draw {
    /// Nothing decodes here: draw nothing.
    Hole,
    /// The host draws from the row's logits.
    Host,
    /// Ask the sequence's sampler for a device plan.
    Plan,
}

impl BatchView {
    /// How the row of slot `k` is drawn. A sequence without KV draws nothing, which leaves its seed
    /// stream as it was.
    pub open spec fn draw(self, k: int) -> Draw {
        match self.slots[k] {
            None => Draw::Hole,
            Some(s) => if !s.prefilled {
                Draw::Hole
            } else if !s.constrained && s.logprobs is None {
                Draw::Plan
            } else {
                Draw::Host
            },
        }
    }

    /// Whether the first token of the prompt at `k` may be drawn on the device. A sequence that
    /// resumes draws none.
    pub open spec fn finisher(self, k: int) -> bool {
        self.slots[k] matches Some(s) && !s.resumes() && !s.constrained && s.logprobs is None
    }
}

impl Batch {
    /// How the row of slot `k` is drawn.
    pub fn draw(&self, k: usize) -> (d: Draw)
        requires
            k < self@.width(),
        ensures
            d == self@.draw(k as int),
    {
        match &self.slots[k] {
            None => Draw::Hole,
            Some(s) => if !s.prefilled {
                Draw::Hole
            } else if !s.constrained && s.logprobs.is_none() {
                Draw::Plan
            } else {
                Draw::Host
            },
        }
    }

    /// Whether the first token of the prompt at `k` may be drawn on the device.
    pub fn finisher(&self, k: usize) -> (r: bool)
        requires
            k < self@.width(),
        ensures
            r == self@.finisher(k as int),
    {
        match &self.slots[k] {
            None => false,
            Some(s) => !(s.recompute && s.pos > 0) && !s.constrained && s.logprobs.is_none(),
        }
    }
}

/// What a sampler's answer makes of a row: its plan, or, where only the no-repeat guard stands in
/// the way and bans nothing, argmax on the device; else the host.
pub fn planned(plan: Option<DevicePlan>, guard_only: bool, guard_bans: bool, guard_ok: bool) -> (r:
    RowSample)
    ensures
        r == (match plan {
            Some(p) => RowSample::Device(p),
            None => if guard_ok && guard_only && !guard_bans {
                RowSample::Device(DevicePlan::Greedy)
            } else {
                RowSample::Host
            },
        }),
{
    match plan {
        Some(p) => RowSample::Device(p),
        None => if guard_ok && guard_only && !guard_bans {
            RowSample::Device(DevicePlan::Greedy)
        } else {
            RowSample::Host
        },
    }
}

/// What is known of a tick when its pass is chosen.
#[derive(Debug, Clone, Copy, PartialEq, Eq, Structural)]
pub struct TickFacts {
    /// A mixed tick is due.
    pub mixed: bool,
    /// Rows can be drawn on the device.
    pub device_sampling: bool,
    /// The span can run beside pipelined decode ticks.
    pub overlap: bool,
    /// The decode rows can ride verify chunks.
    pub mixed_round: bool,
    /// A speculative round is due.
    pub round_due: bool,
    pub greedy: bool,
    pub device: bool,
    pub sampled: bool,
    /// Some slot is occupied.
    pub occupied: bool,
}

/// The pass a tick runs.
#[derive(Debug, Clone, Copy, PartialEq, Eq, Structural)]
pub enum Pass {
    MixedOverlap,
    MixedRound,
    MixedSampled,
    MixedPlain,
    RoundGreedy,
    RoundDevice,
    RoundSampled,
    DecodeSampled,
    DecodePlain,
    /// Nothing to run.
    Idle,
}

/// The pass a tick runs when nothing has been declined.
pub open spec fn first_pass(f: TickFacts) -> Pass {
    if f.mixed {
        if f.overlap {
            Pass::MixedOverlap
        } else if f.mixed_round {
            Pass::MixedRound
        } else {
            plain_mixed(f)
        }
    } else if f.round_due && f.greedy {
        Pass::RoundGreedy
    } else if f.round_due && f.device {
        Pass::RoundDevice
    } else if f.round_due && f.sampled {
        Pass::RoundSampled
    } else {
        plain_decode(f)
    }
}

/// The mixed pass without speculation.
pub open spec fn plain_mixed(f: TickFacts) -> Pass {
    if f.device_sampling {
        Pass::MixedSampled
    } else {
        Pass::MixedPlain
    }
}

/// The decode step without speculation.
pub open spec fn plain_decode(f: TickFacts) -> Pass {
    if !f.occupied {
        Pass::Idle
    } else if f.device_sampling {
        Pass::DecodeSampled
    } else {
        Pass::DecodePlain
    }
}

/// What runs in place of a pass that the backend declined.
pub open spec fn fallback(f: TickFacts, declined: Pass) -> Pass {
    match declined {
        Pass::MixedRound => plain_mixed(f),
        Pass::RoundGreedy => plain_decode(f),
        Pass::RoundDevice => plain_decode(f),
        Pass::RoundSampled => plain_decode(f),
        _ => Pass::Idle,
    }
}

/// The pass a tick runs.
pub fn choose_pass(f: &TickFacts) -> (p: Pass)
    ensures
        p == first_pass(*f),
{
    if f.mixed {
        if f.overlap {
            Pass::MixedOverlap
        } else if f.mixed_round {
            Pass::MixedRound
        } else if f.device_sampling {
            Pass::MixedSampled
        } else {
            Pass::MixedPlain
        }
    } else if f.round_due && f.greedy {
        Pass::RoundGreedy
    } else if f.round_due && f.device {
        Pass::RoundDevice
    } else if f.round_due && f.sampled {
        Pass::RoundSampled
    } else if !f.occupied {
        Pass::Idle
    } else if f.device_sampling {
        Pass::DecodeSampled
    } else {
        Pass::DecodePlain
    }
}

/// What runs in place of a pass that the backend declined.
pub fn choose_fallback(f: &TickFacts, declined: &Pass) -> (p: Pass)
    ensures
        p == fallback(*f, *declined),
{
    match declined {
        Pass::MixedRound => if f.device_sampling {
            Pass::MixedSampled
        } else {
            Pass::MixedPlain
        },
        Pass::RoundGreedy | Pass::RoundDevice | Pass::RoundSampled => if !f.occupied {
            Pass::Idle
        } else if f.device_sampling {
            Pass::DecodeSampled
        } else {
            Pass::DecodePlain
        },
        _ => Pass::Idle,
    }
}

/// A declined round costs speculation, never progress: as long as a slot is occupied some pass runs
/// that cannot be declined in turn.
pub proof fn law_declined_rounds_still_step(f: TickFacts)
    requires
        f.occupied,
    ensures
        first_pass(f) != Pass::Idle,
        ({
            let p = first_pass(f);
            p == Pass::MixedRound || p == Pass::RoundGreedy || p == Pass::RoundDevice || p
                == Pass::RoundSampled ==> {
                let q = fallback(f, p);
                q == Pass::MixedSampled || q == Pass::MixedPlain || q == Pass::DecodeSampled || q
                    == Pass::DecodePlain
            }
        }),
{
}

/// Whether decode rows ride verify chunks ahead of the overlapped span: only when the whole serve
/// width fits the round.
pub fn round_before_overlap(
    device_sampling: bool,
    enabled: bool,
    spec_on: bool,
    rows: usize,
    width: usize,
    live_max: usize,
    all_device: bool,
) -> (r: bool)
    ensures
        r == (device_sampling && enabled && spec_on && 0 < rows <= live_max && width <= live_max
            && all_device),
{
    device_sampling && enabled && spec_on && rows > 0 && rows <= live_max && width <= live_max
        && all_device
}

/// Whether a prefill span runs beside pipelined decode ticks: no round comes first, every decode row
/// is drawn on the device, and the pool holds a tick of growth for the whole width.
pub fn overlap_now(
    unified: bool,
    round_first: bool,
    supported: bool,
    rows: usize,
    all_device: bool,
    pool_free: Option<usize>,
    width: usize,
) -> (r: bool)
    ensures
        r == (unified && !round_first && supported && rows > 0 && all_device && gates::headroom(
            pool_free,
            width as int,
        )),
{
    unified && !round_first && supported && rows > 0 && all_device && has_headroom(pool_free, width)
}

/// What the ticks beside a span do next: they stop when the span is done, the pool runs low, every
/// row has ended, or a row needs the host.
pub fn pump_step(
    span_done: bool,
    any_left: bool,
    host_row: bool,
    pool_free: Option<usize>,
    width: usize,
) -> (s: PipeStep)
    ensures
        s == (if span_done || !any_left || host_row || !gates::headroom(pool_free, width as int) {
            PipeStep::Break
        } else {
            PipeStep::Next
        }),
{
    if span_done || !any_left || host_row || !has_headroom(pool_free, width) {
        PipeStep::Break
    } else {
        PipeStep::Next
    }
}

/// Whether a pipe segment opens: decode has been quiet long enough, every row can ride, and the
/// pool holds a tick of growth.
pub fn pipe_opens(
    supported: bool,
    pace: &PipePace,
    rides: bool,
    pool_free: Option<usize>,
    rows: usize,
) -> (r: bool)
    ensures
        r == (supported && pace.is_quiet() && rides && gates::headroom(pool_free, rows as int)),
{
    supported && pace.quiet() && rides && has_headroom(pool_free, rows)
}

/// Whether a one-ahead speculative segment may begin: a steady, wide round at full and even depth.
pub open spec fn pipe_round(any_dead: bool, k_budget: int, depths: Seq<usize>) -> bool {
    &&& !any_dead
    &&& depths.len() >= 16
    &&& k_budget >= 2
    &&& forall|i: int| 0 <= i < depths.len() ==> #[trigger] depths[i] == k_budget + 1
}

/// Whether a one-ahead speculative segment may begin.
pub fn may_pipe_round(any_dead: bool, k_budget: usize, depths: &Vec<usize>) -> (r: bool)
    requires
        k_budget < usize::MAX,
    ensures
        r == pipe_round(any_dead, k_budget as int, depths@),
{
    if any_dead || depths.len() < 16 || k_budget < 2 {
        return false;
    }
    let mut i: usize = 0;
    while i < depths.len()
        invariant
            i <= depths@.len(),
            k_budget < usize::MAX,
            forall|j: int| 0 <= j < i ==> #[trigger] depths@[j] == k_budget + 1,
        decreases depths@.len() - i,
    {
        if depths[i] != k_budget + 1 {
            return false;
        }
        i = i + 1;
    }
    true
}

/// A segment of fewer than twelve ticks doubles the wait and adds four, up to a hundred and
/// ninety-two; a longer one halves it.
pub proof fn law_short_segments_double_the_wait(backoff: u32, ticks: u32)
    ensures
        ticks < 12 && backoff <= 94 ==> next_backoff(backoff, ticks) == 2 * backoff + 4,
        ticks < 12 && backoff > 94 ==> next_backoff(backoff, ticks) == 192,
        ticks >= 12 ==> 2 * next_backoff(backoff, ticks) <= backoff < 2 * next_backoff(
            backoff,
            ticks,
        ) + 2,
        counted(backoff) >= backoff,
        backoff < u32::MAX ==> counted(backoff) == backoff + 1,
        backoff == u32::MAX ==> counted(backoff) == u32::MAX,
{
}

/// The pipe starts once as many ticks as its quiet time and its wait together have passed without
/// an admission.
pub proof fn law_pipe_waits_for_quiet(p: PipePace)
    requires
        p.min_quiet + p.backoff <= u32::MAX,
    ensures
        p.is_quiet() <==> p.since_admission >= p.min_quiet + p.backoff,
{
}

/// A resync holds admission from the moment a drained batch has filled up again until its wave is
/// free: it arms when two slots at most are taken, starts to hold when none is free, and lets go
/// when the wave is; without a wave nothing moves. A wave is never more than four fewer than there
/// are.
pub proof fn law_resync_holds_for_its_wave(r: Resync, asked: int, free: int, width: int)
    requires
        0 <= free <= width,
        0 <= asked,
    ensures
        0 <= resync_wave(asked, width) <= asked,
        resync_wave(asked, width) < asked ==> resync_wave(asked, width) == 0 && width <= 4
            || resync_wave(asked, width) == width - 4,
        width >= 4 ==> resync_wave(asked, width) <= width - 4,
        width < 4 ==> resync_wave(asked, width) == 0,
        asked + 4 <= width ==> resync_wave(asked, width) == asked,
        ({
            let wave = resync_wave(asked, width);
            let t = resynced(r, wave, free, width);
            &&& wave == 0 ==> t == r
            &&& wave > 0 && width - free <= 2 ==> t.armed && t.holding == r.holding
            &&& wave > 0 && width - free > 2 && r.armed && free == 0 ==> !t.armed && t.holding
            &&& wave > 0 && width - free > 2 && !(r.armed && free == 0) && r.holding && free
                >= wave ==> !t.holding && t.armed == r.armed
            &&& wave > 0 && width - free > 2 && free > 0 && free < wave ==> t == r
            &&& t.holding && !r.holding ==> r.armed && free == 0
        }),
{
}

/// A hole is drawn from by nobody; a decoding row is drawn by the host exactly where a grammar
/// binds it or its logprobs are asked for.
pub proof fn law_rows_are_drawn_where_they_can_be(b: BatchView, k: int)
    ensures
        b.draw(k) == Draw::Hole <==> !(b.slots[k] matches Some(s) && s.prefilled),
        b.draw(k) == Draw::Host <==> (b.slots[k] matches Some(s) && s.prefilled && (s.constrained
            || s.logprobs is Some)),
        b.draw(k) == Draw::Plan <==> (b.slots[k] matches Some(s) && s.prefilled && !s.constrained
            && s.logprobs is None),
        b.finisher(k) ==> b.slots[k] is Some && !b.slots[k]->0.constrained,
        b.slots[k] matches Some(s) ==> {
            &&& s.recompute && s.pos > 0 ==> !b.finisher(k)
            &&& s.logprobs is Some || s.constrained ==> !b.finisher(k)
            &&& !s.recompute && s.logprobs is None && !s.constrained ==> b.finisher(k)
            &&& s.pos == 0 && s.logprobs is None && !s.constrained ==> b.finisher(k)
        },
{
}

/// A tick runs a mixed pass exactly when one is due, a round only when one is due and all rows
/// can take it, and is idle only with every slot free. Rounds that everyone can take greedily come
/// before those drawn on the device, and these before those the host samples.
pub proof fn law_ticks_run_what_is_due(f: TickFacts)
    ensures
        ({
            let p = first_pass(f);
            let mixed = p == Pass::MixedOverlap || p == Pass::MixedRound || p == Pass::MixedSampled
                || p == Pass::MixedPlain;
            let round = p == Pass::RoundGreedy || p == Pass::RoundDevice || p == Pass::RoundSampled;
            &&& f.mixed <==> mixed
            &&& p == Pass::MixedOverlap <==> f.mixed && f.overlap
            &&& p == Pass::MixedRound <==> f.mixed && !f.overlap && f.mixed_round
            &&& p == Pass::MixedSampled || p == Pass::DecodeSampled ==> f.device_sampling
            &&& p == Pass::MixedPlain || p == Pass::DecodePlain ==> !f.device_sampling
            &&& round ==> f.round_due && !f.mixed
            &&& !f.mixed && f.round_due && (f.greedy || f.device || f.sampled) ==> round
            &&& p == Pass::RoundGreedy ==> f.greedy
            &&& p == Pass::RoundDevice ==> f.device && !f.greedy
            &&& p == Pass::RoundSampled ==> f.sampled && !f.greedy && !f.device
            &&& p == Pass::Idle ==> !f.occupied && !f.mixed
            &&& !f.mixed && !round && f.occupied ==> p == Pass::DecodeSampled || p
                == Pass::DecodePlain
            &&& !f.mixed && !round && !f.occupied ==> p == Pass::Idle
        }),
{
}

/// A declined round falls back to the plain pass of its kind, drawn on the device where rows can
/// be.
pub proof fn law_declined_rounds_fall_back_in_kind(f: TickFacts)
    ensures
        fallback(f, Pass::MixedRound) == (if f.device_sampling {
            Pass::MixedSampled
        } else {
            Pass::MixedPlain
        }),
        f.occupied ==> fallback(f, Pass::RoundGreedy) == (if f.device_sampling {
            Pass::DecodeSampled
        } else {
            Pass::DecodePlain
        }),
        fallback(f, Pass::RoundDevice) == fallback(f, Pass::RoundGreedy),
        fallback(f, Pass::RoundSampled) == fallback(f, Pass::RoundGreedy),
        !f.occupied ==> fallback(f, Pass::RoundGreedy) == Pass::Idle,
        fallback(f, Pass::DecodePlain) == Pass::Idle && fallback(f, Pass::MixedPlain) == Pass::Idle,
{
}

/// A round goes down the pipe only with sixteen rows or more, none dead, all at the full depth of
/// two drafts or more.
pub proof fn law_piped_rounds_are_full(any_dead: bool, k_budget: int, depths: Seq<usize>, i: int)
    requires
        0 <= i < depths.len(),
        pipe_round(any_dead, k_budget, depths),
    ensures
        !any_dead,
        depths.len() >= 16,
        depths[i] >= 3,
        depths[i] == k_budget + 1,
{
}

/// Where that holds, a round does go down the pipe.
pub proof fn law_full_rounds_are_piped(k_budget: int, depths: Seq<usize>)
    requires
        depths.len() >= 16,
        k_budget >= 2,
        forall|i: int| 0 <= i < depths.len() ==> #[trigger] depths[i] == k_budget + 1,
    ensures
        pipe_round(false, k_budget, depths),
{
}

/// A row that the host draws never rides the pipe, a truncated one only where the pipe truncates,
/// and every other does, a hole too.
pub proof fn law_host_rows_do_not_ride(p: RowSample, trunc: bool)
    ensures
        p is Host ==> !rides(p, trunc),
        p is Hole ==> rides(p, trunc),
        p matches RowSample::Device(d) ==> (rides(p, trunc) <==> trunc || !(d is TruncCat)),
{
}

} // verus!
