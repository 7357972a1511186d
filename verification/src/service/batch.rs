//! The batch: a fixed row of slots, the sequences that wait to be rebuilt, and who is prefilling.
use crate::error::EngineError;
use crate::request::GenRequest;
use crate::service::scan;
use crate::service::slot;
use crate::service::slot::{block_count, Slot, SlotView};
use vstd::prelude::*;

verus! {

/// Blocks kept free of new admissions, so that sequences in flight have room to grow.
pub const POOL_WATERMARK_BLOCKS: usize = 32;

/// The sequences of a batched server. A sequence keeps its slot for life; the batch row is the KV
/// slot.
pub struct Batch {
    pub slots: Vec<Option<Slot>>,
    /// Slots whose prompt is advancing through mixed ticks.
    pub chunking: Vec<bool>,
    /// Slots whose images the backend is still encoding: it owns their chunks.
    pub encoding: Vec<bool>,
    /// Sequences preempted under pool pressure, oldest first.
    pub preempted: Vec<Slot>,
}

/// The batch as mathematics sees it.
#[verifier::ext_equal]
pub struct BatchView {
    pub slots: Seq<Option<SlotView>>,
    pub chunking: Seq<bool>,
    pub encoding: Seq<bool>,
    pub preempted: Seq<SlotView>,
}

/// A place in the batch, seen.
pub open spec fn seen(s: Option<Slot>) -> Option<SlotView> {
    match s {
        Some(x) => Some(x@),
        None => None,
    }
}

impl View for Batch {
    type V = BatchView;

    open spec fn view(&self) -> BatchView {
        BatchView {
            slots: self.slots@.map_values(|s: Option<Slot>| seen(s)),
            chunking: self.chunking@,
            encoding: self.encoding@,
            preempted: self.preempted@.map_values(|s: Slot| s@),
        }
    }
}

impl BatchView {
    /// Every slot has its marks, a sequence that decodes is not prefilling, and one that waits to be
    /// rebuilt does not decode.
    pub open spec fn wf(self) -> bool {
        &&& self.chunking.len() == self.slots.len()
        &&& self.encoding.len() == self.slots.len()
        &&& forall|k: int|
            0 <= k < self.slots.len() && #[trigger] self.chunking[k] && self.slots[k] is Some
                ==> !self.slots[k]->0.prefilled
        &&& forall|i: int|
            0 <= i < self.preempted.len() ==> !(#[trigger] self.preempted[i]).prefilled
    }

    pub open spec fn width(self) -> nat {
        self.slots.len()
    }

    pub open spec fn occupied(self) -> spec_fn(int) -> bool {
        |k: int| self.slots[k] is Some
    }

    pub open spec fn free(self) -> spec_fn(int) -> bool {
        |k: int| self.slots[k] is None
    }

    pub open spec fn decoding(self) -> spec_fn(int) -> bool {
        |k: int| self.slots[k] is Some && self.slots[k]->0.prefilled
    }

    pub open spec fn waiting(self) -> spec_fn(int) -> bool {
        |k: int| self.slots[k] is Some && !self.slots[k]->0.prefilled
    }

    /// A text prompt that has not begun to prefill.
    pub open spec fn pending_text(self) -> spec_fn(int) -> bool {
        |k: int|
            !self.chunking[k] && self.slots[k] is Some && !self.slots[k]->0.prefilled
                && !self.slots[k]->0.multimodal
    }

    /// Blocks that the slot at `k` will claim and has not: those of its whole prompt.
    pub open spec fn unclaimed(self) -> spec_fn(int) -> nat {
        |k: int|
            if self.slots[k] is Some && !self.slots[k]->0.prefilled {
                slot::blocks_for(self.slots[k]->0.history.len())
            } else {
                0
            }
    }

    /// Blocks promised to admitted prompts that have not claimed them yet.
    pub open spec fn committed(self) -> nat {
        scan::sum_below(self.width(), self.unclaimed())
    }

    /// The batch with the place at `k` replaced.
    pub open spec fn with(self, k: int, s: Option<SlotView>) -> BatchView {
        BatchView { slots: self.slots.update(k, s), ..self }
    }

    /// The slot at `k`, freed.
    pub open spec fn without(self, k: int) -> BatchView {
        BatchView {
            slots: self.slots.update(k, None),
            chunking: self.chunking.update(k, false),
            ..self
        }
    }

    /// One past the highest occupied slot.
    pub open spec fn high_water(self) -> int {
        match scan::last_below(self.width() as int, self.occupied()) {
            Some(k) => k + 1,
            None => 0,
        }
    }
}

/// Blocks left of an admission budget after `blocks` are spoken for.
pub open spec fn spend(budget: Option<usize>, blocks: nat) -> Option<usize> {
    match budget {
        Some(b) => Some(
            if b >= blocks {
                (b - blocks) as usize
            } else {
                0
            },
        ),
        None => None,
    }
}

/// A budget that still admits new prompts.
pub open spec fn above_watermark(budget: Option<usize>) -> bool {
    budget matches Some(b) ==> b > POOL_WATERMARK_BLOCKS
}

/// Charge a pending prompt's blocks against the tick's admission budget.
pub fn debit_pool_budget(budget: &mut Option<usize>, req: &GenRequest)
    ensures
        *final(budget) == spend(*old(budget), slot::blocks_for(req.prompt@.len())),
{
    if let Some(b) = *budget {
        *budget = Some(b.saturating_sub(block_count(req.prompt.len())));
    }
}

/// Whether the budget still admits new prompts.
pub fn admits(budget: &Option<usize>) -> (r: bool)
    ensures
        r == above_watermark(*budget),
{
    match budget {
        Some(b) => *b > POOL_WATERMARK_BLOCKS,
        None => true,
    }
}

/// What the context window makes of a request: its token limit, or why it cannot run.
pub open spec fn screened(prompt: nat, max_tokens: usize, max_ctx: usize) -> Option<usize> {
    if prompt == 0 || prompt >= max_ctx {
        None
    } else if max_tokens <= max_ctx - prompt {
        Some(max_tokens)
    } else {
        Some((max_ctx - prompt) as usize)
    }
}

/// The reply to a request that the window cannot take.
pub open spec fn is_refusal(e: EngineError, prompt: nat, max_ctx: usize) -> bool {
    if prompt == 0 {
        e.is(crate::error::ErrorClass::InvalidRequest, None, "empty prompt"@)
    } else if prompt > max_ctx {
        e.is(
            crate::error::ErrorClass::InvalidRequest,
            Some("context_length_exceeded"@),
            EngineError::overflow_text(prompt, max_ctx as nat),
        )
    } else {
        e.is(
            crate::error::ErrorClass::InvalidRequest,
            None,
            "the prompt fills the model's entire context window; there is no room to generate"@,
        )
    }
}

/// Hold a request against the context window before anything runs: an empty prompt, one over the
/// window and one that fills it are refused; any other gets its limit cut to the room behind it.
pub fn screen(prompt: usize, max_tokens: usize, max_ctx: usize) -> (r: Result<usize, EngineError>)
    ensures
        match r {
            Ok(n) => screened(prompt as nat, max_tokens, max_ctx) == Some(n),
            Err(e) => screened(prompt as nat, max_tokens, max_ctx) is None && is_refusal(
                e,
                prompt as nat,
                max_ctx,
            ),
        },
{
    if prompt == 0 {
        return Err(EngineError::invalid("empty prompt"));
    }
    if prompt > max_ctx {
        return Err(EngineError::context_overflow(prompt, max_ctx));
    }
    let room: usize = max_ctx - prompt;
    if room == 0 {
        return Err(
            EngineError::invalid(
                "the prompt fills the model's entire context window; there is no room to generate",
            ),
        );
    }
    if max_tokens <= room {
        Ok(max_tokens)
    } else {
        Ok(room)
    }
}

/// What became of a request at the door.
pub enum Admission {
    /// It runs in this slot.
    Seated(usize),
    /// It cannot run: the reply to send.
    Refused(EngineError),
    /// No slot was free.
    Full,
}

impl Batch {
    pub fn new(width: usize) -> (b: Self)
        ensures
            b@.wf(),
            b@.width() == width,
            forall|k: int| 0 <= k < width ==> #[trigger] b@.slots[k] is None,
            forall|k: int| 0 <= k < width ==> !#[trigger] b@.chunking[k],
            forall|k: int| 0 <= k < width ==> !#[trigger] b@.encoding[k],
            b@.preempted.len() == 0,
    {
        let mut slots: Vec<Option<Slot>> = Vec::new();
        let mut chunking: Vec<bool> = Vec::new();
        let mut encoding: Vec<bool> = Vec::new();
        let mut i: usize = 0;
        while i < width
            invariant
                i <= width,
                slots@.len() == i,
                chunking@.len() == i,
                encoding@.len() == i,
                forall|k: int| 0 <= k < i ==> #[trigger] slots@[k] is None,
                forall|k: int| 0 <= k < i ==> !#[trigger] chunking@[k],
                forall|k: int| 0 <= k < i ==> !#[trigger] encoding@[k],
            decreases width - i,
        {
            slots.push(None);
            chunking.push(false);
            encoding.push(false);
            i = i + 1;
        }
        Batch { slots, chunking, encoding, preempted: Vec::new() }
    }

    /// Occupied slots.
    pub fn active(&self) -> (n: usize)
        ensures
            n == scan::tally(self@.width(), self@.occupied()),
    {
        let mut n: usize = 0;
        let mut k: usize = 0;
        while k < self.slots.len()
            invariant
                k <= self.slots@.len(),
                n <= k,
                n == scan::tally(k as nat, self@.occupied()),
            decreases self.slots@.len() - k,
        {
            if self.slots[k].is_some() {
                n = n + 1;
            }
            k = k + 1;
        }
        n
    }

    /// Sequences that decode.
    pub fn decoders(&self) -> (n: usize)
        ensures
            n == scan::tally(self@.width(), self@.decoding()),
    {
        let mut n: usize = 0;
        let mut k: usize = 0;
        while k < self.slots.len()
            invariant
                k <= self.slots@.len(),
                n <= k,
                n == scan::tally(k as nat, self@.decoding()),
            decreases self.slots@.len() - k,
        {
            if let Some(s) = &self.slots[k] {
                if s.prefilled {
                    n = n + 1;
                }
            }
            k = k + 1;
        }
        n
    }

    /// Sequences that wait for their prompt to go in.
    pub fn waiters(&self) -> (n: usize)
        ensures
            n == scan::tally(self@.width(), self@.waiting()),
    {
        let mut n: usize = 0;
        let mut k: usize = 0;
        while k < self.slots.len()
            invariant
                k <= self.slots@.len(),
                n <= k,
                n == scan::tally(k as nat, self@.waiting()),
            decreases self.slots@.len() - k,
        {
            if let Some(s) = &self.slots[k] {
                if !s.prefilled {
                    n = n + 1;
                }
            }
            k = k + 1;
        }
        n
    }

    /// Text prompts that have not begun to prefill.
    pub fn pending_texts(&self) -> (n: usize)
        requires
            self@.wf(),
        ensures
            n == scan::tally(self@.width(), self@.pending_text()),
    {
        let mut n: usize = 0;
        let mut k: usize = 0;
        while k < self.slots.len()
            invariant
                self@.wf(),
                k <= self.slots@.len(),
                n <= k,
                n == scan::tally(k as nat, self@.pending_text()),
            decreases self.slots@.len() - k,
        {
            if let Some(s) = &self.slots[k] {
                if !self.chunking[k] && !s.prefilled && !s.multimodal {
                    n = n + 1;
                }
            }
            k = k + 1;
        }
        n
    }

    /// Prompts advancing through mixed ticks.
    pub fn chunks(&self) -> (n: usize)
        requires
            self@.wf(),
        ensures
            n == scan::tally(self@.width(), |k: int| self@.chunking[k]),
    {
        let ghost p = |k: int| self@.chunking[k];
        let mut n: usize = 0;
        let mut k: usize = 0;
        while k < self.chunking.len()
            invariant
                p == (|k: int| self@.chunking[k]),
                k <= self.chunking@.len(),
                n <= k,
                n == scan::tally(k as nat, p),
            decreases self.chunking@.len() - k,
        {
            if self.chunking[k] {
                n = n + 1;
            }
            k = k + 1;
        }
        n
    }

    /// Which slots are occupied.
    pub fn occupancy(&self) -> (v: Vec<bool>)
        ensures
            v@.len() == self@.width(),
            forall|k: int| 0 <= k < v@.len() ==> v@[k] == (#[trigger] self@.slots[k] is Some),
    {
        let mut v: Vec<bool> = Vec::new();
        let mut k: usize = 0;
        while k < self.slots.len()
            invariant
                k <= self.slots@.len(),
                v@.len() == k,
                forall|j: int| 0 <= j < k ==> v@[j] == (#[trigger] self@.slots[j] is Some),
            decreases self.slots@.len() - k,
        {
            v.push(self.slots[k].is_some());
            k = k + 1;
        }
        v
    }

    /// The lowest free slot.
    pub fn free_slot(&self) -> (r: Option<usize>)
        ensures
            scan::first_from(0, self@.width() as int, self@.free()) == (match r {
                Some(k) => Some(k as int),
                None => None,
            }),
            r matches Some(k) ==> k < self@.width() && self@.slots[k as int] is None,
    {
        proof {
            scan::lemma_first_from(0, self@.width() as int, self@.free());
        }
        let mut k: usize = 0;
        while k < self.slots.len()
            invariant
                k <= self.slots@.len(),
                scan::first_from(k as int, self@.width() as int, self@.free()) == scan::first_from(
                    0,
                    self@.width() as int,
                    self@.free(),
                ),
            decreases self.slots@.len() - k,
        {
            if self.slots[k].is_none() {
                assert((self@.free())(k as int));
                return Some(k);
            }
            k = k + 1;
        }
        None
    }

    /// One past the highest occupied slot.
    pub fn high_water(&self) -> (n: usize)
        ensures
            n == self@.high_water(),
            n <= self@.width(),
    {
        let mut n: usize = self.slots.len();
        while n > 0
            invariant
                n <= self.slots@.len(),
                scan::last_below(n as int, self@.occupied()) == scan::last_below(
                    self@.width() as int,
                    self@.occupied(),
                ),
            decreases n,
        {
            if self.slots[n - 1].is_some() {
                return n;
            }
            n = n - 1;
        }
        0
    }

    /// Blocks promised to admitted prompts that have not claimed them yet.
    pub fn committed_blocks(&self) -> (n: usize)
        requires
            self@.committed() <= usize::MAX,
        ensures
            n == self@.committed(),
    {
        let mut n: usize = 0;
        let mut k: usize = 0;
        while k < self.slots.len()
            invariant
                self@.committed() <= usize::MAX,
                k <= self.slots@.len(),
                n == scan::sum_below(k as nat, self@.unclaimed()),
            decreases self.slots@.len() - k,
        {
            proof {
                scan::lemma_sum_mono((k + 1) as nat, self@.width(), self@.unclaimed());
            }
            if let Some(s) = &self.slots[k] {
                if !s.prefilled {
                    n = n + block_count(s.history.len());
                }
            }
            k = k + 1;
        }
        n
    }

    /// The tick's admission budget: the pool's free blocks less what is already promised. No pool,
    /// no budget.
    pub fn admit_budget(&self, pool_free: Option<usize>) -> (b: Option<usize>)
        requires
            self@.committed() <= usize::MAX,
        ensures
            b == spend(pool_free, self@.committed()),
    {
        match pool_free {
            Some(f) => Some(f.saturating_sub(self.committed_blocks())),
            None => None,
        }
    }

    /// Place a request into the lowest free slot, unless the window refuses it.
    pub fn admit_request(&mut self, req: GenRequest, max_ctx: usize, now: u64) -> (r: Admission)
        requires
            old(self)@.wf(),
        ensures
            final(self)@.wf(),
            match screened(req.prompt@.len(), req.max_tokens, max_ctx) {
                None => final(self)@ == old(self)@ && (r matches Admission::Refused(e) && is_refusal(
                    e,
                    req.prompt@.len(),
                    max_ctx,
                )),
                Some(limit) => match scan::first_from(
                    0,
                    old(self)@.width() as int,
                    old(self)@.free(),
                ) {
                    None => final(self)@ == old(self)@ && r is Full,
                    Some(k) => {
                        &&& r matches Admission::Seated(i) && i == k
                        &&& final(self)@ == old(self)@.with(
                            k,
                            Some(SlotView::fresh(req, limit, now)),
                        )
                    },
                },
            },
    {
        match screen(req.prompt.len(), req.max_tokens, max_ctx) {
            Err(e) => Admission::Refused(e),
            Ok(limit) => match self.free_slot() {
                None => Admission::Full,
                Some(k) => {
                    let s = Slot::new(req, limit, now);
                    self.slots.set(k, Some(s));
                    assert(self@.slots =~= old(self)@.slots.update(k as int, Some(s@)));
                    Admission::Seated(k)
                },
            },
        }
    }
}

/// A request is let in exactly when it has a prompt and the window holds more than that; its limit
/// is what it asked for, or all the room behind its prompt where that is less.
pub proof fn law_screening_leaves_room(prompt: nat, max_tokens: usize, max_ctx: usize)
    ensures
        screened(prompt, max_tokens, max_ctx) is Some <==> 0 < prompt < max_ctx,
        screened(prompt, max_tokens, max_ctx) matches Some(n) ==> {
            &&& n <= max_tokens
            &&& prompt + n <= max_ctx
            &&& n < max_tokens ==> prompt + n == max_ctx
        },
{
}

/// A prompt that is let in is promised the blocks of its tokens, on top of what was promised.
pub proof fn law_admission_promises_the_prompt(b: BatchView, k: int, s: SlotView)
    requires
        0 <= k < b.width(),
        b.slots[k] is None,
        !s.prefilled,
    ensures
        b.with(k, Some(s)).committed() == b.committed() + slot::blocks_for(s.history.len()),
{
    let c = b.with(k, Some(s));
    assert forall|j: int| 0 <= j < b.width() && j != k implies #[trigger] (b.unclaimed())(j)
        == #[trigger] (c.unclaimed())(j) by {
        assert(c.slots[j] == b.slots[j]);
    }
    scan::law_sums_move_with_their_terms(b.width(), b.unclaimed(), c.unclaimed(), k);
}

/// A prompt that is in, or gone, is promised nothing any more.
pub proof fn law_promises_end_with_the_prompt(b: BatchView, k: int, after: Option<SlotView>)
    requires
        0 <= k < b.width(),
        b.slots[k] matches Some(s) && !s.prefilled,
        after matches Some(s) ==> s.prefilled,
    ensures
        b.with(k, after).committed() + slot::blocks_for(b.slots[k]->0.history.len())
            == b.committed(),
{
    let c = b.with(k, after);
    assert forall|j: int| 0 <= j < b.width() && j != k implies #[trigger] (b.unclaimed())(j)
        == #[trigger] (c.unclaimed())(j) by {
        assert(c.slots[j] == b.slots[j]);
    }
    scan::law_sums_move_with_their_terms(b.width(), b.unclaimed(), c.unclaimed(), k);
}

/// Where no prompt waits, nothing is promised.
pub proof fn law_only_waiting_prompts_are_promised(b: BatchView)
    requires
        forall|k: int|
            0 <= k < b.width() ==> (#[trigger] b.slots[k] matches Some(s) ==> s.prefilled),
    ensures
        b.committed() == 0,
{
    scan::law_sum_of_nothing(b.width(), b.unclaimed());
}

/// A budget loses what is spent of it, and nothing where more is spent than it holds is left; where
/// there is no pool there is none. It admits as long as more than the watermark is left.
pub proof fn law_budgets_are_spent_once(budget: Option<usize>, a: nat, b: nat)
    ensures
        budget is None ==> spend(budget, a) is None && above_watermark(budget),
        budget matches Some(n) ==> {
            &&& a <= n ==> spend(budget, a)->0 + a == n
            &&& a > n ==> spend(budget, a) == Some(0usize)
            &&& spend(budget, a) is Some
            &&& above_watermark(budget) <==> n > 32
        },
        spend(spend(budget, a), b) == spend(budget, a + b),
{
}

/// The high water is over every occupied slot and no higher: the slot under it is occupied, and
/// none from it on.
pub proof fn law_high_water_is_the_highest(b: BatchView)
    ensures
        0 <= b.high_water() <= b.width(),
        b.high_water() > 0 ==> b.slots[b.high_water() - 1] is Some,
        forall|k: int| b.high_water() <= k < b.width() ==> #[trigger] b.slots[k] is None,
{
    scan::law_last_is_the_last(b.width() as int, b.occupied());
    assert forall|k: int| b.high_water() <= k < b.width() implies #[trigger] b.slots[k] is None by {
        assert(!(b.occupied())(k));
    }
}

/// A place changes alone: every other slot, every mark and everyone who waits stay as they were;
/// and a freed slot prefills no more.
pub proof fn law_places_change_alone(b: BatchView, k: int, s: Option<SlotView>, j: int)
    requires
        b.wf(),
        0 <= k < b.width(),
        0 <= j < b.width(),
    ensures
        b.with(k, s).slots[k] == s,
        j != k ==> b.with(k, s).slots[j] == b.slots[j] && b.without(k).slots[j] == b.slots[j],
        b.with(k, s).chunking == b.chunking && b.with(k, s).encoding == b.encoding,
        b.with(k, s).preempted == b.preempted && b.without(k).preempted == b.preempted,
        b.without(k).slots[k] is None && !b.without(k).chunking[k],
        j != k ==> b.without(k).chunking[j] == b.chunking[j],
        b.without(k).encoding == b.encoding,
        b.with(k, s).width() == b.width() && b.without(k).width() == b.width(),
{
}

/// Every slot is free, decodes or waits for its prompt, and only one of these; a text prompt that
/// has not begun waits, and carries no media.
pub proof fn law_slots_are_in_one_state(b: BatchView, k: int)
    ensures
        b.slots[k] is None <==> (b.free())(k),
        (b.free())(k) <==> !(b.occupied())(k),
        (b.occupied())(k) <==> (b.decoding())(k) || (b.waiting())(k),
        !((b.decoding())(k) && (b.waiting())(k)),
        (b.decoding())(k) <==> (b.slots[k] matches Some(s) && s.prefilled),
        (b.pending_text())(k) <==> (b.waiting())(k) && !b.chunking[k]
            && !b.slots[k]->0.multimodal,
{
}

/// A refused request is told which of three it is: its prompt is empty, longer than the window, or
/// as long.
pub proof fn law_refusals_tell_the_reason(e: EngineError, prompt: nat, max_ctx: usize)
    requires
        is_refusal(e, prompt, max_ctx),
        prompt == 0 || prompt >= max_ctx,
    ensures
        e.class == crate::error::ErrorClass::InvalidRequest,
        e.code is Some <==> prompt > max_ctx && prompt > 0,
        e.code matches Some(c) ==> c@ == "context_length_exceeded"@ && e.message@
            == EngineError::overflow_text(prompt, max_ctx as nat),
        prompt == 0 ==> e.message@ == "empty prompt"@,
{
}

} // verus!
