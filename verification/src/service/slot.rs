//! One in-flight sequence occupying a fixed KV slot.
use crate::request::{dur_ms, has_token, GenRequest, RunStats, SamplingTraits};
use crate::request;
use crate::BLOCK_TOKENS;
use vstd::prelude::*;

verus! {

/// Drafted and accepted tokens of one tick, over all its slots.
#[derive(Debug, Clone, Copy, PartialEq, Eq, Structural)]
pub struct RoundTally {
    pub drafted: usize,
    pub accepted: usize,
}

/// A sequence that holds a batch row, from admission until it retires.
#[derive(Debug)]
pub struct Slot {
    /// The request this slot runs.
    pub id: u64,
    /// Prompt tokens; consumed by the prefill pass.
    pub prompt: Vec<u32>,
    pub prefilled: bool,
    /// The token to feed next (valid once prefilled).
    pub pending: u32,
    /// Next KV position: rows already committed to this slot's cache.
    pub pos: u32,
    /// Prompt and everything generated so far.
    pub history: Vec<u32>,
    pub stop_tokens: Vec<u32>,
    pub max_tokens: usize,
    pub generated: usize,
    /// Draft length this slot currently earns.
    pub k_now: usize,
    pub sampling: SamplingTraits,
    pub constrained: bool,
    pub logprobs: Option<u8>,
    /// Multimodal chunks wait for their prefill.
    pub multimodal: bool,
    /// The request came with such chunks: its tokens alone are not its prompt.
    pub media: bool,
    /// The slot's KV is being rebuilt: completion resumes decode instead of sampling anew.
    pub recompute: bool,
    pub submitted: Option<u64>,
    pub admitted: u64,
    pub prefill_done: Option<u64>,
    pub chunk_started: Option<u64>,
    pub spec_drafted: u32,
    pub spec_accepted: u32,
}

/// A slot as mathematics sees it.
#[verifier::ext_equal]
pub struct SlotView {
    pub id: u64,
    pub prompt: Seq<u32>,
    pub prefilled: bool,
    pub pending: u32,
    pub pos: u32,
    pub history: Seq<u32>,
    pub stop_tokens: Seq<u32>,
    pub max_tokens: usize,
    pub generated: usize,
    pub k_now: usize,
    pub sampling: SamplingTraits,
    pub constrained: bool,
    pub logprobs: Option<u8>,
    pub multimodal: bool,
    pub media: bool,
    pub recompute: bool,
    pub submitted: Option<u64>,
    pub admitted: u64,
    pub prefill_done: Option<u64>,
    pub chunk_started: Option<u64>,
    pub spec_drafted: u32,
    pub spec_accepted: u32,
}

impl View for Slot {
    type V = SlotView;

    open spec fn view(&self) -> SlotView {
        SlotView {
            id: self.id,
            prompt: self.prompt@,
            prefilled: self.prefilled,
            pending: self.pending,
            pos: self.pos,
            history: self.history@,
            stop_tokens: self.stop_tokens@,
            max_tokens: self.max_tokens,
            generated: self.generated,
            k_now: self.k_now,
            sampling: self.sampling,
            constrained: self.constrained,
            logprobs: self.logprobs,
            multimodal: self.multimodal,
            media: self.media,
            recompute: self.recompute,
            submitted: self.submitted,
            admitted: self.admitted,
            prefill_done: self.prefill_done,
            chunk_started: self.chunk_started,
            spec_drafted: self.spec_drafted,
            spec_accepted: self.spec_accepted,
        }
    }
}

/// Blocks that `tokens` tokens take.
pub open spec fn blocks_for(tokens: nat) -> nat {
    (tokens + BLOCK_TOKENS - 1) as nat / BLOCK_TOKENS as nat
}

/// Blocks that `tokens` tokens take.
pub fn block_count(tokens: usize) -> (n: usize)
    ensures
        n == blocks_for(tokens as nat),
{
    if tokens % BLOCK_TOKENS == 0 {
        tokens / BLOCK_TOKENS
    } else {
        tokens / BLOCK_TOKENS + 1
    }
}

/// How a run of tokens handed to a sequence ends.
#[derive(Debug, Clone, Copy, PartialEq, Eq, Structural)]
pub enum RunEnd {
    /// The sequence goes on.
    Live,
    /// A stop token came up; it is not emitted.
    Stop,
    /// The token limit is reached.
    Length,
    /// The client is gone.
    HungUp,
}

/// Hand `picks` to a sequence that may still take `left` tokens, whose client takes `delivered` of
/// them: how many enter the history, and how the run ends.
pub open spec fn take_run(
    stop: Seq<u32>,
    left: int,
    picks: Seq<u32>,
    delivered: int,
) -> (int, RunEnd)
    decreases picks.len(),
{
    if picks.len() == 0 {
        (0, RunEnd::Live)
    } else if stop.contains(picks[0]) {
        (0, RunEnd::Stop)
    } else if delivered <= 0 {
        (1, RunEnd::HungUp)
    } else if left <= 1 {
        (1, RunEnd::Length)
    } else {
        let rest = take_run(stop, left - 1, picks.skip(1), delivered - 1);
        (1 + rest.0, rest.1)
    }
}

/// A run takes between none and all of its tokens, and all of them exactly when it leaves the
/// sequence alive or dies on the last.
pub proof fn lemma_take_run_bounds(stop: Seq<u32>, left: int, picks: Seq<u32>, delivered: int)
    ensures
        0 <= take_run(stop, left, picks, delivered).0 <= picks.len(),
        take_run(stop, left, picks, delivered).1 == RunEnd::Live ==> take_run(
            stop,
            left,
            picks,
            delivered,
        ).0 == picks.len() && (picks.len() > 0 ==> picks.len() < left),
        take_run(stop, left, picks, delivered).1 == RunEnd::Stop ==> take_run(
            stop,
            left,
            picks,
            delivered,
        ).0 < picks.len(),
        take_run(stop, left, picks, delivered).1 == RunEnd::Length ==> take_run(
            stop,
            left,
            picks,
            delivered,
        ).0 > 0,
        take_run(stop, left, picks, delivered).1 == RunEnd::HungUp ==> take_run(
            stop,
            left,
            picks,
            delivered,
        ).0 > 0,
    decreases picks.len(),
{
    if picks.len() > 0 && !stop.contains(picks[0]) && delivered > 0 && left > 1 {
        lemma_take_run_bounds(stop, left - 1, picks.skip(1), delivered - 1);
    }
}

impl SlotView {
    /// A fresh slot for a request.
    pub open spec fn fresh(req: GenRequest, max_tokens: usize, now: u64) -> SlotView {
        SlotView {
            id: req.id,
            prompt: req.prompt@,
            prefilled: false,
            pending: 0,
            pos: 0,
            history: req.prompt@,
            stop_tokens: req.stop_tokens@,
            max_tokens,
            generated: 0,
            k_now: 2,
            sampling: req.sampling,
            constrained: req.constrained,
            logprobs: req.logprobs,
            multimodal: req.multimodal,
            media: req.multimodal,
            recompute: false,
            submitted: req.submitted,
            admitted: now,
            prefill_done: None,
            chunk_started: None,
            spec_drafted: 0,
            spec_accepted: 0,
        }
    }

    /// Tokens the sequence may still generate.
    pub open spec fn left(self) -> int {
        self.max_tokens - self.generated
    }

    /// The statistics of the sequence when it ends at `now`.
    pub open spec fn stats(self, now: u64) -> RunStats {
        RunStats {
            queued_ms: match self.submitted {
                Some(t) => request::millis(request::span(t as int, self.admitted as int)) as u32,
                None => 0,
            },
            prefill_ms: match self.prefill_done {
                Some(t) => request::millis(request::span(self.admitted as int, t as int)) as u32,
                None => 0,
            },
            decode_ms: match self.prefill_done {
                Some(t) => request::millis(request::span(t as int, now as int)) as u32,
                None => 0,
            },
            spec_drafted: self.spec_drafted,
            spec_accepted: self.spec_accepted,
            kv_pages: blocks_for(self.pos as nat) as u32,
        }
    }

    /// How `picks` end when the client takes `delivered` of them.
    pub open spec fn run(self, picks: Seq<u32>, delivered: int) -> (int, RunEnd) {
        take_run(self.stop_tokens, self.left(), picks, delivered)
    }

    /// The sequence after `picks`, taken one by one. A run that leaves it alive makes the last pick
    /// pending; otherwise the last token that was accepted stays so.
    pub open spec fn after_run(self, picks: Seq<u32>, delivered: int) -> SlotView {
        let (n, end) = self.run(picks, delivered);
        let kept = if end == RunEnd::Live || end == RunEnd::Stop {
            n
        } else {
            n - 1
        };
        SlotView {
            history: self.history + picks.take(n),
            generated: (self.generated + n) as usize,
            pending: if kept > 0 {
                picks[kept - 1]
            } else {
                self.pending
            },
            ..self
        }
    }

    /// The slot with its KV given up, waiting to be rebuilt from what was committed. A sequence
    /// that has not begun gets its whole prompt back, as far as tokens hold it.
    pub open spec fn preempted(self) -> SlotView {
        SlotView {
            prompt: if self.pos > 0 {
                self.history.take(self.pos as int)
            } else if self.media {
                self.prompt
            } else {
                self.history
            },
            prefilled: false,
            recompute: true,
            ..self
        }
    }

    /// Once its prompt is in, the sequence decodes on from where it stood. One that was preempted
    /// before it began has nothing to decode on from.
    pub open spec fn resumes(self) -> bool {
        self.recompute && self.pos > 0
    }

    /// The slot right after its prompt went in as `rows` rows, before any token is drawn. Its limit
    /// is cut to what the window leaves behind them; the rows of a rebuilt sequence hold what it
    /// has generated, which is not taken off again.
    pub open spec fn seated(self, rows: u32, max_ctx: usize, now: u64) -> SlotView {
        let room = (if rows <= max_ctx {
            max_ctx - rows
        } else {
            0
        }) + (if self.resumes() {
            self.generated as int
        } else {
            0
        });
        SlotView {
            prefilled: true,
            pos: rows,
            max_tokens: if self.max_tokens <= room {
                self.max_tokens
            } else {
                room as usize
            },
            prefill_done: if self.prefill_done is Some {
                self.prefill_done
            } else {
                Some(now)
            },
            chunk_started: None,
            recompute: false,
            ..self
        }
    }

    /// The sequence's next token has a place in the window, and so has every token it may still
    /// generate.
    pub open spec fn in_window(self, max_ctx: int) -> bool {
        &&& self.pos < max_ctx
        &&& self.generated < self.max_tokens ==> self.pos + self.max_tokens <= max_ctx
            + self.generated
    }
}

impl Slot {
    pub fn new(req: GenRequest, max_tokens: usize, now: u64) -> (s: Self)
        ensures
            s@ == SlotView::fresh(req, max_tokens, now),
    {
        let history = req.prompt.clone();
        assert(history@ =~= req.prompt@);
        Slot {
            id: req.id,
            history,
            prompt: req.prompt,
            prefilled: false,
            pending: 0,
            pos: 0,
            stop_tokens: req.stop_tokens,
            max_tokens,
            generated: 0,
            k_now: 2,
            sampling: req.sampling,
            constrained: req.constrained,
            logprobs: req.logprobs,
            multimodal: req.multimodal,
            media: req.multimodal,
            recompute: false,
            submitted: req.submitted,
            admitted: now,
            prefill_done: None,
            chunk_started: None,
            spec_drafted: 0,
            spec_accepted: 0,
        }
    }

    /// The statistics a sequence reports when it ends at `now`.
    pub fn run_stats(&self, now: u64) -> (r: RunStats)
        ensures
            r == self@.stats(now),
    {
        let queued_ms: u32 = match self.submitted {
            Some(s) => dur_ms(self.admitted.saturating_sub(s)),
            None => 0,
        };
        let (prefill_ms, decode_ms): (u32, u32) = match self.prefill_done {
            Some(p) => (dur_ms(p.saturating_sub(self.admitted)), dur_ms(now.saturating_sub(p))),
            None => (0, 0),
        };
        RunStats {
            queued_ms,
            prefill_ms,
            decode_ms,
            spec_drafted: self.spec_drafted,
            spec_accepted: self.spec_accepted,
            kv_pages: block_count(self.pos as usize) as u32,
        }
    }

    /// Book one speculative round, for the request's own statistics and for the whole tick.
    pub fn spec_round(&mut self, tick: &mut RoundTally, drafted: usize, accepted: usize)
        requires
            old(self).spec_drafted + drafted <= u32::MAX,
            old(self).spec_accepted + accepted <= u32::MAX,
            old(tick).drafted + drafted <= usize::MAX,
            old(tick).accepted + accepted <= usize::MAX,
        ensures
            final(self)@ == (SlotView {
                spec_drafted: (old(self).spec_drafted + drafted) as u32,
                spec_accepted: (old(self).spec_accepted + accepted) as u32,
                ..old(self)@
            }),
            final(tick).drafted == old(tick).drafted + drafted,
            final(tick).accepted == old(tick).accepted + accepted,
    {
        self.spec_drafted = self.spec_drafted + drafted as u32;
        self.spec_accepted = self.spec_accepted + accepted as u32;
        tick.drafted = tick.drafted + drafted;
        tick.accepted = tick.accepted + accepted;
    }

    /// Give up this slot's KV: what was committed becomes the prompt to rebuild it from. The number
    /// of blocks the rebuild needs.
    pub fn preempt_for_recompute(&mut self) -> (blocks: usize)
        requires
            old(self).pos <= old(self).history@.len(),
        ensures
            final(self)@ == old(self)@.preempted(),
            blocks == blocks_for(final(self).prompt@.len()),
    {
        if self.pos > 0 || !self.media {
            let keep: usize = if self.pos > 0 {
                self.pos as usize
            } else {
                self.history.len()
            };
            let mut prompt: Vec<u32> = Vec::new();
            let mut i: usize = 0;
            while i < keep
                invariant
                    i <= keep <= self.history@.len(),
                    prompt@ == self.history@.take(i as int),
                decreases keep - i,
            {
                prompt.push(self.history[i]);
                assert(prompt@ =~= self.history@.take(i + 1));
                i = i + 1;
            }
            self.prompt = prompt;
            assert(self.history@.take(self.history@.len() as int) =~= self.history@);
        }
        self.prefilled = false;
        self.recompute = true;
        block_count(self.prompt.len())
    }

    /// How many of `picks` reach the client, as long as it stays.
    pub fn emit_count(&self, picks: &Vec<u32>) -> (n: usize)
        requires
            self.generated + picks@.len() <= usize::MAX,
        ensures
            n == self@.run(picks@, picks@.len() as int).0,
    {
        let mut i: usize = 0;
        assert(picks@.skip(0) =~= picks@);
        while i < picks.len()
            invariant
                i <= picks.len(),
                self.generated + picks@.len() <= usize::MAX,
                self@.run(picks@, picks@.len() as int).0 == i + take_run(
                    self.stop_tokens@,
                    self@.left() - i,
                    picks@.skip(i as int),
                    picks@.len() - i,
                ).0,
            decreases picks.len() - i,
        {
            let ghost tail = picks@.skip(i as int);
            assert(tail[0] == picks@[i as int]);
            assert(tail.skip(1) =~= picks@.skip(i + 1));
            if has_token(&self.stop_tokens, picks[i]) {
                return i;
            }
            i = i + 1;
            if self.generated + i >= self.max_tokens {
                return i;
            }
        }
        i
    }

    /// Take `picks` one by one. `delivered` of the tokens reached the client before it hung up.
    pub fn commit_run(&mut self, picks: &Vec<u32>, delivered: usize) -> (end: RunEnd)
        requires
            old(self).generated + picks@.len() <= usize::MAX,
        ensures
            final(self)@ == old(self)@.after_run(picks@, delivered as int),
            end == old(self)@.run(picks@, delivered as int).1,
    {
        let ghost before = self@;
        let ghost whole = before.run(picks@, delivered as int);
        let mut i: usize = 0;
        assert(picks@.skip(0) =~= picks@);
        assert(picks@.take(0) =~= Seq::<u32>::empty());
        assert(before.history + picks@.take(0) =~= before.history);
        while i < picks.len()
            invariant
                i <= picks.len(),
                before == old(self)@,
                before.generated + picks@.len() <= usize::MAX,
                whole == before.run(picks@, delivered as int),
                ({
                    let rest = take_run(
                        before.stop_tokens,
                        before.left() - i,
                        picks@.skip(i as int),
                        delivered - i,
                    );
                    whole == (i + rest.0, rest.1)
                }),
                self@ == (SlotView {
                    history: before.history + picks@.take(i as int),
                    generated: (before.generated + i) as usize,
                    pending: if i > 0 {
                        picks@[i - 1]
                    } else {
                        before.pending
                    },
                    ..before
                }),
            decreases picks.len() - i,
        {
            let ghost tail = picks@.skip(i as int);
            let next: u32 = picks[i];
            assert(tail[0] == next);
            assert(tail.skip(1) =~= picks@.skip(i + 1));
            if has_token(&self.stop_tokens, next) {
                return RunEnd::Stop;
            }
            self.history.push(next);
            self.generated = self.generated + 1;
            assert(before.history + picks@.take(i + 1) =~= (before.history + picks@.take(
                i as int,
            )).push(next));
            if i >= delivered {
                return RunEnd::HungUp;
            }
            if self.generated >= self.max_tokens {
                return RunEnd::Length;
            }
            self.pending = next;
            i = i + 1;
        }
        RunEnd::Live
    }

    /// Record one freshly sampled token.
    pub fn accept(&mut self, next: u32, delivered: bool) -> (end: RunEnd)
        requires
            old(self).generated < usize::MAX,
        ensures
            final(self)@ == old(self)@.after_run(seq![next], if delivered {
                1int
            } else {
                0int
            }),
            end == old(self)@.run(seq![next], if delivered {
                1int
            } else {
                0int
            }).1,
    {
        let mut picks: Vec<u32> = Vec::new();
        picks.push(next);
        assert(picks@ =~= seq![next]);
        self.commit_run(
            &picks,
            if delivered {
                1
            } else {
                0
            },
        )
    }

    /// The prompt went in as `rows` rows. Whether the slot resumes what it had begun: then nothing
    /// is sampled and nothing is reported anew.
    pub fn seat(&mut self, rows: u32, max_ctx: usize, now: u64) -> (resumes: bool)
        ensures
            final(self)@ == old(self)@.seated(rows, max_ctx, now),
            resumes == old(self)@.resumes(),
    {
        let resumes: bool = self.recompute && self.pos > 0;
        self.chunk_started = None;
        self.prefilled = true;
        self.pos = rows;
        let mut room: usize = max_ctx.saturating_sub(rows as usize);
        if resumes {
            room = room.saturating_add(self.generated);
        }
        if self.max_tokens > room {
            self.max_tokens = room;
        }
        if self.prefill_done.is_none() {
            self.prefill_done = Some(now);
        }
        self.recompute = false;
        resumes
    }
}

/// A stop token is never emitted: no token that a run takes is one.
pub proof fn law_stop_tokens_are_never_emitted(
    stop: Seq<u32>,
    left: int,
    picks: Seq<u32>,
    delivered: int,
    j: int,
)
    requires
        0 <= j < take_run(stop, left, picks, delivered).0,
    ensures
        j < picks.len(),
        !stop.contains(picks[j]),
    decreases picks.len(),
{
    lemma_take_run_bounds(stop, left, picks, delivered);
    if j > 0 {
        law_stop_tokens_are_never_emitted(stop, left - 1, picks.skip(1), delivered - 1, j - 1);
    }
}

/// A sequence never generates more than its limit, and ends at it: a run that does not end there
/// leaves room for one token more.
pub proof fn law_runs_end_at_the_limit(s: SlotView, picks: Seq<u32>, delivered: int)
    requires
        s.generated < s.max_tokens,
        s.generated + picks.len() <= usize::MAX,
    ensures
        s.after_run(picks, delivered).generated <= s.max_tokens,
        s.run(picks, delivered).1 == RunEnd::Length ==> s.after_run(picks, delivered).generated
            == s.max_tokens,
        s.run(picks, delivered).1 == RunEnd::Live ==> s.after_run(picks, delivered).generated
            < s.max_tokens,
{
    lemma_take_run_bounds(s.stop_tokens, s.left(), picks, delivered);
    lemma_take_run_within(s.stop_tokens, s.left(), picks, delivered);
}

proof fn lemma_take_run_within(stop: Seq<u32>, left: int, picks: Seq<u32>, delivered: int)
    requires
        left >= 1,
    ensures
        take_run(stop, left, picks, delivered).0 <= left,
        take_run(stop, left, picks, delivered).1 == RunEnd::Length ==> take_run(
            stop,
            left,
            picks,
            delivered,
        ).0 == left,
    decreases picks.len(),
{
    if picks.len() > 0 && !stop.contains(picks[0]) && delivered > 0 && left > 1 {
        lemma_take_run_within(stop, left - 1, picks.skip(1), delivered - 1);
    }
}

/// Decode never runs off the window: a live sequence inside it, whose position advances by as many
/// rows as it takes tokens, is inside it still when the run leaves it alive.
pub proof fn law_decode_stays_in_the_window(
    s: SlotView,
    t: SlotView,
    picks: Seq<u32>,
    delivered: int,
    max_ctx: int,
)
    requires
        s.in_window(max_ctx),
        s.generated + picks.len() <= usize::MAX,
        s.run(picks, delivered).1 == RunEnd::Live,
        t == (SlotView { pos: t.pos, ..s.after_run(picks, delivered) }),
        t.pos == s.pos + picks.len(),
    ensures
        t.in_window(max_ctx),
{
    lemma_take_run_bounds(s.stop_tokens, s.left(), picks, delivered);
}

/// A sequence whose first token leaves it alive is inside the window, however many rows its prompt
/// took: the limit was cut to what is left behind them.
pub proof fn law_first_token_lands_in_the_window(
    s: SlotView,
    rows: u32,
    max_ctx: usize,
    now: u64,
    first: u32,
    delivered: int,
)
    requires
        s.generated == 0,
        s.seated(rows, max_ctx, now).run(seq![first], delivered).1 == RunEnd::Live,
    ensures
        s.seated(rows, max_ctx, now).after_run(seq![first], delivered).in_window(max_ctx as int),
{
    let t = s.seated(rows, max_ctx, now);
    lemma_take_run_bounds(t.stop_tokens, t.left(), seq![first], delivered);
}

/// A sequence that is preempted before it began is served as if nothing had happened: its prompt is
/// all there, and once that is in, the sequence does not resume but is what it would have been, so
/// its usage is reported and its first token drawn.
pub proof fn law_unstarted_is_served_anew(s: SlotView, rows: u32, max_ctx: usize, now: u64)
    requires
        s.pos == 0,
        !s.prefilled,
    ensures
        !s.preempted().resumes(),
        !s.media ==> s.preempted().prompt == s.history,
        s.media ==> s.preempted().prompt == s.prompt,
        s.preempted().seated(rows, max_ctx, now) == (SlotView {
            prompt: s.preempted().prompt,
            ..s.seated(rows, max_ctx, now)
        }),
{
}

/// A preempted sequence resumes where it stood: once its KV is rebuilt from the prompt it was left
/// with, its position, history, pending token, count and limit are those from before, so the answer
/// is no shorter for it.
pub proof fn law_recompute_resumes(s: SlotView, max_ctx: usize, now: u64)
    requires
        s.prefilled,
        0 < s.pos <= s.history.len(),
        s.in_window(max_ctx as int),
    ensures
        ({
            let t = s.preempted().seated(s.preempted().prompt.len() as u32, max_ctx, now);
            &&& s.preempted().resumes()
            &&& t.prefilled
            &&& t.pos == s.pos
            &&& t.history == s.history
            &&& t.pending == s.pending
            &&& t.generated == s.generated
            &&& t.max_tokens == s.max_tokens
            &&& t.left() == s.left()
            &&& !t.recompute
            &&& s.preempted().prompt == s.history.take(s.pos as int)
            &&& t.in_window(max_ctx as int)
        }),
{
}

/// Every run ends for a reason that can be read off its tokens. It stops only in front of a stop
/// token, with all before it delivered; it hangs up at the first token that is not delivered; it
/// ends by length at the last token that the limit leaves room for; and it stays alive only with
/// every token taken and delivered.
pub proof fn law_runs_end_for_a_reason(stop: Seq<u32>, left: int, picks: Seq<u32>, delivered: int)
    requires
        left >= 1,
        delivered >= 0,
    ensures
        ({
            let (n, end) = take_run(stop, left, picks, delivered);
            match end {
                RunEnd::Stop => 0 <= n < picks.len() && stop.contains(picks[n]) && n <= delivered
                    && n < left,
                RunEnd::HungUp => n == delivered + 1 && n <= picks.len() && n <= left,
                RunEnd::Length => n == left && n <= picks.len() && n <= delivered,
                RunEnd::Live => n == picks.len() && n < left && n <= delivered,
            }
        }),
        forall|j: int|
            0 <= j < take_run(stop, left, picks, delivered).0 ==> !stop.contains(
                #[trigger] picks[j],
            ),
    decreases picks.len(),
{
    if picks.len() > 0 && !stop.contains(picks[0]) && delivered > 0 && left > 1 {
        let tail = picks.skip(1);
        law_runs_end_for_a_reason(stop, left - 1, tail, delivered - 1);
        let (m, _) = take_run(stop, left - 1, tail, delivered - 1);
        assert forall|j: int| 0 <= j < 1 + m implies !stop.contains(#[trigger] picks[j]) by {
            if j > 0 {
                assert(tail[j - 1] == picks[j]);
            }
        }
    }
}

/// A run is cut by nothing but a stop token, the limit or the client: tokens among which there is
/// no stop token, fewer than the limit leaves room for and all delivered, are all taken, whatever
/// their numbers, and the sequence goes on.
pub proof fn law_undisturbed_runs_go_on(stop: Seq<u32>, left: int, picks: Seq<u32>, delivered: int)
    requires
        forall|j: int| 0 <= j < picks.len() ==> !stop.contains(#[trigger] picks[j]),
        left > picks.len(),
        delivered >= picks.len(),
    ensures
        take_run(stop, left, picks, delivered) == (picks.len() as int, RunEnd::Live),
    decreases picks.len(),
{
    if picks.len() > 0 {
        let tail = picks.skip(1);
        assert forall|j: int| 0 <= j < tail.len() implies !stop.contains(#[trigger] tail[j]) by {
            assert(tail[j] == picks[j + 1]);
        }
        law_undisturbed_runs_go_on(stop, left - 1, tail, delivered - 1);
    }
}

/// The tokens that a run takes go to the end of the history and into the count, and nothing else
/// moves but the pending token: the last pick of a run that goes on, the last one in front of the
/// stop token, and the one before the token that a run ended with otherwise.
pub proof fn law_runs_extend_the_history(s: SlotView, picks: Seq<u32>, delivered: int, n: int)
    requires
        s.generated < s.max_tokens,
        s.generated + picks.len() <= usize::MAX,
        delivered >= 0,
        n == s.run(picks, delivered).0,
    ensures
        s.after_run(picks, delivered) == (SlotView {
            history: s.after_run(picks, delivered).history,
            generated: s.after_run(picks, delivered).generated,
            pending: s.after_run(picks, delivered).pending,
            ..s
        }),
        s.after_run(picks, delivered).generated == s.generated + n,
        s.after_run(picks, delivered).history.len() == s.history.len() + n,
        forall|j: int|
            0 <= j < s.history.len() ==> #[trigger] s.after_run(picks, delivered).history[j]
                == s.history[j],
        forall|j: int|
            0 <= j < n ==> s.after_run(picks, delivered).history[s.history.len() + j]
                == #[trigger] picks[j],
        s.run(picks, delivered).1 == RunEnd::Live && picks.len() > 0 ==> s.after_run(
            picks,
            delivered,
        ).pending == picks.last(),
        s.run(picks, delivered).1 == RunEnd::Stop && n > 0 ==> s.after_run(picks, delivered).pending
            == picks[n - 1],
        s.run(picks, delivered).1 == RunEnd::Stop && n == 0 ==> s.after_run(
            picks,
            delivered,
        ).pending == s.pending,
        (s.run(picks, delivered).1 == RunEnd::Length || s.run(picks, delivered).1
            == RunEnd::HungUp) && n > 1 ==> s.after_run(picks, delivered).pending == picks[n - 2],
        (s.run(picks, delivered).1 == RunEnd::Length || s.run(picks, delivered).1
            == RunEnd::HungUp) && n == 1 ==> s.after_run(picks, delivered).pending == s.pending,
{
    law_runs_end_for_a_reason(s.stop_tokens, s.max_tokens - s.generated, picks, delivered);
    lemma_take_run_bounds(s.stop_tokens, s.left(), picks, delivered);
}

/// Handing over tokens in two runs is handing them over in one, as long as the first leaves the
/// sequence alive.
pub proof fn law_runs_compose(s: SlotView, a: Seq<u32>, b: Seq<u32>, delivered: int)
    requires
        s.generated + a.len() + b.len() <= usize::MAX,
        b.len() > 0,
        s.run(a, delivered).1 == RunEnd::Live,
    ensures
        s.run(a + b, delivered) == (
            a.len() + s.after_run(a, delivered).run(b, delivered - a.len()).0,
            s.after_run(a, delivered).run(b, delivered - a.len()).1,
        ),
{
    lemma_take_run_splits(s.stop_tokens, s.left(), a, b, delivered);
    lemma_take_run_bounds(s.stop_tokens, s.left(), a, delivered);
}

proof fn lemma_take_run_splits(
    stop: Seq<u32>,
    left: int,
    a: Seq<u32>,
    b: Seq<u32>,
    delivered: int,
)
    requires
        take_run(stop, left, a, delivered).1 == RunEnd::Live,
    ensures
        take_run(stop, left, a + b, delivered) == (
            a.len() + take_run(stop, left - a.len(), b, delivered - a.len()).0,
            take_run(stop, left - a.len(), b, delivered - a.len()).1,
        ),
    decreases a.len(),
{
    if a.len() == 0 {
        assert(a + b =~= b);
    } else {
        lemma_take_run_splits(stop, left - 1, a.skip(1), b, delivered - 1);
        assert((a + b).skip(1) =~= a.skip(1) + b);
    }
}

/// Blocks are whole, and no more than the tokens need: they hold every token, and one block fewer
/// would not.
pub proof fn law_blocks_hold_the_tokens(tokens: nat)
    ensures
        tokens <= blocks_for(tokens) * 16,
        tokens > 0 ==> (blocks_for(tokens) - 1) * 16 < tokens,
        tokens == 0 ==> blocks_for(tokens) == 0,
{
}

/// The statistics are the sequence's own: whole milliseconds from submission to admission, from
/// there to the end of the prompt and from there to the end, a clock that runs back counting as no
/// time; no time for what did not happen; the rounds as they were booked; and the blocks that hold
/// its rows.
pub proof fn law_stats_measure_the_phases(s: SlotView, now: u64)
    ensures
        s.submitted is None ==> s.stats(now).queued_ms == 0,
        s.submitted matches Some(t) ==> {
            let ms = s.stats(now).queued_ms;
            &&& s.admitted < t ==> ms == 0
            &&& t <= s.admitted && ms < u32::MAX ==> ms * 1_000_000 <= s.admitted - t < (ms + 1)
                * 1_000_000
            &&& ms == u32::MAX ==> s.admitted - t >= ms * 1_000_000
        },
        s.prefill_done is None ==> s.stats(now).prefill_ms == 0 && s.stats(now).decode_ms == 0,
        s.prefill_done matches Some(t) ==> {
            let ms = s.stats(now).prefill_ms;
            &&& t < s.admitted ==> ms == 0
            &&& s.admitted <= t && ms < u32::MAX ==> ms * 1_000_000 <= t - s.admitted < (ms + 1)
                * 1_000_000
            &&& ms == u32::MAX ==> t - s.admitted >= ms * 1_000_000
        },
        s.prefill_done matches Some(t) ==> {
            let ms = s.stats(now).decode_ms;
            &&& now < t ==> ms == 0
            &&& t <= now && ms < u32::MAX ==> ms * 1_000_000 <= now - t < (ms + 1) * 1_000_000
            &&& ms == u32::MAX ==> now - t >= ms * 1_000_000
        },
        s.stats(now).spec_drafted == s.spec_drafted,
        s.stats(now).spec_accepted == s.spec_accepted,
        s.pos <= s.stats(now).kv_pages * 16 < s.pos + 16,
{
}

/// A prompt that goes in leaves the sequence at its rows, with a limit that no token behind them
/// can take past the window: as much of the old limit as fits, counted from what a rebuilt sequence
/// has generated. The first end of a prompt is the one that is kept; nothing else moves.
pub proof fn law_seating_cuts_the_limit_to_the_window(
    s: SlotView,
    rows: u32,
    max_ctx: usize,
    now: u64,
)
    requires
        rows <= max_ctx,
        s.generated + max_ctx <= usize::MAX,
    ensures
        ({
            let t = s.seated(rows, max_ctx, now);
            let spent: int = if s.recompute && s.pos > 0 {
                s.generated as int
            } else {
                0
            };
            &&& t.prefilled && t.pos == rows && !t.recompute && t.chunk_started is None
            &&& rows + t.max_tokens <= max_ctx + spent
            &&& t.max_tokens <= s.max_tokens
            &&& t.max_tokens < s.max_tokens ==> rows + t.max_tokens == max_ctx + spent
            &&& s.prefill_done is Some ==> t.prefill_done == s.prefill_done
            &&& s.prefill_done is None ==> t.prefill_done == Some(now)
            &&& t == (SlotView {
                prefilled: t.prefilled,
                pos: t.pos,
                recompute: t.recompute,
                chunk_started: t.chunk_started,
                max_tokens: t.max_tokens,
                prefill_done: t.prefill_done,
                ..s
            })
        }),
{
}

/// A fresh slot holds its request and nothing else: its prompt is its history, no token is
/// generated, no row committed, no time but that of its admission taken.
pub proof fn law_fresh_slots_hold_their_request(req: GenRequest, max_tokens: usize, now: u64)
    ensures
        ({
            let s = SlotView::fresh(req, max_tokens, now);
            &&& s.id == req.id && s.prompt == req.prompt@ && s.history == req.prompt@
            &&& s.stop_tokens == req.stop_tokens@ && s.max_tokens == max_tokens
            &&& s.sampling == req.sampling && s.constrained == req.constrained
            &&& s.logprobs == req.logprobs && s.multimodal == req.multimodal && s.media
                == req.multimodal
            &&& s.submitted == req.submitted && s.admitted == now
            &&& s.generated == 0 && s.pos == 0 && s.pending == 0 && s.left() == max_tokens
            &&& !s.prefilled && !s.recompute && s.prefill_done is None && s.chunk_started is None
            &&& s.spec_drafted == 0 && s.spec_accepted == 0 && s.k_now == 2
        }),
{
}

} // verus!
