//! Tokens reach sequences: prompts that finish, rows that decode, and what each client is told.
use crate::request::{FinishReason, RunStats};
use crate::service::batch::{Batch, BatchView};
use crate::service::batch;
use crate::service::slot::{RunEnd, SlotView};
use vstd::prelude::*;

verus! {

/// What tokens made of a sequence.
#[derive(Debug, Clone, Copy, PartialEq, Eq, Structural)]
pub enum Outcome {
    /// There was no sequence to take them: an empty or unprefilled slot's row is a hole.
    Ignored,
    /// The sequence goes on.
    Live,
    /// The sequence ended; its client is told so.
    Done(FinishReason, RunStats),
    /// The client is gone.
    HungUp,
}

/// What a run's end means to the client.
pub open spec fn outcome(end: RunEnd, stats: RunStats) -> Outcome {
    match end {
        RunEnd::Live => Outcome::Live,
        RunEnd::Stop => Outcome::Done(FinishReason::Stop, stats),
        RunEnd::Length => Outcome::Done(FinishReason::Length, stats),
        RunEnd::HungUp => Outcome::HungUp,
    }
}

/// What a finished prompt calls for.
#[derive(Debug, Clone, Copy, PartialEq, Eq, Structural)]
pub enum Finish {
    /// The slot was cleared meanwhile: drop the report.
    Stale,
    /// A rebuilt sequence decodes on: nothing is sampled, nothing reported.
    Resumed,
    /// Report usage, then draw the first token.
    Sample,
}

impl SlotView {
    /// The slot moved `rows` positions ahead.
    pub open spec fn moved(self, rows: int) -> SlotView {
        SlotView { pos: (self.pos + rows) as u32, ..self }
    }
}

impl BatchView {
    /// The sequence at `k` moves `rows` positions ahead and takes `picks`; it leaves its slot
    /// unless it lives on.
    pub open spec fn fed(self, k: int, rows: int, picks: Seq<u32>, delivered: int) -> BatchView {
        let s = self.slots[k]->0.moved(rows);
        self.with(
            k,
            if s.run(picks, delivered).1 == RunEnd::Live {
                Some(s.after_run(picks, delivered))
            } else {
                None
            },
        )
    }

    /// What the client of `k` is told of it.
    pub open spec fn told(
        self,
        k: int,
        rows: int,
        picks: Seq<u32>,
        delivered: int,
        now: u64,
    ) -> Outcome {
        let s = self.slots[k]->0.moved(rows);
        outcome(s.run(picks, delivered).1, s.after_run(picks, delivered).stats(now))
    }

    /// The prompt at `k` is in, as `rows` rows.
    pub open spec fn finished(self, k: int, rows: u32, max_ctx: usize, now: u64) -> BatchView {
        BatchView {
            slots: match self.slots[k] {
                Some(s) => self.slots.update(k, Some(s.seated(rows, max_ctx, now))),
                None => self.slots,
            },
            chunking: self.chunking.update(k, false),
            ..self
        }
    }

    /// The pending tokens of the decoding slots below `n`, zero elsewhere.
    pub open spec fn token_plane(self, n: int) -> Seq<u32> {
        Seq::new(
            n as nat,
            |k: int|
                if (self.decoding())(k) {
                    self.slots[k]->0.pending
                } else {
                    0
                },
        )
    }

    /// The positions of the decoding slots below `n`, zero elsewhere.
    pub open spec fn position_plane(self, n: int) -> Seq<u32> {
        Seq::new(
            n as nat,
            |k: int|
                if (self.decoding())(k) {
                    self.slots[k]->0.pos
                } else {
                    0
                },
        )
    }

    /// The decoding slots below `n`, in slot order: slot, pending token, position.
    pub open spec fn rows(self, n: nat) -> Seq<(usize, u32, u32)>
        decreases n,
    {
        if n == 0 {
            Seq::empty()
        } else if (self.decoding())(n - 1) {
            self.rows((n - 1) as nat).push(
                ((n - 1) as usize, self.slots[n - 1]->0.pending, self.slots[n - 1]->0.pos),
            )
        } else {
            self.rows((n - 1) as nat)
        }
    }
}

impl Batch {
    /// The prompt at `k` is in, as `rows` rows: seat the sequence behind them and say what is left
    /// to do.
    pub fn finish_prefill(&mut self, k: usize, rows: u32, max_ctx: usize, now: u64) -> (f: Finish)
        requires
            old(self)@.wf(),
            k < old(self)@.width(),
        ensures
            final(self)@ == old(self)@.finished(k as int, rows, max_ctx, now),
            final(self)@.wf(),
            f == (match old(self)@.slots[k as int] {
                None => Finish::Stale,
                Some(s) => if s.resumes() {
                    Finish::Resumed
                } else {
                    Finish::Sample
                },
            }),
    {
        let ghost before = self@;
        self.chunking.set(k, false);
        let taken = self.slots[k].take();
        match taken {
            None => {
                assert(self@.slots =~= before.slots);
                Finish::Stale
            },
            Some(mut s) => {
                let resumes: bool = s.seat(rows, max_ctx, now);
                self.slots.set(k, Some(s));
                assert(self@.slots =~= before.slots.update(k as int, Some(s@)));
                if resumes {
                    Finish::Resumed
                } else {
                    Finish::Sample
                }
            },
        }
    }

    /// How many of `picks` the client at `k` is to be sent, as long as it stays.
    pub fn emit_count(&self, k: usize, picks: &Vec<u32>) -> (n: usize)
        requires
            k < self@.width(),
            self@.slots[k as int] matches Some(s) ==> s.generated + picks@.len() <= usize::MAX,
        ensures
            n == (match self@.slots[k as int] {
                Some(s) => s.run(picks@, picks@.len() as int).0,
                None => 0,
            }),
    {
        match &self.slots[k] {
            Some(s) => s.emit_count(picks),
            None => 0,
        }
    }

    /// The sequence at `k` moves `rows` positions ahead and takes `picks`, of which `delivered`
    /// reached its client.
    pub fn feed(
        &mut self,
        k: usize,
        rows: u32,
        picks: &Vec<u32>,
        delivered: usize,
        now: u64,
    ) -> (o: Outcome)
        requires
            old(self)@.wf(),
            k < old(self)@.width(),
            old(self)@.slots[k as int] matches Some(s) ==> s.generated + picks@.len() <= usize::MAX
                && s.pos + rows <= u32::MAX,
        ensures
            final(self)@.wf(),
            old(self)@.slots[k as int] is None ==> o == Outcome::Ignored && final(self)@ == old(self)@,
            old(self)@.slots[k as int] is Some ==> final(self)@ == old(self)@.fed(
                k as int,
                rows as int,
                picks@,
                delivered as int,
            ) && o == old(self)@.told(k as int, rows as int, picks@, delivered as int, now),
    {
        let ghost before = self@;
        let taken = self.slots[k].take();
        match taken {
            None => {
                assert(self@.slots =~= before.slots);
                Outcome::Ignored
            },
            Some(mut s) => {
                s.pos = s.pos + rows;
                assert(s@ == before.slots[k as int]->0.moved(rows as int));
                let end = s.commit_run(picks, delivered);
                match end {
                    RunEnd::Live => {
                        self.slots.set(k, Some(s));
                        assert(self@.slots =~= before.slots.update(k as int, Some(s@)));
                        Outcome::Live
                    },
                    RunEnd::Stop => {
                        assert(self@.slots =~= before.slots.update(k as int, None));
                        Outcome::Done(FinishReason::Stop, s.run_stats(now))
                    },
                    RunEnd::Length => {
                        assert(self@.slots =~= before.slots.update(k as int, None));
                        Outcome::Done(FinishReason::Length, s.run_stats(now))
                    },
                    RunEnd::HungUp => {
                        assert(self@.slots =~= before.slots.update(k as int, None));
                        Outcome::HungUp
                    },
                }
            },
        }
    }

    /// Commit a token that was drawn for the row of `k`: the pending token is now in the cache at
    /// its position. A row with no KV behind it is a hole, whatever came back for it.
    pub fn commit_device_token(&mut self, k: usize, next: u32, delivered: bool, now: u64) -> (o:
        Outcome)
        requires
            old(self)@.wf(),
            k < old(self)@.width(),
            old(self)@.slots[k as int] matches Some(s) ==> s.generated < usize::MAX && s.pos
                < u32::MAX,
        ensures
            final(self)@.wf(),
            !(old(self)@.decoding())(k as int) ==> o == Outcome::Ignored && final(self)@ == old(self)@,
            (old(self)@.decoding())(k as int) ==> {
                let took = if delivered {
                    1int
                } else {
                    0int
                };
                &&& final(self)@ == old(self)@.fed(k as int, 1, seq![next], took)
                &&& o == old(self)@.told(k as int, 1, seq![next], took, now)
            },
    {
        let prefilled: bool = match &self.slots[k] {
            Some(s) => s.prefilled,
            None => false,
        };
        if !prefilled {
            return Outcome::Ignored;
        }
        let mut picks: Vec<u32> = Vec::new();
        picks.push(next);
        assert(picks@ =~= seq![next]);
        self.feed(
            k,
            1,
            &picks,
            if delivered {
                1
            } else {
                0
            },
            now,
        )
    }

    /// Draw the first token of a prompt that just went in.
    pub fn first_token(&mut self, k: usize, next: u32, delivered: bool, now: u64) -> (o: Outcome)
        requires
            old(self)@.wf(),
            k < old(self)@.width(),
            old(self)@.slots[k as int] matches Some(s) ==> s.generated < usize::MAX,
        ensures
            final(self)@.wf(),
            old(self)@.slots[k as int] is None ==> o == Outcome::Ignored && final(self)@ == old(self)@,
            old(self)@.slots[k as int] is Some ==> {
                let took = if delivered {
                    1int
                } else {
                    0int
                };
                &&& final(self)@ == old(self)@.fed(k as int, 0, seq![next], took)
                &&& o == old(self)@.told(k as int, 0, seq![next], took, now)
            },
    {
        let mut picks: Vec<u32> = Vec::new();
        picks.push(next);
        assert(picks@ =~= seq![next]);
        self.feed(
            k,
            0,
            &picks,
            if delivered {
                1
            } else {
                0
            },
            now,
        )
    }

    /// Free the slot at `k`. The request that was in it.
    pub fn retire(&mut self, k: usize) -> (id: Option<u64>)
        requires
            old(self)@.wf(),
            k < old(self)@.width(),
        ensures
            final(self)@ == old(self)@.without(k as int),
            final(self)@.wf(),
            id == (match old(self)@.slots[k as int] {
                Some(s) => Some(s.id),
                None => None,
            }),
    {
        let ghost before = self@;
        self.chunking.set(k, false);
        let taken = self.slots[k].take();
        assert(self@.slots =~= before.slots.update(k as int, None));
        match taken {
            Some(s) => Some(s.id),
            None => None,
        }
    }

    /// One decode step over the slots below the high-water mark: a decoding slot feeds its pending
    /// token at its position, every other one a hole of zeros.
    pub fn decode_planes(&self) -> (r: (Vec<u32>, Vec<u32>))
        ensures
            r.0@ == self@.token_plane(self@.high_water()),
            r.1@ == self@.position_plane(self@.high_water()),
    {
        let n: usize = self.high_water();
        let mut tokens: Vec<u32> = Vec::new();
        let mut positions: Vec<u32> = Vec::new();
        let mut k: usize = 0;
        while k < n
            invariant
                k <= n <= self.slots@.len(),
                tokens@ == self@.token_plane(k as int),
                positions@ == self@.position_plane(k as int),
            decreases n - k,
        {
            let (t, p): (u32, u32) = match &self.slots[k] {
                Some(s) => if s.prefilled {
                    (s.pending, s.pos)
                } else {
                    (0, 0)
                },
                None => (0, 0),
            };
            tokens.push(t);
            positions.push(p);
            assert(tokens@ =~= self@.token_plane(k + 1));
            assert(positions@ =~= self@.position_plane(k + 1));
            k = k + 1;
        }
        (tokens, positions)
    }

    /// The rows of a mixed tick that decode: slot, pending token, position.
    pub fn decode_rows(&self) -> (rows: Vec<(usize, u32, u32)>)
        ensures
            rows@ == self@.rows(self@.width()),
    {
        let mut rows: Vec<(usize, u32, u32)> = Vec::new();
        let mut k: usize = 0;
        while k < self.slots.len()
            invariant
                k <= self.slots@.len(),
                rows@ == self@.rows(k as nat),
            decreases self.slots@.len() - k,
        {
            if let Some(s) = &self.slots[k] {
                if s.prefilled {
                    rows.push((k, s.pending, s.pos));
                }
            }
            k = k + 1;
        }
        rows
    }
}

/// A slot that is empty, or has no KV behind it yet, feeds a hole: token zero at position zero.
pub proof fn law_holes_feed_zeros(b: BatchView, k: int)
    requires
        0 <= k < b.high_water() <= b.width(),
        !(b.decoding())(k),
    ensures
        b.token_plane(b.high_water())[k] == 0,
        b.position_plane(b.high_water())[k] == 0,
{
}

/// The rows of a mixed tick are exactly the decoding slots, each once, in slot order.
pub proof fn law_rows_are_the_decoders(b: BatchView, n: nat, k: int)
    requires
        n <= b.width() <= usize::MAX,
        0 <= k < n,
    ensures
        (b.decoding())(k) <==> exists|i: int|
            0 <= i < b.rows(n).len() && (#[trigger] b.rows(n)[i]).0 == k,
        forall|i: int, j: int|
            0 <= i < j < b.rows(n).len() ==> (#[trigger] b.rows(n)[i]).0 < (#[trigger] b.rows(n)[j]).0,
    decreases n,
{
    lemma_rows_below(b, n);
    if n > 0 {
        let prev = b.rows((n - 1) as nat);
        let rows = b.rows(n);
        if n - 1 > 0 {
            if k < n - 1 {
                law_rows_are_the_decoders(b, (n - 1) as nat, k);
                if (b.decoding())(k) {
                    let i = choose|i: int| 0 <= i < prev.len() && (#[trigger] prev[i]).0 == k;
                    assert(rows[i].0 == k);
                }
                if exists|i: int| 0 <= i < rows.len() && (#[trigger] rows[i]).0 == k {
                    let i = choose|i: int| 0 <= i < rows.len() && (#[trigger] rows[i]).0 == k;
                    assert(prev[i].0 == k);
                }
            } else {
                law_rows_are_the_decoders(b, (n - 1) as nat, 0);
            }
        }
        lemma_rows_below(b, (n - 1) as nat);
        if k == n - 1 && (b.decoding())(k) {
            assert(rows[rows.len() - 1].0 == k);
        }
    }
}

proof fn lemma_rows_below(b: BatchView, n: nat)
    requires
        n <= usize::MAX,
    ensures
        forall|i: int| 0 <= i < b.rows(n).len() ==> (#[trigger] b.rows(n)[i]).0 < n,
    decreases n,
{
    if n > 0 {
        lemma_rows_below(b, (n - 1) as nat);
        let prev = b.rows((n - 1) as nat);
        assert forall|i: int| 0 <= i < b.rows(n).len() implies (#[trigger] b.rows(n)[i]).0 < n by {
            if i < prev.len() {
                assert(b.rows(n)[i] == prev[i]);
            }
        }
    }
}

/// The planes hold what each decoding slot feeds, place for place: its pending token, and as its
/// position the rows committed to its cache, also where these are more than the tokens of its
/// history. Every row of the compact batch says the same of its slot.
pub proof fn law_planes_hold_the_decoders(b: BatchView, k: int)
    requires
        0 <= k < b.high_water() <= b.width() <= usize::MAX,
    ensures
        b.token_plane(b.high_water()).len() == b.high_water(),
        b.position_plane(b.high_water()).len() == b.high_water(),
        b.slots[k] matches Some(s) ==> s.prefilled ==> {
            &&& b.token_plane(b.high_water())[k] == s.pending
            &&& b.position_plane(b.high_water())[k] == s.pos
        },
        forall|i: int|
            0 <= i < b.rows(b.high_water() as nat).len() ==> {
                let r = #[trigger] b.rows(b.high_water() as nat)[i];
                &&& r.0 < b.high_water()
                &&& b.slots[r.0 as int] matches Some(s) && s.prefilled && r.1 == s.pending && r.2
                    == s.pos
                &&& b.token_plane(b.high_water())[r.0 as int] == r.1
                &&& b.position_plane(b.high_water())[r.0 as int] == r.2
            },
{
    lemma_rows_hold(b, b.high_water() as nat);
}

proof fn lemma_rows_hold(b: BatchView, n: nat)
    requires
        n <= b.width() <= usize::MAX,
    ensures
        forall|i: int|
            0 <= i < b.rows(n).len() ==> {
                let r = #[trigger] b.rows(n)[i];
                &&& r.0 < n
                &&& (b.decoding())(r.0 as int)
                &&& r.1 == b.slots[r.0 as int]->0.pending
                &&& r.2 == b.slots[r.0 as int]->0.pos
            },
    decreases n,
{
    if n > 0 {
        lemma_rows_hold(b, (n - 1) as nat);
        let prev = b.rows((n - 1) as nat);
        assert forall|i: int| 0 <= i < b.rows(n).len() implies {
            let r = #[trigger] b.rows(n)[i];
            &&& r.0 < n
            &&& (b.decoding())(r.0 as int)
            &&& r.1 == b.slots[r.0 as int]->0.pending
            &&& r.2 == b.slots[r.0 as int]->0.pos
        } by {
            if i < prev.len() {
                assert(b.rows(n)[i] == prev[i]);
            }
        }
    }
}

/// A sequence that is fed goes on in its slot, further by the rows it was fed and with the tokens
/// it took, exactly when its run leaves it alive; otherwise its slot is free. Nobody else moves.
pub proof fn law_feeding_moves_one_sequence(
    b: BatchView,
    k: int,
    rows: int,
    picks: Seq<u32>,
    delivered: int,
    j: int,
)
    requires
        0 <= k < b.width(),
        0 <= j < b.width(),
        b.slots[k] is Some,
        0 <= rows,
        b.slots[k]->0.pos + rows <= u32::MAX,
    ensures
        j != k ==> b.fed(k, rows, picks, delivered).slots[j] == b.slots[j],
        b.fed(k, rows, picks, delivered).chunking == b.chunking,
        b.fed(k, rows, picks, delivered).encoding == b.encoding,
        b.fed(k, rows, picks, delivered).preempted == b.preempted,
        ({
            let s = b.slots[k]->0;
            let end = s.run(picks, delivered).1;
            &&& b.fed(k, rows, picks, delivered).slots[k] is Some <==> end == RunEnd::Live
            &&& b.fed(k, rows, picks, delivered).slots[k] matches Some(t) ==> {
                &&& t.pos == s.pos + rows
                &&& t.history == s.after_run(picks, delivered).history
                &&& t.pending == s.after_run(picks, delivered).pending
                &&& t.generated == s.after_run(picks, delivered).generated
                &&& t.max_tokens == s.max_tokens && t.prompt == s.prompt && t.id == s.id
            }
        }),
{
}

/// A client is told how its sequence ended, and nothing while it goes on or when it is gone; the
/// blocks it is told of hold the rows that were fed too.
pub proof fn law_clients_are_told_how_it_ended(
    b: BatchView,
    k: int,
    rows: int,
    picks: Seq<u32>,
    delivered: int,
    now: u64,
)
    requires
        0 <= k < b.width(),
        b.slots[k] is Some,
        0 <= rows,
        b.slots[k]->0.pos + rows <= u32::MAX,
    ensures
        ({
            let s = b.slots[k]->0;
            let end = s.run(picks, delivered).1;
            match b.told(k, rows, picks, delivered, now) {
                Outcome::Live => end == RunEnd::Live,
                Outcome::HungUp => end == RunEnd::HungUp,
                Outcome::Ignored => false,
                Outcome::Done(why, stats) => {
                    &&& end == RunEnd::Stop && why == FinishReason::Stop || end == RunEnd::Length
                        && why == FinishReason::Length
                    &&& s.pos + rows <= stats.kv_pages * 16 < s.pos + rows + 16
                    &&& stats.spec_drafted == s.spec_drafted && stats.spec_accepted
                        == s.spec_accepted
                },
            }
        }),
{
}

/// A prompt that is in stops advancing and its sequence decodes from there on; nobody else moves.
pub proof fn law_finished_prompts_decode(
    b: BatchView,
    k: int,
    rows: u32,
    max_ctx: usize,
    now: u64,
    j: int,
)
    requires
        b.wf(),
        0 <= k < b.width(),
        0 <= j < b.width(),
    ensures
        !b.finished(k, rows, max_ctx, now).chunking[k],
        b.slots[k] is None ==> b.finished(k, rows, max_ctx, now).slots == b.slots,
        b.slots[k] is Some ==> (b.finished(k, rows, max_ctx, now).slots[k] matches Some(t)
            && t.prefilled && t.pos == rows && t.history == b.slots[k]->0.history),
        j != k ==> b.finished(k, rows, max_ctx, now).slots[j] == b.slots[j],
        j != k ==> b.finished(k, rows, max_ctx, now).chunking[j] == b.chunking[j],
        b.finished(k, rows, max_ctx, now).preempted == b.preempted,
{
}

} // verus!
