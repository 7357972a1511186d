//! Prompts on their way into the cache: which one starts next, who waits for a shared prefix, and
//! which slots ride which pass.
use crate::service::batch::{Batch, BatchView};
use crate::service::scan;
use crate::service::slot::SlotView;
use vstd::prelude::*;

verus! {

/// How much of an in-flight prompt is kept for shared-prefix matching.
pub const PREFIX_LCP_CAP: usize = 8192;

/// How far `a` and `b` agree from index `i` on.
pub open spec fn agree_from(a: Seq<u32>, b: Seq<u32>, i: int) -> int
    decreases a.len() - i,
{
    if 0 <= i < a.len() && i < b.len() && a[i] == b[i] {
        agree_from(a, b, i + 1)
    } else {
        i
    }
}

/// The length of the longest common prefix of two token streams.
pub open spec fn lcp(a: Seq<u32>, b: Seq<u32>) -> int {
    agree_from(a, b, 0)
}

/// The longest common prefix is common, and no longer one is.
pub proof fn law_lcp_is_longest(a: Seq<u32>, b: Seq<u32>)
    ensures
        0 <= lcp(a, b) <= a.len(),
        lcp(a, b) <= b.len(),
        a.take(lcp(a, b)) == b.take(lcp(a, b)),
        forall|n: int|
            lcp(a, b) < n <= a.len() && n <= b.len() ==> #[trigger] a.take(n) != b.take(n),
{
    lemma_agree_from(a, b, 0);
    assert(a.take(lcp(a, b)) =~= b.take(lcp(a, b)));
    assert forall|n: int| lcp(a, b) < n <= a.len() && n <= b.len() implies #[trigger] a.take(n)
        != b.take(n) by {
        assert(a.take(n)[lcp(a, b)] == a[lcp(a, b)]);
        assert(b.take(n)[lcp(a, b)] == b[lcp(a, b)]);
    }
}

proof fn lemma_agree_from(a: Seq<u32>, b: Seq<u32>, i: int)
    requires
        0 <= i <= a.len(),
        i <= b.len(),
    ensures
        i <= agree_from(a, b, i) <= a.len(),
        agree_from(a, b, i) <= b.len(),
        forall|j: int| i <= j < agree_from(a, b, i) ==> a[j] == b[j],
        agree_from(a, b, i) < a.len() && agree_from(a, b, i) < b.len() ==> a[agree_from(a, b, i)]
            != b[agree_from(a, b, i)],
    decreases a.len() - i,
{
    if i < a.len() && i < b.len() && a[i] == b[i] {
        lemma_agree_from(a, b, i + 1);
    }
}

/// Longest common prefix of two token streams, in tokens.
pub fn lcp_len(a: &Vec<u32>, b: &Vec<u32>) -> (n: usize)
    ensures
        n == lcp(a@, b@),
{
    let mut i: usize = 0;
    while i < a.len() && i < b.len() && a[i] == b[i]
        invariant
            i <= a@.len(),
            agree_from(a@, b@, i as int) == lcp(a@, b@),
        decreases a@.len() - i,
    {
        i = i + 1;
    }
    i
}

/// A prompt that is prefilling: its slot, the head of its tokens, and how much of it came out of
/// the cache.
pub struct Leader {
    pub slot: usize,
    pub prompt: Vec<u32>,
    pub resumed: usize,
}

/// A leader, seen.
#[verifier::ext_equal]
pub struct LeaderView {
    pub slot: usize,
    pub prompt: Seq<u32>,
    pub resumed: usize,
}

impl View for Leader {
    type V = LeaderView;

    open spec fn view(&self) -> LeaderView {
        LeaderView { slot: self.slot, prompt: self.prompt@, resumed: self.resumed }
    }
}

/// The leaders, seen.
pub open spec fn leaders(v: Seq<Leader>) -> Seq<LeaderView> {
    v.map_values(|l: Leader| l@)
}

/// A leader that `prompt` at slot `k` would wait on: it shares at least `floor` tokens with it and
/// is still computing part of them.
pub open spec fn holds_back(
    v: Seq<LeaderView>,
    floor: usize,
    k: usize,
    prompt: Seq<u32>,
) -> spec_fn(int) -> bool {
    |i: int|
        v[i].slot != k && lcp(prompt, v[i].prompt) >= floor && lcp(prompt, v[i].prompt)
            > v[i].resumed
}

/// The leader a pending prompt waits on: the first that holds it back.
pub open spec fn waits_on(
    v: Seq<LeaderView>,
    floor: Option<usize>,
    k: usize,
    prompt: Seq<u32>,
) -> Option<(usize, int)> {
    match floor {
        None => None,
        Some(f) => match scan::first_from(0, v.len() as int, holds_back(v, f, k, prompt)) {
            Some(i) => Some((v[i].slot, lcp(prompt, v[i].prompt))),
            None => None,
        },
    }
}

/// The in-flight leader, and the tokens shared with it, that a pending prompt would wait on. None
/// without a prefix cache, or when nothing in flight shares its prefix.
pub fn shares_inflight(
    inflight: &Vec<Leader>,
    floor: Option<usize>,
    k: usize,
    prompt: &Vec<u32>,
) -> (r: Option<(usize, usize)>)
    ensures
        waits_on(leaders(inflight@), floor, k, prompt@) == (match r {
            Some((j, n)) => Some((j, n as int)),
            None => None,
        }),
{
    let f: usize = match floor {
        Some(f) => f,
        None => {
            return None;
        },
    };
    let ghost v = leaders(inflight@);
    let ghost p = holds_back(v, f, k, prompt@);
    let mut i: usize = 0;
    while i < inflight.len()
        invariant
            i <= inflight@.len(),
            floor == Some(f),
            v == leaders(inflight@),
            p == holds_back(v, f, k, prompt@),
            scan::first_from(i as int, v.len() as int, p) == scan::first_from(
                0,
                v.len() as int,
                p,
            ),
        decreases inflight@.len() - i,
    {
        let l = &inflight[i];
        assert(v[i as int] == l@);
        if l.slot != k {
            let n: usize = lcp_len(prompt, &l.prompt);
            if n >= f && n > l.resumed {
                assert(p(i as int));
                return Some((l.slot, n));
            }
        }
        assert(!p(i as int));
        i = i + 1;
    }
    None
}

/// The leaders that still prefill.
pub open spec fn still_leading(v: Seq<LeaderView>, chunking: Seq<bool>) -> Seq<LeaderView>
    decreases v.len(),
{
    if v.len() == 0 {
        v
    } else {
        let rest = still_leading(v.drop_last(), chunking);
        if chunking[v.last().slot as int] {
            rest.push(v.last())
        } else {
            rest
        }
    }
}

/// Forget the leaders that landed or were abandoned: they hold nobody back.
pub fn retain_leaders(inflight: Vec<Leader>, chunking: &Vec<bool>) -> (kept: Vec<Leader>)
    requires
        forall|i: int|
            0 <= i < inflight@.len() ==> (#[trigger] inflight@[i]).slot < chunking@.len(),
    ensures
        leaders(kept@) == still_leading(leaders(inflight@), chunking@),
        forall|i: int| 0 <= i < kept@.len() ==> (#[trigger] kept@[i]).slot < chunking@.len(),
{
    let mut rest: Vec<Leader> = inflight;
    let ghost all = leaders(inflight@);
    let mut back: Vec<Leader> = Vec::new();
    while rest.len() > 0
        invariant
            forall|i: int| 0 <= i < rest@.len() ==> (#[trigger] rest@[i]).slot < chunking@.len(),
            forall|i: int| 0 <= i < back@.len() ==> (#[trigger] back@[i]).slot < chunking@.len(),
            still_leading(all, chunking@) == still_leading(leaders(rest@), chunking@) + leaders(
                back@,
            ).reverse(),
        decreases rest@.len(),
    {
        let ghost before = leaders(rest@);
        let ghost kept_back = leaders(back@);
        if let Some(l) = rest.pop() {
            assert(leaders(rest@) =~= before.drop_last());
            assert(before.last() == l@);
            if chunking[l.slot] {
                back.push(l);
                assert(leaders(back@) =~= kept_back.push(l@));
                assert(still_leading(before, chunking@) + kept_back.reverse() =~= still_leading(
                    before.drop_last(),
                    chunking@,
                ) + kept_back.push(l@).reverse());
            }
        }
    }
    let mut kept: Vec<Leader> = Vec::new();
    while back.len() > 0
        invariant
            forall|i: int| 0 <= i < back@.len() ==> (#[trigger] back@[i]).slot < chunking@.len(),
            forall|i: int| 0 <= i < kept@.len() ==> (#[trigger] kept@[i]).slot < chunking@.len(),
            still_leading(all, chunking@) == leaders(kept@) + leaders(back@).reverse(),
        decreases back@.len(),
    {
        let ghost before = leaders(back@);
        let ghost so_far = leaders(kept@);
        if let Some(l) = back.pop() {
            assert(leaders(back@) =~= before.drop_last());
            kept.push(l);
            assert(leaders(kept@) =~= so_far.push(l@));
            assert(so_far + before.reverse() =~= so_far.push(l@) + before.drop_last().reverse());
        }
    }
    assert(leaders(kept@) + leaders(back@).reverse() =~= leaders(kept@));
    kept
}

impl BatchView {
    /// A text prompt that may start: not prefilling, not held by the encoder.
    pub open spec fn startable(self) -> spec_fn(int) -> bool {
        |k: int|
            !self.chunking[k] && !self.encoding[k] && self.slots[k] is Some
                && !self.slots[k]->0.prefilled && !self.slots[k]->0.multimodal
    }

    /// Where the pending prompts below `n` other than `k` diverge from `k`'s, those that share at
    /// least `floor` tokens.
    pub open spec fn divergences(self, k: int, floor: usize, n: nat) -> Seq<usize>
        decreases n,
    {
        if n == 0 {
            Seq::empty()
        } else {
            let rest = self.divergences(k, floor, (n - 1) as nat);
            let shared = lcp(self.slots[k]->0.prompt, self.slots[n - 1]->0.prompt);
            if n - 1 != k && (self.pending_text())(n - 1) && shared >= floor {
                rest.push(shared as usize)
            } else {
                rest
            }
        }
    }

    /// The slot at `k` with its prompt handed to the backend.
    pub open spec fn handed_over(self, k: int) -> BatchView {
        self.with(k, Some(SlotView { prompt: Seq::empty(), ..self.slots[k]->0 }))
    }

    /// The slot at `k` prefills in chunks since `now`.
    pub open spec fn started(self, k: int, now: u64) -> BatchView {
        BatchView {
            slots: self.slots.update(
                k,
                Some(SlotView { chunk_started: Some(now), ..self.slots[k]->0 }),
            ),
            chunking: self.chunking.update(k, true),
            ..self
        }
    }

    /// A multimodal prompt that no pass has taken.
    pub open spec fn unencoded(self) -> spec_fn(int) -> bool {
        |k: int|
            self.slots[k] is Some && !self.slots[k]->0.prefilled && !self.chunking[k]
                && self.slots[k]->0.multimodal
    }

    /// The lowest unencoded slots below `n`, at most `room`.
    pub open spec fn wave(self, n: nat, room: nat) -> Seq<usize>
        decreases n,
    {
        if n == 0 {
            Seq::empty()
        } else {
            let rest = self.wave((n - 1) as nat, room);
            if rest.len() < room && (self.unencoded())(n - 1) {
                rest.push((n - 1) as usize)
            } else {
                rest
            }
        }
    }

    /// The slot at `k` with its chunks handed to the backend.
    pub open spec fn chunks_taken(self, k: int) -> Option<SlotView> {
        match self.slots[k] {
            Some(s) => Some(SlotView { prompt: Seq::empty(), multimodal: false, ..s }),
            None => None,
        }
    }
}

/// Room for prompts to start: the bound less those that are still advancing. A prompt whose finish
/// is deferred is done advancing.
pub open spec fn chunk_room(bound: usize, chunking: nat, deferred: nat) -> int {
    let advancing = if chunking >= deferred {
        chunking - deferred
    } else {
        0
    };
    if bound >= advancing {
        bound - advancing
    } else {
        0
    }
}

/// Finished prompts whose first tokens were put off are settled now: no prompt advances, so no
/// mixed tick is coming to settle them beside.
pub fn settles_now(deferred: usize, chunking: usize) -> (b: bool)
    ensures
        b == (deferred > 0 && deferred == chunking),
{
    deferred > 0 && deferred == chunking
}

impl Batch {
    /// Room for prompts to start.
    pub fn chunk_room(&self, bound: usize, deferred: usize) -> (n: usize)
        requires
            self@.wf(),
        ensures
            n == chunk_room(
                bound,
                scan::tally(self@.width(), |k: int| self@.chunking[k]),
                deferred as nat,
            ),
    {
        bound.saturating_sub(self.chunks().saturating_sub(deferred))
    }

    /// The lowest text prompt at or above `from` that may start.
    pub fn next_startable(&self, from: usize) -> (r: Option<usize>)
        requires
            self@.wf(),
            from <= self@.width(),
        ensures
            scan::first_from(from as int, self@.width() as int, self@.startable()) == (match r {
                Some(k) => Some(k as int),
                None => None,
            }),
            r matches Some(k) ==> from <= k < self@.width() && (self@.startable())(k as int),
    {
        let mut k: usize = from;
        while k < self.slots.len()
            invariant
                self@.wf(),
                from <= k <= self.slots@.len(),
                scan::first_from(k as int, self@.width() as int, self@.startable())
                    == scan::first_from(from as int, self@.width() as int, self@.startable()),
            decreases self.slots@.len() - k,
        {
            if let Some(s) = &self.slots[k] {
                if !self.chunking[k] && !self.encoding[k] && !s.prefilled && !s.multimodal {
                    assert((self@.startable())(k as int));
                    return Some(k);
                }
            }
            assert(!(self@.startable())(k as int));
            k = k + 1;
        }
        None
    }

    /// The leader that the prompt at `k` waits on.
    pub fn waits_on(&self, inflight: &Vec<Leader>, floor: Option<usize>, k: usize) -> (r: Option<
        (usize, usize),
    >)
        requires
            k < self@.width(),
            self@.slots[k as int] is Some,
        ensures
            waits_on(leaders(inflight@), floor, k, self@.slots[k as int]->0.prompt) == (match r {
                Some((j, n)) => Some((j, n as int)),
                None => None,
            }),
    {
        match &self.slots[k] {
            Some(s) => shares_inflight(inflight, floor, k, &s.prompt),
            None => None,
        }
    }

    /// Where every other pending prompt that will wait on `k` diverges from it, so that resumable
    /// state is left there.
    pub fn hints(&self, k: usize, floor: Option<usize>) -> (v: Vec<usize>)
        requires
            self@.wf(),
            k < self@.width(),
            self@.slots[k as int] is Some,
        ensures
            v@ == (match floor {
                Some(f) => self@.divergences(k as int, f, self@.width()),
                None => Seq::empty(),
            }),
    {
        let mut v: Vec<usize> = Vec::new();
        if let (Some(f), Some(lead)) = (floor, &self.slots[k]) {
            let mut m: usize = 0;
            while m < self.slots.len()
                invariant
                    self@.wf(),
                    k < self@.width(),
                    self@.slots[k as int] == Some(lead@),
                    m <= self.slots@.len(),
                    v@ == self@.divergences(k as int, f, m as nat),
                decreases self.slots@.len() - m,
            {
                if let Some(s) = &self.slots[m] {
                    if m != k && !self.chunking[m] && !s.prefilled && !s.multimodal {
                        let n: usize = lcp_len(&lead.prompt, &s.prompt);
                        if n >= f {
                            v.push(n);
                        }
                    }
                }
                m = m + 1;
            }
        }
        v
    }

    /// Take the prompt of `k` for the backend, and the head of it that is kept for shared-prefix
    /// matching.
    pub fn hand_over(&mut self, k: usize) -> (r: (Vec<u32>, Vec<u32>))
        requires
            old(self)@.wf(),
            k < old(self)@.width(),
            old(self)@.slots[k as int] is Some,
        ensures
            final(self)@ == old(self)@.handed_over(k as int),
            final(self)@.wf(),
            r.0@ == old(self)@.slots[k as int]->0.prompt,
            r.1@ == r.0@.take(
                if r.0@.len() <= PREFIX_LCP_CAP {
                    r.0@.len() as int
                } else {
                    PREFIX_LCP_CAP as int
                },
            ),
    {
        let ghost before = self@;
        let taken = self.slots[k].take();
        let mut prompt: Vec<u32> = Vec::new();
        if let Some(mut s) = taken {
            let mut empty: Vec<u32> = Vec::new();
            std::mem::swap(&mut s.prompt, &mut empty);
            prompt = empty;
            self.slots.set(k, Some(s));
            assert(s@ =~= (SlotView { prompt: Seq::empty(), ..before.slots[k as int]->0 }));
            assert(self@.slots =~= before.slots.update(k as int, Some(s@)));
        }
        let n: usize = if prompt.len() <= PREFIX_LCP_CAP {
            prompt.len()
        } else {
            PREFIX_LCP_CAP
        };
        let mut head: Vec<u32> = Vec::new();
        let mut i: usize = 0;
        while i < n
            invariant
                i <= n <= prompt@.len(),
                head@ == prompt@.take(i as int),
            decreases n - i,
        {
            head.push(prompt[i]);
            assert(head@ =~= prompt@.take(i + 1));
            i = i + 1;
        }
        (prompt, head)
    }

    /// The backend took the prompt of `k`, `resumed` tokens of it out of its cache: the slot now
    /// prefills, and leads whoever shares its prefix.
    pub fn chunk_started(
        &mut self,
        inflight: &mut Vec<Leader>,
        k: usize,
        head: Vec<u32>,
        resumed: usize,
        now: u64,
    )
        requires
            old(self)@.wf(),
            k < old(self)@.width(),
            old(self)@.slots[k as int] matches Some(s) && !s.prefilled,
        ensures
            final(self)@ == old(self)@.started(k as int, now),
            final(self)@.wf(),
            leaders(final(inflight)@) == leaders(old(inflight)@).push(
                LeaderView { slot: k, prompt: head@, resumed },
            ),
    {
        let ghost before = self@;
        let ghost led = leaders(inflight@);
        let taken = self.slots[k].take();
        if let Some(mut s) = taken {
            s.chunk_started = Some(now);
            self.slots.set(k, Some(s));
            assert(self@.slots =~= before.slots.update(k as int, Some(s@)));
        }
        self.chunking.set(k, true);
        inflight.push(Leader { slot: k, prompt: head, resumed });
        assert(leaders(inflight@) =~= led.push(LeaderView { slot: k, prompt: head@, resumed }));
    }

    /// Take the lowest unencoded prompts, at most `room`, for one batched encode.
    pub fn take_wave(&mut self, room: usize) -> (w: Vec<usize>)
        requires
            old(self)@.wf(),
        ensures
            w@ == old(self)@.wave(old(self)@.width(), room as nat),
            final(self)@.wf(),
            final(self)@ == (BatchView {
                slots: Seq::new(
                    old(self)@.width(),
                    |k: int|
                        if w@.contains(k as usize) {
                            old(self)@.chunks_taken(k)
                        } else {
                            old(self)@.slots[k]
                        },
                ),
                ..old(self)@
            }),
    {
        let ghost before = self@;
        let mut w: Vec<usize> = Vec::new();
        let mut k: usize = 0;
        while k < self.slots.len()
            invariant
                before == old(self)@,
                before.wf(),
                self@.wf(),
                self@.width() == before.width(),
                self@ == (BatchView { slots: self@.slots, ..before }),
                k <= self.slots@.len(),
                w@ == before.wave(k as nat, room as nat),
                forall|i: int| 0 <= i < w@.len() ==> #[trigger] w@[i] < k,
                forall|j: int|
                    0 <= j < before.width() ==> #[trigger] self@.slots[j] == (if w@.contains(
                        j as usize,
                    ) {
                        before.chunks_taken(j)
                    } else {
                        before.slots[j]
                    }),
            decreases self.slots@.len() - k,
        {
            assert(!w@.contains(k));
            assert(self@.slots[k as int] == before.slots[k as int]);
            if w.len() < room && !self.chunking[k] {
                let fits: bool = match &self.slots[k] {
                    Some(s) => !s.prefilled && s.multimodal,
                    None => false,
                };
                if fits {
                    let ghost prior = self@;
                    let ghost old_w = w@;
                    let taken = self.slots[k].take();
                    if let Some(mut s) = taken {
                        s.prompt = Vec::new();
                        s.multimodal = false;
                        self.slots.set(k, Some(s));
                        assert(Some(s@) == before.chunks_taken(k as int));
                        assert(self@.slots =~= prior.slots.update(k as int, Some(s@)));
                    }
                    w.push(k);
                    assert(w@.last() == k);
                    assert forall|j: int| 0 <= j < before.width() implies #[trigger] self@.slots[j]
                        == (if w@.contains(j as usize) {
                        before.chunks_taken(j)
                    } else {
                        before.slots[j]
                    }) by {
                        if j == k {
                            assert(w@[old_w.len() as int] == k);
                        } else {
                            assert(w@.contains(j as usize) <==> old_w.contains(j as usize)) by {
                                if old_w.contains(j as usize) {
                                    let i = choose|i: int|
                                        0 <= i < old_w.len() && old_w[i] == j as usize;
                                    assert(w@[i] == j as usize);
                                }
                                if w@.contains(j as usize) {
                                    let i = choose|i: int| 0 <= i < w@.len() && w@[i] == j as usize;
                                    assert(i < old_w.len());
                                    assert(old_w[i] == j as usize);
                                }
                            }
                            assert(self@.slots[j] == prior.slots[j]);
                        }
                    }
                }
            }
            k = k + 1;
        }
        assert(self@.slots =~= Seq::new(
            before.width(),
            |k: int|
                if w@.contains(k as usize) {
                    before.chunks_taken(k)
                } else {
                    before.slots[k]
                },
        ));
        w
    }
}

/// What the backend says of a multimodal prompt it was handed.
#[derive(Debug, Clone, Copy, PartialEq, Eq, Structural)]
pub enum MmVerdict {
    /// On the chunked queue.
    Queued,
    /// Its images are still being encoded.
    Encoding,
    /// It cannot run.
    Failed,
}

impl BatchView {
    /// A settled verdict on the multimodal prompt at `k`: queued, it prefills, if its sequence is
    /// still there; failed, its slot is free.
    pub open spec fn settled(self, k: int, v: MmVerdict) -> BatchView {
        match v {
            MmVerdict::Queued => if self.slots[k] is Some {
                BatchView { chunking: self.chunking.update(k, true), ..self }
            } else {
                self
            },
            MmVerdict::Encoding => self,
            MmVerdict::Failed => self.with(k, None),
        }
    }

    /// The classic pass takes the text prompt at `k`: nothing defers it, and its prefix is not
    /// being restored.
    pub open spec fn classic_text(self, defer_text: bool, loading: Seq<bool>) -> spec_fn(
        int,
    ) -> bool {
        |k: int|
            (self.waiting())(k) && !self.slots[k]->0.multimodal && !defer_text && !self.chunking[k]
                && !loading[k]
    }

    /// The classic pass takes the multimodal prompt at `k`.
    pub open spec fn classic_media(self, defer_mm: bool) -> spec_fn(int) -> bool {
        |k: int| (self.waiting())(k) && self.slots[k]->0.multimodal && !defer_mm
    }

    /// The prompts below `n` that `p` picks, with their slots.
    pub open spec fn prompts(self, n: nat, p: spec_fn(int) -> bool) -> Seq<(usize, Seq<u32>)>
        decreases n,
    {
        if n == 0 {
            Seq::empty()
        } else if p(n - 1) {
            self.prompts((n - 1) as nat, p).push(((n - 1) as usize, self.slots[n - 1]->0.prompt))
        } else {
            self.prompts((n - 1) as nat, p)
        }
    }

    /// The slots below `n` that `p` picks.
    pub open spec fn picked(self, n: nat, p: spec_fn(int) -> bool) -> Seq<usize>
        decreases n,
    {
        if n == 0 {
            Seq::empty()
        } else if p(n - 1) {
            self.picked((n - 1) as nat, p).push((n - 1) as usize)
        } else {
            self.picked((n - 1) as nat, p)
        }
    }
}

/// Prompts with their slots, seen.
pub open spec fn prompts_seen(v: Seq<(usize, Vec<u32>)>) -> Seq<(usize, Seq<u32>)> {
    v.map_values(|p: (usize, Vec<u32>)| (p.0, p.1@))
}

impl Batch {
    /// The verdict on a prompt of the wave just handed over. The request to fail, if it is over.
    pub fn wave_verdict(&mut self, k: usize, v: MmVerdict) -> (failed: Option<u64>)
        requires
            old(self)@.wf(),
            k < old(self)@.width(),
            old(self)@.slots[k as int] matches Some(s) ==> !s.prefilled,
        ensures
            final(self)@.wf(),
            final(self)@ == (if v == MmVerdict::Encoding {
                BatchView { encoding: old(self)@.encoding.update(k as int, true), ..old(self)@ }
            } else {
                old(self)@.settled(k as int, v)
            }),
            failed == (match (v, old(self)@.slots[k as int]) {
                (MmVerdict::Failed, Some(s)) => Some(s.id),
                _ => None,
            }),
    {
        match v {
            MmVerdict::Encoding => {
                self.encoding.set(k, true);
                None
            },
            _ => self.settle(k, v),
        }
    }

    /// The verdict on a prompt that the encoder has let go of. The request to fail, if it is over.
    pub fn encode_verdict(&mut self, k: usize, v: MmVerdict) -> (failed: Option<u64>)
        requires
            old(self)@.wf(),
            k < old(self)@.width(),
            old(self)@.slots[k as int] matches Some(s) ==> !s.prefilled,
        ensures
            final(self)@.wf(),
            final(self)@ == (BatchView {
                encoding: old(self)@.encoding.update(k as int, false),
                ..old(self)@
            }).settled(k as int, v),
            failed == (match (v, old(self)@.slots[k as int]) {
                (MmVerdict::Failed, Some(s)) => Some(s.id),
                _ => None,
            }),
    {
        self.encoding.set(k, false);
        self.settle(k, v)
    }

    fn settle(&mut self, k: usize, v: MmVerdict) -> (failed: Option<u64>)
        requires
            old(self)@.wf(),
            k < old(self)@.width(),
            old(self)@.slots[k as int] matches Some(s) ==> !s.prefilled,
        ensures
            final(self)@.wf(),
            final(self)@ == old(self)@.settled(k as int, v),
            failed == (match (v, old(self)@.slots[k as int]) {
                (MmVerdict::Failed, Some(s)) => Some(s.id),
                _ => None,
            }),
    {
        let ghost before = self@;
        match v {
            MmVerdict::Queued => {
                if self.slots[k].is_some() {
                    self.chunking.set(k, true);
                }
                None
            },
            MmVerdict::Encoding => None,
            MmVerdict::Failed => {
                let taken = self.slots[k].take();
                assert(self@.slots =~= before.slots.update(k as int, None));
                match taken {
                    Some(s) => Some(s.id),
                    None => None,
                }
            },
        }
    }

    /// Take every prompt that goes through the classic whole-prompt passes, in slot order: text
    /// with its tokens, and the slots whose multimodal chunks go.
    pub fn take_classic(&mut self, defer_text: bool, defer_mm: bool, loading: &Vec<bool>) -> (r: (
        Vec<(usize, Vec<u32>)>,
        Vec<usize>,
    ))
        requires
            old(self)@.wf(),
            loading@.len() == old(self)@.width(),
        ensures
            prompts_seen(r.0@) == old(self)@.prompts(
                old(self)@.width(),
                old(self)@.classic_text(defer_text, loading@),
            ),
            r.1@ == old(self)@.picked(old(self)@.width(), old(self)@.classic_media(defer_mm)),
            final(self)@.wf(),
            final(self)@ == (BatchView {
                slots: Seq::new(
                    old(self)@.width(),
                    |k: int|
                        if (old(self)@.classic_media(defer_mm))(k) {
                            old(self)@.chunks_taken(k)
                        } else if (old(self)@.classic_text(defer_text, loading@))(k) {
                            Some(SlotView { prompt: Seq::empty(), ..old(self)@.slots[k]->0 })
                        } else {
                            old(self)@.slots[k]
                        },
                ),
                ..old(self)@
            }),
    {
        let ghost before = self@;
        let ghost text = before.classic_text(defer_text, loading@);
        let ghost media = before.classic_media(defer_mm);
        let ghost after = |k: int|
            if media(k) {
                before.chunks_taken(k)
            } else if text(k) {
                Some(SlotView { prompt: Seq::empty(), ..before.slots[k]->0 })
            } else {
                before.slots[k]
            };
        let mut texts: Vec<(usize, Vec<u32>)> = Vec::new();
        let mut medias: Vec<usize> = Vec::new();
        let mut k: usize = 0;
        assert(prompts_seen(texts@) =~= Seq::empty());
        while k < self.slots.len()
            invariant
                before == old(self)@,
                before.wf(),
                text == before.classic_text(defer_text, loading@),
                media == before.classic_media(defer_mm),
                after == (|k: int|
                    if media(k) {
                        before.chunks_taken(k)
                    } else if text(k) {
                        Some(SlotView { prompt: Seq::empty(), ..before.slots[k]->0 })
                    } else {
                        before.slots[k]
                    }),
                loading@.len() == before.width(),
                self@.wf(),
                self@.width() == before.width(),
                self@ == (BatchView { slots: self@.slots, ..before }),
                k <= self.slots@.len(),
                prompts_seen(texts@) == before.prompts(k as nat, text),
                medias@ == before.picked(k as nat, media),
                forall|j: int|
                    0 <= j < before.width() ==> #[trigger] self@.slots[j] == (if j < k {
                        after(j)
                    } else {
                        before.slots[j]
                    }),
            decreases self.slots@.len() - k,
        {
            let ghost prior = self@;
            assert(self@.slots[k as int] == before.slots[k as int]);
            let taken = self.slots[k].take();
            match taken {
                None => {
                    assert(!text(k as int) && !media(k as int));
                },
                Some(mut s) => {
                    if !s.prefilled {
                        if s.multimodal {
                            assert(!text(k as int));
                            if !defer_mm {
                                assert(media(k as int));
                                s.prompt = Vec::new();
                                s.multimodal = false;
                                medias.push(k);
                            }
                        } else if !defer_text && !self.chunking[k] && !loading[k] {
                            assert(text(k as int));
                            let ghost seen = prompts_seen(texts@);
                            let mut prompt: Vec<u32> = Vec::new();
                            std::mem::swap(&mut s.prompt, &mut prompt);
                            texts.push((k, prompt));
                            assert(prompts_seen(texts@) =~= seen.push((k, prompt@)));
                        }
                    }
                    self.slots.set(k, Some(s));
                    assert(after(k as int) == Some(s@));
                },
            }
            assert(self@.slots =~= prior.slots.update(k as int, after(k as int)));
            k = k + 1;
        }
        assert(self@.slots =~= Seq::new(before.width(), after));
        (texts, medias)
    }

    /// Give a taken text prompt back to its slot, to be offered again next tick.
    pub fn put_back(&mut self, k: usize, prompt: Vec<u32>)
        requires
            old(self)@.wf(),
            k < old(self)@.width(),
        ensures
            final(self)@.wf(),
            final(self)@ == (match old(self)@.slots[k as int] {
                Some(s) => old(self)@.with(k as int, Some(SlotView { prompt: prompt@, ..s })),
                None => old(self)@,
            }),
    {
        let ghost before = self@;
        let taken = self.slots[k].take();
        if let Some(mut s) = taken {
            s.prompt = prompt;
            self.slots.set(k, Some(s));
            assert(self@.slots =~= before.slots.update(k as int, Some(s@)));
        } else {
            assert(self@.slots =~= before.slots);
        }
    }
}

/// Taking a prompt for the classic pass and giving it back leaves the batch as it was.
pub proof fn law_put_back_undoes_hand_over(b: BatchView, k: int)
    requires
        0 <= k < b.width(),
        b.slots[k] is Some,
    ensures
        b.handed_over(k).with(
            k,
            Some(
                SlotView { prompt: b.slots[k]->0.prompt, ..b.handed_over(k).slots[k]->0 },
            ),
        ) == b,
{
    let c = b.handed_over(k).with(
        k,
        Some(SlotView { prompt: b.slots[k]->0.prompt, ..b.handed_over(k).slots[k]->0 }),
    );
    assert(c.slots =~= b.slots);
}

/// A follower never waits for a prefix that is already published: the leader it waits on is still
/// computing part of what they share.
pub proof fn law_followers_wait_for_work(
    v: Seq<LeaderView>,
    floor: Option<usize>,
    k: usize,
    prompt: Seq<u32>,
)
    requires
        waits_on(v, floor, k, prompt) is Some,
    ensures
        exists|i: int|
            0 <= i < v.len() && (#[trigger] v[i]).slot != k && v[i].resumed < lcp(
                prompt,
                v[i].prompt,
            ) && floor->0 <= lcp(prompt, v[i].prompt) && waits_on(v, floor, k, prompt) == Some(
                (v[i].slot, lcp(prompt, v[i].prompt)),
            ),
{
    let p = holds_back(v, floor->0, k, prompt);
    scan::lemma_first_from(0, v.len() as int, p);
    let i = scan::first_from(0, v.len() as int, p)->0;
    assert(p(i));
    assert(v[i].slot != k);
}

/// A prompt waits for the first that leads it: another slot's prompt that shares with it at least
/// the floor and more than that one found cached. It waits for nobody where there is no floor, and
/// nobody is passed over.
pub proof fn law_followers_wait_for_the_first(
    v: Seq<LeaderView>,
    floor: Option<usize>,
    k: usize,
    prompt: Seq<u32>,
    i: int,
)
    requires
        0 <= i < v.len(),
    ensures
        floor is None ==> waits_on(v, floor, k, prompt) is None,
        floor matches Some(f) ==> v[i].slot != k && lcp(prompt, v[i].prompt) >= f && lcp(
            prompt,
            v[i].prompt,
        ) > v[i].resumed ==> waits_on(v, floor, k, prompt) is Some && exists|j: int|
            0 <= j <= i && #[trigger] v[j].slot != k && lcp(prompt, v[j].prompt) >= f && waits_on(
                v,
                floor,
                k,
                prompt,
            ) == Some((v[j].slot, lcp(prompt, v[j].prompt))),
{
    if let Some(f) = floor {
        let p = holds_back(v, f, k, prompt);
        scan::law_first_is_the_first(0, v.len() as int, p);
        if v[i].slot != k && lcp(prompt, v[i].prompt) >= f && lcp(prompt, v[i].prompt)
            > v[i].resumed {
            assert(p(i));
            let j = scan::first_from(0, v.len() as int, p)->0;
            assert(v[j].slot != k);
        }
    }
}

/// Those who still lead are those whose slots still prefill, in the order they began.
pub proof fn law_leaders_lead_while_they_prefill(v: Seq<LeaderView>, chunking: Seq<bool>, i: int)
    requires
        0 <= i < v.len(),
    ensures
        chunking[v[i].slot as int] ==> still_leading(v, chunking).contains(v[i]),
        forall|j: int|
            0 <= j < still_leading(v, chunking).len() ==> v.contains(
                #[trigger] still_leading(v, chunking)[j],
            ) && chunking[still_leading(v, chunking)[j].slot as int],
        still_leading(v, chunking).len() <= v.len(),
        (forall|j: int| 0 <= j < v.len() ==> chunking[(#[trigger] v[j]).slot as int])
            ==> still_leading(v, chunking) == v,
    decreases v.len(),
{
    let w = v.drop_last();
    let rest = still_leading(w, chunking);
    let all = still_leading(v, chunking);
    if w.len() > 0 {
        law_leaders_lead_while_they_prefill(w, chunking, if i < w.len() {
            i
        } else {
            0
        });
    } else {
        assert(rest =~= Seq::<LeaderView>::empty());
    }
    if i < w.len() {
        assert(w[i] == v[i]);
        if chunking[v[i].slot as int] {
            let j = choose|j: int| 0 <= j < rest.len() && rest[j] == v[i];
            assert(all[j] == v[i]);
        }
    } else if chunking[v[i].slot as int] {
        assert(all[all.len() - 1] == v[i]);
    }
    assert forall|j: int| 0 <= j < all.len() implies v.contains(#[trigger] all[j])
        && chunking[all[j].slot as int] by {
        if j < rest.len() {
            assert(all[j] == rest[j]);
            assert(w.contains(rest[j]));
            let m = choose|m: int| 0 <= m < w.len() && w[m] == rest[j];
            assert(v[m] == all[j]);
        } else {
            assert(v[v.len() - 1] == all[j]);
        }
    }
    if forall|j: int| 0 <= j < v.len() ==> chunking[(#[trigger] v[j]).slot as int] {
        assert forall|j: int| 0 <= j < w.len() implies chunking[(#[trigger] w[j]).slot as int] by {
            assert(w[j] == v[j]);
        }
        assert(rest == w) by {
            if w.len() == 0 {
                assert(rest =~= w);
            }
        }
        assert(all =~= v);
    }
}

/// The hints of a prompt are how far it runs with each other text prompt that has not begun, where
/// that reaches the floor, in order of their slots.
pub proof fn law_hints_are_shared_prefixes(b: BatchView, k: int, floor: usize, n: nat, j: int)
    requires
        n <= b.width() <= usize::MAX,
        0 <= j < n,
        b.slots[k] is Some,
        b.slots[k]->0.prompt.len() <= usize::MAX,
    ensures
        j != k && (b.pending_text())(j) && lcp(b.slots[k]->0.prompt, b.slots[j]->0.prompt) >= floor
            ==> b.divergences(k, floor, n).contains(
            lcp(b.slots[k]->0.prompt, b.slots[j]->0.prompt) as usize,
        ),
        forall|i: int|
            0 <= i < b.divergences(k, floor, n).len() ==> floor <= #[trigger] b.divergences(
                k,
                floor,
                n,
            )[i] <= b.slots[k]->0.prompt.len(),
        b.divergences(k, floor, n).len() <= n,
    decreases n,
{
    let prompt = b.slots[k]->0.prompt;
    let rest = b.divergences(k, floor, (n - 1) as nat);
    let all = b.divergences(k, floor, n);
    law_lcp_is_longest(prompt, b.slots[n - 1]->0.prompt);
    if n > 1 {
        law_hints_are_shared_prefixes(b, k, floor, (n - 1) as nat, if j < n - 1 {
            j
        } else {
            0
        });
    } else {
        assert(rest.len() == 0);
    }
    if j != k && (b.pending_text())(j) && lcp(prompt, b.slots[j]->0.prompt) >= floor {
        let x = lcp(prompt, b.slots[j]->0.prompt) as usize;
        if j == n - 1 {
            assert(all[all.len() - 1] == x);
        } else {
            let i = choose|i: int| 0 <= i < rest.len() && rest[i] == x;
            assert(all[i] == x);
        }
    }
    assert forall|i: int| 0 <= i < all.len() implies floor <= #[trigger] all[i] <= prompt.len() by {
        if i < rest.len() {
            assert(all[i] == rest[i]);
        }
    }
}

/// A prompt that starts is marked as advancing and timed, one that is handed over is left without
/// its tokens, and nothing else of it or of the others moves.
pub proof fn law_starting_marks_one_slot(b: BatchView, k: int, now: u64, j: int)
    requires
        b.wf(),
        0 <= k < b.width(),
        0 <= j < b.width(),
        b.slots[k] is Some,
    ensures
        b.started(k, now).chunking[k],
        b.started(k, now).slots[k] matches Some(s) && s.chunk_started == Some(now) && s == (
        SlotView { chunk_started: s.chunk_started, ..b.slots[k]->0 }),
        b.handed_over(k).slots[k] matches Some(s) && s.prompt.len() == 0 && s == (SlotView {
            prompt: s.prompt,
            ..b.slots[k]->0
        }),
        j != k ==> b.started(k, now).chunking[j] == b.chunking[j],
        j != k ==> b.started(k, now).slots[j] == b.slots[j],
        j != k ==> b.handed_over(k).slots[j] == b.slots[j],
        b.started(k, now).encoding == b.encoding && b.started(k, now).preempted == b.preempted,
        b.handed_over(k).chunking == b.chunking && b.handed_over(k).preempted == b.preempted,
        (b.startable())(k) <==> !b.slots[k]->0.prefilled && !b.slots[k]->0.multimodal
            && !b.chunking[k] && !b.encoding[k],
{
}

/// A wave takes the first media prompts that wait, as many as there is room for, in order.
pub proof fn law_waves_take_the_first(b: BatchView, n: nat, room: nat)
    requires
        n <= b.width() <= usize::MAX,
    ensures
        b.wave(n, room).len() <= room,
        forall|i: int|
            0 <= i < b.wave(n, room).len() ==> {
                let k = #[trigger] b.wave(n, room)[i];
                k < n && !b.chunking[k as int] && (b.slots[k as int] matches Some(s) && s.multimodal
                    && !s.prefilled)
            },
        forall|i: int, j: int|
            0 <= i < j < b.wave(n, room).len() ==> #[trigger] b.wave(n, room)[i] < #[trigger] b.wave(
                n,
                room,
            )[j],
        forall|k: int|
            0 <= k < n && !b.chunking[k] && (#[trigger] b.slots[k] matches Some(s) && s.multimodal
                && !s.prefilled) ==> b.wave(n, room).contains(k as usize) || (
            b.wave(n, room).len() == room && forall|i: int|
                0 <= i < room ==> #[trigger] b.wave(n, room)[i] < k),
    decreases n,
{
    if n > 0 {
        law_waves_take_the_first(b, (n - 1) as nat, room);
        let prev = b.wave((n - 1) as nat, room);
        let all = b.wave(n, room);
        assert forall|k: int|
            0 <= k < n && !b.chunking[k] && (#[trigger] b.slots[k] matches Some(s) && s.multimodal
                && !s.prefilled) implies all.contains(
            k as usize,
        ) || (all.len() == room && forall|i: int| 0 <= i < room ==> #[trigger] all[i] < k) by {
            if k == n - 1 {
                if prev.len() < room {
                    assert(all[all.len() - 1] == k as usize);
                }
            } else if prev.contains(k as usize) {
                let i = choose|i: int| 0 <= i < prev.len() && prev[i] == k as usize;
                assert(all[i] == k as usize);
            } else {
                assert(all == prev);
            }
        }
    }
}

/// A bound leaves room for as many prompts as it is above those that advance and are not put off.
pub proof fn law_room_is_what_the_bound_leaves(bound: usize, chunking: nat, deferred: nat)
    ensures
        chunk_room(bound, chunking, deferred) >= 0,
        deferred <= chunking && chunking - deferred <= bound ==> chunk_room(
            bound,
            chunking,
            deferred,
        ) + chunking == bound + deferred,
        deferred <= chunking && chunking - deferred > bound ==> chunk_room(bound, chunking, deferred)
            == 0,
        deferred > chunking ==> chunk_room(bound, chunking, deferred) == bound,
{
}

/// A media prompt that is queued advances, one still being encoded stays as it is, and one that
/// failed frees its slot; no other slot is touched.
pub proof fn law_media_verdicts_touch_one_slot(b: BatchView, k: int, v: MmVerdict, j: int)
    requires
        b.wf(),
        0 <= k < b.width(),
        0 <= j < b.width(),
        b.slots[k] is Some,
    ensures
        v == MmVerdict::Queued ==> b.settled(k, v).chunking[k] && b.settled(k, v).slots == b.slots,
        v == MmVerdict::Encoding ==> b.settled(k, v) == b,
        v == MmVerdict::Failed ==> b.settled(k, v).slots[k] is None && b.settled(k, v).chunking
            == b.chunking,
        j != k ==> b.settled(k, v).slots[j] == b.slots[j] && b.settled(k, v).chunking[j]
            == b.chunking[j],
        b.chunks_taken(k) matches Some(s) && s.prompt.len() == 0 && !s.multimodal && s == (SlotView {
            prompt: s.prompt,
            multimodal: s.multimodal,
            ..b.slots[k]->0
        }),
{
}

/// A pass of whole prompts takes the waiting text prompts that neither advance nor load, unless
/// text is put off, and the waiting media prompts unless these are.
pub proof fn law_whole_prompts_are_taken_unless_put_off(
    b: BatchView,
    defer: bool,
    loading: Seq<bool>,
    k: int,
)
    ensures
        defer ==> !(b.classic_text(defer, loading))(k) && !(b.classic_media(defer))(k),
        b.slots[k] is None || b.slots[k]->0.prefilled ==> !(b.classic_text(defer, loading))(k)
            && !(b.classic_media(defer))(k),
        (b.classic_text(defer, loading))(k) ==> !b.slots[k]->0.multimodal && !b.chunking[k]
            && !loading[k],
        (b.classic_media(defer))(k) ==> b.slots[k]->0.multimodal,
        !defer && (b.slots[k] matches Some(s) && !s.prefilled && s.multimodal) ==> (b.classic_media(
            defer,
        ))(k),
        !defer && (b.slots[k] matches Some(s) && !s.prefilled && !s.multimodal) && !b.chunking[k]
            && !loading[k] ==> (b.classic_text(defer, loading))(k),
{
}

/// What is picked is every slot meant, each once, in order, and the prompts handed out are those
/// slots' own.
pub proof fn law_prompts_are_those_of_the_picked(b: BatchView, n: nat, p: spec_fn(int) -> bool)
    requires
        n <= b.width() <= usize::MAX,
    ensures
        b.prompts(n, p).len() == b.picked(n, p).len(),
        forall|i: int|
            0 <= i < b.picked(n, p).len() ==> {
                let k = #[trigger] b.picked(n, p)[i];
                k < n && p(k as int) && b.prompts(n, p)[i] == (k, b.slots[k as int]->0.prompt)
            },
        forall|i: int, j: int|
            0 <= i < j < b.picked(n, p).len() ==> #[trigger] b.picked(n, p)[i] < #[trigger] b.picked(
                n,
                p,
            )[j],
        forall|k: int|
            0 <= k < n && #[trigger] p(k) ==> b.picked(n, p).contains(k as usize),
    decreases n,
{
    if n > 0 {
        law_prompts_are_those_of_the_picked(b, (n - 1) as nat, p);
        let prev = b.picked((n - 1) as nat, p);
        let all = b.picked(n, p);
        assert forall|k: int| 0 <= k < n && #[trigger] p(k) implies all.contains(k as usize) by {
            if k == n - 1 {
                assert(all[all.len() - 1] == k as usize);
            } else {
                let i = choose|i: int| 0 <= i < prev.len() && prev[i] == k as usize;
                assert(all[i] == k as usize);
            }
        }
    }
}

} // verus!
