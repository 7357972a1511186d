//! Speculative rounds: how deep to draft, what each slot offers to verify, and what it keeps.
use crate::service::advance::Outcome;
use crate::service::advance;
use crate::service::batch::{Batch, BatchView};
use crate::service::prefill;
use crate::service::scan;
use crate::service::slot::{RoundTally, SlotView};
use vstd::prelude::*;

verus! {

/// The operator's speculation settings.
#[derive(Debug, Clone, Copy, PartialEq, Eq, Structural)]
pub struct SpecSettings {
    /// Rows a verify pass may hold.
    pub max_rows: usize,
    /// Longest draft of one slot.
    pub max_k: usize,
    /// Shortest draft a miss may leave a slot with.
    pub k_floor: usize,
    /// Longest draft in a mixed tick.
    pub mixed_k_cap: usize,
    /// Up to this many sequences the whole row budget is spent on depth.
    pub deep_live_max: usize,
    /// Widen the verify rows for nine to sixteen sequences.
    pub narrow64: bool,
    /// Verify rows of that band.
    pub narrow_rows: usize,
    /// Verify rows for at most eight sequences, when pinned.
    pub low_rows: Option<usize>,
}

impl Default for SpecSettings {
    fn default() -> (s: Self)
        ensures
            s == (SpecSettings {
                max_rows: 32,
                max_k: 7,
                k_floor: 1,
                mixed_k_cap: usize::MAX,
                deep_live_max: 0,
                narrow64: true,
                narrow_rows: 64,
                low_rows: None,
            }),
    {
        SpecSettings {
            max_rows: 32,
            max_k: 7,
            k_floor: 1,
            mixed_k_cap: usize::MAX,
            deep_live_max: 0,
            narrow64: true,
            narrow_rows: 64,
            low_rows: None,
        }
    }
}

impl SpecSettings {
    /// Verify rows for at most eight sequences: pinned, or eight of a block drafter's blocks, or
    /// thirty-two.
    pub open spec fn low_band(self, block: Option<usize>) -> int {
        match self.low_rows {
            Some(n) => n as int,
            None => match block {
                Some(b) => if b >= 4 {
                    8 * b
                } else {
                    32
                },
                None => 32,
            },
        }
    }

    /// Verify rows of the narrow tier.
    pub open spec fn narrow_band(self, live: int, block: Option<usize>) -> int {
        if live <= 8 {
            self.low_band(block)
        } else if self.narrow64 {
            self.narrow_rows as int
        } else {
            32
        }
    }

    /// The rows one round is sized for. A raised budget is spent whole only on few sequences, or on
    /// so many that the narrow tier leaves no room for a draft.
    pub open spec fn round_rows(self, live: int, block: Option<usize>) -> int {
        if self.max_rows > 32 && live > self.deep_live_max && live <= 16 && self.narrow_band(
            live,
            block,
        ) / live >= 2 {
            self.narrow_band(live, block)
        } else {
            self.max_rows as int
        }
    }

    /// Draft tokens per slot that the round's rows leave beside one pending token each.
    pub open spec fn budget(self, live: int, block: Option<usize>) -> int {
        let each = self.round_rows(live, block) / live - 1;
        let each = if each < 0 {
            0
        } else {
            each
        };
        if each <= self.max_k {
            each
        } else {
            self.max_k as int
        }
    }

    /// Verify-row boundary for at most eight sequences.
    pub fn spec_low_rows(&self, block: Option<usize>) -> (n: usize)
        requires
            block matches Some(b) ==> 8 * b <= usize::MAX,
        ensures
            n == self.low_band(block),
    {
        match self.low_rows {
            Some(n) => n,
            None => match block {
                Some(b) => if b >= 4 {
                    8 * b
                } else {
                    32
                },
                None => 32,
            },
        }
    }

    /// Draft tokens per slot for a round over `live` sequences.
    pub fn serve_spec_k_budget(&self, live: usize, block: Option<usize>) -> (k: usize)
        requires
            live > 0,
            block matches Some(b) ==> 8 * b <= usize::MAX,
        ensures
            k == self.budget(live as int, block),
    {
        let rows: usize = if self.max_rows > 32 && live > self.deep_live_max && live <= 16 {
            let boundary: usize = if live <= 8 {
                self.spec_low_rows(block)
            } else if self.narrow64 {
                self.narrow_rows
            } else {
                32
            };
            if boundary / live >= 2 {
                boundary
            } else {
                self.max_rows
            }
        } else {
            self.max_rows
        };
        let each: usize = (rows / live).saturating_sub(1);
        if each <= self.max_k {
            each
        } else {
            self.max_k
        }
    }
}

/// A round that drafts fits the rows it was sized for: one pending token and the drafts of every
/// sequence together.
pub proof fn law_round_fits_its_rows(s: SpecSettings, live: int, block: Option<usize>)
    requires
        live > 0,
        s.budget(live, block) > 0,
    ensures
        live * (1 + s.budget(live, block)) <= s.round_rows(live, block),
{
    let rows = s.round_rows(live, block);
    let k = s.budget(live, block);
    assert(1 + k <= rows / live);
    assert(live * (1 + k) <= rows) by (nonlinear_arith)
        requires
            1 + k <= rows / live,
            live > 0,
    ;
}

/// Nine to sixteen sequences never fall off a depth cliff against seventeen on a raised budget:
/// with the band on, each drafts at least as deep as its share of the band's rows.
pub proof fn law_narrow_band_keeps_depth(s: SpecSettings, live: int, block: Option<usize>)
    requires
        s.max_rows > 32,
        s.narrow64,
        s.narrow_rows >= 64,
        s.deep_live_max < live,
        9 <= live <= 16,
        s.max_k >= 3,
    ensures
        s.budget(live, block) >= 3,
{
    let n = s.narrow_rows as int;
    assert(n / live >= 4) by (nonlinear_arith)
        requires
            n >= 64,
            9 <= live <= 16,
    ;
}

/// Draft length after a round that drafted `drafted` tokens and kept `kept`, the verify pass's own
/// token counted: doubled on a full accept, cut to what was kept on a miss, never below the floor.
pub open spec fn next_k(k: int, drafted: int, kept: int, floor: int, max_k: int) -> int {
    if drafted == 0 {
        k
    } else if kept == drafted + 1 {
        if 2 * k <= max_k {
            2 * k
        } else {
            max_k
        }
    } else {
        let low = if floor <= k {
            floor
        } else {
            k
        };
        if kept < low {
            low
        } else if kept > k {
            k
        } else {
            kept
        }
    }
}

/// Draft length after a round.
pub fn k_after(k: usize, drafted: usize, kept: usize, floor: usize, max_k: usize) -> (n: usize)
    requires
        2 * k <= usize::MAX,
        drafted < usize::MAX,
    ensures
        n == next_k(k as int, drafted as int, kept as int, floor as int, max_k as int),
{
    if drafted == 0 {
        return k;
    }
    if kept == drafted + 1 {
        let twice: usize = 2 * k;
        return if twice <= max_k {
            twice
        } else {
            max_k
        };
    }
    let low: usize = if floor <= k {
        floor
    } else {
        k
    };
    if kept < low {
        low
    } else if kept > k {
        k
    } else {
        kept
    }
}

/// Draft lengths stay bounded, and a slot that keeps something keeps drafting.
pub proof fn law_draft_length_is_bounded(k: int, drafted: int, kept: int, floor: int, max_k: int)
    requires
        1 <= k,
        1 <= max_k,
        0 <= drafted,
        1 <= kept <= drafted + 1,
        0 <= floor,
    ensures
        1 <= next_k(k, drafted, kept, floor, max_k),
        next_k(k, drafted, kept, floor, max_k) <= (if k >= max_k {
            k
        } else {
            max_k
        }),
        kept <= drafted ==> next_k(k, drafted, kept, floor, max_k) <= k,
{
}

/// What one slot offers to a verify pass: its slot, its position, and its pending token followed by
/// drafts.
#[derive(Debug)]
pub struct Chunk {
    pub slot: usize,
    pub pos: usize,
    pub tokens: Vec<u32>,
}

/// A pending token and at most `cap` drafts behind it.
pub open spec fn offer(pending: u32, drafts: Seq<u32>, cap: int) -> Seq<u32> {
    seq![pending] + drafts.take(
        if cap <= drafts.len() {
            cap
        } else {
            drafts.len() as int
        },
    )
}

/// A pending token and at most `cap` drafts behind it.
pub fn chunk_of(pending: u32, drafts: &Vec<u32>, cap: usize) -> (c: Vec<u32>)
    ensures
        c@ == offer(pending, drafts@, cap as int),
{
    let n: usize = if cap <= drafts.len() {
        cap
    } else {
        drafts.len()
    };
    let mut c: Vec<u32> = Vec::new();
    c.push(pending);
    let mut i: usize = 0;
    assert(c@ =~= seq![pending] + drafts@.take(0));
    while i < n
        invariant
            i <= n <= drafts@.len(),
            c@ == seq![pending] + drafts@.take(i as int),
        decreases n - i,
    {
        c.push(drafts[i]);
        assert(c@ =~= seq![pending] + drafts@.take(i + 1));
        i = i + 1;
    }
    c
}

/// How a round comes by its drafts.
pub enum Drafting {
    /// It has none.
    Bare,
    /// The device holds them: so many per slot, for the warm slots that are marked.
    Ahead { depth: usize, kept: Vec<bool> },
    /// Here they are, for the warm slots in order.
    Here(Vec<Vec<u32>>),
}

/// Which warm slot the row `i` is: how many rows before it are warm.
pub open spec fn warm_rank(warm: Seq<bool>, i: int) -> nat {
    scan::tally(i as nat, |j: int| warm[j])
}

/// The smaller of two numbers.
pub open spec fn least(a: int, b: int) -> int {
    if a <= b {
        a
    } else {
        b
    }
}

/// What row `i` of a round offers. A cold slot rides along with its pending token alone; drafts the
/// device still holds stand as pads of the pending token.
pub open spec fn row_offer(
    pending: u32,
    k_now: int,
    warm: Seq<bool>,
    i: int,
    drafting: Drafting,
    k_budget: int,
) -> Seq<u32> {
    let cap = least(k_now, k_budget);
    let rank = warm_rank(warm, i) as int;
    if !warm[i] {
        seq![pending]
    } else {
        match drafting {
            Drafting::Bare => seq![pending],
            Drafting::Ahead { depth, kept } => if rank < kept@.len() && kept@[rank] {
                Seq::new((1 + least(cap, depth as int)) as nat, |j: int| pending)
            } else {
                seq![pending]
            },
            Drafting::Here(d) => offer(pending, d@[rank]@, cap),
        }
    }
}

fn pads(pending: u32, n: usize) -> (c: Vec<u32>)
    requires
        n < usize::MAX,
    ensures
        c@ == Seq::new((1 + n) as nat, |j: int| pending),
{
    let mut c: Vec<u32> = Vec::new();
    let mut i: usize = 0;
    while i < n + 1
        invariant
            i <= n + 1,
            n < usize::MAX,
            c@ == Seq::new(i as nat, |j: int| pending),
        decreases n + 1 - i,
    {
        c.push(pending);
        assert(c@ =~= Seq::new((i + 1) as nat, |j: int| pending));
        i = i + 1;
    }
    c
}

impl BatchView {
    /// Occupied slots that are not prefilling, in slot order.
    pub open spec fn round_slots(self, n: nat) -> Seq<usize>
        decreases n,
    {
        if n == 0 {
            Seq::empty()
        } else if (self.takeable())(n - 1) {
            self.round_slots((n - 1) as nat).push((n - 1) as usize)
        } else {
            self.round_slots((n - 1) as nat)
        }
    }

    /// Every slot of `ks` holds a sequence.
    pub open spec fn all_seated(self, ks: Seq<usize>) -> bool {
        forall|i: int|
            0 <= i < ks.len() ==> #[trigger] ks[i] < self.width() && self.slots[ks[i] as int] is Some
    }
}

impl SlotView {
    /// The device can draw this sequence's rows: nothing about it needs host logits.
    pub open spec fn device_rows(self, trunc: bool) -> bool {
        &&& self.sampling.device_plannable || (trunc && self.sampling.trunc_plannable)
        &&& !self.constrained
        &&& self.logprobs is None
    }

    /// The sequence can ride a greedy round: argmax picks, and every row of its cache is a token of
    /// its history.
    pub open spec fn greedy_rows(self) -> bool {
        &&& self.sampling.pure_greedy
        &&& !self.constrained
        &&& self.logprobs is None
        &&& self.pos <= self.history.len()
    }

    /// The sequence can ride a round that the host samples.
    pub open spec fn sampled_rows(self) -> bool {
        self.sampling.spec_safe && self.logprobs is None
    }

    /// Media rows took the position past the token history, which a drafter that replays tokens
    /// cannot follow.
    pub open spec fn media_cold(self, kv_space: bool) -> bool {
        self.pos > self.history.len() && !kv_space
    }
}

impl Batch {
    /// Occupied slots that are not prefilling.
    pub fn live_slots(&self) -> (v: Vec<usize>)
        requires
            self@.wf(),
        ensures
            v@ == self@.round_slots(self@.width()),
            self@.all_seated(v@),
    {
        let mut v: Vec<usize> = Vec::new();
        let mut k: usize = 0;
        while k < self.slots.len()
            invariant
                self@.wf(),
                k <= self.slots@.len(),
                v@ == self@.round_slots(k as nat),
                self@.all_seated(v@),
            decreases self.slots@.len() - k,
        {
            if self.slots[k].is_some() && !self.chunking[k] {
                v.push(k);
            }
            k = k + 1;
        }
        v
    }

    /// Every slot of `ks` can be drawn on the device.
    pub fn all_device(&self, ks: &Vec<usize>, trunc: bool) -> (r: bool)
        requires
            self@.all_seated(ks@),
        ensures
            r <==> forall|i: int|
                0 <= i < ks@.len() ==> (#[trigger] self@.slots[ks@[i] as int])->0.device_rows(trunc),
    {
        let mut i: usize = 0;
        while i < ks.len()
            invariant
                self@.all_seated(ks@),
                i <= ks@.len(),
                forall|j: int|
                    0 <= j < i ==> (#[trigger] self@.slots[ks@[j] as int])->0.device_rows(trunc),
            decreases ks@.len() - i,
        {
            let k: usize = ks[i];
            assert(self@.slots[ks@[i as int] as int] is Some);
            if let Some(s) = &self.slots[k] {
                let ok: bool = (s.sampling.device_plannable || (trunc
                    && s.sampling.trunc_plannable)) && !s.constrained && s.logprobs.is_none();
                if !ok {
                    return false;
                }
            }
            i = i + 1;
        }
        true
    }

    /// A greedy round over `ks` may run: some sequence, no more than the row budget and the
    /// drafter's own cap, all of them greedy.
    pub fn greedy_round(&self, ks: &Vec<usize>, max_rows: usize, live_cap: usize) -> (r: bool)
        requires
            self@.all_seated(ks@),
        ensures
            r <==> 0 < ks@.len() <= max_rows && ks@.len() <= live_cap && (forall|i: int|
                0 <= i < ks@.len() ==> (#[trigger] self@.slots[ks@[i] as int])->0.greedy_rows()),
    {
        if ks.len() == 0 || ks.len() > max_rows || ks.len() > live_cap {
            return false;
        }
        let mut i: usize = 0;
        while i < ks.len()
            invariant
                self@.all_seated(ks@),
                i <= ks@.len(),
                forall|j: int|
                    0 <= j < i ==> (#[trigger] self@.slots[ks@[j] as int])->0.greedy_rows(),
            decreases ks@.len() - i,
        {
            let k: usize = ks[i];
            assert(self@.slots[ks@[i as int] as int] is Some);
            if let Some(s) = &self.slots[k] {
                let ok: bool = s.sampling.pure_greedy && !s.constrained && s.logprobs.is_none()
                    && s.pos as usize <= s.history.len();
                if !ok {
                    return false;
                }
            }
            i = i + 1;
        }
        true
    }

    /// A round over `ks` that the host samples may run.
    pub fn sampled_round(&self, ks: &Vec<usize>, live_max: usize, max_rows: usize) -> (r: bool)
        requires
            self@.all_seated(ks@),
        ensures
            r <==> 0 < ks@.len() <= max_rows && ks@.len() <= live_max && (forall|i: int|
                0 <= i < ks@.len() ==> (#[trigger] self@.slots[ks@[i] as int])->0.sampled_rows()),
    {
        if ks.len() == 0 || ks.len() > max_rows || ks.len() > live_max {
            return false;
        }
        let mut i: usize = 0;
        while i < ks.len()
            invariant
                self@.all_seated(ks@),
                i <= ks@.len(),
                forall|j: int|
                    0 <= j < i ==> (#[trigger] self@.slots[ks@[j] as int])->0.sampled_rows(),
            decreases ks@.len() - i,
        {
            let k: usize = ks[i];
            assert(self@.slots[ks@[i as int] as int] is Some);
            if let Some(s) = &self.slots[k] {
                if !s.sampling.spec_safe || s.logprobs.is_some() {
                    return false;
                }
            }
            i = i + 1;
        }
        true
    }

    /// Which slots of `ks` a token-replaying drafter cannot follow.
    pub fn media_cold(&self, ks: &Vec<usize>, kv_space: bool) -> (v: Vec<bool>)
        requires
            self@.all_seated(ks@),
        ensures
            v@.len() == ks@.len(),
            forall|i: int|
                0 <= i < ks@.len() ==> #[trigger] v@[i] == self@.slots[ks@[i] as int]->0.media_cold(
                    kv_space,
                ),
    {
        let mut v: Vec<bool> = Vec::new();
        let mut i: usize = 0;
        while i < ks.len()
            invariant
                self@.all_seated(ks@),
                i <= ks@.len(),
                v@.len() == i,
                forall|j: int|
                    0 <= j < i ==> #[trigger] v@[j] == self@.slots[ks@[j] as int]->0.media_cold(
                        kv_space,
                    ),
            decreases ks@.len() - i,
        {
            let k: usize = ks[i];
            assert(self@.slots[ks@[i as int] as int] is Some);
            let cold: bool = match &self.slots[k] {
                Some(s) => s.pos as usize > s.history.len() && !kv_space,
                None => false,
            };
            v.push(cold);
            i = i + 1;
        }
        v
    }

    /// What every slot of `ks` offers to the round.
    pub fn round_chunks(
        &self,
        ks: &Vec<usize>,
        warm: &Vec<bool>,
        drafting: &Drafting,
        k_budget: usize,
    ) -> (chunks: Vec<Chunk>)
        requires
            self@.all_seated(ks@),
            warm@.len() == ks@.len(),
            k_budget < usize::MAX,
            drafting matches Drafting::Here(d) ==> d@.len() >= warm_rank(warm@, ks@.len() as int),
        ensures
            chunks@.len() == ks@.len(),
            forall|i: int|
                0 <= i < ks@.len() ==> {
                    let s = self@.slots[ks@[i] as int]->0;
                    &&& (#[trigger] chunks@[i]).slot == ks@[i]
                    &&& chunks@[i].pos == s.pos
                    &&& chunks@[i].tokens@ == row_offer(
                        s.pending,
                        s.k_now as int,
                        warm@,
                        i,
                        *drafting,
                        k_budget as int,
                    )
                },
    {
        let ghost p = |j: int| warm@[j];
        let mut chunks: Vec<Chunk> = Vec::new();
        let mut rank: usize = 0;
        let mut i: usize = 0;
        while i < ks.len()
            invariant
                self@.all_seated(ks@),
                warm@.len() == ks@.len(),
                k_budget < usize::MAX,
                p == (|j: int| warm@[j]),
                drafting matches Drafting::Here(d) ==> d@.len() >= warm_rank(
                    warm@,
                    ks@.len() as int,
                ),
                i <= ks@.len(),
                rank <= i,
                rank == warm_rank(warm@, i as int),
                chunks@.len() == i,
                forall|j: int|
                    0 <= j < i ==> {
                        let s = self@.slots[ks@[j] as int]->0;
                        &&& (#[trigger] chunks@[j]).slot == ks@[j]
                        &&& chunks@[j].pos == s.pos
                        &&& chunks@[j].tokens@ == row_offer(
                            s.pending,
                            s.k_now as int,
                            warm@,
                            j,
                            *drafting,
                            k_budget as int,
                        )
                    },
            decreases ks@.len() - i,
        {
            let k: usize = ks[i];
            assert(self@.slots[ks@[i as int] as int] is Some);
            let (pending, k_now, pos): (u32, usize, u32) = match &self.slots[k] {
                Some(s) => (s.pending, s.k_now, s.pos),
                None => (0, 0, 0),
            };
            let cap: usize = if k_now <= k_budget {
                k_now
            } else {
                k_budget
            };
            let tokens: Vec<u32> = if warm[i] {
                proof {
                    assert(p(i as int));
                    scan::lemma_tally_mono((i + 1) as nat, ks@.len(), p);
                    assert(scan::tally((i + 1) as nat, p) == rank + 1);
                }
                let t = match drafting {
                    Drafting::Bare => pads(pending, 0),
                    Drafting::Ahead { depth, kept } => {
                        if rank < kept.len() && kept[rank] {
                            pads(
                                pending,
                                if cap <= *depth {
                                    cap
                                } else {
                                    *depth
                                },
                            )
                        } else {
                            pads(pending, 0)
                        }
                    },
                    Drafting::Here(d) => chunk_of(pending, &d[rank], cap),
                };
                assert(t@ =~= row_offer(
                    pending,
                    k_now as int,
                    warm@,
                    i as int,
                    *drafting,
                    k_budget as int,
                ));
                rank = rank + 1;
                t
            } else {
                let t = pads(pending, 0);
                assert(t@ =~= seq![pending]);
                t
            };
            chunks.push(Chunk { slot: k, pos: pos as usize, tokens });
            i = i + 1;
        }
        chunks
    }
}

/// How many drafts of `chunk` the verify pass confirmed: the picks agree with them so far.
pub open spec fn confirmed(chunk: Seq<u32>, picks: Seq<u32>) -> int {
    prefill::lcp(chunk.skip(1), picks)
}

/// The tokens that a verified chunk commits: the confirmed drafts and the verify pass's own next
/// token.
pub open spec fn committed(chunk: Seq<u32>, picks: Seq<u32>) -> Seq<u32> {
    picks.take(confirmed(chunk, picks) + 1)
}

/// The tokens that the chunk commits, whose picks stand at `base`.
pub fn committed_run(chunk: &Vec<u32>, picks: &Vec<u32>, base: usize) -> (run: Vec<u32>)
    requires
        chunk@.len() > 0,
        base + chunk@.len() <= picks@.len(),
    ensures
        run@ == committed(chunk@, picks@.subrange(base as int, base + chunk@.len())),
        0 < run@.len() <= chunk@.len(),
{
    let ghost mine = picks@.subrange(base as int, base + chunk@.len());
    let ghost drafts = chunk@.skip(1);
    let len: usize = chunk.len();
    let all: usize = picks.len();
    let mut run: Vec<u32> = Vec::new();
    let mut a: usize = 0;
    run.push(picks[base]);
    assert(run@ =~= mine.take(1));
    while a + 1 < len && chunk[a + 1] == picks[base + a]
        invariant
            len == chunk@.len(),
            all == picks@.len(),
            a < len,
            base + len <= all,
            mine == picks@.subrange(base as int, base + chunk@.len()),
            drafts == chunk@.skip(1),
            run@ == mine.take(a + 1),
            prefill::agree_from(drafts, mine, a as int) == prefill::lcp(drafts, mine),
        decreases chunk@.len() - a,
    {
        assert(drafts[a as int] == chunk@[a + 1]);
        assert(mine[a as int] == picks@[base + a]);
        a = a + 1;
        run.push(picks[base + a]);
        assert(run@ =~= mine.take(a + 1));
    }
    proof {
        if a + 1 < chunk@.len() {
            assert(drafts[a as int] == chunk@[a + 1]);
            assert(mine[a as int] == picks@[base + a]);
        }
        assert(prefill::agree_from(drafts, mine, a as int) == a);
    }
    run
}

/// Accept-while-match is exact: what a chunk commits agrees with its drafts up to the last token,
/// which is the verify pass's own, and a token that breaks with its draft ends the run.
pub proof fn law_accept_while_match(chunk: Seq<u32>, picks: Seq<u32>)
    requires
        0 < chunk.len() <= picks.len(),
    ensures
        ({
            let run = committed(chunk, picks);
            &&& 1 <= run.len() <= chunk.len()
            &&& forall|j: int| 0 <= j < run.len() ==> #[trigger] run[j] == picks[j]
            &&& forall|j: int| 0 <= j < run.len() - 1 ==> #[trigger] run[j] == chunk[j + 1]
            &&& run.len() < chunk.len() ==> run.last() != chunk[run.len() as int]
        }),
{
    let drafts = chunk.skip(1);
    let n = prefill::lcp(drafts, picks);
    prefill::law_lcp_is_longest(drafts, picks);
    let run = committed(chunk, picks);
    assert forall|j: int| 0 <= j < run.len() - 1 implies #[trigger] run[j] == chunk[j + 1] by {
        assert(drafts.take(n)[j] == picks.take(n)[j]);
        assert(drafts[j] == chunk[j + 1]);
    }
    if run.len() < chunk.len() {
        assert(drafts.take(n + 1) != picks.take(n + 1));
        if drafts[n] == picks[n] {
            assert(drafts.take(n + 1) =~= picks.take(n + 1)) by {
                assert forall|j: int| 0 <= j < n + 1 implies #[trigger] drafts.take(n + 1)[j] == picks.take(
                    n + 1,
                )[j] by {
                    if j < n {
                        assert(drafts.take(n)[j] == picks.take(n)[j]);
                    }
                }
            }
        }
    }
}

impl SlotView {
    /// The slot with a round booked: `drafted` offered, `kept` committed.
    pub open spec fn booked(self, drafted: int, kept: int, floor: int, max_k: int) -> SlotView {
        SlotView {
            k_now: next_k(self.k_now as int, drafted, kept, floor, max_k) as usize,
            spec_drafted: (self.spec_drafted + drafted) as u32,
            spec_accepted: (self.spec_accepted + if kept > 0 {
                kept - 1
            } else {
                0
            }) as u32,
            ..self
        }
    }
}

impl Batch {
    /// Commit what a verify pass kept of the chunk at `k`: book the round, move ahead by the rows
    /// that became context, and hand the tokens over.
    pub fn commit_round(
        &mut self,
        k: usize,
        drafted: usize,
        kept: &Vec<u32>,
        delivered: usize,
        floor: usize,
        max_k: usize,
        tick: &mut RoundTally,
        now: u64,
    ) -> (o: Outcome)
        requires
            old(self)@.wf(),
            k < old(self)@.width(),
            drafted < u32::MAX,
            kept@.len() <= drafted + 1,
            old(self)@.slots[k as int] matches Some(s) ==> {
                &&& 2 * s.k_now <= usize::MAX
                &&& s.spec_drafted + drafted <= u32::MAX
                &&& s.spec_accepted + drafted <= u32::MAX
                &&& s.generated + kept@.len() <= usize::MAX
                &&& s.pos + kept@.len() <= u32::MAX
            },
            old(tick).drafted + drafted <= usize::MAX,
            old(tick).accepted + drafted <= usize::MAX,
        ensures
            final(self)@.wf(),
            old(self)@.slots[k as int] is None ==> o == Outcome::Ignored && final(self)@ == old(self)@
                && *final(tick) == *old(tick),
            old(self)@.slots[k as int] matches Some(s) ==> {
                let b = old(self)@.with(
                    k as int,
                    Some(s.booked(drafted as int, kept@.len() as int, floor as int, max_k as int)),
                );
                &&& final(self)@ == b.fed(k as int, kept@.len() as int, kept@, delivered as int)
                &&& o == b.told(k as int, kept@.len() as int, kept@, delivered as int, now)
                &&& final(tick).drafted == old(tick).drafted + drafted
                &&& final(tick).accepted == old(tick).accepted + if kept@.len() > 0 {
                    kept@.len() - 1
                } else {
                    0
                }
            },
    {
        let ghost before = self@;
        let n: usize = kept.len();
        let taken = self.slots[k].take();
        match taken {
            None => {
                assert(self@.slots =~= before.slots);
                return Outcome::Ignored;
            },
            Some(mut s) => {
                s.k_now = k_after(s.k_now, drafted, n, floor, max_k);
                s.spec_round(
                    tick,
                    drafted,
                    if n > 0 {
                        n - 1
                    } else {
                        0
                    },
                );
                self.slots.set(k, Some(s));
                proof {
                    let b = before.slots[k as int]->0;
                    lemma_next_k_fits(
                        b.k_now as int,
                        drafted as int,
                        n as int,
                        floor as int,
                        max_k as int,
                    );
                    assert(s@ =~= b.booked(drafted as int, n as int, floor as int, max_k as int));
                    assert(self@.slots =~= before.slots.update(k as int, Some(s@)));
                }
            },
        }
        self.feed(k, n as u32, kept, delivered, now)
    }
}

proof fn lemma_next_k_fits(k: int, drafted: int, kept: int, floor: int, max_k: int)
    requires
        0 <= k <= usize::MAX,
        0 <= max_k <= usize::MAX,
        0 <= kept,
        0 <= floor,
    ensures
        0 <= next_k(k, drafted, kept, floor, max_k) <= usize::MAX,
{
}

/// A round spends what rows it has: a draft is no longer than the longest, and one that is shorter
/// leaves too few rows for every sequence to draft one token more.
pub proof fn law_rounds_spend_their_rows(s: SpecSettings, live: int, block: Option<usize>)
    requires
        live > 0,
    ensures
        0 <= s.budget(live, block) <= s.max_k,
        s.budget(live, block) < s.max_k ==> live * (2 + s.budget(live, block)) > s.round_rows(
            live,
            block,
        ),
{
    let rows = s.round_rows(live, block);
    let q = rows / live;
    assert(live * (q + 1) > rows) by (nonlinear_arith)
        requires
            q == rows / live,
            live > 0,
    ;
    if q - 1 < 0 {
        assert(live * (2 + 0) > rows) by (nonlinear_arith)
            requires
                live * (q + 1) > rows,
                q <= 0,
                live > 0,
        ;
    } else {
        assert(2 + (q - 1) == q + 1);
    }
}

/// The narrow band is for sixteen sequences at most, more than those whose rounds go deep, and only
/// where it gives each two rows: then a round has the pinned rows, eight of the drafter's blocks or
/// thirty-two for eight sequences at most, and the band's own rows above that. Every other round
/// has all rows.
pub proof fn law_narrow_rounds_are_banded(s: SpecSettings, live: int, block: Option<usize>)
    requires
        live > 0,
    ensures
        s.max_rows <= 32 || live <= s.deep_live_max || live > 16 ==> s.round_rows(live, block)
            == s.max_rows,
        s.max_rows > 32 && s.deep_live_max < live && 9 <= live <= 16 && s.narrow64 && s.narrow_rows
            >= 2 * live ==> s.round_rows(live, block) == s.narrow_rows,
        s.max_rows > 32 && s.deep_live_max < live && 9 <= live <= 16 && !s.narrow64
            ==> s.round_rows(live, block) == 32,
        s.max_rows > 32 && s.deep_live_max < live <= 8 ==> match (s.low_rows, block) {
            (Some(n), _) => n >= 2 * live ==> s.round_rows(live, block) == n,
            (None, Some(b)) => (b >= 4 ==> s.round_rows(live, block) == 8 * b) && (b < 4
                ==> s.round_rows(live, block) == 32),
            (None, None) => s.round_rows(live, block) == 32,
        },
{
    let band = s.narrow_band(live, block);
    assert(band / live >= 2 <==> band >= 2 * live) by (nonlinear_arith)
        requires
            live > 0,
    ;
}

/// A slot that drafts nothing keeps its depth; one whose draft was taken whole doubles it, up to
/// the longest; one that missed comes down to what was kept, but not below the floor nor above what
/// it had.
pub proof fn law_depth_follows_acceptance(k: int, drafted: int, kept: int, floor: int, max_k: int)
    requires
        1 <= k <= max_k,
        0 <= drafted,
        1 <= kept <= drafted + 1,
        0 <= floor,
    ensures
        drafted == 0 ==> next_k(k, drafted, kept, floor, max_k) == k,
        drafted > 0 && kept == drafted + 1 && 2 * k <= max_k ==> next_k(
            k,
            drafted,
            kept,
            floor,
            max_k,
        ) == 2 * k,
        drafted > 0 && kept == drafted + 1 && 2 * k > max_k ==> next_k(
            k,
            drafted,
            kept,
            floor,
            max_k,
        ) == max_k,
        drafted > 0 && kept <= drafted && floor <= kept <= k ==> next_k(
            k,
            drafted,
            kept,
            floor,
            max_k,
        ) == kept,
        drafted > 0 && kept <= drafted && kept < floor <= k ==> next_k(
            k,
            drafted,
            kept,
            floor,
            max_k,
        ) == floor,
        drafted > 0 && kept <= drafted && (kept >= k || floor >= k) ==> next_k(
            k,
            drafted,
            kept,
            floor,
            max_k,
        ) == k,
{
}

/// What a slot offers begins with its pending token; behind it come its drafts in order, as many as
/// there are and the cap allows.
pub proof fn law_offers_lead_with_the_pending(pending: u32, drafts: Seq<u32>, cap: int, j: int)
    requires
        0 <= cap,
    ensures
        offer(pending, drafts, cap)[0] == pending,
        offer(pending, drafts, cap).len() <= 1 + cap,
        offer(pending, drafts, cap).len() <= 1 + drafts.len(),
        offer(pending, drafts, cap).len() == 1 + cap || offer(pending, drafts, cap).len() == 1
            + drafts.len(),
        0 <= j < offer(pending, drafts, cap).len() - 1 ==> offer(pending, drafts, cap)[j + 1]
            == drafts[j],
{
}

/// A row offers no more than its own depth and the round's allow behind its pending token. A cold
/// one, and every one of a round without drafts, offers that token alone; one whose drafts are here
/// offers its own, which are those of its place among the warm.
pub proof fn law_rows_offer_their_own_drafts(
    pending: u32,
    k_now: int,
    warm: Seq<bool>,
    i: int,
    drafting: Drafting,
    k_budget: int,
)
    requires
        0 <= i < warm.len(),
        0 <= k_now,
        0 <= k_budget,
    ensures
        ({
            let o = row_offer(pending, k_now, warm, i, drafting, k_budget);
            let rank = Set::new(|j: int| 0 <= j < i && warm[j]).len() as int;
            &&& o.len() >= 1 && o[0] == pending
            &&& o.len() - 1 <= k_now && o.len() - 1 <= k_budget
            &&& !warm[i] || drafting is Bare ==> o.len() == 1
            &&& drafting matches Drafting::Here(d) ==> warm[i] && rank < d@.len() ==> {
                &&& forall|j: int| 0 <= j < o.len() - 1 ==> #[trigger] o[j + 1] == d@[rank]@[j]
                &&& o.len() - 1 == k_now || o.len() - 1 == k_budget || o.len() - 1
                    == d@[rank]@.len()
                &&& o.len() - 1 <= d@[rank]@.len()
            }
            &&& drafting matches Drafting::Ahead { depth, kept } ==> warm[i] && rank < kept@.len()
                ==> {
                &&& !kept@[rank] ==> o.len() == 1
                &&& forall|j: int| 0 <= j < o.len() ==> #[trigger] o[j] == pending
                &&& kept@[rank] ==> o.len() - 1 <= depth && (o.len() - 1 == depth || o.len() - 1
                    == k_now || o.len() - 1 == k_budget)
            }
        }),
{
    let p = |j: int| warm[j];
    scan::law_tally_counts(i as nat, p);
    assert(Set::new(|j: int| 0 <= j < i as nat && p(j)) =~= Set::new(
        |j: int| 0 <= j < i && warm[j],
    ));
    if let Drafting::Here(d) = drafting {
        let rank = warm_rank(warm, i) as int;
        let o = offer(pending, d@[rank]@, least(k_now, k_budget));
        assert forall|j: int| 0 <= j < o.len() - 1 implies #[trigger] o[j + 1] == d@[rank]@[j] by {
            law_offers_lead_with_the_pending(pending, d@[rank]@, least(k_now, k_budget), j);
        }
    }
}

/// A round takes every occupied slot whose prompt is not advancing, each once, in order.
pub proof fn law_rounds_take_every_slot(b: BatchView, n: nat)
    requires
        n <= b.width() <= usize::MAX,
    ensures
        forall|i: int|
            0 <= i < b.round_slots(n).len() ==> (#[trigger] b.round_slots(n)[i]) < n
                && b.slots[b.round_slots(n)[i] as int] is Some
                && !b.chunking[b.round_slots(n)[i] as int],
        forall|i: int, j: int|
            0 <= i < j < b.round_slots(n).len() ==> #[trigger] b.round_slots(n)[i]
                < #[trigger] b.round_slots(n)[j],
        forall|k: int|
            0 <= k < n && b.slots[k] is Some && !b.chunking[k] ==> #[trigger] b.round_slots(
                n,
            ).contains(k as usize),
    decreases n,
{
    if n > 0 {
        law_rounds_take_every_slot(b, (n - 1) as nat);
        let prev = b.round_slots((n - 1) as nat);
        let all = b.round_slots(n);
        assert forall|k: int|
            0 <= k < n && b.slots[k] is Some && !b.chunking[k] implies #[trigger] all.contains(
            k as usize,
        ) by {
            if k == n - 1 {
                assert(all[all.len() - 1] == k as usize);
            } else {
                assert(prev.contains(k as usize));
                let i = choose|i: int| 0 <= i < prev.len() && prev[i] == k as usize;
                assert(all[i] == k as usize);
            }
        }
    }
}

/// Rows that a grammar binds or whose logprobs are asked for are never drawn on the device, greedy
/// or not; a greedy chain also needs its whole history; and a sampled round is for row-local
/// samplers without logprobs.
pub proof fn law_device_rows_need_no_host(s: SlotView, trunc: bool)
    ensures
        s.constrained || s.logprobs is Some ==> !s.device_rows(trunc) && !s.greedy_rows(),
        s.logprobs is Some ==> !s.sampled_rows(),
        !s.constrained && s.logprobs is None ==> {
            &&& s.device_rows(true) <==> s.sampling.device_plannable || s.sampling.trunc_plannable
            &&& s.device_rows(false) <==> s.sampling.device_plannable
            &&& s.greedy_rows() <==> s.sampling.pure_greedy && s.pos <= s.history.len()
        },
        s.logprobs is None ==> (s.sampled_rows() <==> s.sampling.spec_safe),
        s.media_cold(true) == false,
        s.media_cold(false) <==> s.pos > s.history.len(),
{
}

/// A round is booked by what was drafted and what of it was taken: the last of the kept tokens is
/// the model's own.
pub proof fn law_rounds_are_booked_once(s: SlotView, drafted: int, kept: int, floor: int, max_k: int)
    requires
        0 <= drafted,
        1 <= kept <= drafted + 1,
        s.spec_drafted + drafted <= u32::MAX,
        s.spec_accepted + drafted <= u32::MAX,
    ensures
        s.booked(drafted, kept, floor, max_k).spec_drafted - s.spec_drafted == drafted,
        s.booked(drafted, kept, floor, max_k).spec_accepted - s.spec_accepted == kept - 1,
        s.booked(drafted, kept, floor, max_k) == (SlotView {
            k_now: s.booked(drafted, kept, floor, max_k).k_now,
            spec_drafted: s.booked(drafted, kept, floor, max_k).spec_drafted,
            spec_accepted: s.booked(drafted, kept, floor, max_k).spec_accepted,
            ..s
        }),
{
}

} // verus!
