//! What surrounds a speculative round: which slots are warm enough to draft for, drafts that arrive
//! after the verify pass, and the walk over rows that the host samples.
use crate::service::batch::{Batch, BatchView};
use crate::service::pool::OnFail;
use crate::service::scan;
use crate::service::speculate;
use crate::service::speculate::{Chunk, Drafting};
use crate::service::slot::SlotView;
use vstd::prelude::*;

verus! {

/// What a drafter is asked of a slot: to be warm up to position `want`, on the first `known` tokens
/// of its history.
#[derive(Debug, Clone, Copy, PartialEq, Eq, Structural)]
pub struct WarmAsk {
    pub slot: usize,
    pub want: u32,
    pub known: usize,
}

impl SlotView {
    /// The last position a drafter has to know.
    pub open spec fn want(self) -> u32 {
        if self.pos > 0 {
            (self.pos - 1) as u32
        } else {
            0
        }
    }

    /// The tokens whose cache rows are committed.
    pub open spec fn known(self) -> int {
        speculate::least(self.history.len() as int, self.pos as int)
    }
}

impl BatchView {
    /// What a drafter is asked of slot `k`: nothing when it cannot follow the slot.
    pub open spec fn warm_ask(self, k: usize, kv_space: bool) -> Option<WarmAsk> {
        let s = self.slots[k as int]->0;
        if s.media_cold(kv_space) {
            None
        } else {
            Some(WarmAsk { slot: k, want: s.want(), known: s.known() as usize })
        }
    }
}

impl Batch {
    /// What a drafter is asked of slot `k`: nothing when it cannot follow the slot.
    pub fn warm_ask(&self, k: usize, kv_space: bool) -> (a: Option<WarmAsk>)
        requires
            k < self@.width(),
            self@.slots[k as int] is Some,
        ensures
            a == self@.warm_ask(k, kv_space),
    {
        match &self.slots[k] {
            None => None,
            Some(s) => {
                if s.pos as usize > s.history.len() && !kv_space {
                    None
                } else {
                    let known: usize = if s.history.len() <= s.pos as usize {
                        s.history.len()
                    } else {
                        s.pos as usize
                    };
                    Some(WarmAsk { slot: k, want: s.pos.saturating_sub(1), known })
                }
            },
        }
    }
}

/// Some slot is warm in the drafter's ring.
pub open spec fn any_warm(probe: Seq<bool>) -> bool {
    exists|i: int| 0 <= i < probe.len() && probe[i]
}

/// The round that a ring drafter takes: as soon as one slot is warm in its ring, every slot that it
/// can follow rides, warm or not, for riding is what warms a slot. `None` leaves the round to the
/// token replay.
pub fn ring_round(probe: &Vec<bool>, cold: &Vec<bool>) -> (r: Option<Vec<bool>>)
    ensures
        match r {
            Some(w) => any_warm(probe@) && w@ == Seq::new(cold@.len(), |i: int| !cold@[i]),
            None => !any_warm(probe@),
        },
{
    let mut i: usize = 0;
    let mut any: bool = false;
    while i < probe.len()
        invariant
            i <= probe@.len(),
            any <==> exists|j: int| 0 <= j < i && probe@[j],
        decreases probe@.len() - i,
    {
        if probe[i] {
            any = true;
            assert(probe@[i as int]);
        }
        i = i + 1;
    }
    if !any {
        return None;
    }
    let mut w: Vec<bool> = Vec::new();
    let mut k: usize = 0;
    while k < cold.len()
        invariant
            k <= cold@.len(),
            w@ == Seq::new(k as nat, |i: int| !cold@[i]),
        decreases cold@.len() - k,
    {
        w.push(!cold[k]);
        k = k + 1;
        assert(w@ =~= Seq::new(k as nat, |i: int| !cold@[i]));
    }
    Some(w)
}

/// A ring drafter's round starves nobody it can follow: a slot whose ring went cold still rides.
pub proof fn law_cold_rings_ride(probe: Seq<bool>, cold: Seq<bool>, w: Seq<bool>, i: int)
    requires
        any_warm(probe),
        w == Seq::new(cold.len(), |i: int| !cold[i]),
        0 <= i < cold.len(),
        !cold[i],
    ensures
        w[i],
{
}

/// Whether every row of a round is warm.
fn all_warm(warm: &Vec<bool>) -> (b: bool)
    ensures
        b <==> forall|i: int| 0 <= i < warm@.len() ==> #[trigger] warm@[i],
{
    let mut i: usize = 0;
    while i < warm.len()
        invariant
            i <= warm@.len(),
            forall|j: int| 0 <= j < i ==> #[trigger] warm@[j],
        decreases warm@.len() - i,
    {
        if !warm[i] {
            return false;
        }
        i = i + 1;
    }
    true
}

/// Whether a greedy round asks the model for drafts: a drafter that replays tokens needs every slot
/// warm, one that knows warmth slot by slot does not.
pub fn asks_model(k_budget: usize, warm: &Vec<bool>, per_slot: bool) -> (b: bool)
    ensures
        b <==> k_budget > 0 && (per_slot || forall|i: int|
            0 <= i < warm@.len() ==> #[trigger] warm@[i]),
{
    k_budget > 0 && (per_slot || all_warm(warm))
}

/// The drafts of one slot in a greedy round: the model's, or the n-grams' where it has none.
pub fn drafts_of(model: Option<Vec<u32>>, ngrams: Vec<u32>) -> (d: Vec<u32>)
    ensures
        d@ == (match model {
            Some(m) => if m@.len() > 0 {
                m@
            } else {
                ngrams@
            },
            None => ngrams@,
        }),
{
    match model {
        Some(m) => if m.len() > 0 {
            m
        } else {
            ngrams
        },
        None => ngrams,
    }
}

impl BatchView {
    /// The warm slots among the first `n` of a round, with the tokens they feed.
    pub open spec fn pendings(self, ks: Seq<usize>, warm: Seq<bool>, n: int) -> Seq<(usize, u32)>
        decreases n,
    {
        if n <= 0 {
            Seq::empty()
        } else if warm[n - 1] {
            self.pendings(ks, warm, n - 1).push(
                (ks[n - 1], self.slots[ks[n - 1] as int]->0.pending),
            )
        } else {
            self.pendings(ks, warm, n - 1)
        }
    }
}

impl Batch {
    /// What a drafter is asked for: the warm slots of a round, with the tokens they feed; nothing
    /// when there is no depth to draft to.
    pub fn pendings(&self, ks: &Vec<usize>, warm: &Vec<bool>, k_budget: usize) -> (v: Vec<
        (usize, u32),
    >)
        requires
            self@.all_seated(ks@),
            warm@.len() == ks@.len(),
        ensures
            v@ == (if k_budget == 0 {
                Seq::empty()
            } else {
                self@.pendings(ks@, warm@, ks@.len() as int)
            }),
    {
        let mut v: Vec<(usize, u32)> = Vec::new();
        if k_budget == 0 {
            assert(v@ =~= Seq::empty());
            return v;
        }
        let mut i: usize = 0;
        while i < ks.len()
            invariant
                self@.all_seated(ks@),
                warm@.len() == ks@.len(),
                i <= ks@.len(),
                v@ == self@.pendings(ks@, warm@, i as int),
            decreases ks@.len() - i,
        {
            let k: usize = ks[i];
            assert(ks@[i as int] < self@.width() && self@.slots[ks@[i as int] as int] is Some);
            if warm[i] {
                if let Some(s) = &self.slots[k] {
                    v.push((k, s.pending));
                }
            }
            i = i + 1;
        }
        v
    }
}

/// The most draws of its own that a sequence hands to the drafter for one round.
pub const CHAIN_DRAWS: usize = 16;

/// How a round sets about its drafts.
#[derive(Debug, Clone, Copy, PartialEq, Eq, Structural)]
pub enum DraftStep {
    /// It has none to ask for.
    Bare,
    /// Ask the device to draft without waiting for it, after handing it so many draws of each
    /// sequence's own, where drafts are sampled.
    Ahead { draws: Option<usize> },
    /// Wait for the drafts.
    Here,
}

/// How a round that asks for `asked` slots' drafts sets about them.
pub fn draft_step(
    asked: usize,
    k_budget: usize,
    async_on: bool,
    resample: bool,
    supports_rs: bool,
) -> (s: DraftStep)
    ensures
        s == (if asked == 0 {
            DraftStep::Bare
        } else if !async_on {
            DraftStep::Here
        } else if resample && supports_rs {
            DraftStep::Ahead {
                draws: Some(
                    if k_budget <= CHAIN_DRAWS {
                        k_budget
                    } else {
                        CHAIN_DRAWS
                    },
                ),
            }
        } else {
            DraftStep::Ahead { draws: None }
        }),
{
    if asked == 0 {
        DraftStep::Bare
    } else if !async_on {
        DraftStep::Here
    } else if resample && supports_rs {
        DraftStep::Ahead {
            draws: Some(
                if k_budget <= CHAIN_DRAWS {
                    k_budget
                } else {
                    CHAIN_DRAWS
                },
            ),
        }
    } else {
        DraftStep::Ahead { draws: None }
    }
}

/// What a round goes by when the device was asked to draft ahead. `None` has it wait for drafts
/// instead.
pub fn drafts_ahead(begun: Option<(usize, Vec<bool>)>) -> (d: Option<Drafting>)
    ensures
        d == (match begun {
            Some((depth, kept)) => Some(Drafting::Ahead { depth, kept }),
            None => None,
        }),
{
    match begun {
        Some((depth, kept)) => Some(Drafting::Ahead { depth, kept }),
        None => None,
    }
}

/// What a round goes by when it waited for the drafts of `asked` slots: the answer, if it serves
/// every one of them.
pub open spec fn waited_for(answer: Option<Vec<Vec<u32>>>, asked: int) -> Drafting {
    match answer {
        Some(d) => if d@.len() >= asked {
            Drafting::Here(d)
        } else {
            Drafting::Bare
        },
        None => Drafting::Bare,
    }
}

/// What a round goes by when it waited for the drafts of `asked` slots.
pub fn drafts_here(answer: Option<Vec<Vec<u32>>>, asked: usize) -> (d: Drafting)
    ensures
        d == waited_for(answer, asked as int),
{
    match answer {
        Some(d) => if d.len() >= asked {
            Drafting::Here(d)
        } else {
            Drafting::Bare
        },
        None => Drafting::Bare,
    }
}

/// A round never runs short of drafts: asked for its warm slots, what it goes by holds drafts for
/// each of them.
pub proof fn law_drafts_serve_every_warm_slot(
    b: BatchView,
    ks: Seq<usize>,
    warm: Seq<bool>,
    answer: Option<Vec<Vec<u32>>>,
)
    requires
        warm.len() == ks.len(),
    ensures
        b.pendings(ks, warm, ks.len() as int).len() == speculate::warm_rank(warm, ks.len() as int),
        waited_for(answer, b.pendings(ks, warm, ks.len() as int).len() as int) matches Drafting::Here(
            d,
        ) ==> d@.len() >= speculate::warm_rank(warm, ks.len() as int),
{
    lemma_pendings_count(b, ks, warm, ks.len() as int);
}

proof fn lemma_pendings_count(b: BatchView, ks: Seq<usize>, warm: Seq<bool>, n: int)
    requires
        0 <= n <= warm.len(),
    ensures
        b.pendings(ks, warm, n).len() == speculate::warm_rank(warm, n),
    decreases n,
{
    let p = |j: int| warm[j];
    if n > 0 {
        lemma_pendings_count(b, ks, warm, n - 1);
        assert(scan::tally(n as nat, p) == scan::tally((n - 1) as nat, p) + if p(n - 1) {
            1nat
        } else {
            0
        });
    }
}

/// How a mixed pass whose decode rows ride verify chunks came out.
#[derive(Debug, Clone, Copy, PartialEq, Eq, Structural)]
pub enum MixedEnd {
    Picked,
    Declined,
    /// The pool could not grow.
    Exhausted,
    Failed,
}

/// What becomes of finished prompts whose first tokens were put off before.
#[derive(Debug, Clone, Copy, PartialEq, Eq, Structural)]
pub enum PutOff {
    /// They wait on.
    Keep,
    /// Their first tokens are drawn now.
    Settle,
    /// Their sequences are over.
    Forget,
}

/// What follows a mixed pass whose decode rows ride verify chunks.
#[derive(Debug, Clone, Copy, PartialEq, Eq, Structural)]
pub struct AfterMixed {
    /// The tick is done; otherwise a plain mixed pass runs.
    pub done: bool,
    /// Drafts that the device still holds are fetched and dropped.
    pub discard: bool,
    /// The prompts that finished in the pass are put off to the next.
    pub defer: bool,
    pub earlier: PutOff,
    pub fail: Option<OnFail>,
}

/// What follows a mixed pass. Prompts that finish are put off only when the pass was launched
/// ahead, for only then does the next one leave time to settle them beside it.
pub open spec fn after(end: MixedEnd, launched_ahead: bool) -> AfterMixed {
    AfterMixed {
        done: end != MixedEnd::Declined,
        discard: end != MixedEnd::Picked,
        defer: end == MixedEnd::Picked && launched_ahead,
        earlier: match end {
            MixedEnd::Exhausted => PutOff::Settle,
            MixedEnd::Failed => PutOff::Forget,
            _ => PutOff::Keep,
        },
        fail: match end {
            MixedEnd::Exhausted => Some(OnFail::Relieve),
            MixedEnd::Failed => Some(OnFail::FailAll),
            _ => None,
        },
    }
}

/// What follows a mixed pass whose decode rows ride verify chunks.
pub fn after_mixed(end: MixedEnd, launched_ahead: bool) -> (a: AfterMixed)
    ensures
        a == after(end, launched_ahead),
{
    match end {
        MixedEnd::Picked => AfterMixed {
            done: true,
            discard: false,
            defer: launched_ahead,
            earlier: PutOff::Keep,
            fail: None,
        },
        MixedEnd::Declined => AfterMixed {
            done: false,
            discard: true,
            defer: false,
            earlier: PutOff::Keep,
            fail: None,
        },
        MixedEnd::Exhausted => AfterMixed {
            done: true,
            discard: true,
            defer: false,
            earlier: PutOff::Settle,
            fail: Some(OnFail::Relieve),
        },
        MixedEnd::Failed => AfterMixed {
            done: true,
            discard: true,
            defer: false,
            earlier: PutOff::Forget,
            fail: Some(OnFail::FailAll),
        },
    }
}

/// A prompt that is put off is never taken for one that is stuck: before blocks are freed its first
/// token is drawn, and before every sequence is ended it is forgotten.
pub proof fn law_put_off_prompts_are_not_stuck(end: MixedEnd, launched_ahead: bool)
    ensures
        after(end, launched_ahead).fail == Some(OnFail::Relieve) ==> after(
            end,
            launched_ahead,
        ).earlier == PutOff::Settle,
        after(end, launched_ahead).fail == Some(OnFail::FailAll) ==> after(
            end,
            launched_ahead,
        ).earlier == PutOff::Forget,
{
}

/// Whether row `j` of a chunk of `len` rows carries an accept-or-recover plan: the rows that have a
/// draft behind them, in a round whose drafts were sampled.
pub fn resamples(sampled: bool, j: usize, len: usize) -> (b: bool)
    ensures
        b == (sampled && j + 1 < len),
{
    sampled && j < len && len - j > 1
}

/// A chunk whose pads are filled with drafts, as far as both reach.
pub open spec fn filled(chunk: Seq<u32>, drafts: Seq<u32>) -> Seq<u32> {
    Seq::new(
        chunk.len(),
        |j: int|
            if 1 <= j <= drafts.len() {
                drafts[j - 1]
            } else {
                chunk[j]
            },
    )
}

/// Fill a chunk's pads with drafts.
pub fn fill(chunk: &mut Vec<u32>, drafts: &Vec<u32>)
    ensures
        final(chunk)@ == filled(old(chunk)@, drafts@),
{
    let ghost before = chunk@;
    let mut j: usize = 1;
    while j < chunk.len() && j - 1 < drafts.len()
        invariant
            1 <= j,
            j - 1 <= drafts@.len(),
            j <= chunk@.len() || j == 1,
            chunk@.len() == before.len(),
            forall|i: int|
                0 <= i < chunk@.len() ==> #[trigger] chunk@[i] == if 1 <= i < j {
                    drafts@[i - 1]
                } else {
                    before[i]
                },
        decreases chunk@.len() - j,
    {
        let d: u32 = drafts[j - 1];
        chunk.set(j, d);
        j = j + 1;
    }
    assert(chunk@ =~= filled(before, drafts@));
}

/// The drafts that row `i` of a round gets: warm rows get them in order, as far as they go.
pub open spec fn row_filled(chunk: Seq<u32>, warm: Seq<bool>, i: int, drafts: Seq<Vec<u32>>) -> Seq<
    u32,
> {
    let rank = speculate::warm_rank(warm, i) as int;
    if warm[i] && rank < drafts.len() {
        filled(chunk, drafts[rank]@)
    } else {
        chunk
    }
}

/// Fill the pads of a round with the drafts that the device held, so that what is accepted is
/// matched against what the verify pass saw.
pub fn fill_drafts(chunks: &mut Vec<Chunk>, warm: &Vec<bool>, drafts: &Vec<Vec<u32>>)
    requires
        warm@.len() == old(chunks)@.len(),
    ensures
        final(chunks)@.len() == old(chunks)@.len(),
        forall|i: int|
            0 <= i < old(chunks)@.len() ==> {
                &&& (#[trigger] final(chunks)@[i]).slot == old(chunks)@[i].slot
                &&& final(chunks)@[i].pos == old(chunks)@[i].pos
                &&& final(chunks)@[i].tokens@ == row_filled(
                    old(chunks)@[i].tokens@,
                    warm@,
                    i,
                    drafts@,
                )
            },
{
    let ghost before = chunks@;
    let ghost p = |j: int| warm@[j];
    let mut out: Vec<Chunk> = Vec::new();
    std::mem::swap(&mut out, chunks);
    let mut rank: usize = 0;
    let mut i: usize = 0;
    let n: usize = out.len();
    while i < n
        invariant
            n == before.len(),
            out@.len() == n,
            warm@.len() == n,
            p == (|j: int| warm@[j]),
            i <= n,
            rank <= i,
            rank == speculate::warm_rank(warm@, i as int),
            forall|j: int| i <= j < n ==> #[trigger] out@[j] == before[j],
            forall|j: int|
                0 <= j < i ==> {
                    &&& (#[trigger] out@[j]).slot == before[j].slot
                    &&& out@[j].pos == before[j].pos
                    &&& out@[j].tokens@ == row_filled(before[j].tokens@, warm@, j, drafts@)
                },
        decreases n - i,
    {
        let w: bool = warm[i];
        assert(p(i as int) == w);
        if w && rank < drafts.len() {
            let mut tokens: Vec<u32> = Vec::new();
            std::mem::swap(&mut tokens, &mut out[i].tokens);
            fill(&mut tokens, &drafts[rank]);
            std::mem::swap(&mut tokens, &mut out[i].tokens);
        }
        if w {
            rank = rank + 1;
        }
        i = i + 1;
    }
    std::mem::swap(&mut out, chunks);
}

/// What a pick of the host's walk over a chunk's rows leads to.
#[derive(Debug, Clone, Copy, PartialEq, Eq, Structural)]
pub struct WalkStep {
    /// The pick advances the sequence's grammar.
    pub feed: bool,
    /// The next row is sampled too.
    pub on: bool,
}

/// What the pick `t` of row `j` leads to: the walk goes on while the pick is the next draft, and
/// ends at a stop token, at a dead grammar and at the last row.
pub open spec fn walk_step(chunk: Seq<u32>, j: int, t: u32, deadlock: bool, stops: Seq<u32>) -> WalkStep {
    let ends = deadlock || stops.contains(t);
    WalkStep { feed: !ends, on: !ends && j + 1 < chunk.len() && t == chunk[j + 1] }
}

/// What the pick `t` of row `j` leads to.
pub fn walk(chunk: &Vec<u32>, j: usize, t: u32, deadlock: bool, stops: &Vec<u32>) -> (s: WalkStep)
    requires
        j < chunk@.len(),
    ensures
        s == walk_step(chunk@, j as int, t, deadlock, stops@),
{
    if deadlock || crate::request::has_token(stops, t) {
        return WalkStep { feed: false, on: false };
    }
    WalkStep { feed: true, on: j < chunk.len() - 1 && t == chunk[j + 1] }
}

/// Picks that a walk over `chunk` made: each but the last was the next draft and no stop token.
pub open spec fn walked(chunk: Seq<u32>, picks: Seq<u32>, stops: Seq<u32>) -> bool {
    &&& 1 <= picks.len() <= chunk.len()
    &&& forall|j: int|
        0 <= j < picks.len() - 1 ==> walk_step(
            chunk,
            j,
            #[trigger] picks[j],
            false,
            stops,
        ).on
}

/// A walk commits drafts only: every pick but the last is the draft of the row behind it, so the
/// cache rows it wrote are the ones the sequence keeps.
pub proof fn law_walk_commits_drafts(chunk: Seq<u32>, picks: Seq<u32>, stops: Seq<u32>, j: int)
    requires
        walked(chunk, picks, stops),
        0 <= j < picks.len() - 1,
    ensures
        picks[j] == chunk[j + 1],
        !stops.contains(picks[j]),
{
    assert(walk_step(chunk, j, picks[j], false, stops).on);
}

/// The mixed tick runs as one unified pass: it may, and no more sequences decode than it pays for.
pub fn unified_now(allowed: bool, live: usize, dec_max: usize) -> (r: bool)
    ensures
        r == (allowed && live <= dec_max),
{
    allowed && live <= dec_max
}

/// A round's time counts in the draft-length controller's books: pure rounds always, mixed ones
/// when they are booked at all.
pub fn books_round(mixed: bool, book_mixed: bool) -> (r: bool)
    ensures
        r == (!mixed || book_mixed),
{
    !mixed || book_mixed
}

/// A drafter is asked for the row before the next one, and told how much of the sequence its
/// history knows: all rows, or the tokens there are where these are fewer. A sequence whose media
/// rows are no tokens is not asked for, unless rows are counted as the cache does.
pub proof fn law_drafters_are_asked_behind_the_last_row(b: BatchView, k: usize, kv_space: bool)
    requires
        b.slots[k as int] is Some,
    ensures
        ({
            let s = b.slots[k as int]->0;
            &&& b.warm_ask(k, kv_space) is None <==> !kv_space && s.pos > s.history.len()
            &&& b.warm_ask(k, kv_space) matches Some(a) ==> {
                &&& a.slot == k
                &&& s.pos > 0 ==> a.want + 1 == s.pos
                &&& s.pos == 0 ==> a.want == 0
                &&& a.known <= s.pos && a.known <= s.history.len()
                &&& a.known == s.pos || a.known == s.history.len()
            }
        }),
{
}

/// The warm slots are asked for in order, each with its pending token.
pub proof fn law_warm_slots_feed_their_pending(
    b: BatchView,
    ks: Seq<usize>,
    warm: Seq<bool>,
    n: int,
    i: int,
)
    requires
        warm.len() == ks.len(),
        0 <= i < n <= ks.len(),
        warm[i],
    ensures
        ({
            let rank = speculate::warm_rank(warm, i) as int;
            let v = b.pendings(ks, warm, n);
            0 <= rank < v.len() && v[rank] == (ks[i], b.slots[ks[i] as int]->0.pending)
        }),
    decreases n,
{
    lemma_pendings_len(b, ks, warm, n);
    lemma_pendings_len(b, ks, warm, n - 1);
    if i < n - 1 {
        law_warm_slots_feed_their_pending(b, ks, warm, n - 1, i);
    }
}

proof fn lemma_pendings_len(b: BatchView, ks: Seq<usize>, warm: Seq<bool>, n: int)
    requires
        0 <= n <= ks.len(),
    ensures
        b.pendings(ks, warm, n).len() == speculate::warm_rank(warm, n),
    decreases n,
{
    if n > 0 {
        lemma_pendings_len(b, ks, warm, n - 1);
    }
}

/// Drafts that were waited for are used only if there are enough of them; with none, or too few,
/// the round is bare.
pub proof fn law_late_drafts_are_whole_or_none(answer: Option<Vec<Vec<u32>>>, asked: int)
    ensures
        answer is None ==> waited_for(answer, asked) is Bare,
        answer matches Some(d) ==> d@.len() < asked ==> waited_for(answer, asked) is Bare,
        answer matches Some(d) ==> d@.len() >= asked ==> waited_for(answer, asked)
            == Drafting::Here(d),
{
}

/// A mixed tick that was declined is not done, drafts that were launched beside it are thrown away
/// unless it picked, and only a failed one fails anybody.
pub proof fn law_mixed_ticks_end_for_a_reason(end: MixedEnd, launched_ahead: bool)
    ensures
        after(end, launched_ahead).done <==> end != MixedEnd::Declined,
        after(end, launched_ahead).discard <==> end != MixedEnd::Picked,
        after(end, launched_ahead).defer ==> launched_ahead && end == MixedEnd::Picked,
        launched_ahead && end == MixedEnd::Picked ==> after(end, launched_ahead).defer,
        after(end, launched_ahead).fail is Some <==> end == MixedEnd::Exhausted || end
            == MixedEnd::Failed,
        end == MixedEnd::Exhausted ==> after(end, launched_ahead).fail == Some(OnFail::Relieve),
        end == MixedEnd::Failed ==> after(end, launched_ahead).fail == Some(OnFail::FailAll),
        end == MixedEnd::Picked || end == MixedEnd::Declined ==> after(end, launched_ahead).earlier
            == PutOff::Keep,
{
}

/// Drafts fill a chunk behind its first token, each at its place, and never past its end; a cold
/// row, and one for which none came, stays as it was.
pub proof fn law_drafts_fill_behind_the_first(
    chunk: Seq<u32>,
    warm: Seq<bool>,
    i: int,
    drafts: Seq<Vec<u32>>,
    j: int,
)
    requires
        0 <= i < warm.len(),
        0 <= j < chunk.len(),
    ensures
        ({
            let rank = speculate::warm_rank(warm, i) as int;
            let c = row_filled(chunk, warm, i, drafts);
            &&& c.len() == chunk.len()
            &&& c[0] == chunk[0]
            &&& !warm[i] || rank >= drafts.len() ==> c == chunk
            &&& warm[i] && rank < drafts.len() && 1 <= j <= drafts[rank]@.len() ==> c[j]
                == drafts[rank]@[j - 1]
            &&& warm[i] && rank < drafts.len() && j > drafts[rank]@.len() ==> c[j] == chunk[j]
        }),
{
}

/// A walk feeds its token unless that ends the row, and goes on only where the next draft is that
/// token.
pub proof fn law_walks_go_on_while_drafts_match(
    chunk: Seq<u32>,
    j: int,
    t: u32,
    deadlock: bool,
    stops: Seq<u32>,
)
    requires
        0 <= j < chunk.len(),
    ensures
        walk_step(chunk, j, t, deadlock, stops).feed <==> !deadlock && !stops.contains(t),
        walk_step(chunk, j, t, deadlock, stops).on ==> walk_step(chunk, j, t, deadlock, stops).feed
            && j + 1 < chunk.len() && chunk[j + 1] == t,
        !deadlock && !stops.contains(t) && j + 1 < chunk.len() && chunk[j + 1] == t ==> walk_step(
            chunk,
            j,
            t,
            deadlock,
            stops,
        ).on,
{
}

} // verus!
