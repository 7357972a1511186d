//! KV pool pressure: who gives up its blocks, who waits to be rebuilt, and who comes back first.
use crate::error::EngineError;
use crate::service::batch::{Batch, BatchView, POOL_WATERMARK_BLOCKS};
use crate::service::{batch, scan, slot};
use crate::service::slot::{block_count, SlotView};
use vstd::prelude::*;

verus! {

impl BatchView {
    /// A sequence that decodes, or waits without prefilling: one that pool pressure may take.
    pub open spec fn takeable(self) -> spec_fn(int) -> bool {
        |k: int| self.slots[k] is Some && !self.chunking[k]
    }

    /// The sequence at `k` gives up its KV and joins the end of the queue. Its slot is free, and no
    /// prompt advances there.
    pub open spec fn preempt(self, k: int) -> BatchView {
        BatchView {
            slots: self.slots.update(k, None),
            chunking: self.chunking.update(k, false),
            preempted: self.preempted.push(self.slots[k]->0.preempted()),
            ..self
        }
    }

    /// The sequence at `k` can be rebuilt from its own history.
    pub open spec fn rebuildable(self, k: int) -> bool {
        self.slots[k]->0.pos <= self.slots[k]->0.history.len()
    }

    /// The queue's head has a free slot and its rebuild leaves the watermark.
    pub open spec fn head_fits(self, budget: Option<usize>) -> bool {
        &&& self.preempted.len() > 0
        &&& budget matches Some(b) ==> slot::blocks_for(self.preempted[0].prompt.len())
            + POOL_WATERMARK_BLOCKS <= b
        &&& scan::first_from(0, self.width() as int, self.free()) is Some
    }

    /// The queue's head goes back into the lowest free slot.
    pub open spec fn head_back(self) -> BatchView {
        BatchView {
            slots: self.slots.update(
                scan::first_from(0, self.width() as int, self.free())->0,
                Some(self.preempted[0]),
            ),
            preempted: self.preempted.skip(1),
            ..self
        }
    }

    /// Preempted sequences go back, oldest first, as long as the next one fits.
    pub open spec fn readmitted(self, budget: Option<usize>) -> (BatchView, Option<usize>)
        decreases self.preempted.len(),
    {
        if self.head_fits(budget) {
            self.head_back().readmitted(
                batch::spend(budget, slot::blocks_for(self.preempted[0].prompt.len())),
            )
        } else {
            (self, budget)
        }
    }

    /// The sequences of the slots that `p` picks, in slot order.
    pub open spec fn ids(self, n: nat, p: spec_fn(int) -> bool) -> Seq<u64>
        decreases n,
    {
        if n == 0 {
            Seq::empty()
        } else if p(n - 1) && self.slots[n - 1] is Some {
            self.ids((n - 1) as nat, p).push(self.slots[n - 1]->0.id)
        } else {
            self.ids((n - 1) as nat, p)
        }
    }

    /// The slots that `p` picks, freed.
    pub open spec fn cleared(self, p: spec_fn(int) -> bool) -> Seq<Option<SlotView>> {
        Seq::new(
            self.slots.len(),
            |k: int|
                if p(k) {
                    None
                } else {
                    self.slots[k]
                },
        )
    }
}

/// What a failed pass calls for.
#[derive(Debug, Clone, Copy, PartialEq, Eq, Structural)]
pub enum OnFail {
    /// Free blocks, and try again next tick.
    Relieve,
    /// Every sequence is over.
    FailSlots,
    /// Every sequence is over, and no prompt advances.
    FailAll,
}

/// What a failed pass calls for: a pool that ran out is relieved; anything else ends every
/// sequence, for a pass that failed may have half-advanced them.
pub fn on_failed_pass(exhausted: bool, mixed: bool) -> (f: OnFail)
    ensures
        f == (if exhausted {
            OnFail::Relieve
        } else if mixed {
            OnFail::FailAll
        } else {
            OnFail::FailSlots
        }),
{
    if exhausted {
        OnFail::Relieve
    } else if mixed {
        OnFail::FailAll
    } else {
        OnFail::FailSlots
    }
}

/// What relieved a mixed tick that the pool could not hold.
pub enum Relief {
    /// This slot's sequence waits to be rebuilt, which takes so many blocks.
    Preempted { slot: usize, blocks: usize },
    /// Every sequence was mid-prefill: these requests fail.
    Failed(Vec<u64>),
}

/// The reply to a request that the pool could not hold.
pub fn pool_exhausted() -> (e: EngineError)
    ensures
        e.is(
            crate::error::ErrorClass::Overloaded,
            Some("overloaded"@),
            "the KV cache pool is exhausted under the current load; retry shortly"@,
        ),
{
    EngineError::overloaded("the KV cache pool is exhausted under the current load; retry shortly")
}

impl Batch {
    /// Put preempted sequences back before anything new, oldest first, each only while its rebuild
    /// leaves the watermark and a slot is free. The budget that is left.
    pub fn readmit(&mut self, budget: Option<usize>) -> (left: Option<usize>)
        requires
            old(self)@.wf(),
        ensures
            (final(self)@, left) == old(self)@.readmitted(budget),
            final(self)@.wf(),
    {
        let mut left: Option<usize> = budget;
        loop
            invariant
                self@.wf(),
                self@.readmitted(left) == old(self)@.readmitted(budget),
            decreases self@.preempted.len(),
        {
            if self.preempted.len() == 0 {
                return left;
            }
            let need: usize = block_count(self.preempted[0].prompt.len());
            let fits: bool = match left {
                Some(b) => b >= POOL_WATERMARK_BLOCKS && need <= b - POOL_WATERMARK_BLOCKS,
                None => true,
            };
            if !fits {
                return left;
            }
            match self.free_slot() {
                Some(k) => {
                    let ghost before = self@;
                    if let Some(b) = left {
                        left = Some(b.saturating_sub(need));
                    }
                    assert(before.preempted[0] == self.preempted@[0]@);
                    let s = self.preempted.remove(0);
                    self.slots.set(k, Some(s));
                    proof {
                        assert(self@.preempted =~= before.preempted.skip(1));
                        assert(self@.slots =~= before.slots.update(k as int, Some(s@)));
                        assert(self@ =~= before.head_back());
                        assert forall|i: int| 0 <= i < self@.preempted.len() implies !(
                        #[trigger] self@.preempted[i]).prefilled by {
                            assert(self@.preempted[i] == before.preempted[i + 1]);
                        }
                    }
                },
                None => {
                    return left;
                },
            }
        }
    }

    /// The sequence at `k` gives up its KV and joins the end of the queue. The blocks its rebuild
    /// needs.
    pub fn preempt(&mut self, k: usize) -> (blocks: usize)
        requires
            old(self)@.wf(),
            k < old(self)@.width(),
            old(self)@.slots[k as int] is Some,
            old(self)@.rebuildable(k as int),
        ensures
            final(self)@ == old(self)@.preempt(k as int),
            final(self)@.wf(),
            blocks == slot::blocks_for(final(self)@.preempted.last().prompt.len()),
    {
        let ghost before = self@;
        let taken = self.slots[k].take();
        self.chunking.set(k, false);
        assert(self@.slots =~= before.slots.update(k as int, None));
        match taken {
            Some(mut s) => {
                let blocks: usize = s.preempt_for_recompute();
                self.preempted.push(s);
                assert(self@.preempted =~= before.preempted.push(before.slots[k as int]->0.preempted()));
                assert(self@ =~= before.preempt(k as int));
                blocks
            },
            None => 0,
        }
    }
}

impl Batch {
    /// The newest sequence below the high-water mark gives up its KV: highest slot, last admitted.
    /// Sequences that were rebuilt sit in low slots, so they are not taken again.
    pub fn preempt_newest(&mut self) -> (r: Option<(usize, usize)>)
        requires
            old(self)@.wf(),
            scan::last_below(old(self)@.width() as int, old(self)@.occupied()) matches Some(k)
                ==> old(self)@.rebuildable(k),
        ensures
            final(self)@.wf(),
            match scan::last_below(old(self)@.width() as int, old(self)@.occupied()) {
                None => r is None && final(self)@ == old(self)@,
                Some(k) => {
                    &&& final(self)@ == old(self)@.preempt(k)
                    &&& r matches Some((i, blocks)) && i == k && blocks == slot::blocks_for(
                        final(self)@.preempted.last().prompt.len(),
                    )
                },
            },
    {
        proof {
            scan::lemma_last_below(self@.width() as int, self@.occupied());
        }
        let top: usize = self.high_water();
        if top == 0 {
            return None;
        }
        let blocks: usize = self.preempt(top - 1);
        Some((top - 1, blocks))
    }

    fn newest_takeable(&self) -> (r: Option<usize>)
        requires
            self@.wf(),
        ensures
            scan::last_below(self@.width() as int, self@.takeable()) == (match r {
                Some(k) => Some(k as int),
                None => None,
            }),
            r matches Some(k) ==> k < self@.width() && self@.slots[k as int] is Some,
    {
        let mut n: usize = self.slots.len();
        while n > 0
            invariant
                self@.wf(),
                n <= self.slots@.len(),
                scan::last_below(n as int, self@.takeable()) == scan::last_below(
                    self@.width() as int,
                    self@.takeable(),
                ),
            decreases n,
        {
            if self.slots[n - 1].is_some() && !self.chunking[n - 1] {
                assert((self@.takeable())(n - 1));
                return Some(n - 1);
            }
            assert(!(self@.takeable())(n - 1));
            n = n - 1;
        }
        None
    }

    /// A mixed tick could not grow the pool. The newest sequence that is not prefilling gives up
    /// its KV, so the tick can be tried again; when every sequence is prefilling, those fail, so
    /// the server recovers instead of spinning.
    pub fn preempt_or_fail_mixed(&mut self) -> (r: Relief)
        requires
            old(self)@.wf(),
            scan::last_below(old(self)@.width() as int, old(self)@.takeable()) matches Some(k)
                ==> old(self)@.rebuildable(k),
        ensures
            final(self)@.wf(),
            match scan::last_below(old(self)@.width() as int, old(self)@.takeable()) {
                Some(k) => {
                    &&& final(self)@ == old(self)@.preempt(k)
                    &&& r matches Relief::Preempted { slot, blocks } && slot == k && blocks
                        == slot::blocks_for(final(self)@.preempted.last().prompt.len())
                },
                None => {
                    &&& final(self)@.slots == old(self)@.cleared(
                        |k: int| old(self)@.chunking[k],
                    )
                    &&& final(self)@.chunking == Seq::new(old(self)@.width(), |k: int| false)
                    &&& final(self)@.encoding == old(self)@.encoding
                    &&& final(self)@.preempted == old(self)@.preempted
                    &&& r matches Relief::Failed(ids) && ids@ == old(self)@.ids(
                        old(self)@.width(),
                        |k: int| old(self)@.chunking[k],
                    )
                },
            },
    {
        match self.newest_takeable() {
            Some(k) => {
                let blocks: usize = self.preempt(k);
                Relief::Preempted { slot: k, blocks }
            },
            None => Relief::Failed(self.fail_chunking()),
        }
    }

    /// Free every prefilling slot. The requests that were in them, in slot order.
    fn fail_chunking(&mut self) -> (ids: Vec<u64>)
        requires
            old(self)@.wf(),
        ensures
            final(self)@.wf(),
            final(self)@.slots == old(self)@.cleared(|k: int| old(self)@.chunking[k]),
            final(self)@.chunking == Seq::new(old(self)@.width(), |k: int| false),
            final(self)@.encoding == old(self)@.encoding,
            final(self)@.preempted == old(self)@.preempted,
            ids@ == old(self)@.ids(old(self)@.width(), |k: int| old(self)@.chunking[k]),
    {
        let ghost before = self@;
        let ghost p = |k: int| old(self)@.chunking[k];
        let mut ids: Vec<u64> = Vec::new();
        let mut k: usize = 0;
        while k < self.slots.len()
            invariant
                before == old(self)@,
                before.wf(),
                self@.wf(),
                p == (|k: int| old(self)@.chunking[k]),
                self@.width() == before.width(),
                k <= self.slots@.len(),
                self@.encoding == before.encoding,
                self@.preempted == before.preempted,
                forall|j: int|
                    0 <= j < before.width() ==> #[trigger] self@.slots[j] == (if j < k && before.chunking[j] {
                        None
                    } else {
                        before.slots[j]
                    }),
                forall|j: int|
                    0 <= j < before.width() ==> #[trigger] self@.chunking[j] == (j >= k
                        && before.chunking[j]),
                ids@ == before.ids(k as nat, p),
            decreases self.slots@.len() - k,
        {
            if self.chunking[k] {
                let ghost prior = self@;
                let taken = self.slots[k].take();
                self.chunking.set(k, false);
                assert(self@.slots =~= prior.slots.update(k as int, None));
                if let Some(s) = taken {
                    ids.push(s.id);
                }
            }
            k = k + 1;
        }
        assert(self@.slots =~= before.cleared(p));
        assert(self@.chunking =~= Seq::new(before.width(), |k: int| false));
        ids
    }

    /// Free every slot. The requests that were in them, in slot order; what was prefilling is still
    /// marked so.
    pub fn fail_slots(&mut self) -> (ids: Vec<u64>)
        requires
            old(self)@.wf(),
        ensures
            final(self)@.wf(),
            final(self)@ == (BatchView {
                slots: Seq::new(old(self)@.width(), |k: int| None),
                ..old(self)@
            }),
            ids@ == old(self)@.ids(old(self)@.width(), |k: int| true),
    {
        let ghost before = self@;
        let ghost p = |k: int| true;
        let mut ids: Vec<u64> = Vec::new();
        let mut k: usize = 0;
        while k < self.slots.len()
            invariant
                before == old(self)@,
                before.wf(),
                self@.wf(),
                p == (|k: int| true),
                self@.width() == before.width(),
                k <= self.slots@.len(),
                self@ == (BatchView { slots: self@.slots, ..before }),
                forall|j: int|
                    0 <= j < before.width() ==> #[trigger] self@.slots[j] == (if j < k {
                        None
                    } else {
                        before.slots[j]
                    }),
                ids@ == before.ids(k as nat, p),
            decreases self.slots@.len() - k,
        {
            let ghost prior = self@;
            let taken = self.slots[k].take();
            assert(self@.slots =~= prior.slots.update(k as int, None));
            assert(prior.slots[k as int] == before.slots[k as int]);
            assert(p(k as int));
            if let Some(s) = taken {
                ids.push(s.id);
            }
            assert(ids@ == before.ids((k + 1) as nat, p));
            k = k + 1;
        }
        assert(self@.slots =~= Seq::new(before.width(), |k: int| None));
        ids
    }

    /// Free every slot and forget what was prefilling. The requests that were in them, in slot
    /// order.
    pub fn fail_all(&mut self) -> (ids: Vec<u64>)
        requires
            old(self)@.wf(),
        ensures
            final(self)@.wf(),
            final(self)@ == (BatchView {
                slots: Seq::new(old(self)@.width(), |k: int| None),
                chunking: Seq::new(old(self)@.width(), |k: int| false),
                ..old(self)@
            }),
            ids@ == old(self)@.ids(old(self)@.width(), |k: int| true),
    {
        let ids = self.fail_slots();
        let ghost mid = self@;
        let mut k: usize = 0;
        while k < self.chunking.len()
            invariant
                mid.wf(),
                self@ == (BatchView { chunking: self@.chunking, ..mid }),
                self@.chunking.len() == mid.chunking.len(),
                k <= self.chunking@.len(),
                forall|j: int| 0 <= j < k ==> !#[trigger] self@.chunking[j],
            decreases self.chunking@.len() - k,
        {
            self.chunking.set(k, false);
            k = k + 1;
        }
        assert(self@.chunking =~= Seq::new(mid.slots.len(), |k: int| false));
        ids
    }
}

/// Readmission never eats into the watermark: what is left of a budget is untouched, or at least
/// the watermark.
pub proof fn law_readmission_keeps_the_watermark(b: BatchView, budget: Option<usize>)
    ensures
        b.readmitted(budget).1 == budget || (b.readmitted(budget).1 matches Some(left) && left
            >= POOL_WATERMARK_BLOCKS),
    decreases b.preempted.len(),
{
    if b.head_fits(budget) {
        law_readmission_keeps_the_watermark(
            b.head_back(),
            batch::spend(budget, slot::blocks_for(b.preempted[0].prompt.len())),
        );
    }
}

/// Readmission is first come, first served: whoever still waits stood behind everyone who went
/// back.
pub proof fn law_readmission_is_first_come(b: BatchView, budget: Option<usize>)
    ensures
        b.readmitted(budget).0.preempted.len() <= b.preempted.len(),
        b.readmitted(budget).0.preempted == b.preempted.skip(
            b.preempted.len() - b.readmitted(budget).0.preempted.len(),
        ),
    decreases b.preempted.len(),
{
    let left = b.readmitted(budget).0.preempted;
    if b.head_fits(budget) {
        let c = b.head_back();
        let rest = batch::spend(budget, slot::blocks_for(b.preempted[0].prompt.len()));
        law_readmission_is_first_come(c, rest);
        assert(left == c.readmitted(rest).0.preempted);
        assert(c.preempted == b.preempted.skip(1));
        let n = c.preempted.len() - left.len();
        assert(left == c.preempted.skip(n));
        assert(b.preempted.skip(1).skip(n) =~= b.preempted.skip(n + 1));
    } else {
        assert(b.preempted.skip(0) =~= b.preempted);
    }
}

/// Readmission never touches a sequence that is in a slot.
pub proof fn law_readmission_keeps_the_seated(b: BatchView, budget: Option<usize>, k: int)
    requires
        0 <= k < b.width(),
        b.slots[k] is Some,
    ensures
        b.readmitted(budget).0.width() == b.width(),
        b.readmitted(budget).0.slots[k] == b.slots[k],
    decreases b.preempted.len(),
{
    if b.head_fits(budget) {
        scan::lemma_first_from(0, b.width() as int, b.free());
        let f = scan::first_from(0, b.width() as int, b.free())->0;
        assert((b.free())(f));
        law_readmission_keeps_the_seated(
            b.head_back(),
            batch::spend(budget, slot::blocks_for(b.preempted[0].prompt.len())),
            k,
        );
    }
}

/// A preempted sequence comes back as it went: with nobody ahead of it, a free slot and the blocks
/// for it, the next readmission seats it again, to be rebuilt.
pub proof fn law_preempted_comes_back(b: BatchView, k: int, budget: Option<usize>)
    requires
        0 <= k < b.width(),
        b.slots[k] is Some,
        b.preempted.len() == 0,
        budget matches Some(n) ==> slot::blocks_for(b.slots[k]->0.preempted().prompt.len())
            + POOL_WATERMARK_BLOCKS <= n,
    ensures
        b.preempt(k).readmitted(budget).0.preempted.len() == 0,
        exists|f: int|
            0 <= f <= k && #[trigger] b.preempt(k).readmitted(budget).0.slots[f] == Some(
                b.slots[k]->0.preempted(),
            ),
{
    let c = b.preempt(k);
    scan::lemma_first_from(0, c.width() as int, c.free());
    assert((c.free())(k));
    let f = scan::first_from(0, c.width() as int, c.free())->0;
    assert(c.head_fits(budget));
    let d = c.head_back();
    assert(d.preempted.len() == 0);
    assert(d.slots[f] == Some(b.slots[k]->0.preempted()));
    assert(c.readmitted(budget).0 == d) by {
        reveal_with_fuel(BatchView::readmitted, 2);
    }
}

/// Giving up a sequence frees its slot, sends it to the end of those who wait, and touches nobody
/// else; it stands there with what it had committed, none of its history lost.
pub proof fn law_preemption_moves_one_sequence(b: BatchView, k: int, j: int)
    requires
        b.wf(),
        0 <= k < b.width(),
        0 <= j < b.width(),
        b.slots[k] is Some,
    ensures
        b.preempt(k).slots[k] is None,
        !b.preempt(k).chunking[k],
        j != k ==> b.preempt(k).slots[j] == b.slots[j] && b.preempt(k).chunking[j] == b.chunking[j],
        b.preempt(k).encoding == b.encoding,
        b.preempt(k).preempted.len() == b.preempted.len() + 1,
        b.preempt(k).preempted.drop_last() == b.preempted,
        ({
            let s = b.slots[k]->0;
            let t = b.preempt(k).preempted.last();
            &&& t == (SlotView {
                prompt: t.prompt,
                prefilled: t.prefilled,
                recompute: t.recompute,
                ..s
            })
            &&& !t.prefilled && t.recompute
            &&& 0 < s.pos <= s.history.len() ==> t.prompt.len() == s.pos && forall|i: int|
                0 <= i < s.pos ==> #[trigger] t.prompt[i] == s.history[i]
        }),
{
    assert(b.preempt(k).preempted.drop_last() =~= b.preempted);
}

/// The one who comes back first is the one who waited longest, into the lowest free slot, and only
/// if its blocks leave the watermark; readmission goes on until that fails or nobody waits.
pub proof fn law_readmission_goes_as_far_as_it_can(b: BatchView, budget: Option<usize>)
    ensures
        !b.readmitted(budget).0.head_fits(b.readmitted(budget).1),
        b.head_fits(budget) ==> {
            let k = scan::first_from(0, b.width() as int, b.free())->0;
            &&& 0 <= k < b.width() && b.slots[k] is None
            &&& forall|j: int| 0 <= j < k ==> #[trigger] b.slots[j] is Some
            &&& b.head_back().slots[k] == Some(b.preempted[0])
            &&& b.head_back().preempted == b.preempted.subrange(1, b.preempted.len() as int)
            &&& budget matches Some(n) ==> n >= 32 + slot::blocks_for(b.preempted[0].prompt.len())
        },
    decreases b.preempted.len(),
{
    scan::law_first_is_the_first(0, b.width() as int, b.free());
    if b.head_fits(budget) {
        let k = scan::first_from(0, b.width() as int, b.free())->0;
        assert forall|j: int| 0 <= j < k implies #[trigger] b.slots[j] is Some by {
            assert(!(b.free())(j));
        }
        law_readmission_goes_as_far_as_it_can(
            b.head_back(),
            batch::spend(budget, slot::blocks_for(b.preempted[0].prompt.len())),
        );
    }
}

/// Whoever waits longest comes back as soon as a slot is free and its blocks leave the watermark.
pub proof fn law_the_first_comes_back_when_it_fits(b: BatchView, budget: Option<usize>, k: int)
    requires
        b.preempted.len() > 0,
        0 <= k < b.width(),
        b.slots[k] is None,
        budget matches Some(n) ==> slot::blocks_for(b.preempted[0].prompt.len()) + 32 <= n,
    ensures
        b.head_fits(budget),
        b.readmitted(budget).0.preempted.len() < b.preempted.len(),
{
    scan::law_first_is_the_first(0, b.width() as int, b.free());
    assert((b.free())(k));
    law_readmission_is_first_come(
        b.head_back(),
        batch::spend(budget, slot::blocks_for(b.preempted[0].prompt.len())),
    );
}

/// Blocks that a list of sequences takes to be rebuilt.
pub open spec fn rebuild_blocks(v: Seq<SlotView>, n: int) -> nat
    decreases n,
{
    if n <= 0 {
        0
    } else {
        rebuild_blocks(v, n - 1) + slot::blocks_for(v[n - 1].prompt.len())
    }
}

proof fn lemma_rebuild_skips(v: Seq<SlotView>, n: int)
    requires
        0 <= n < v.len(),
    ensures
        rebuild_blocks(v, n + 1) == slot::blocks_for(v[0].prompt.len()) + rebuild_blocks(
            v.skip(1),
            n,
        ),
    decreases n,
{
    if n > 0 {
        lemma_rebuild_skips(v, n - 1);
        assert(v.skip(1)[n - 1] == v[n]);
    } else {
        assert(rebuild_blocks(v, 0) == 0);
    }
}

/// The budget that readmission leaves is short by the blocks of those who came back, no more and no
/// less.
pub proof fn law_readmission_is_charged_in_full(b: BatchView, budget: usize)
    ensures
        b.readmitted(Some(budget)).1 matches Some(left) && left + rebuild_blocks(
            b.preempted,
            b.preempted.len() - b.readmitted(Some(budget)).0.preempted.len(),
        ) == budget,
    decreases b.preempted.len(),
{
    law_readmission_is_first_come(b, Some(budget));
    if b.head_fits(Some(budget)) {
        let c = b.head_back();
        let left = batch::spend(Some(budget), slot::blocks_for(b.preempted[0].prompt.len()));
        law_readmission_is_charged_in_full(c, left->0);
        law_readmission_is_first_come(c, left);
        let n = c.preempted.len() - c.readmitted(left).0.preempted.len();
        lemma_rebuild_skips(b.preempted, n as int);
    } else {
        assert(rebuild_blocks(b.preempted, 0) == 0);
    }
}

/// The requests that fail are those of the slots meant, each once, in order of their slots.
pub proof fn law_failures_are_named(b: BatchView, n: nat, p: spec_fn(int) -> bool, k: int)
    requires
        n <= b.width(),
        0 <= k < n,
    ensures
        b.ids(n, p).len() == Set::new(|j: int| 0 <= j < n && p(j) && b.slots[j] is Some).len(),
        p(k) && b.slots[k] is Some ==> b.ids(n, p).contains(b.slots[k]->0.id),
        forall|i: int|
            0 <= i < b.ids(n, p).len() ==> exists|j: int|
                0 <= j < n && p(j) && b.slots[j] is Some && #[trigger] b.slots[j]->0.id
                    == #[trigger] b.ids(n, p)[i],
    decreases n,
{
    lemma_ids_len(b, n, p);
    let all = b.ids(n, p);
    let prev = b.ids((n - 1) as nat, p);
    if p(k) && b.slots[k] is Some {
        if k == n - 1 {
            assert(all[all.len() - 1] == b.slots[k]->0.id);
        } else {
            law_failures_are_named(b, (n - 1) as nat, p, k);
            let i = choose|i: int| 0 <= i < prev.len() && prev[i] == b.slots[k]->0.id;
            assert(all[i] == b.slots[k]->0.id);
        }
    }
    assert forall|i: int| 0 <= i < all.len() implies exists|j: int|
        0 <= j < n && p(j) && b.slots[j] is Some && #[trigger] b.slots[j]->0.id
            == #[trigger] all[i] by {
        if i < prev.len() {
            if n > 1 {
                law_failures_are_named(b, (n - 1) as nat, p, 0);
            }
            assert(prev[i] == all[i]);
            assert(n > 1) by {
                if n == 1 {
                    assert(b.ids(0, p).len() == 0);
                }
            }
            let j = choose|j: int|
                0 <= j < n - 1 && p(j) && b.slots[j] is Some && #[trigger] b.slots[j]->0.id
                    == prev[i];
            assert(b.slots[j]->0.id == all[i]);
        } else {
            assert(b.slots[n - 1]->0.id == all[i]);
        }
    }
}

proof fn lemma_ids_len(b: BatchView, n: nat, p: spec_fn(int) -> bool)
    ensures
        b.ids(n, p).len() == Set::new(|j: int| 0 <= j < n && p(j) && b.slots[j] is Some).len(),
        Set::new(|j: int| 0 <= j < n && p(j) && b.slots[j] is Some).finite(),
    decreases n,
{
    let s = Set::new(|j: int| 0 <= j < n && p(j) && b.slots[j] is Some);
    if n == 0 {
        assert(s =~= Set::<int>::empty());
    } else {
        lemma_ids_len(b, (n - 1) as nat, p);
        let t = Set::new(|j: int| 0 <= j < n - 1 && p(j) && b.slots[j] is Some);
        if p(n - 1) && b.slots[n - 1] is Some {
            assert(s =~= t.insert(n - 1));
        } else {
            assert(s =~= t);
        }
    }
}

/// Clearing frees the slots meant and leaves every other as it was; what may be given up is every
/// sequence whose prompt is not advancing, and what can be rebuilt has its rows in its history.
pub proof fn law_clearing_spares_the_others(b: BatchView, p: spec_fn(int) -> bool, k: int)
    requires
        0 <= k < b.width(),
    ensures
        b.cleared(p).len() == b.width(),
        p(k) ==> b.cleared(p)[k] is None,
        !p(k) ==> b.cleared(p)[k] == b.slots[k],
        (b.takeable())(k) <==> b.slots[k] is Some && !b.chunking[k],
        b.slots[k] matches Some(s) ==> (b.rebuildable(k) <==> s.pos <= s.history.len()),
{
}

} // verus!
