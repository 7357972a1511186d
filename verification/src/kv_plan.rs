//! KV admission planning: the one arbiter for how much KV a server may hold on its card.
//!
//! ```text
//!   grant - reserves - slots x per_slot_bytes  =  bytes for the KV pool
//!
//!   pool blocks = that / block_bytes, clamped to
//!       ceiling  slots x blocks_per_slot + retention   (nothing above is addressable)
//!       floor    every slot able to hold one prefill chunk
//! ```
//!
//! A family states its geometry as a [`Demand`]; the arbiter answers with a [`Plan`] or with a
//! refusal that names every term. Whether a slot without room for a full window is worth seating
//! is the family's own policy, [`WhenShort`].
use crate::text;
use crate::text::{as_f64, capitalize, push_decimal, push_gib, push_mib};
use crate::BLOCK_TOKENS;
use vstd::prelude::*;
use vstd::string::StringExecFns;

verus! {

/// One named charge against the grant. The name is printed in the plan log and in any refusal.
#[derive(Debug, Clone, Copy, PartialEq, Eq)]
pub struct Reserve {
    pub what: &'static str,
    pub bytes: u64,
}

impl Reserve {
    pub fn new(what: &'static str, bytes: u64) -> (r: Self)
        ensures
            r.what == what,
            r.bytes == bytes,
    {
        Reserve { what, bytes }
    }
}

/// Arm the operator's graph/scratch reserve, in MiB. Only the first value set counts.
pub fn set_graph_scratch_mib(cell: &mut Option<u64>, mib: u64)
    ensures
        *final(cell) == (if *old(cell) is Some {
            *old(cell)
        } else {
            Some(mib)
        }),
{
    if cell.is_none() {
        *cell = Some(mib);
    }
}

/// The armed override, if any, in MiB.
pub fn graph_scratch_override_mib(cell: &Option<u64>) -> (mib: Option<u64>)
    ensures
        mib == *cell,
{
    *cell
}

/// The armed override in bytes (the bits that 64 hold), or 3 GiB.
pub fn graph_scratch_reserve_bytes(cell: &Option<u64>) -> (bytes: u64)
    ensures
        *cell is None ==> bytes == 3 * text::GIB,
        *cell matches Some(m) ==> bytes == (m * 0x10_0000) % 0x1_0000_0000_0000_0000,
{
    match graph_scratch_override_mib(cell) {
        Some(m) => {
            assert(m << 20 == (m * 0x10_0000) % 0x1_0000_0000_0000_0000) by (bit_vector);
            m << 20
        },
        None => 3 * 0x4000_0000,
    }
}

/// What to do when the grant cannot back a full `max_ctx` for every slot asked for.
#[derive(Debug, Clone, Copy, PartialEq, Eq, Structural)]
pub enum WhenShort {
    /// Seat fewer slots and say so.
    Narrow,
    /// Keep the asked-for width or refuse the whole config.
    Refuse,
}

/// A non-negative fraction `mantissa / 2^shift`, as a double holds it.
#[derive(Debug, Clone, Copy, PartialEq, Eq)]
pub struct Fraction {
    pub mantissa: u64,
    pub shift: u32,
}

impl Fraction {
    /// A double's mantissa has at most 53 bits.
    pub open spec fn wf(self) -> bool {
        self.mantissa <= text::F64_EXACT
    }

    /// `whole` times this fraction, in double arithmetic, cut down to an integer of 64 bits.
    pub open spec fn share(self, whole: nat) -> nat {
        let product = text::f64_of(text::f64_of(whole) * self.mantissa as nat);
        let cut = product / vstd::arithmetic::power2::pow2(self.shift as nat);
        if cut > u64::MAX {
            u64::MAX as nat
        } else {
            cut
        }
    }

    /// The share of `whole` that this fraction stands for.
    pub fn of(&self, whole: u64) -> (bytes: u64)
        requires
            self.wf(),
        ensures
            bytes == self.share(whole as nat),
    {
        let base: u128 = as_f64(whole as u128);
        assert(base * self.mantissa <= 0x2_0000_0000_0000_0000 * 0x20_0000_0000_0000)
            by (nonlinear_arith)
            requires
                base <= 0x2_0000_0000_0000_0000,
                self.mantissa <= 0x20_0000_0000_0000,
        ;
        let product: u128 = as_f64(base * self.mantissa as u128);
        let ghost p2 = vstd::arithmetic::power2::pow2(self.shift as nat);
        let mut cut: u128 = product;
        let mut left: u32 = self.shift;
        proof {
            vstd::arithmetic::power2::lemma_pow2(0);
            vstd::arithmetic::power::lemma_pow0(2);
            assert(product as int / 1 == product);
        }
        while left > 0 && cut > 0
            invariant
                left <= self.shift,
                cut == product as nat / vstd::arithmetic::power2::pow2((self.shift - left) as nat),
            decreases left,
        {
            proof {
                let k = (self.shift - left) as nat;
                vstd::arithmetic::power2::lemma_pow2_unfold(k + 1);
                vstd::arithmetic::power2::lemma_pow2_pos(k);
                vstd::arithmetic::div_mod::lemma_div_denominator(
                    product as int,
                    vstd::arithmetic::power2::pow2(k) as int,
                    2,
                );
                vstd::arithmetic::mul::lemma_mul_is_commutative(
                    vstd::arithmetic::power2::pow2(k) as int,
                    2,
                );
            }
            cut = cut / 2;
            left = left - 1;
        }
        proof {
            if left > 0 {
                let k = (self.shift - left) as nat;
                vstd::arithmetic::power2::lemma_pow2_pos(k);
                vstd::arithmetic::power2::lemma_pow2_pos(left as nat);
                vstd::arithmetic::power2::lemma_pow2_adds(k, left as nat);
                vstd::arithmetic::div_mod::lemma_div_denominator(
                    product as int,
                    vstd::arithmetic::power2::pow2(k) as int,
                    vstd::arithmetic::power2::pow2(left as nat) as int,
                );
                assert(0int / (vstd::arithmetic::power2::pow2(left as nat) as int) == 0) by {
                    vstd::arithmetic::div_mod::lemma_div_of0(
                        vstd::arithmetic::power2::pow2(left as nat) as int,
                    );
                }
            }
        }
        if cut > u64::MAX as u128 {
            u64::MAX
        } else {
            cut as u64
        }
    }
}

/// A family's KV geometry. Everything is bytes or blocks.
#[derive(Debug, Clone)]
pub struct Demand {
    /// Family name, for logs and refusals.
    pub family: &'static str,
    /// Context window this server was configured for, for messages.
    pub max_ctx: usize,
    /// Slots asked for.
    pub slots: usize,
    /// Blocks one slot needs to hold `max_ctx`.
    pub blocks_per_slot: usize,
    /// Bytes one pool block costs across every layer that draws from the pool.
    pub block_bytes: u64,
    /// Bytes one slot costs that the pool cannot share.
    pub per_slot_bytes: u64,
    /// Blocks the prefix tree may hold above the addressable ceiling.
    pub retention_blocks: usize,
    /// Blocks each slot must be able to hold before admission can make progress.
    pub floor_blocks_per_slot: usize,
    /// Absolute block floor regardless of width.
    pub floor_blocks_min: usize,
    /// Fixed charges that do not scale with slots.
    pub reserves: Vec<Reserve>,
    /// See [`WhenShort`].
    pub when_short: WhenShort,
    /// Cap the pool at this fraction of the grant.
    pub hedge_fraction: Option<Fraction>,
    /// A shipped build: its development switches are sealed, so a refusal does not offer them.
    pub hardened: bool,
}

impl Default for Demand {
    fn default() -> (d: Self)
        ensures
            d.family@ == "model"@,
            d.max_ctx == 0,
            d.slots == 1,
            d.blocks_per_slot == 0,
            d.block_bytes == 0,
            d.per_slot_bytes == 0,
            d.retention_blocks == 0,
            d.floor_blocks_per_slot == 0,
            d.floor_blocks_min == 0,
            d.reserves@ == Seq::<Reserve>::empty(),
            d.when_short == WhenShort::Narrow,
            d.hedge_fraction is None,
            !d.hardened,
    {
        Demand {
            family: "model",
            max_ctx: 0,
            slots: 1,
            blocks_per_slot: 0,
            block_bytes: 0,
            per_slot_bytes: 0,
            retention_blocks: 0,
            floor_blocks_per_slot: 0,
            floor_blocks_min: 0,
            reserves: Vec::new(),
            when_short: WhenShort::Narrow,
            hedge_fraction: None,
            hardened: false,
        }
    }
}

/// What the arbiter decided.
#[derive(Debug, Clone, Copy, PartialEq, Eq)]
pub struct Plan {
    /// Slots to seat.
    pub slots: usize,
    /// Blocks to allocate in the shared pool.
    pub pool_blocks: usize,
    /// Bytes those blocks cost.
    pub pool_bytes: u64,
    /// Bytes the seated slots' non-poolable state costs.
    pub slot_bytes: u64,
    /// Tokens the pool holds across all sequences at once.
    pub token_capacity: usize,
    /// The pool cannot back `max_ctx` for every seated slot at once.
    pub shared: bool,
}

/// A config the engine can prove infeasible, with the arithmetic that proves it.
#[derive(Debug, Clone)]
pub struct WontFit {
    pub message: String,
}

impl WontFit {
    /// The refusal as an operator reads it.
    pub fn to_string(&self) -> (s: String)
        ensures
            s@ == self.message@,
    {
        self.message.clone()
    }
}

/// Bytes that a list of reserves charges.
pub open spec fn reserve_sum(reserves: Seq<Reserve>) -> nat
    decreases reserves.len(),
{
    if reserves.len() == 0 {
        0
    } else {
        reserve_sum(reserves.drop_last()) + reserves.last().bytes as nat
    }
}

proof fn lemma_reserve_sum_prefix(reserves: Seq<Reserve>, n: int)
    requires
        0 <= n <= reserves.len(),
    ensures
        reserve_sum(reserves.take(n)) <= reserve_sum(reserves),
    decreases reserves.len() - n,
{
    if n < reserves.len() {
        lemma_reserve_sum_prefix(reserves, n + 1);
        assert(reserves.take(n + 1).drop_last() =~= reserves.take(n));
    } else {
        assert(reserves.take(n) =~= reserves);
    }
}

impl Demand {
    /// Blocks that `slots` block tables and the prefix tree can address.
    pub open spec fn addressable(&self, slots: int) -> int {
        slots * self.blocks_per_slot + self.retention_blocks
    }

    /// Blocks `slots` slots need before admission can make progress, never more than are
    /// addressable.
    pub open spec fn progress_floor(&self, slots: int) -> int {
        let wanted = if slots * self.floor_blocks_per_slot >= self.floor_blocks_min {
            slots * self.floor_blocks_per_slot
        } else {
            self.floor_blocks_min as int
        };
        if wanted <= self.addressable(slots) {
            wanted
        } else {
            self.addressable(slots)
        }
    }

    /// Blocks for every one of `slots` slots to hold `max_ctx` at once.
    pub open spec fn full_window(&self, slots: int) -> int {
        slots * self.blocks_per_slot
    }

    /// Bytes charged before the pool gets any: the reserves and `slots` slots' own state.
    pub open spec fn charges(&self, slots: int) -> int {
        reserve_sum(self.reserves@) + slots * self.per_slot_bytes
    }

    /// Bytes one block is charged at.
    pub open spec fn block_cost(&self) -> int {
        if self.block_bytes == 0 {
            1
        } else {
            self.block_bytes as int
        }
    }

    /// Blocks the hedge allows out of `grant`.
    pub open spec fn hedged(&self, grant: u64) -> Option<int> {
        match self.hedge_fraction {
            Some(f) => Some(f.share(grant as nat) as int / self.block_cost()),
            None => None,
        }
    }

    /// Blocks `grant` affords beside `slots` slots, before the floor is consulted; none when the
    /// charges alone exceed it. Charges past 64 bits count as the largest number of 64 bits.
    pub open spec fn affords(&self, grant: u64, slots: int) -> Option<int> {
        let charged = if self.charges(slots) <= u64::MAX {
            self.charges(slots)
        } else {
            u64::MAX as int
        };
        if grant < charged {
            None
        } else {
            let paid = (grant - charged) / self.block_cost();
            let within = match self.hedged(grant) {
                Some(h) => if h < paid {
                    h
                } else {
                    paid
                },
                None => paid,
            };
            Some(
                if within <= self.addressable(slots) {
                    within
                } else {
                    self.addressable(slots)
                },
            )
        }
    }

    /// `slots` slots can make progress on `grant`.
    pub open spec fn runs(&self, grant: u64, slots: int) -> bool {
        self.affords(grant, slots) matches Some(b) && b >= self.progress_floor(slots)
    }

    /// `slots` slots can be seated on `grant` under the family's policy.
    pub open spec fn seats(&self, grant: u64, slots: int) -> bool {
        &&& self.runs(grant, slots)
        &&& self.when_short == WhenShort::Refuse ==> self.affords(grant, slots)->0
            >= self.full_window(slots)
    }

    /// The narrowest width the policy lets a plan come out at.
    pub open spec fn narrowest(&self) -> int {
        match self.when_short {
            WhenShort::Narrow => 1,
            WhenShort::Refuse => self.slots as int,
        }
    }

    /// No width that the policy allows can be seated.
    pub open spec fn infeasible(&self, grant: u64) -> bool {
        forall|s: int| self.narrowest() <= s <= self.slots ==> !#[trigger] self.seats(grant, s)
    }

    /// `p` is the plan for `blocks` blocks and `slots` slots.
    pub open spec fn is_plan(&self, p: Plan, slots: int, blocks: int) -> bool {
        &&& p.slots == slots
        &&& p.pool_blocks == blocks
        &&& p.pool_bytes == blocks * self.block_bytes
        &&& p.slot_bytes == slots * self.per_slot_bytes
        &&& p.token_capacity == blocks * BLOCK_TOKENS
        &&& p.shared == (blocks < self.full_window(slots))
    }

    /// Blocks the refusal says were needed.
    pub open spec fn needed(&self) -> int {
        match self.when_short {
            WhenShort::Refuse => self.full_window(self.slots as int),
            WhenShort::Narrow => self.progress_floor(self.slots as int),
        }
    }

    /// Blocks the refusal says fit.
    pub open spec fn got(&self, grant: u64) -> int {
        match self.affords(grant, self.slots as int) {
            Some(b) => b,
            None => 0,
        }
    }

    /// The counts at width `slots` fit in machine words.
    pub open spec fn fits_words(&self, slots: int) -> bool {
        &&& self.full_window(slots) <= u64::MAX
        &&& slots * self.floor_blocks_per_slot <= u64::MAX
        &&& slots * self.per_slot_bytes <= u64::MAX
    }

    /// What holds of the demand at every width: its reserves can be summed, and its hedge is a
    /// fraction.
    pub open spec fn charges_fit(&self) -> bool {
        &&& reserve_sum(self.reserves@) <= u64::MAX
        &&& self.hedge_fraction matches Some(f) ==> f.wf()
    }

    /// The geometry fits in machine words: at the asked width, and so at any narrower one.
    pub open spec fn wf(&self) -> bool {
        &&& self.fits_words(self.slots as int)
        &&& self.addressable(self.slots as int) <= u64::MAX
        &&& self.charges_fit()
    }

    /// The widest width that the policy allows and `grant` seats.
    pub open spec fn is_widest(&self, grant: u64, slots: int) -> bool {
        &&& self.narrowest() <= slots <= self.slots
        &&& self.seats(grant, slots)
        &&& forall|s: int| slots < s <= self.slots ==> !#[trigger] self.seats(grant, s)
    }

    /// The numbers of the plan that `grant` gives, or of its refusal, fit in machine words.
    pub open spec fn answer_fits(&self, grant: u64) -> bool {
        &&& forall|s: int| #[trigger]
            self.is_widest(grant, s) ==> self.affords(grant, s)->0 * BLOCK_TOKENS <= usize::MAX
        &&& self.infeasible(grant) ==> {
            &&& self.got(grant) * BLOCK_TOKENS <= usize::MAX
            &&& self.needed() * self.block_cost() <= u64::MAX
        }
    }

    proof fn lemma_narrower_fits(&self, slots: int, wide: int)
        requires
            self.fits_words(wide),
            0 <= slots <= wide,
        ensures
            self.fits_words(slots),
            0 <= self.full_window(slots),
            0 <= slots * self.floor_blocks_per_slot,
            0 <= slots * self.per_slot_bytes,
    {
        let bps = self.blocks_per_slot as int;
        let fb = self.floor_blocks_per_slot as int;
        let ps = self.per_slot_bytes as int;
        assert(0 <= slots * bps <= wide * bps && 0 <= slots * fb <= wide * fb && 0 <= slots * ps
            <= wide * ps) by (nonlinear_arith)
            requires
                0 <= slots <= wide,
                0 <= bps,
                0 <= fb,
                0 <= ps,
        ;
    }

    /// What is addressable, or the largest number of 64 bits.
    fn ceiling(&self, slots: usize) -> (blocks: u64)
        requires
            self.fits_words(slots as int),
        ensures
            self.addressable(slots as int) <= u64::MAX ==> blocks == self.addressable(slots as int),
            self.addressable(slots as int) > u64::MAX ==> blocks == u64::MAX,
    {
        proof {
            self.lemma_narrower_fits(slots as int, slots as int);
        }
        (slots as u64 * self.blocks_per_slot as u64).saturating_add(self.retention_blocks as u64)
    }

    fn floor(&self, slots: usize) -> (blocks: u64)
        requires
            self.fits_words(slots as int),
        ensures
            blocks == self.progress_floor(slots as int),
    {
        proof {
            self.lemma_narrower_fits(slots as int, slots as int);
        }
        let wanted: u64 = slots as u64 * self.floor_blocks_per_slot as u64;
        let wanted: u64 = if wanted >= self.floor_blocks_min as u64 {
            wanted
        } else {
            self.floor_blocks_min as u64
        };
        let most: u64 = self.ceiling(slots);
        if wanted <= most {
            wanted
        } else {
            most
        }
    }

    fn full_context(&self, slots: usize) -> (blocks: u64)
        requires
            self.fits_words(slots as int),
        ensures
            blocks == self.full_window(slots as int),
    {
        proof {
            self.lemma_narrower_fits(slots as int, slots as int);
        }
        slots as u64 * self.blocks_per_slot as u64
    }

    /// Bytes the reserves charge.
    pub fn fixed(&self) -> (bytes: u64)
        requires
            reserve_sum(self.reserves@) <= u64::MAX,
        ensures
            bytes == reserve_sum(self.reserves@),
    {
        let mut sum: u64 = 0;
        let mut i: usize = 0;
        while i < self.reserves.len()
            invariant
                0 <= i <= self.reserves.len(),
                reserve_sum(self.reserves@) <= u64::MAX,
                sum == reserve_sum(self.reserves@.take(i as int)),
            decreases self.reserves.len() - i,
        {
            proof {
                lemma_reserve_sum_prefix(self.reserves@, i + 1);
                assert(self.reserves@.take(i + 1).drop_last() =~= self.reserves@.take(i as int));
            }
            sum = sum + self.reserves[i].bytes;
            i = i + 1;
        }
        assert(self.reserves@.take(i as int) =~= self.reserves@);
        sum
    }

    /// Blocks the grant affords at this width. `None` when the fixed and per-slot charges already
    /// exceed the grant.
    fn affordable(&self, grant: u64, slots: usize) -> (blocks: Option<u64>)
        requires
            self.charges_fit(),
            self.fits_words(slots as int),
        ensures
            self.affords(grant, slots as int) matches Some(b) ==> blocks == Some(b as u64) && 0 <= b
                <= u64::MAX && b * self.block_cost() <= grant,
            self.affords(grant, slots as int) is None ==> blocks is None,
    {
        proof {
            self.lemma_narrower_fits(slots as int, slots as int);
        }
        let charged: u64 = self.fixed().saturating_add(slots as u64 * self.per_slot_bytes);
        if grant < charged {
            return None;
        }
        let kv: u64 = grant - charged;
        let per_block: u64 = if self.block_bytes == 0 {
            1
        } else {
            self.block_bytes
        };
        let mut blocks: u64 = kv / per_block;
        let ghost paid = blocks as int;
        if let Some(f) = &self.hedge_fraction {
            let cap: u64 = f.of(grant) / per_block;
            if cap < blocks {
                blocks = cap;
            }
        }
        let most: u64 = self.ceiling(slots);
        if blocks > most {
            blocks = most;
        }
        proof {
            assert(blocks * per_block <= kv) by (nonlinear_arith)
                requires
                    blocks <= paid,
                    paid == kv / per_block,
                    per_block > 0,
            ;
        }
        Some(blocks)
    }

    /// The blocks that `slots` slots are seated with on `grant`, if they can be.
    fn seated_blocks(&self, grant: u64, slots: usize) -> (blocks: Option<u64>)
        requires
            self.charges_fit(),
            self.fits_words(slots as int),
        ensures
            match blocks {
                Some(b) => {
                    &&& self.seats(grant, slots as int)
                    &&& self.affords(grant, slots as int) == Some(b as int)
                    &&& b * self.block_cost() <= grant
                },
                None => !self.seats(grant, slots as int),
            },
    {
        match self.affordable(grant, slots) {
            None => None,
            Some(b) => {
                let short: bool = match self.when_short {
                    WhenShort::Refuse => b < self.full_context(slots),
                    WhenShort::Narrow => false,
                };
                if b >= self.floor(slots) && !short {
                    Some(b)
                } else {
                    None
                }
            },
        }
    }

    /// The widest of the widths `least..=slots` that `grant` seats, and its blocks.
    fn widest(&self, grant: u64, least: usize) -> (r: Option<(usize, u64)>)
        requires
            self.charges_fit(),
            self.fits_words(self.slots as int),
        ensures
            match r {
                Some((w, b)) => {
                    &&& least <= w <= self.slots
                    &&& self.seats(grant, w as int)
                    &&& forall|s: int| w < s <= self.slots ==> !#[trigger] self.seats(grant, s)
                    &&& self.affords(grant, w as int) == Some(b as int)
                    &&& b * self.block_cost() <= grant
                },
                None => forall|s: int| least <= s <= self.slots ==> !#[trigger] self.seats(grant, s),
            },
    {
        let mut w: usize = self.slots;
        while w >= least
            invariant
                self.charges_fit(),
                self.fits_words(self.slots as int),
                w <= self.slots,
                forall|s: int| w < s <= self.slots ==> !#[trigger] self.seats(grant, s),
            decreases w,
        {
            proof {
                self.lemma_narrower_fits(w as int, self.slots as int);
            }
            if let Some(b) = self.seated_blocks(grant, w) {
                return Some((w, b));
            }
            if w == 0 {
                return None;
            }
            w = w - 1;
        }
        None
    }

    fn least_width(&self) -> (n: usize)
        ensures
            n == self.narrowest(),
    {
        match self.when_short {
            WhenShort::Narrow => 1,
            WhenShort::Refuse => self.slots,
        }
    }

    /// Solve. This is the only way a family may size KV: the widest width that the policy allows
    /// and `grant` seats, or a refusal when there is none.
    pub fn plan(&self, grant: u64) -> (r: Result<Plan, WontFit>)
        requires
            self.wf(),
            self.answer_fits(grant),
        ensures
            match r {
                Ok(p) => {
                    &&& self.is_widest(grant, p.slots as int)
                    &&& self.is_plan(p, p.slots as int, self.affords(grant, p.slots as int)->0)
                },
                Err(e) => self.infeasible(grant) && e.message@ == self.refusal(grant),
            },
    {
        match self.widest(grant, self.least_width()) {
            None => Err(self.wont_fit(grant)),
            Some((slots, blocks)) => {
                proof {
                    assert(self.is_widest(grant, slots as int));
                    self.lemma_narrower_fits(slots as int, self.slots as int);
                    self.lemma_block_bytes(blocks as int, grant);
                }
                Ok(
                    Plan {
                        slots,
                        pool_blocks: blocks as usize,
                        pool_bytes: blocks * self.block_bytes,
                        slot_bytes: slots as u64 * self.per_slot_bytes,
                        token_capacity: blocks as usize * BLOCK_TOKENS,
                        shared: blocks < self.full_context(slots),
                    },
                )
            },
        }
    }

    proof fn lemma_block_bytes(&self, blocks: int, grant: u64)
        requires
            0 <= blocks,
            blocks * self.block_cost() <= grant,
        ensures
            0 <= blocks * self.block_bytes <= grant,
    {
        if self.block_bytes == 0 {
            assert(blocks * 0 == 0);
        } else {
            assert(blocks * self.block_bytes as int >= 0) by (nonlinear_arith)
                requires
                    blocks >= 0,
                    self.block_bytes >= 0,
            ;
        }
    }

    /// Plan, or, when nothing fits, the smallest runnable shape instead of a refusal: one slot at
    /// the progress floor. For the caller that has already freed the cache it would fall back to.
    pub fn plan_or_minimum(&self, grant: u64) -> (p: Plan)
        requires
            self.wf(),
            self.answer_fits(grant),
            self.infeasible(grant) ==> {
                &&& self.fits_words(1)
                &&& self.progress_floor(1) * BLOCK_TOKENS <= usize::MAX
                &&& self.progress_floor(1) * self.block_bytes <= u64::MAX
            },
        ensures
            !self.infeasible(grant) ==> {
                &&& self.is_widest(grant, p.slots as int)
                &&& self.is_plan(p, p.slots as int, self.affords(grant, p.slots as int)->0)
            },
            self.infeasible(grant) ==> self.is_plan(p, 1, self.progress_floor(1)),
    {
        match self.plan(grant) {
            Ok(p) => p,
            Err(_) => {
                proof {
                    self.lemma_narrower_fits(1, 1);
                }
                let blocks: u64 = self.floor(1);
                Plan {
                    slots: 1,
                    pool_blocks: blocks as usize,
                    pool_bytes: blocks * self.block_bytes,
                    slot_bytes: self.per_slot_bytes,
                    token_capacity: blocks as usize * BLOCK_TOKENS,
                    shared: blocks < self.full_context(1),
                }
            },
        }
    }
}

/// Each reserve behind the grant, in the refusal's ledger.
pub open spec fn ledger(reserves: Seq<Reserve>) -> Seq<char>
    decreases reserves.len(),
{
    if reserves.len() == 0 {
        Seq::empty()
    } else {
        ledger(reserves.drop_last()) + " - "@ + reserves.last().what@ + " "@ + text::gib_text(
            reserves.last().bytes as nat,
        )
    }
}

impl Demand {
    /// The widest of the widths `1..=slots` that can be seated on `grant`.
    pub open spec fn widest_seated(&self, grant: u64, slots: int) -> Option<int>
        decreases slots,
    {
        if slots <= 0 {
            None
        } else if self.seats(grant, slots) {
            Some(slots)
        } else {
            self.widest_seated(grant, slots - 1)
        }
    }

    /// Blocks each slot gets when those that fit are shared evenly.
    pub open spec fn even_blocks(&self, grant: u64) -> int {
        if self.slots == 0 {
            0
        } else {
            self.got(grant) / self.slots as int
        }
    }

    /// The same demand with a window of `blocks` blocks.
    pub open spec fn windowed(&self, blocks: int) -> Demand {
        Demand {
            max_ctx: (blocks * BLOCK_TOKENS) as usize,
            blocks_per_slot: blocks as usize,
            ..*self
        }
    }

    /// The shorter window that makes the config fit: the context that an even share of the blocks
    /// holds, where the demand can be seated with it.
    pub open spec fn window_fix(&self, grant: u64) -> Option<int> {
        let each = self.even_blocks(grant);
        if BLOCK_TOKENS <= each * BLOCK_TOKENS < self.max_ctx && !self.windowed(each).infeasible(
            grant,
        ) {
            Some(each * BLOCK_TOKENS)
        } else {
            None
        }
    }

    /// The narrower batch that makes the config fit: the widest that can be seated.
    pub open spec fn width_fix(&self, grant: u64) -> Option<int> {
        match self.widest_seated(grant, self.slots as int) {
            Some(n) => if n < self.slots {
                Some(n)
            } else {
                None
            },
            None => None,
        }
    }

    /// What would make the config fit: a shorter window, a narrower batch, more memory.
    pub open spec fn fixes(&self, grant: u64) -> Seq<char> {
        let window = match self.window_fix(grant) {
            Some(ctx) => "lower max_ctx to <="@ + text::decimal(ctx as nat) + ", or "@,
            None => Seq::empty(),
        };
        let batch = match self.width_fix(grant) {
            Some(n) => "lower max_batch to <="@ + text::decimal(n as nat) + ", or "@,
            None => Seq::empty(),
        };
        window + batch + "raise vram_budget, or free VRAM on this card"@
    }

    /// The terms of the budget: the grant, each reserve, the slots' own state.
    pub open spec fn terms(&self, grant: u64) -> Seq<char> {
        let slots = if self.per_slot_bytes > 0 {
            " - "@ + text::decimal(self.slots as nat) + " x per-slot state "@ + text::gib_text(
                (self.slots * self.per_slot_bytes) as nat,
            )
        } else {
            Seq::empty()
        };
        "grant "@ + text::gib_text(grant as nat) + " GiB"@ + ledger(self.reserves@) + slots
    }

    /// The switch a development build is offered when the pool could run the width on a shared
    /// budget.
    pub open spec fn dev_hint(&self, grant: u64) -> Seq<char> {
        if !self.hardened && self.when_short == WhenShort::Refuse && self.got(grant)
            >= self.progress_floor(self.slots as int) {
            " PADDOCK_KV_OVERSUBSCRIBE=1 serves a shared paged KV budget instead (requests beyond it queue or preempt)."@
        } else {
            Seq::empty()
        }
    }

    /// The refusal: what failed and what to do about it, then the ledger.
    pub open spec fn refusal(&self, grant: u64) -> Seq<char> {
        let fits = text::gib_text((self.got(grant) * self.block_cost()) as nat);
        self.family@ + " cannot serve max_ctx "@ + text::decimal(self.max_ctx as nat) + " x max_batch "@
            + text::decimal(self.slots as nat) + ": needs "@ + text::gib_text(
            (self.needed() * self.block_cost()) as nat,
        ) + " GiB of KV, only "@ + fits + " GiB fits. "@ + text::capitalized(self.fixes(grant))
            + ". Budget: "@ + self.terms(grant) + " => "@ + fits + " GiB for KV at "@ + text::mib_text(
            self.block_cost() as nat,
        ) + " MiB/block ("@ + text::decimal(self.got(grant) as nat) + " of "@ + text::decimal(
            self.needed() as nat,
        ) + " blocks, "@ + text::decimal((self.got(grant) * BLOCK_TOKENS) as nat)
            + " tokens shared across all sequences)."@ + self.dev_hint(grant)
    }

    proof fn lemma_widest_seated(&self, grant: u64, slots: int)
        ensures
            match self.widest_seated(grant, slots) {
                Some(n) => 1 <= n <= slots && self.seats(grant, n) && (forall|s: int|
                    n < s <= slots ==> !#[trigger] self.seats(grant, s)),
                None => forall|s: int| 1 <= s <= slots ==> !#[trigger] self.seats(grant, s),
            },
        decreases slots,
    {
        if slots > 0 && !self.seats(grant, slots) {
            self.lemma_widest_seated(grant, slots - 1);
        }
    }

    fn fit_slots(&self, grant: u64) -> (n: Option<usize>)
        requires
            self.wf(),
        ensures
            self.width_fix(grant) == (match n {
                Some(n) => Some(n as int),
                None => None,
            }),
    {
        proof {
            self.lemma_widest_seated(grant, self.slots as int);
        }
        match self.widest(grant, 1) {
            Some((n, _)) => if n < self.slots {
                Some(n)
            } else {
                None
            },
            None => None,
        }
    }

    /// The demand with a window of `each` blocks.
    fn at_window(&self, each: usize) -> (d: Demand)
        requires
            each * BLOCK_TOKENS <= usize::MAX,
        ensures
            d == (Demand { reserves: d.reserves, ..self.windowed(each as int) }),
            d.reserves@ == self.reserves@,
    {
        let mut reserves: Vec<Reserve> = Vec::new();
        let mut i: usize = 0;
        while i < self.reserves.len()
            invariant
                i <= self.reserves@.len(),
                reserves@ == self.reserves@.take(i as int),
            decreases self.reserves@.len() - i,
        {
            let r = &self.reserves[i];
            reserves.push(Reserve { what: r.what, bytes: r.bytes });
            i = i + 1;
            assert(reserves@ =~= self.reserves@.take(i as int));
        }
        assert(reserves@ =~= self.reserves@);
        Demand {
            family: self.family,
            max_ctx: each * BLOCK_TOKENS,
            slots: self.slots,
            blocks_per_slot: each,
            block_bytes: self.block_bytes,
            per_slot_bytes: self.per_slot_bytes,
            retention_blocks: self.retention_blocks,
            floor_blocks_per_slot: self.floor_blocks_per_slot,
            floor_blocks_min: self.floor_blocks_min,
            reserves,
            when_short: self.when_short,
            hedge_fraction: self.hedge_fraction,
            hardened: self.hardened,
        }
    }

    fn fit_ctx(&self, grant: u64, got: u64) -> (ctx: Option<usize>)
        requires
            self.wf(),
            got == self.got(grant),
            got * BLOCK_TOKENS <= usize::MAX,
        ensures
            self.window_fix(grant) == (match ctx {
                Some(c) => Some(c as int),
                None => None,
            }),
    {
        if self.slots == 0 {
            return None;
        }
        let each: usize = got as usize / self.slots;
        proof {
            let n = self.slots as int;
            assert(got as int / n <= got && n * (got as int / n) <= got) by (nonlinear_arith)
                requires
                    got >= 0,
                    n > 0,
            ;
        }
        let ctx: usize = each * BLOCK_TOKENS;
        if ctx < BLOCK_TOKENS || ctx >= self.max_ctx {
            return None;
        }
        let d = self.at_window(each);
        let ghost w = self.windowed(each as int);
        assert forall|s: int| #[trigger] d.seats(grant, s) == w.seats(grant, s) by {
            assert(d.affords(grant, s) == w.affords(grant, s));
        }
        assert(d.infeasible(grant) == w.infeasible(grant)) by {
            if d.infeasible(grant) {
                assert forall|s: int| w.narrowest() <= s <= w.slots implies !#[trigger] w.seats(
                    grant,
                    s,
                ) by {
                    assert(!d.seats(grant, s));
                }
            }
        }
        match d.widest(grant, d.least_width()) {
            Some((n, _)) => {
                assert(d.seats(grant, n as int));
                Some(ctx)
            },
            None => None,
        }
    }

    fn fix_list(&self, grant: u64, got: u64) -> (s: String)
        requires
            self.wf(),
            got == self.got(grant),
            got * BLOCK_TOKENS <= usize::MAX,
        ensures
            s@ == self.fixes(grant),
    {
        let mut s = String::new();
        if let Some(ctx) = self.fit_ctx(grant, got) {
            s.append("lower max_ctx to <=");
            push_decimal(&mut s, ctx as u64);
            s.append(", or ");
        }
        if let Some(n) = self.fit_slots(grant) {
            s.append("lower max_batch to <=");
            push_decimal(&mut s, n as u64);
            s.append(", or ");
        }
        s.append("raise vram_budget, or free VRAM on this card");
        assert(s@ =~= self.fixes(grant));
        s
    }

    fn push_terms(&self, out: &mut String, grant: u64)
        requires
            self.wf(),
        ensures
            final(out)@ == old(out)@ + self.terms(grant),
    {
        out.append("grant ");
        push_gib(out, grant);
        out.append(" GiB");
        let ghost base = out@;
        let mut i: usize = 0;
        assert(ledger(self.reserves@.take(0)) =~= Seq::<char>::empty());
        assert(out@ =~= base + ledger(self.reserves@.take(0)));
        while i < self.reserves.len()
            invariant
                i <= self.reserves.len(),
                out@ == base + ledger(self.reserves@.take(i as int)),
            decreases self.reserves.len() - i,
        {
            out.append(" - ");
            out.append(self.reserves[i].what);
            out.append(" ");
            push_gib(out, self.reserves[i].bytes);
            proof {
                let next = self.reserves@.take(i + 1);
                assert(next.drop_last() =~= self.reserves@.take(i as int));
                assert(out@ =~= base + ledger(next));
            }
            i = i + 1;
        }
        assert(self.reserves@.take(i as int) =~= self.reserves@);
        if self.per_slot_bytes > 0 {
            proof {
                self.lemma_narrower_fits(self.slots as int, self.slots as int);
            }
            out.append(" - ");
            push_decimal(out, self.slots as u64);
            out.append(" x per-slot state ");
            push_gib(out, self.slots as u64 * self.per_slot_bytes);
        }
        assert(out@ =~= old(out)@ + self.terms(grant));
    }

    /// The refusal, with every term that produced it and the fixes that would clear it.
    fn wont_fit(&self, grant: u64) -> (e: WontFit)
        requires
            self.wf(),
            self.got(grant) * BLOCK_TOKENS <= usize::MAX,
            self.needed() * self.block_cost() <= u64::MAX,
        ensures
            e.message@ == self.refusal(grant),
    {
        let asked: usize = self.slots;
        proof {
            self.lemma_narrower_fits(asked as int, asked as int);
        }
        let got: u64 = match self.affordable(grant, asked) {
            Some(b) => b,
            None => 0,
        };
        let need: u64 = match self.when_short {
            WhenShort::Refuse => self.full_context(asked),
            WhenShort::Narrow => self.floor(asked),
        };
        let per_block: u64 = if self.block_bytes == 0 {
            1
        } else {
            self.block_bytes
        };
        proof {
            assert(got * per_block <= grant && need * per_block >= 0) by (nonlinear_arith)
                requires
                    got == 0 || got * per_block <= grant,
                    need >= 0,
                    per_block >= 0,
                    grant >= 0,
            ;
        }
        let fixes = self.fix_list(grant, got);
        let mut s = String::new();
        s.append(self.family);
        s.append(" cannot serve max_ctx ");
        push_decimal(&mut s, self.max_ctx as u64);
        s.append(" x max_batch ");
        push_decimal(&mut s, asked as u64);
        s.append(": needs ");
        push_gib(&mut s, need * per_block);
        s.append(" GiB of KV, only ");
        push_gib(&mut s, got * per_block);
        s.append(" GiB fits. ");
        s.append(capitalize(fixes.as_str()).as_str());
        s.append(". Budget: ");
        self.push_terms(&mut s, grant);
        s.append(" => ");
        push_gib(&mut s, got * per_block);
        s.append(" GiB for KV at ");
        push_mib(&mut s, per_block);
        s.append(" MiB/block (");
        push_decimal(&mut s, got);
        s.append(" of ");
        push_decimal(&mut s, need);
        s.append(" blocks, ");
        push_decimal(&mut s, (got as usize * BLOCK_TOKENS) as u64);
        s.append(" tokens shared across all sequences).");
        let offer: bool = match self.when_short {
            WhenShort::Refuse => !self.hardened && got >= self.floor(asked),
            WhenShort::Narrow => false,
        };
        if offer {
            s.append(" PADDOCK_KV_OVERSUBSCRIBE=1 serves a shared paged KV budget instead (requests beyond it queue or preempt).");
        }
        assert(s@ =~= self.refusal(grant));
        WontFit { message: s }
    }
}

/// Each reserve with its size, in the plan's log line.
pub open spec fn reserve_list(reserves: Seq<Reserve>) -> Seq<char>
    decreases reserves.len(),
{
    if reserves.len() == 0 {
        Seq::empty()
    } else {
        let sep = if reserves.len() == 1 {
            Seq::empty()
        } else {
            ", "@
        };
        reserve_list(reserves.drop_last()) + sep + reserves.last().what@ + " "@ + text::gib_text(
            reserves.last().bytes as nat,
        )
    }
}

/// What a plan says of itself in the log.
#[derive(Debug, Clone)]
pub struct PlanReport {
    /// The configuration asked for more: report at WARN, else at INFO.
    pub narrower: bool,
    pub message: &'static str,
    /// Bytes the plan was made from.
    pub grant: u64,
    /// Where the grant went.
    pub reserves: String,
    /// Tokens that full windows for every seated slot would take; only of a narrower plan.
    pub full_context_tokens: Option<usize>,
}

impl Plan {
    /// The plan gives less than `d` asked for.
    pub open spec fn falls_short(&self, d: &Demand) -> bool {
        self.slots < d.slots || self.shared
    }

    /// Say what was decided and where the grant went.
    pub fn report(&self, d: &Demand, grant: u64) -> (r: PlanReport)
        requires
            self.falls_short(d) ==> d.blocks_per_slot * BLOCK_TOKENS <= usize::MAX
                && d.blocks_per_slot * BLOCK_TOKENS * self.slots <= usize::MAX,
        ensures
            r.narrower == self.falls_short(d),
            r.grant == grant,
            r.reserves@ == reserve_list(d.reserves@),
            r.narrower ==> r.message@ == "KV plan is narrower than the configuration asked for"@
                && r.full_context_tokens == Some(
                (d.blocks_per_slot * BLOCK_TOKENS * self.slots) as usize,
            ),
            !r.narrower ==> r.message@ == "KV plan"@ && r.full_context_tokens is None,
    {
        let mut reserves = String::new();
        let mut i: usize = 0;
        assert(d.reserves@.take(0) =~= Seq::<Reserve>::empty());
        while i < d.reserves.len()
            invariant
                i <= d.reserves.len(),
                reserves@ == reserve_list(d.reserves@.take(i as int)),
            decreases d.reserves.len() - i,
        {
            if i > 0 {
                reserves.append(", ");
            }
            reserves.append(d.reserves[i].what);
            reserves.append(" ");
            push_gib(&mut reserves, d.reserves[i].bytes);
            proof {
                let next = d.reserves@.take(i + 1);
                assert(next.drop_last() =~= d.reserves@.take(i as int));
                assert(reserves@ =~= reserve_list(next));
            }
            i = i + 1;
        }
        assert(d.reserves@.take(i as int) =~= d.reserves@);
        if self.slots < d.slots || self.shared {
            PlanReport {
                narrower: true,
                message: "KV plan is narrower than the configuration asked for",
                grant,
                reserves,
                full_context_tokens: Some(d.blocks_per_slot * BLOCK_TOKENS * self.slots),
            }
        } else {
            PlanReport {
                narrower: false,
                message: "KV plan",
                grant,
                reserves,
                full_context_tokens: None,
            }
        }
    }
}

/// Every plan fits inside its grant: the pool, the slots' own state and the reserves together never
/// exceed it.
pub proof fn law_plan_fits_grant(d: Demand, grant: u64, p: Plan)
    requires
        d.wf(),
        d.charges(p.slots as int) <= u64::MAX,
        d.seats(grant, p.slots as int),
        d.is_plan(p, p.slots as int, d.affords(grant, p.slots as int)->0),
    ensures
        p.pool_bytes + p.slot_bytes + reserve_sum(d.reserves@) <= grant,
{
    let blocks = d.affords(grant, p.slots as int)->0;
    let kv = grant - d.charges(p.slots as int);
    let cost = d.block_cost();
    assert(blocks <= kv / cost);
    assert(blocks * cost <= kv) by (nonlinear_arith)
        requires
            blocks <= kv / cost,
            cost > 0,
    ;
    if d.block_bytes == 0 {
        assert(blocks * 0 == 0);
    }
}

/// The narrower batch that a refusal offers clears it: the same demand at that width is planned.
pub proof fn law_width_fix_clears(d: Demand, grant: u64)
    requires
        d.infeasible(grant),
        d.width_fix(grant) is Some,
    ensures
        ({
            let n = d.width_fix(grant)->0;
            1 <= n < d.slots && !(Demand { slots: n as usize, ..d }).infeasible(grant)
        }),
{
    d.lemma_widest_seated(grant, d.slots as int);
    let n = d.width_fix(grant)->0;
    let e = Demand { slots: n as usize, ..d };
    assert(e.affords(grant, n) == d.affords(grant, n));
    assert(e.seats(grant, n));
}

/// The shorter window that a refusal offers clears it: the same demand with that window is planned.
/// A family that refuses is offered the even share whenever the blocks that fit meet its floor.
pub proof fn law_window_fix_clears(d: Demand, grant: u64)
    requires
        d.infeasible(grant),
    ensures
        d.window_fix(grant) matches Some(c) ==> {
            &&& BLOCK_TOKENS <= c < d.max_ctx
            &&& c % BLOCK_TOKENS as int == 0
            &&& !(Demand {
                max_ctx: c as usize,
                blocks_per_slot: (c / BLOCK_TOKENS as int) as usize,
                ..d
            }).infeasible(grant)
        },
        d.when_short == WhenShort::Refuse && d.runs(grant, d.slots as int) && BLOCK_TOKENS
            <= d.even_blocks(grant) * BLOCK_TOKENS < d.max_ctx ==> d.window_fix(grant) == Some(
            d.even_blocks(grant) * BLOCK_TOKENS,
        ),
{
    let each = d.even_blocks(grant);
    let n = d.slots as int;
    if d.when_short == WhenShort::Refuse && d.runs(grant, n) && BLOCK_TOKENS <= each * BLOCK_TOKENS
        < d.max_ctx {
        let w = d.windowed(each);
        let b = d.affords(grant, n)->0;
        assert(!d.seats(grant, n));
        assert(n * each <= b) by (nonlinear_arith)
            requires
                each == b / n,
                n > 0,
                b >= 0,
        ;
        assert(w.seats(grant, n));
    }
}

/// A plan's pool is never below the progress floor and never above what is addressable.
pub proof fn law_pool_within_bounds(d: Demand, grant: u64, p: Plan)
    requires
        d.seats(grant, p.slots as int),
        d.is_plan(p, p.slots as int, d.affords(grant, p.slots as int)->0),
    ensures
        d.progress_floor(p.slots as int) <= p.pool_blocks <= d.addressable(p.slots as int),
        p.token_capacity == p.pool_blocks * BLOCK_TOKENS,
{
}

/// The floor never exceeds what is addressable: a floor above the ceiling is met at the ceiling.
pub proof fn law_floor_is_addressable(d: Demand, slots: int)
    ensures
        d.progress_floor(slots) <= d.addressable(slots),
{
}

/// A family that refuses gets the width it asked for, with a full window for every slot.
pub proof fn law_refuse_keeps_the_ask(d: Demand, grant: u64, p: Plan)
    requires
        d.when_short == WhenShort::Refuse,
        d.narrowest() <= p.slots <= d.slots,
        d.seats(grant, p.slots as int),
        d.is_plan(p, p.slots as int, d.affords(grant, p.slots as int)->0),
    ensures
        p.slots == d.slots,
        !p.shared,
{
}

/// The hedge caps the pool: it never takes more bytes than the fraction's share of the grant.
pub proof fn law_hedge_caps_the_pool(d: Demand, f: Fraction, grant: u64, p: Plan)
    requires
        d.hedge_fraction == Some(f),
        d.seats(grant, p.slots as int),
        d.is_plan(p, p.slots as int, d.affords(grant, p.slots as int)->0),
    ensures
        p.pool_bytes <= f.share(grant as nat),
{
    let blocks = p.pool_blocks as int;
    let share = f.share(grant as nat) as int;
    let cost = d.block_cost();
    assert(blocks <= share / cost);
    assert(blocks * cost <= share) by (nonlinear_arith)
        requires
            blocks <= share / cost,
            cost > 0,
    ;
    if d.block_bytes == 0 {
        assert(blocks * 0 == 0);
    }
}

/// Without a hedge, a width that a grant seats is seated by every larger grant too.
pub proof fn law_more_grant_never_narrows(d: Demand, less: u64, more: u64, slots: int)
    requires
        d.hedge_fraction is None,
        less <= more,
        d.seats(less, slots),
    ensures
        d.seats(more, slots),
{
    let charged = if d.charges(slots) <= u64::MAX {
        d.charges(slots)
    } else {
        u64::MAX as int
    };
    let a = less - charged;
    let b = more - charged;
    let cost = d.block_cost();
    assert(a / cost <= b / cost) by (nonlinear_arith)
        requires
            0 <= a <= b,
            cost > 0,
    ;
}

/// A width is seated exactly when its reserves, its slots' own state and the blocks it needs fit
/// in the grant, each charged once, and the hedge allows those blocks: the progress floor, and
/// where the family refuses, a full window for every slot.
pub proof fn law_seated_is_what_fits(d: Demand, grant: u64, slots: int, need: int)
    requires
        slots >= 0,
        d.block_bytes > 0,
        reserve_sum(d.reserves@) + slots * d.per_slot_bytes <= u64::MAX,
        need >= d.progress_floor(slots),
        d.when_short == WhenShort::Refuse ==> need >= slots * d.blocks_per_slot,
        need == d.progress_floor(slots) || d.when_short == WhenShort::Refuse && need == slots
            * d.blocks_per_slot,
    ensures
        d.seats(grant, slots) <==> {
            &&& reserve_sum(d.reserves@) + slots * d.per_slot_bytes + need * d.block_bytes <= grant
            &&& d.hedge_fraction matches Some(f) ==> need * d.block_bytes <= f.share(grant as nat)
        },
{
    let charged = reserve_sum(d.reserves@) + slots * d.per_slot_bytes;
    let cost = d.block_bytes as int;
    assert(0 <= slots * d.blocks_per_slot && 0 <= slots * d.floor_blocks_per_slot) by (nonlinear_arith)
        requires
            slots >= 0,
    ;
    assert(0 <= need);
    let kv = grant - charged;
    if kv >= 0 {
        lemma_quotient_covers(kv, cost, need);
    } else {
        assert(need * cost >= 0) by (nonlinear_arith)
            requires
                need >= 0,
                cost > 0,
        ;
    }
    if let Some(f) = d.hedge_fraction {
        lemma_quotient_covers(f.share(grant as nat) as int, cost, need);
    }
}

proof fn lemma_quotient_covers(whole: int, part: int, count: int)
    requires
        whole >= 0,
        part > 0,
    ensures
        count <= whole / part <==> count * part <= whole,
{
    assert(count <= whole / part <==> count * part <= whole) by (nonlinear_arith)
        requires
            whole >= 0,
            part > 0,
    ;
}

/// A plan wastes nothing: a pool that neither the addressable ceiling nor the hedge holds back
/// leaves less than one block of the grant.
pub proof fn law_plan_wastes_nothing(d: Demand, grant: u64, p: Plan)
    requires
        d.wf(),
        d.block_bytes > 0,
        reserve_sum(d.reserves@) + p.slots * d.per_slot_bytes <= u64::MAX,
        d.seats(grant, p.slots as int),
        d.is_plan(p, p.slots as int, d.affords(grant, p.slots as int)->0),
        p.pool_blocks < p.slots * d.blocks_per_slot + d.retention_blocks,
        d.hedge_fraction matches Some(f) ==> (p.pool_blocks + 1) * d.block_bytes <= f.share(
            grant as nat,
        ),
    ensures
        p.pool_bytes == p.pool_blocks * d.block_bytes,
        p.slot_bytes == p.slots * d.per_slot_bytes,
        p.pool_bytes + p.slot_bytes + reserve_sum(d.reserves@) + d.block_bytes > grant,
{
    let cost = d.block_bytes as int;
    let kv = grant - (reserve_sum(d.reserves@) + p.slots * d.per_slot_bytes);
    let next = p.pool_blocks + 1;
    lemma_quotient_covers(kv, cost, next);
    if let Some(f) = d.hedge_fraction {
        lemma_quotient_covers(f.share(grant as nat) as int, cost, next);
    }
    assert(next * cost == p.pool_blocks * cost + cost) by (nonlinear_arith)
        requires
            next == p.pool_blocks + 1,
    ;
}

/// The floor is the larger of its two measures, or all that is addressable where that is less.
pub proof fn law_floor_is_the_larger_measure(d: Demand, slots: int)
    ensures
        ({
            let ceiling = slots * d.blocks_per_slot + d.retention_blocks;
            let f = d.progress_floor(slots);
            &&& f < ceiling ==> f >= slots * d.floor_blocks_per_slot && f >= d.floor_blocks_min
            &&& f == ceiling ==> slots * d.floor_blocks_per_slot >= f || d.floor_blocks_min >= f
            &&& f <= ceiling
            &&& f == slots * d.floor_blocks_per_slot || f == d.floor_blocks_min || f == ceiling
        }),
{
}

/// Reserves add up: those of two lists together charge what each list charges, and one charges
/// its bytes.
pub proof fn law_reserves_add_up(a: Seq<Reserve>, b: Seq<Reserve>)
    ensures
        reserve_sum(a + b) == reserve_sum(a) + reserve_sum(b),
        a.len() == 1 ==> reserve_sum(a) == a[0].bytes,
        a.len() == 0 ==> reserve_sum(a) == 0,
    decreases b.len(),
{
    if b.len() == 0 {
        assert(a + b =~= a);
    } else {
        assert((a + b).drop_last() =~= a + b.drop_last());
        law_reserves_add_up(a, b.drop_last());
    }
    if a.len() == 1 {
        assert(reserve_sum(a.drop_last()) == 0);
    }
}

/// What a refusal names: the blocks of full windows for the asked width where the family refuses,
/// else those that the asked width needs to make progress; and the blocks that the grant leaves
/// behind the charges, within the addressable and the hedge, which are fewer.
pub proof fn law_refusal_names_the_gap(d: Demand, grant: u64)
    requires
        d.infeasible(grant),
        d.slots >= 1,
        d.block_bytes > 0,
        reserve_sum(d.reserves@) + d.slots * d.per_slot_bytes <= u64::MAX,
    ensures
        d.when_short == WhenShort::Refuse ==> d.needed() == d.slots * d.blocks_per_slot,
        d.when_short == WhenShort::Narrow ==> d.needed() == d.progress_floor(d.slots as int),
        d.when_short == WhenShort::Narrow && d.needed() > 0 ==> d.got(grant) < d.needed(),
        d.when_short == WhenShort::Refuse && d.needed() > 0 ==> d.got(grant) < d.needed() || d.got(
            grant,
        ) < d.progress_floor(d.slots as int),
        d.got(grant) > 0 ==> reserve_sum(d.reserves@) + d.slots * d.per_slot_bytes + d.got(grant)
            * d.block_bytes <= grant,
        d.got(grant) >= 0,
{
    let s = d.slots as int;
    assert(!d.seats(grant, s));
    assert(0 <= s * d.blocks_per_slot && 0 <= s * d.floor_blocks_per_slot) by (nonlinear_arith)
        requires
            s >= 1,
    ;
    let kv = grant - (reserve_sum(d.reserves@) + s * d.per_slot_bytes);
    if kv >= 0 {
        lemma_quotient_covers(kv, d.block_bytes as int, d.got(grant));
        lemma_quotient_covers(kv, d.block_bytes as int, 0);
        if let Some(f) = d.hedge_fraction {
            lemma_quotient_covers(f.share(grant as nat) as int, d.block_bytes as int, 0);
        }
    }
}

/// The narrower batch that a refusal offers is the widest that can be seated: every width between
/// it and the asked one is refused too.
pub proof fn law_width_fix_is_the_widest(d: Demand, grant: u64, s: int)
    requires
        d.width_fix(grant) matches Some(n) && n < s <= d.slots,
    ensures
        !d.seats(grant, s),
{
    d.lemma_widest_seated(grant, d.slots as int);
    lemma_widest_is_last(d, grant, d.slots as int, s);
}

proof fn lemma_widest_is_last(d: Demand, grant: u64, slots: int, s: int)
    requires
        d.widest_seated(grant, slots) matches Some(n) && n < s <= slots,
    ensures
        !d.seats(grant, s),
    decreases slots,
{
    if !d.seats(grant, slots) && s < slots {
        lemma_widest_is_last(d, grant, slots - 1, s);
    }
}

/// A plan is shared exactly when its pool cannot hold a full window for every slot it seats.
pub proof fn law_shared_pools_are_short(d: Demand, p: Plan, blocks: int)
    requires
        d.is_plan(p, p.slots as int, blocks),
    ensures
        p.shared <==> p.pool_blocks < p.slots * d.blocks_per_slot,
        p.token_capacity == p.pool_blocks * 16,
        p.pool_bytes == p.pool_blocks * d.block_bytes,
        p.slot_bytes == p.slots * d.per_slot_bytes,
        p.falls_short(&d) <==> p.slots < d.slots || p.pool_blocks < p.slots * d.blocks_per_slot,
{
}

/// A plan is as wide as the grant allows: every wider width that was asked for does not fit, its
/// reserves, its slots' state and its floor together exceeding the grant where the family narrows
/// and no hedge holds it back.
pub proof fn law_wider_does_not_fit(d: Demand, grant: u64, slots: int, wider: int)
    requires
        d.is_widest(grant, slots),
        d.when_short == WhenShort::Narrow,
        d.hedge_fraction is None,
        d.block_bytes > 0,
        slots < wider <= d.slots,
        reserve_sum(d.reserves@) + wider * d.per_slot_bytes <= u64::MAX,
    ensures
        reserve_sum(d.reserves@) + wider * d.per_slot_bytes + d.progress_floor(wider)
            * d.block_bytes > grant,
{
    law_seated_is_what_fits(d, grant, wider, d.progress_floor(wider));
}

/// A share is the product of the fraction and the whole, cut down, wherever a double holds the
/// product exactly.
pub proof fn law_shares_are_products(f: Fraction, whole: nat)
    requires
        whole * f.mantissa as nat <= text::F64_EXACT,
        whole <= text::F64_EXACT,
        f.mantissa > 0,
    ensures
        f.share(whole) * vstd::arithmetic::power2::pow2(f.shift as nat) <= whole * f.mantissa,
        whole * f.mantissa < (f.share(whole) + 1) * vstd::arithmetic::power2::pow2(f.shift as nat),
{
    let p = vstd::arithmetic::power2::pow2(f.shift as nat) as int;
    vstd::arithmetic::power2::lemma_pow2_pos(f.shift as nat);
    text::lemma_f64_exact(whole);
    let x = whole * f.mantissa as nat;
    text::lemma_f64_exact(x);
    vstd::arithmetic::div_mod::lemma_fundamental_div_mod(x as int, p);
    let q = x as int / p;
    assert(q <= x) by (nonlinear_arith)
        requires
            q == x as int / p,
            p > 0,
            x >= 0,
    ;
    assert(f.share(whole) == q);
    assert(p * q == q * p && (q + 1) * p == q * p + p) by (nonlinear_arith);
}

/// The window that a refusal offers is an even share of the blocks that fit, and it is offered
/// whenever a demand with it would be planned and it is shorter than the one that was asked for.
pub proof fn law_window_fix_is_the_even_share(d: Demand, grant: u64)
    requires
        d.slots >= 1,
    ensures
        ({
            let each = d.even_blocks(grant);
            &&& each * d.slots <= d.got(grant) < (each + 1) * d.slots
            &&& d.window_fix(grant) matches Some(c) ==> c == 16 * each
            &&& d.window_fix(grant) is Some <==> 16 <= 16 * each < d.max_ctx && !d.windowed(
                each,
            ).infeasible(grant)
        }),
{
    let n = d.slots as int;
    let g = d.got(grant);
    let each = g / n;
    assert(each * n <= g < (each + 1) * n) by (nonlinear_arith)
        requires
            each == g / n,
            n > 0,
    ;
}

/// A refusal ends its budget with the blocks that fit, those that were needed and the tokens that
/// fit, in this order; a build that is not hardened adds its switch exactly where the family
/// refuses and the blocks would do for progress.
pub proof fn law_refusals_end_with_the_counts(d: Demand, grant: u64)
    requires
        d.got(grant) >= 0,
        d.needed() >= 0,
    ensures
        ({
            let counts = " MiB/block ("@ + text::decimal(d.got(grant) as nat) + " of "@ + text::decimal(
                d.needed() as nat,
            ) + " blocks, "@ + text::decimal((d.got(grant) * 16) as nat)
                + " tokens shared across all sequences)."@ + d.dev_hint(grant);
            &&& d.refusal(grant).len() >= counts.len()
            &&& d.refusal(grant).skip(d.refusal(grant).len() - counts.len()) == counts
        }),
        d.dev_hint(grant).len() > 0 <==> !d.hardened && d.when_short == WhenShort::Refuse && d.got(
            grant,
        ) >= d.progress_floor(d.slots as int),
{
    reveal_strlit(
        " PADDOCK_KV_OVERSUBSCRIBE=1 serves a shared paged KV budget instead (requests beyond it queue or preempt).",
    );
    let counts = " MiB/block ("@ + text::decimal(d.got(grant) as nat) + " of "@ + text::decimal(
        d.needed() as nat,
    ) + " blocks, "@ + text::decimal((d.got(grant) * 16) as nat)
        + " tokens shared across all sequences)."@ + d.dev_hint(grant);
    assert(d.refusal(grant).skip(d.refusal(grant).len() - counts.len()) =~= counts);
}

/// Each reserve is charged in the ledger of a refusal, by its name and its size, behind those
/// before it; and listed in the report.
pub proof fn law_ledgers_name_every_reserve(a: Seq<Reserve>, r: Reserve)
    ensures
        ledger(a.push(r)) == ledger(a) + " - "@ + r.what@ + " "@ + text::gib_text(r.bytes as nat),
        ledger(Seq::empty()).len() == 0,
        a.len() > 0 ==> reserve_list(a.push(r)) == reserve_list(a) + ", "@ + r.what@ + " "@
            + text::gib_text(r.bytes as nat),
        reserve_list(seq![r]) == r.what@ + " "@ + text::gib_text(r.bytes as nat),
{
    assert(a.push(r).drop_last() =~= a);
    assert(seq![r].drop_last() =~= Seq::<Reserve>::empty());
    assert(reserve_list(Seq::<Reserve>::empty()) =~= Seq::<char>::empty());
    assert(reserve_list(seq![r]) =~= r.what@ + " "@ + text::gib_text(r.bytes as nat));
}

/// Nothing is refused that could be seated: a family that narrows is refused only where not even
/// one slot is seated nor any more, one that refuses only where the asked width is not.
pub proof fn law_refusals_leave_no_width(d: Demand, grant: u64, s: int)
    requires
        d.infeasible(grant),
    ensures
        d.when_short == WhenShort::Narrow && 1 <= s <= d.slots ==> !d.seats(grant, s),
        d.when_short == WhenShort::Refuse ==> !d.seats(grant, d.slots as int),
{
}

/// And a width that is seated is no ground for a refusal.
pub proof fn law_seated_widths_are_planned(d: Demand, grant: u64, s: int)
    requires
        1 <= s <= d.slots,
        d.seats(grant, s),
        d.when_short == WhenShort::Refuse ==> s == d.slots,
    ensures
        !d.infeasible(grant),
{
    assert(d.narrowest() <= s <= d.slots);
}

/// A share is the product within what two roundings of a double can move it by, cut down, or the
/// largest number of 64 bits.
pub proof fn law_shares_are_near_products(f: Fraction, whole: nat)
    ensures
        ({
            let e = text::F64_EXACT as int;
            let p = vstd::arithmetic::power2::pow2(f.shift as nat) as int;
            let x = whole * f.mantissa as int;
            let s = f.share(whole) as int;
            &&& (e * e) * (s * p) <= ((e + 1) * (e + 1)) * x
            &&& s < u64::MAX ==> (e * e) * ((s + 1) * p) > ((e - 1) * (e - 1)) * x
        }),
{
    let e = text::F64_EXACT as int;
    let p = vstd::arithmetic::power2::pow2(f.shift as nat) as int;
    vstd::arithmetic::power2::lemma_pow2_pos(f.shift as nat);
    let m = f.mantissa as int;
    let a = text::f64_of(whole) as int;
    text::law_doubles_are_the_nearest(whole);
    let b = (text::f64_of(whole) * f.mantissa as nat) as int;
    assert(b == a * m);
    let y = text::f64_of(b as nat) as int;
    text::law_doubles_are_the_nearest(b as nat);
    let w = whole as int;
    assert(e * y <= (e + 1) * b) by (nonlinear_arith)
        requires
            e * y <= e * b + b,
    ;
    assert((e - 1) * b <= e * y) by (nonlinear_arith)
        requires
            e * b <= e * y + b,
    ;
    assert(e * b <= ((e + 1) * w) * m) by (nonlinear_arith)
        requires
            b == a * m,
            e * a <= e * w + w,
            m >= 0,
    ;
    assert(((e - 1) * w) * m <= e * b) by (nonlinear_arith)
        requires
            b == a * m,
            e * w <= e * a + w,
            m >= 0,
    ;
    let x = w * m;
    assert((e * e) * y <= ((e + 1) * (e + 1)) * x) by (nonlinear_arith)
        requires
            e * y <= (e + 1) * b,
            e * b <= ((e + 1) * w) * m,
            x == w * m,
            e > 0,
    ;
    assert(((e - 1) * (e - 1)) * x <= (e * e) * y) by (nonlinear_arith)
        requires
            (e - 1) * b <= e * y,
            ((e - 1) * w) * m <= e * b,
            x == w * m,
            e > 1,
    ;
    let q = y / p;
    let s = f.share(whole) as int;
    assert(q * p <= y && y < (q + 1) * p && q >= 0) by (nonlinear_arith)
        requires
            q == y / p,
            p > 0,
            y >= 0,
    ;
    assert(s <= q);
    assert(s * p <= q * p) by (nonlinear_arith)
        requires
            s <= q,
            p > 0,
    ;
    assert((e * e) * (s * p) <= (e * e) * y) by (nonlinear_arith)
        requires
            s * p <= y,
            e > 0,
    ;
    if s < u64::MAX {
        assert(s == q);
        assert((e * e) * ((q + 1) * p) > (e * e) * y) by (nonlinear_arith)
            requires
                (q + 1) * p > y,
                e > 0,
        ;
    }
}

/// What a refusal offers first is the shorter window, and then the narrower batch, each only where
/// it would clear it, and at last more memory.
pub proof fn law_fixes_stand_in_order(d: Demand, grant: u64)
    ensures
        ({
            let more = "raise vram_budget, or free VRAM on this card"@;
            let f = d.fixes(grant);
            &&& d.window_fix(grant) is None && d.width_fix(grant) is None ==> f == more
            &&& d.window_fix(grant) is None && d.width_fix(grant) is Some ==> f
                == "lower max_batch to <="@ + text::decimal(d.width_fix(grant)->0 as nat) + ", or "@
                + more
            &&& d.window_fix(grant) is Some && d.width_fix(grant) is None ==> f
                == "lower max_ctx to <="@ + text::decimal(d.window_fix(grant)->0 as nat) + ", or "@
                + more
            &&& d.window_fix(grant) is Some && d.width_fix(grant) is Some ==> f
                == "lower max_ctx to <="@ + text::decimal(d.window_fix(grant)->0 as nat) + ", or "@ + (
            "lower max_batch to <="@ + text::decimal(d.width_fix(grant)->0 as nat) + ", or "@ + more)
        }),
{
    let more = "raise vram_budget, or free VRAM on this card"@;
    let f = d.fixes(grant);
    if d.window_fix(grant) is None && d.width_fix(grant) is None {
        assert(f =~= more);
    } else if d.window_fix(grant) is None {
        let b = "lower max_batch to <="@ + text::decimal(d.width_fix(grant)->0 as nat) + ", or "@;
        assert(f =~= b + more);
    } else if d.width_fix(grant) is None {
        let b = "lower max_ctx to <="@ + text::decimal(d.window_fix(grant)->0 as nat) + ", or "@;
        assert(f =~= b + more);
    } else {
        let a = "lower max_ctx to <="@ + text::decimal(d.window_fix(grant)->0 as nat) + ", or "@;
        let b = "lower max_batch to <="@ + text::decimal(d.width_fix(grant)->0 as nat) + ", or "@;
        assert(f =~= a + (b + more));
    }
}

/// The budget of a refusal starts from the grant, takes off every reserve, and takes off the slots'
/// own state where they have any, as many times as there are slots.
pub proof fn law_budgets_list_every_charge(d: Demand, grant: u64)
    ensures
        d.per_slot_bytes == 0 ==> d.terms(grant) == "grant "@ + text::gib_text(grant as nat) + " GiB"@
            + ledger(d.reserves@),
        d.per_slot_bytes > 0 ==> d.terms(grant) == "grant "@ + text::gib_text(grant as nat) + " GiB"@
            + ledger(d.reserves@) + (" - "@ + text::decimal(d.slots as nat) + " x per-slot state "@
            + text::gib_text((d.slots * d.per_slot_bytes) as nat)),
{
    if d.per_slot_bytes == 0 {
        assert(d.terms(grant) =~= "grant "@ + text::gib_text(grant as nat) + " GiB"@ + ledger(
            d.reserves@,
        ));
    }
}

} // verus!
