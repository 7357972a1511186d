//! When to let requests in, when to hold them, and when a pass may run: the scheduler's gates.
use crate::service::batch::{Batch, BatchView, POOL_WATERMARK_BLOCKS};
use crate::service::scan;
use vstd::prelude::*;

verus! {

/// How admissions are bunched.
#[derive(Debug, Clone, Copy, PartialEq, Eq, Structural)]
pub struct AdmissionSettings {
    /// Hold refills until this many slots free up within the horizon; zero is off.
    pub predict_k: usize,
    /// The horizon, in tokens still to generate.
    pub predict_h: usize,
    /// Hold refills until this many slots are free; zero is off.
    pub min_free: usize,
    /// The longest such hold, in milliseconds.
    pub max_hold_ms: u64,
}

impl Default for AdmissionSettings {
    fn default() -> (s: Self)
        ensures
            s == (AdmissionSettings { predict_k: 0, predict_h: 16, min_free: 0, max_hold_ms: 25 }),
    {
        AdmissionSettings { predict_k: 0, predict_h: 16, min_free: 0, max_hold_ms: 25 }
    }
}

impl BatchView {
    /// A sequence that ends within `h` tokens.
    pub open spec fn ending(self, h: usize) -> spec_fn(int) -> bool {
        |k: int| self.slots[k] is Some && self.slots[k]->0.left() <= h
    }

    pub open spec fn free_count(self) -> nat {
        scan::tally(self.width(), self.free())
    }
}

/// The admission gate's answer and what it remembers: since when it holds.
pub open spec fn gate(
    s: AdmissionSettings,
    width: int,
    free: int,
    soon: int,
    since: Option<u64>,
    now: u64,
) -> (bool, Option<u64>) {
    if s.predict_k > 0 && width >= 2 * s.predict_k {
        (!(0 < free < s.predict_k && free + soon >= s.predict_k), since)
    } else if s.min_free == 0 || width < 2 * s.min_free {
        (true, since)
    } else if free == 0 || free >= s.min_free {
        (true, None)
    } else {
        let from = match since {
            Some(t) => t,
            None => now,
        };
        if now >= from + s.max_hold_ms {
            (true, None)
        } else {
            (false, Some(from))
        }
    }
}

impl Batch {
    /// Slots that are free.
    pub fn free_slots(&self) -> (n: usize)
        ensures
            n == self@.free_count(),
            n <= self@.width(),
    {
        proof {
            scan::lemma_tally_bound(self@.width(), self@.free());
        }
        let mut n: usize = 0;
        let mut k: usize = 0;
        while k < self.slots.len()
            invariant
                k <= self.slots@.len(),
                n <= k,
                n == scan::tally(k as nat, self@.free()),
            decreases self.slots@.len() - k,
        {
            if self.slots[k].is_none() {
                n = n + 1;
            }
            k = k + 1;
        }
        n
    }

    /// Sequences that end within `h` tokens.
    pub fn ending(&self, h: usize) -> (n: usize)
        ensures
            n == scan::tally(self@.width(), self@.ending(h)),
            n <= self@.width(),
    {
        proof {
            scan::lemma_tally_bound(self@.width(), self@.ending(h));
        }
        let mut n: usize = 0;
        let mut k: usize = 0;
        while k < self.slots.len()
            invariant
                k <= self.slots@.len(),
                n <= k,
                n == scan::tally(k as nat, self@.ending(h)),
            decreases self.slots@.len() - k,
        {
            if let Some(s) = &self.slots[k] {
                if s.max_tokens.saturating_sub(s.generated) <= h {
                    n = n + 1;
                }
            }
            k = k + 1;
        }
        n
    }

    /// Whether admission is open. A bunch that is about to free up is waited for; otherwise a
    /// refill is held until enough slots are free, but no longer than the cap.
    pub fn admission_open(
        &self,
        s: &AdmissionSettings,
        since: &mut Option<u64>,
        now: u64,
    ) -> (open: bool)
        requires
            2 * s.predict_k <= usize::MAX,
            2 * s.min_free <= usize::MAX,
        ensures
            (open, *final(since)) == gate(
                *s,
                self@.width() as int,
                self@.free_count() as int,
                scan::tally(self@.width(), self@.ending(s.predict_h)) as int,
                *old(since),
                now,
            ),
    {
        let width: usize = self.slots.len();
        let free: usize = self.free_slots();
        if s.predict_k > 0 && width >= 2 * s.predict_k {
            let soon: usize = self.ending(s.predict_h);
            let hold: bool = free > 0 && free < s.predict_k && soon >= s.predict_k - free;
            return !hold;
        }
        if s.min_free == 0 || width < 2 * s.min_free {
            return true;
        }
        if free == 0 || free >= s.min_free {
            *since = None;
            return true;
        }
        let from: u64 = match *since {
            Some(t) => t,
            None => now,
        };
        if now >= from && now - from >= s.max_hold_ms {
            *since = None;
            true
        } else {
            *since = Some(from);
            false
        }
    }
}

/// A held refill is let in at the latest when the cap has passed.
pub proof fn law_hold_is_bounded(
    s: AdmissionSettings,
    width: int,
    free: int,
    soon: int,
    since: u64,
    now: u64,
)
    requires
        s.predict_k == 0,
        now >= since + s.max_hold_ms,
    ensures
        gate(s, width, free, soon, Some(since), now).0,
{
}

/// A bunch is only waited for while it is on its way: with every slot taken, or fewer endings in
/// sight than the bunch lacks, admission is open.
pub proof fn law_bunch_is_only_awaited_in_sight(
    s: AdmissionSettings,
    width: int,
    free: int,
    soon: int,
    since: Option<u64>,
    now: u64,
)
    requires
        s.predict_k > 0,
        width >= 2 * s.predict_k,
        free == 0 || free + soon < s.predict_k,
    ensures
        gate(s, width, free, soon, since, now).0,
{
}

/// Whether one more waiting request may be pulled in.
pub fn may_pull(open: bool, exclusive_waits: bool, any_free: bool, budget: &Option<usize>) -> (r:
    bool)
    ensures
        r == (open && !exclusive_waits && any_free && crate::service::batch::above_watermark(
            *budget,
        )),
{
    open && !exclusive_waits && any_free && crate::service::batch::admits(budget)
}

/// A multimodal request runs alone on a backend that cannot seat it in a slot.
pub fn runs_alone(multimodal: bool, mm_slots: bool) -> (r: bool)
    ensures
        r == (multimodal && !mm_slots),
{
    multimodal && !mm_slots
}

/// A forming burst is lingered over when nothing runs and at least two requests came together.
pub fn lingers(fuse: bool, active: usize, admitted: u32) -> (r: bool)
    ensures
        r == (fuse && active == 0 && admitted >= 2),
{
    fuse && active == 0 && admitted >= 2
}

/// The linger goes on until the hard cap, or until nothing came for the quiet gap.
pub fn lingers_on(started: u64, last: u64, hard_ms: u64, quiet_ms: u64, now: u64) -> (r: bool)
    ensures
        r == (now < started + hard_ms && now < last + quiet_ms),
{
    (now < started || now - started < hard_ms) && (now < last || now - last < quiet_ms)
        && (hard_ms > 0 || now < started) && (quiet_ms > 0 || now < last)
}

/// Whether lone or landing prompts are held for company, and since when.
pub open spec fn coalesce(
    ms: u64,
    advancing: bool,
    pending: int,
    live: int,
    hold_max: int,
    since: Option<u64>,
    now: u64,
) -> (bool, Option<u64>) {
    let most = if hold_max >= 3 {
        hold_max
    } else {
        3
    };
    let wants = ms > 0 && !advancing && ((pending == 1 && live >= 16) || 2 <= pending < most);
    let hold = wants && (match since {
        None => true,
        Some(t) => now < t + ms,
    });
    if hold {
        (
            true,
            match since {
                Some(t) => Some(t),
                None => Some(now),
            },
        )
    } else {
        (false, None)
    }
}

/// Hold a lone prompt under a wide batch, or the first few of a burst, briefly, so that they share
/// a pass.
pub fn coalesce_hold(
    ms: u64,
    advancing: bool,
    pending: usize,
    live: usize,
    hold_max: usize,
    since: &mut Option<u64>,
    now: u64,
) -> (hold: bool)
    ensures
        (hold, *final(since)) == coalesce(
            ms,
            advancing,
            pending as int,
            live as int,
            hold_max as int,
            *old(since),
            now,
        ),
{
    let most: usize = if hold_max >= 3 {
        hold_max
    } else {
        3
    };
    let mut hold: bool = false;
    if ms > 0 && !advancing && ((pending == 1 && live >= 16) || (pending >= 2 && pending < most)) {
        match *since {
            None => {
                *since = Some(now);
                hold = true;
            },
            Some(t) => {
                if now < t || now - t < ms {
                    hold = true;
                }
            },
        }
    }
    if !hold {
        *since = None;
    }
    hold
}

/// The last count of waiting prompts and when it last changed.
#[derive(Debug, Clone, Copy, PartialEq, Eq, Structural)]
pub struct BurstWindow {
    pub count: usize,
    pub stable_since: u64,
}

/// The window after `n` prompts were seen waiting.
pub open spec fn observed(w: BurstWindow, n: usize, now: u64) -> BurstWindow {
    BurstWindow {
        count: n,
        stable_since: if w.count != n {
            now
        } else {
            w.stable_since
        },
    }
}

impl BurstWindow {
    pub fn new() -> (w: Self)
        ensures
            w == (BurstWindow { count: 0, stable_since: 0 }),
    {
        BurstWindow { count: 0, stable_since: 0 }
    }

    /// Whether arrivals are still in motion: the count changed less than the window ago. Off, or
    /// while something decodes or prefills, nothing is observed and nothing held.
    pub fn in_motion(
        &mut self,
        window_ms: u64,
        quiet: bool,
        n: usize,
        least: usize,
        now: u64,
    ) -> (hold: bool)
        ensures
            !(window_ms > 0 && quiet) ==> !hold && *final(self) == *old(self),
            window_ms > 0 && quiet ==> {
                &&& *final(self) == observed(*old(self), n, now)
                &&& hold == (n >= least && now < observed(*old(self), n, now).stable_since
                    + window_ms)
            },
    {
        if window_ms == 0 || !quiet {
            return false;
        }
        if self.count != n {
            self.count = n;
            self.stable_since = now;
        }
        n >= least && (now < self.stable_since || now - self.stable_since < window_ms)
    }
}

/// Whether this tick is a mixed one, and the count of pure ticks since the last. With decode
/// streams live, `between` pure ticks run between two mixed ones.
pub open spec fn interleave(
    prefilling: bool,
    between: u32,
    decoding: bool,
    count: u32,
) -> (bool, u32) {
    if !prefilling {
        (false, count)
    } else if between > 0 && decoding {
        if count < between {
            (false, (count + 1) as u32)
        } else {
            (true, 0)
        }
    } else {
        (true, count)
    }
}

/// Whether this tick is a mixed one.
pub fn mixed_now(prefilling: bool, between: u32, decoding: bool, count: &mut u32) -> (r: bool)
    ensures
        (r, *final(count)) == interleave(prefilling, between, decoding, *old(count)),
{
    if !prefilling {
        return false;
    }
    if between > 0 && decoding {
        if *count < between {
            *count = *count + 1;
            false
        } else {
            *count = 0;
            true
        }
    } else {
        true
    }
}

/// Run `n` ticks of a steady load from `count`: how many of them are mixed.
pub open spec fn mixed_in(n: nat, between: u32, count: u32) -> nat
    decreases n,
{
    if n == 0 {
        0
    } else {
        let (mixed, next) = interleave(true, between, true, count);
        mixed_in((n - 1) as nat, between, next) + if mixed {
            1nat
        } else {
            0
        }
    }
}

/// Under a steady load exactly one tick in `between + 1` is mixed.
pub proof fn law_interleave_is_fair(between: u32, count: u32)
    requires
        between > 0,
        count <= between,
    ensures
        mixed_in((between - count + 1) as nat, between, count) == 1,
    decreases between - count,
{
    if count < between {
        law_interleave_is_fair(between, (count + 1) as u32);
    } else {
        assert(mixed_in(0, between, 0) == 0);
        reveal_with_fuel(mixed_in, 2);
    }
}

/// Prompt rows a mixed tick takes beside `dec_rows` decode rows.
pub open spec fn tick_budget(dec_rows: int, adaptive: bool, tick_rows: int) -> int {
    if adaptive && dec_rows > 20 {
        512
    } else if adaptive && dec_rows > 8 {
        1024
    } else if tick_rows > dec_rows {
        tick_rows - dec_rows
    } else {
        1
    }
}

/// Prompt rows a mixed tick takes: one budget per tick, decode rows counted first, the prompt what
/// is left. Under the adaptive span a wide batch gets a shorter one.
pub fn mixed_tick_budget(dec_rows: usize, adaptive: bool, tick_rows: usize) -> (n: usize)
    ensures
        n == tick_budget(dec_rows as int, adaptive, tick_rows as int),
{
    if !adaptive || dec_rows <= 8 {
        let n: usize = tick_rows.saturating_sub(dec_rows);
        return if n >= 1 {
            n
        } else {
            1
        };
    }
    if dec_rows <= 20 {
        1024
    } else {
        512
    }
}

/// Decode rows are never what is cut: whatever rides a mixed tick, the prompt gets at least one row
/// and, unless it is down to that, both together stay in the budget.
pub proof fn law_prefill_never_starves(dec_rows: int, tick_rows: int)
    requires
        0 <= dec_rows,
        0 <= tick_rows,
    ensures
        tick_budget(dec_rows, false, tick_rows) >= 1,
        tick_budget(dec_rows, false, tick_rows) > 1 ==> dec_rows + tick_budget(
            dec_rows,
            false,
            tick_rows,
        ) <= tick_rows,
{
}

/// The pool holds a worst-case tick of growth for `rows` rows above the watermark. Without a pool
/// there is no limit.
pub open spec fn headroom(pool_free: Option<usize>, rows: int) -> bool {
    pool_free matches Some(f) ==> f > rows + POOL_WATERMARK_BLOCKS
}

/// Whether the pool holds a worst-case tick of growth for `rows` rows above the watermark.
pub fn has_headroom(pool_free: Option<usize>, rows: usize) -> (r: bool)
    ensures
        r == headroom(pool_free, rows as int),
{
    match pool_free {
        Some(f) => f > POOL_WATERMARK_BLOCKS && f - POOL_WATERMARK_BLOCKS > rows,
        None => true,
    }
}

/// Speculation's clock: declined rounds are tried again only after a while, or when a prompt comes
/// in.
#[derive(Debug, Clone, Copy, PartialEq, Eq, Structural)]
pub struct Cooldown {
    pub ticks: u64,
    pub retry_at: u64,
}

/// Ticks that a declined round is not tried again.
pub const COOLDOWN_TICKS: u64 = 256;

impl Cooldown {
    pub fn new() -> (c: Self)
        ensures
            c == (Cooldown { ticks: 0, retry_at: 0 }),
    {
        Cooldown { ticks: 0, retry_at: 0 }
    }

    /// One tick passes; whether a round is due.
    pub fn tick(&mut self) -> (due: bool)
        requires
            old(self).ticks < u64::MAX,
        ensures
            final(self).ticks == old(self).ticks + 1,
            final(self).retry_at == old(self).retry_at,
            due == (final(self).ticks >= final(self).retry_at),
    {
        self.ticks = self.ticks + 1;
        self.ticks >= self.retry_at
    }

    /// A round was declined.
    pub fn decline(&mut self)
        requires
            old(self).ticks + COOLDOWN_TICKS <= u64::MAX,
        ensures
            final(self).ticks == old(self).ticks,
            final(self).retry_at == old(self).ticks + COOLDOWN_TICKS,
    {
        self.retry_at = self.ticks + COOLDOWN_TICKS;
    }

    /// A prompt came in: its prefill warms the drafter.
    pub fn warmed(&mut self)
        ensures
            final(self).ticks == old(self).ticks,
            final(self).retry_at == old(self).ticks,
    {
        self.retry_at = self.ticks;
    }
}

/// How wide the host sampling of a decode tick fans out: rows per worker, or none to stay serial.
pub fn sample_fan_out(high_water: usize, live: usize, threads: usize) -> (chunk: Option<usize>)
    ensures
        ({
            let n = if threads <= live {
                threads
            } else {
                live
            };
            chunk == (if n > 1 && live >= 4 {
                Some(((high_water + n - 1) / n as int) as usize)
            } else {
                None
            })
        }),
{
    let n: usize = if threads <= live {
        threads
    } else {
        live
    };
    if n > 1 && live >= 4 {
        let whole: usize = high_water / n;
        proof {
            let h = high_water as int;
            let m = n as int;
            vstd::arithmetic::div_mod::lemma_fundamental_div_mod(h, m);
            if h % m == 0 {
                assert((h + m - 1) / m == h / m) by (nonlinear_arith)
                    requires
                        m > 1,
                        h == m * (h / m) + h % m,
                        h % m == 0,
                ;
            } else {
                assert((h + m - 1) / m == h / m + 1) by (nonlinear_arith)
                    requires
                        m > 1,
                        h >= 0,
                        h == m * (h / m) + h % m,
                        0 < h % m < m,
                ;
            }
            assert(h / m < h || h == 0) by (nonlinear_arith)
                requires
                    h >= 0,
                    m > 1,
            ;
        }
        if high_water % n == 0 {
            Some(whole)
        } else {
            Some(whole + 1)
        }
    } else {
        None
    }
}

/// Admission is shut for one of two reasons only. Where bunches are awaited: some slot is free,
/// fewer than a bunch, and with those about to end there are enough. Where they are not: some slot
/// is free, fewer than the least, and the hold has not lasted its cap.
pub proof fn law_admission_is_shut_for_a_reason(
    s: AdmissionSettings,
    width: int,
    free: int,
    soon: int,
    since: Option<u64>,
    now: u64,
)
    requires
        free >= 0,
        soon >= 0,
    ensures
        ({
            let bunches = s.predict_k > 0 && width >= 2 * s.predict_k;
            let (open, kept) = gate(s, width, free, soon, since, now);
            &&& bunches ==> (!open <==> 0 < free && free < s.predict_k && free + soon
                >= s.predict_k) && kept == since
            &&& !bunches && (s.min_free == 0 || width < 2 * s.min_free) ==> open && kept == since
            &&& !bunches && !open ==> s.min_free > 0 && 0 < free < s.min_free && kept is Some && (
            since is None ==> kept == Some(now)) && (since is Some ==> kept == since) && now
                < kept->0 + s.max_hold_ms
            &&& !bunches && s.min_free > 0 && width >= 2 * s.min_free && open ==> kept is None && (
            free == 0 || free >= s.min_free || (match since {
                Some(t) => now >= t + s.max_hold_ms,
                None => s.max_hold_ms == 0,
            }))
        }),
{
}

/// A hold for company is for a lone prompt under sixteen or more streams, or for two and more below
/// the cap; never while a prompt advances, nor longer than the time set. It is timed from its start
/// and forgotten when it ends.
pub proof fn law_company_is_awaited_briefly(
    ms: u64,
    advancing: bool,
    pending: int,
    live: int,
    hold_max: int,
    since: Option<u64>,
    now: u64,
)
    ensures
        ({
            let (hold, kept) = coalesce(ms, advancing, pending, live, hold_max, since, now);
            &&& hold ==> ms > 0 && !advancing
            &&& hold ==> pending >= 1 && (pending == 1 ==> live >= 16) && (pending >= 2 ==> pending
                < hold_max || pending < 3)
            &&& hold && since is None ==> kept == Some(now)
            &&& hold && since is Some ==> kept == since && now < since->0 + ms
            &&& !hold ==> kept is None
            &&& !hold && ms > 0 && !advancing ==> {
                ||| pending <= 0
                ||| pending == 1 && live < 16
                ||| pending >= 3 && pending >= hold_max
                ||| since is Some && now >= since->0 + ms
            }
        }),
{
}

/// The burst window restarts its clock when the count moves, and only then.
pub proof fn law_bursts_are_timed_from_their_last_change(w: BurstWindow, n: usize, now: u64)
    ensures
        observed(w, n, now).count == n,
        w.count == n ==> observed(w, n, now).stable_since == w.stable_since,
        w.count != n ==> observed(w, n, now).stable_since == now,
{
}

/// A tick is mixed only while something prefills; with no stream to interrupt, or none to run
/// between, always then; and the count of pure ticks moves only where both are live.
pub proof fn law_mixed_ticks_need_a_prompt(prefilling: bool, between: u32, decoding: bool, count: u32)
    requires
        count <= between,
    ensures
        interleave(prefilling, between, decoding, count).0 ==> prefilling,
        prefilling && (between == 0 || !decoding) ==> interleave(
            prefilling,
            between,
            decoding,
            count,
        ).0,
        !(prefilling && between > 0 && decoding) ==> interleave(
            prefilling,
            between,
            decoding,
            count,
        ).1 == count,
        interleave(prefilling, between, decoding, count).1 <= between,
        prefilling && between > 0 && decoding ==> (interleave(
            prefilling,
            between,
            decoding,
            count,
        ).0 <==> count == between),
{
}

/// A mixed tick is filled: decode rows and prompt rows make up the whole of it, unless the adaptive
/// span cuts the prompt to half a thousand rows over twenty streams, or to a thousand over eight.
pub proof fn law_mixed_ticks_are_filled(dec_rows: int, adaptive: bool, tick_rows: int)
    requires
        0 <= dec_rows,
        0 <= tick_rows,
    ensures
        !adaptive || dec_rows <= 8 ==> (dec_rows < tick_rows ==> dec_rows + tick_budget(
            dec_rows,
            adaptive,
            tick_rows,
        ) == tick_rows) && (dec_rows >= tick_rows ==> tick_budget(dec_rows, adaptive, tick_rows)
            == 1),
        adaptive && 8 < dec_rows <= 20 ==> tick_budget(dec_rows, adaptive, tick_rows) == 1024,
        adaptive && dec_rows > 20 ==> tick_budget(dec_rows, adaptive, tick_rows) == 512,
{
}

/// There is headroom without a pool, and in a pool exactly when a block for every row leaves more
/// than the watermark.
pub proof fn law_headroom_is_above_the_watermark(pool_free: Option<usize>, rows: int)
    requires
        rows >= 0,
    ensures
        pool_free is None ==> headroom(pool_free, rows),
        pool_free matches Some(f) ==> (headroom(pool_free, rows) <==> f - rows > 32),
{
}

/// A sequence is about to end when no more than the horizon's tokens are left to it.
pub proof fn law_endings_are_in_sight(b: BatchView, h: usize, k: int)
    ensures
        (b.ending(h))(k) <==> (b.slots[k] matches Some(s) && s.max_tokens <= s.generated + h),
        b.free_count() == Set::new(|j: int| 0 <= j < b.width() && b.slots[j] is None).len(),
{
    scan::law_tally_counts(b.width(), b.free());
    assert(Set::new(|j: int| 0 <= j < b.width() && b.slots[j] is None) =~= Set::new(
        |j: int| 0 <= j < b.width() && (b.free())(j),
    ));
}

} // verus!
