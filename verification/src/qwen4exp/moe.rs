//! The experts' pass: the router, the routed experts wherever they are held, and the shared expert.
use crate::qwen4exp::config::{Dims, Pack, WalkKnobs};
use crate::qwen4exp::dense::DensePlane;
use crate::qwen4exp::kq::{ExpertCache, ExpertSeats, KqSeat, RepackedKq};
use crate::qwen4exp::meaning;
use crate::qwen4exp::meaning::{Fun, Scene, State, Val};
use crate::qwen4exp::plan;
use crate::qwen4exp::plan::{attempt, chain, if_so, Buf, MatId, Op, PairId, Plan, PlaneId};
use vstd::prelude::*;

verus! {

/// What a pass needs to know of a layer's experts.
#[derive(Debug, Clone, Copy, PartialEq, Eq, Structural)]
pub struct MoeW {
    /// the router is also held in bf16
    pub router16: bool,
    pub seats: ExpertSeats,
    pub sh_gate: DensePlane,
    pub sh_up: DensePlane,
    /// the shared expert's two input projections are also held as one plane
    pub sh_gu: bool,
}

/// The router's rows carry the shared expert's gate behind them, on more rows than one.
pub open spec fn folded(k: WalkKnobs, n: usize, decode: bool) -> bool {
    n != 1 && k.router_fold && decode && n <= 32
}

/// A product of the router's rows.
pub open spec fn router_rows(d: Dims, first: usize, out: int, y: Buf, n: usize) -> Plan {
    Plan::Do(
        Op::Matvec {
            mat: MatId::Router,
            first,
            depth: d.hidden,
            out: out as usize,
            x: Buf::Bi,
            y,
            rows: n,
        },
    )
}

/// The router.
pub open spec fn router_plan(d: Dims, w: MoeW, k: WalkKnobs, n: usize, decode: bool) -> Plan {
    if n == 1 {
        let raw = router_rows(d, 0, d.n_expert + 1, Buf::Logits, 1);
        let split = if k.sk_split >= 2 {
            plan::either(
                Op::MatvecSplit {
                    mat: MatId::Router,
                    depth: d.hidden,
                    out: (d.n_expert + 1) as usize,
                    x: Buf::Bi,
                    y: Buf::Logits,
                    split: k.sk_split,
                },
                Plan::Skip,
                raw,
            )
        } else {
            raw
        };
        if w.router16 && k.router_gemv {
            plan::either(
                Op::RouterGemv { depth: d.hidden, out: (d.n_expert + 1) as usize },
                Plan::Skip,
                split,
            )
        } else {
            split
        }
    } else if folded(k, n, decode) {
        router_rows(d, 0, d.n_expert + 1, Buf::Logits, n)
    } else {
        router_rows(d, 0, d.n_expert as int, Buf::Logits, n)
    }
}

/// The shared expert.
pub open spec fn shared_plan(d: Dims, w: MoeW, k: WalkKnobs, n: usize, decode: bool) -> Plan {
    let down = Plan::Do(Op::Matmul { plane: PlaneId::ShDown, x: Buf::Shg, y: Buf::Shd, rows: n });
    let act = plan::then_(Plan::Do(Op::Swiglu { len: (n * d.shared_ff) as usize }), down);
    let apart = plan::then_(
        plan::then_(
            Plan::Do(Op::Matmul { plane: PlaneId::ShGate, x: Buf::Bi, y: Buf::Shg, rows: n }),
            Plan::Do(Op::Matmul { plane: PlaneId::ShUp, x: Buf::Bi, y: Buf::Shu, rows: n }),
        ),
        act,
    );
    if n == 1 && k.sh2 && w.sh_gate.holds_bf16() && w.sh_up.holds_bf16() {
        plan::either(Op::SharedDual, down, apart)
    } else if n >= 2 && decode && w.sh_gu {
        plan::either(
            Op::Pair {
                pair: PairId::SharedGateUp,
                x: Buf::Bi,
                ya: Buf::Shg,
                yb: Buf::Shu,
                oa: d.shared_ff,
                ob: d.shared_ff,
                rows: n,
            },
            act,
            apart,
        )
    } else {
        apart
    }
}

/// The picks.
pub open spec fn topk_plan(d: Dims, k: WalkKnobs, n: usize, decode: bool) -> Plan {
    let plain = Plan::Do(Op::Topk { rows: n });
    if folded(k, n, decode) {
        plan::either(
            Op::TopkStrided { stride: (d.n_expert + 1) as usize, rows: n },
            Plan::Skip,
            plain,
        )
    } else {
        plain
    }
}

/// The plane that a seat shows to a launch.
pub open spec fn plane_of(s: KqSeat) -> RepackedKq {
    match s {
        KqSeat::Dev(w) => w,
        KqSeat::Host(h) => h.plane,
    }
}

/// The routed pair over one set of planes.
pub open spec fn pair_plan(
    d: Dims,
    n: usize,
    idx: Buf,
    sums_in: bool,
    sums_down: bool,
    dst: Buf,
) -> Plan {
    let rows = (n * d.n_active) as usize;
    plan::then_(
        plan::then_(
            Plan::Do(Op::KqGateUp { idx, sums: sums_in, rows: n }),
            Plan::Do(Op::QuantizeAct { len: (rows * d.moe_ff) as usize }),
        ),
        plan::then_(
            plan::when(sums_down, Plan::Do(Op::SumsAct { rows })),
            Plan::Do(Op::KqDown { idx, sums: sums_down, dst, rows: n }),
        ),
    )
}

/// The block's input, quantized.
pub open spec fn input_plan(d: Dims, n: usize, sums_in: bool) -> Plan {
    plan::then_(
        Plan::Do(Op::QuantizeIn { len: (n * d.hidden) as usize }),
        plan::when(sums_in, Plan::Do(Op::SumsIn { rows: n })),
    )
}

/// One pass over the experts that fit the slots together: later ones add to the first.
pub open spec fn wave_plan(d: Dims, c: ExpertCache, n: usize, wave: usize) -> Plan {
    let rows = (n * d.n_active) as usize;
    let sums_in = c.gate.needs_sums || c.up.needs_sums;
    plan::then_(
        plan::then_(
            plan::then_(Plan::Do(Op::WaveResolve { wave }), Plan::Do(Op::CacheFill { rows: c.slots })),
            Plan::Do(Op::WaveMask { wave, rows }),
        ),
        if wave == 0 {
            pair_plan(d, n, Buf::WaveIdx, sums_in, c.down.needs_sums, Buf::Mix)
        } else {
            plan::then_(
                pair_plan(d, n, Buf::WaveIdx, sums_in, c.down.needs_sums, Buf::MixWave),
                Plan::Do(Op::Add { dst: Buf::Mix, src: Buf::MixWave, len: (n * d.hidden) as usize }),
            )
        },
    )
}

/// The passes from `wave` on.
pub open spec fn waves_from(d: Dims, c: ExpertCache, n: usize, wave: int) -> Plan
    decreases c.n_waves - wave,
{
    if wave >= c.n_waves {
        Plan::Skip
    } else {
        plan::then_(wave_plan(d, c, n, wave as usize), waves_from(d, c, n, wave + 1))
    }
}

/// The experts are served pass by pass: more routed rows than slots, and tables that hold them.
pub open spec fn in_waves(d: Dims, c: Option<ExpertCache>, pack: Pack, n: usize) -> bool {
    c matches Some(c) && n * d.n_active > c.slots && n * d.n_active <= c.max_rows && pack.moe_wave
}

/// The experts are served out of the slots.
pub open spec fn in_slots(d: Dims, c: Option<ExpertCache>, n: usize) -> bool {
    c matches Some(c) && n * d.n_active <= c.slots && n * d.n_active <= c.max_rows
}

/// The routed experts of quantized planes: pass by pass, out of the slots, or where they are held.
pub open spec fn routed_plan(
    d: Dims,
    gate: KqSeat,
    up: KqSeat,
    down: KqSeat,
    cache: Option<ExpertCache>,
    pack: Pack,
    n: usize,
) -> Plan {
    let rows = (n * d.n_active) as usize;
    if in_waves(d, cache, pack, n) {
        let c = cache->0;
        plan::then_(
            plan::then_(
                Plan::Do(Op::WavePlan { rows }),
                input_plan(d, n, c.gate.needs_sums || c.up.needs_sums),
            ),
            waves_from(d, c, n, 0),
        )
    } else {
        let slots = in_slots(d, cache, n);
        let (g, u, dn, idx) = if slots {
            (cache->0.gate, cache->0.up, cache->0.down, Buf::SlotIdx)
        } else {
            (plane_of(gate), plane_of(up), plane_of(down), Buf::Idx)
        };
        let sums_in = g.needs_sums || u.needs_sums;
        plan::then_(
            plan::then_(
                plan::when(
                    slots,
                    plan::then_(
                        Plan::Do(Op::CacheResolve { rows }),
                        Plan::Do(Op::CacheFill { rows }),
                    ),
                ),
                input_plan(d, n, sums_in),
            ),
            pair_plan(d, n, idx, sums_in, dn.needs_sums, Buf::Mix),
        )
    }
}

/// The routed experts.
pub open spec fn experts_plan(d: Dims, w: MoeW, pack: Pack, n: usize) -> Plan {
    match w.seats {
        ExpertSeats::Nvf4 => plan::then_(
            Plan::Do(Op::Nvf4GateUp { rows: n }),
            if n <= 64 {
                plan::then_(
                    Plan::Do(Op::Nvf4Down { zsplit: true, rows: n }),
                    Plan::Do(Op::Nvf4Combine { parts: ((d.n_active + 1) / 2) as usize, rows: n }),
                )
            } else {
                Plan::Do(Op::Nvf4Down { zsplit: false, rows: n })
            },
        ),
        ExpertSeats::Kq { gate, up, down, cache } => routed_plan(d, gate, up, down, cache, pack, n),
    }
}

/// The shared expert's share, by its gate.
pub open spec fn share_plan(d: Dims, k: WalkKnobs, n: usize, decode: bool) -> Plan {
    let apart = plan::then_(
        router_rows(d, d.n_expert, 1, Buf::ShGate, n),
        Plan::Do(Op::AddGated { rows: n }),
    );
    if n == 1 {
        Plan::Do(Op::AddGatedAt { rows: n })
    } else if folded(k, n, decode) {
        plan::either(
            Op::AddGatedStrided { stride: (d.n_expert + 1) as usize, rows: n },
            Plan::Skip,
            apart,
        )
    } else {
        apart
    }
}

/// The plan between the router and the shared expert's share.
pub open spec fn middle_plan(
    d: Dims,
    w: MoeW,
    k: WalkKnobs,
    pack: Pack,
    n: usize,
    fork_ok: bool,
    decode: bool,
) -> Plan {
    let shared = shared_plan(d, w, k, n, decode);
    let routed = plan::then_(topk_plan(d, k, n, decode), experts_plan(d, w, pack, n));
    let serial = plan::then_(routed, shared);
    if fork_ok && k.fork {
        plan::either(
            Op::SideFork,
            plan::then_(
                plan::then_(shared, Plan::Do(Op::SideEnd)),
                plan::then_(routed, Plan::Do(Op::SideJoin)),
            ),
            serial,
        )
    } else {
        serial
    }
}

/// The experts' pass.
pub open spec fn moe_plan(
    d: Dims,
    w: MoeW,
    k: WalkKnobs,
    pack: Pack,
    n: usize,
    fork_ok: bool,
    decode: bool,
) -> Plan {
    plan::then_(
        plan::then_(
            router_plan(d, w, k, n, decode),
            middle_plan(d, w, k, pack, n, fork_ok, decode),
        ),
        share_plan(d, k, n, decode),
    )
}

/// What the pass computes with fits a machine word.
pub open spec fn moe_fits(d: Dims, n: usize) -> bool {
    &&& d.n_expert < usize::MAX
    &&& d.n_active < usize::MAX
    &&& n * d.shared_ff <= usize::MAX
    &&& n * d.hidden <= usize::MAX
    &&& n * d.n_active <= usize::MAX
    &&& n * d.n_active * d.moe_ff <= usize::MAX
}

fn rows_of(d: &Dims, first: usize, out: usize, y: Buf, n: usize) -> (p: Plan)
    ensures
        p == router_rows(*d, first, out as int, y, n),
{
    Plan::Do(
        Op::Matvec { mat: MatId::Router, first, depth: d.hidden, out, x: Buf::Bi, y, rows: n },
    )
}

fn is_folded(k: &WalkKnobs, n: usize, decode: bool) -> (b: bool)
    ensures
        b == folded(*k, n, decode),
{
    n != 1 && k.router_fold && decode && n <= 32
}

fn router(d: &Dims, w: &MoeW, k: &WalkKnobs, n: usize, decode: bool) -> (p: Plan)
    requires
        d.n_expert < usize::MAX,
    ensures
        p == router_plan(*d, *w, *k, n, decode),
{
    if n == 1 {
        let raw: Plan = rows_of(d, 0, d.n_expert + 1, Buf::Logits, 1);
        let split: Plan = if k.sk_split >= 2 {
            attempt(
                Op::MatvecSplit {
                    mat: MatId::Router,
                    depth: d.hidden,
                    out: d.n_expert + 1,
                    x: Buf::Bi,
                    y: Buf::Logits,
                    split: k.sk_split,
                },
                Plan::Skip,
                raw,
            )
        } else {
            raw
        };
        if w.router16 && k.router_gemv {
            attempt(
                Op::RouterGemv { depth: d.hidden, out: d.n_expert + 1 },
                Plan::Skip,
                split,
            )
        } else {
            split
        }
    } else if is_folded(k, n, decode) {
        rows_of(d, 0, d.n_expert + 1, Buf::Logits, n)
    } else {
        rows_of(d, 0, d.n_expert, Buf::Logits, n)
    }
}

fn shared_tail(d: &Dims, n: usize) -> (p: Plan)
    requires
        n * d.shared_ff <= usize::MAX,
    ensures
        p == plan::then_(
            Plan::Do(Op::Swiglu { len: (n * d.shared_ff) as usize }),
            Plan::Do(Op::Matmul { plane: PlaneId::ShDown, x: Buf::Shg, y: Buf::Shd, rows: n }),
        ),
{
    chain(
        Plan::Do(Op::Swiglu { len: n * d.shared_ff }),
        Plan::Do(Op::Matmul { plane: PlaneId::ShDown, x: Buf::Shg, y: Buf::Shd, rows: n }),
    )
}

fn shared(d: &Dims, w: &MoeW, k: &WalkKnobs, n: usize, decode: bool) -> (p: Plan)
    requires
        n * d.shared_ff <= usize::MAX,
    ensures
        p == shared_plan(*d, *w, *k, n, decode),
{
    let apart: Plan = chain(
        chain(
            Plan::Do(Op::Matmul { plane: PlaneId::ShGate, x: Buf::Bi, y: Buf::Shg, rows: n }),
            Plan::Do(Op::Matmul { plane: PlaneId::ShUp, x: Buf::Bi, y: Buf::Shu, rows: n }),
        ),
        shared_tail(d, n),
    );
    if n == 1 && k.sh2 && w.sh_gate.raw_bf16() && w.sh_up.raw_bf16() {
        attempt(
            Op::SharedDual,
            Plan::Do(Op::Matmul { plane: PlaneId::ShDown, x: Buf::Shg, y: Buf::Shd, rows: n }),
            apart,
        )
    } else if n >= 2 && decode && w.sh_gu {
        attempt(
            Op::Pair {
                pair: PairId::SharedGateUp,
                x: Buf::Bi,
                ya: Buf::Shg,
                yb: Buf::Shu,
                oa: d.shared_ff,
                ob: d.shared_ff,
                rows: n,
            },
            shared_tail(d, n),
            apart,
        )
    } else {
        apart
    }
}

fn picks(d: &Dims, k: &WalkKnobs, n: usize, decode: bool) -> (p: Plan)
    requires
        d.n_expert < usize::MAX,
    ensures
        p == topk_plan(*d, *k, n, decode),
{
    let plain: Plan = Plan::Do(Op::Topk { rows: n });
    if is_folded(k, n, decode) {
        attempt(Op::TopkStrided { stride: d.n_expert + 1, rows: n }, Plan::Skip, plain)
    } else {
        plain
    }
}

fn pair(d: &Dims, n: usize, idx: Buf, sums_in: bool, sums_down: bool, dst: Buf) -> (p: Plan)
    requires
        n * d.n_active <= usize::MAX,
        n * d.n_active * d.moe_ff <= usize::MAX,
    ensures
        p == pair_plan(*d, n, idx, sums_in, sums_down, dst),
{
    let rows: usize = n * d.n_active;
    chain(
        chain(
            Plan::Do(Op::KqGateUp { idx, sums: sums_in, rows: n }),
            Plan::Do(Op::QuantizeAct { len: rows * d.moe_ff }),
        ),
        chain(
            if_so(sums_down, Plan::Do(Op::SumsAct { rows })),
            Plan::Do(Op::KqDown { idx, sums: sums_down, dst, rows: n }),
        ),
    )
}

fn input(d: &Dims, n: usize, sums_in: bool) -> (p: Plan)
    requires
        n * d.hidden <= usize::MAX,
    ensures
        p == input_plan(*d, n, sums_in),
{
    chain(
        Plan::Do(Op::QuantizeIn { len: n * d.hidden }),
        if_so(sums_in, Plan::Do(Op::SumsIn { rows: n })),
    )
}

fn wave(d: &Dims, c: &ExpertCache, n: usize, w: usize) -> (p: Plan)
    requires
        moe_fits(*d, n),
    ensures
        p == wave_plan(*d, *c, n, w),
{
    let sums_in: bool = c.gate.needs_sums || c.up.needs_sums;
    let head: Plan = chain(
        chain(
            Plan::Do(Op::WaveResolve { wave: w }),
            Plan::Do(Op::CacheFill { rows: c.slots }),
        ),
        Plan::Do(Op::WaveMask { wave: w, rows: n * d.n_active }),
    );
    let tail: Plan = if w == 0 {
        pair(d, n, Buf::WaveIdx, sums_in, c.down.needs_sums, Buf::Mix)
    } else {
        chain(
            pair(d, n, Buf::WaveIdx, sums_in, c.down.needs_sums, Buf::MixWave),
            Plan::Do(Op::Add { dst: Buf::Mix, src: Buf::MixWave, len: n * d.hidden }),
        )
    };
    chain(head, tail)
}

/// The routed experts, pass by pass through the slots.
pub fn kq_moe_routed_waves(d: &Dims, c: &ExpertCache, n: usize) -> (p: Plan)
    requires
        moe_fits(*d, n),
    ensures
        p == plan::then_(
            plan::then_(
                Plan::Do(Op::WavePlan { rows: (n * d.n_active) as usize }),
                input_plan(*d, n, c.gate.needs_sums || c.up.needs_sums),
            ),
            waves_from(*d, *c, n, 0),
        ),
{
    let mut waves: Plan = Plan::Skip;
    let mut w: usize = c.n_waves;
    while w > 0
        invariant
            w <= c.n_waves,
            moe_fits(*d, n),
            waves == waves_from(*d, *c, n, w as int),
        decreases w,
    {
        w = w - 1;
        let one: Plan = wave(d, c, n, w);
        waves = chain(one, waves);
    }
    chain(
        chain(
            Plan::Do(Op::WavePlan { rows: n * d.n_active }),
            input(d, n, c.gate.needs_sums || c.up.needs_sums),
        ),
        waves,
    )
}

/// The routed experts of quantized planes: pass by pass, out of the slots, or where they are held.
pub fn kq_moe_routed(
    d: &Dims,
    gate: &KqSeat,
    up: &KqSeat,
    down: &KqSeat,
    cache: &Option<ExpertCache>,
    pack: &Pack,
    n: usize,
) -> (p: Plan)
    requires
        moe_fits(*d, n),
    ensures
        p == routed_plan(*d, *gate, *up, *down, *cache, *pack, n),
{
    let rows: usize = n * d.n_active;
    let mut slots: bool = false;
    let mut g: bool = gate.kq().needs_sums;
    let mut u: bool = up.kq().needs_sums;
    let mut dn: bool = down.kq().needs_sums;
    if let Some(c) = cache {
        if rows > c.slots && rows <= c.max_rows && pack.moe_wave {
            return kq_moe_routed_waves(d, c, n);
        }
        if rows <= c.slots && rows <= c.max_rows {
            slots = true;
            g = c.gate.needs_sums;
            u = c.up.needs_sums;
            dn = c.down.needs_sums;
        }
    }
    let idx: Buf = if slots {
        Buf::SlotIdx
    } else {
        Buf::Idx
    };
    let fill: Plan = if_so(
        slots,
        chain(Plan::Do(Op::CacheResolve { rows }), Plan::Do(Op::CacheFill { rows })),
    );
    chain(chain(fill, input(d, n, g || u)), pair(d, n, idx, g || u, dn, Buf::Mix))
}

fn experts(d: &Dims, w: &MoeW, pack: &Pack, n: usize) -> (p: Plan)
    requires
        moe_fits(*d, n),
    ensures
        p == experts_plan(*d, *w, *pack, n),
{
    match &w.seats {
        ExpertSeats::Nvf4 => {
            let down: Plan = if n <= 64 {
                chain(
                    Plan::Do(Op::Nvf4Down { zsplit: true, rows: n }),
                    Plan::Do(Op::Nvf4Combine { parts: (d.n_active + 1) / 2, rows: n }),
                )
            } else {
                Plan::Do(Op::Nvf4Down { zsplit: false, rows: n })
            };
            chain(Plan::Do(Op::Nvf4GateUp { rows: n }), down)
        },
        ExpertSeats::Kq { gate, up, down, cache } => kq_moe_routed(
            d,
            gate,
            up,
            down,
            cache,
            pack,
            n,
        ),
    }
}

fn share(d: &Dims, k: &WalkKnobs, n: usize, decode: bool) -> (p: Plan)
    requires
        d.n_expert < usize::MAX,
    ensures
        p == share_plan(*d, *k, n, decode),
{
    if n == 1 {
        return Plan::Do(Op::AddGatedAt { rows: n });
    }
    let apart: Plan = chain(
        rows_of(d, d.n_expert, 1, Buf::ShGate, n),
        Plan::Do(Op::AddGated { rows: n }),
    );
    if is_folded(k, n, decode) {
        attempt(Op::AddGatedStrided { stride: d.n_expert + 1, rows: n }, Plan::Skip, apart)
    } else {
        apart
    }
}

fn routed(d: &Dims, w: &MoeW, k: &WalkKnobs, pack: &Pack, n: usize, decode: bool) -> (p: Plan)
    requires
        moe_fits(*d, n),
    ensures
        p == plan::then_(topk_plan(*d, *k, n, decode), experts_plan(*d, *w, *pack, n)),
{
    chain(picks(d, k, n, decode), experts(d, w, pack, n))
}

/// The experts' pass over `n` rows. `decode` says that they are decode rows.
pub fn moe_pass(
    d: &Dims,
    w: &MoeW,
    k: &WalkKnobs,
    pack: &Pack,
    n: usize,
    fork_ok: bool,
    decode: bool,
) -> (p: Plan)
    requires
        moe_fits(*d, n),
    ensures
        p == moe_plan(*d, *w, *k, *pack, n, fork_ok, decode),
{
    let serial: Plan = chain(routed(d, w, k, pack, n, decode), shared(d, w, k, n, decode));
    let mid: Plan = if fork_ok && k.fork {
        attempt(
            Op::SideFork,
            chain(
                chain(shared(d, w, k, n, decode), Plan::Do(Op::SideEnd)),
                chain(routed(d, w, k, pack, n, decode), Plan::Do(Op::SideJoin)),
            ),
            serial,
        )
    } else {
        serial
    };
    chain(chain(router(d, w, k, n, decode), mid), share(d, k, n, decode))
}

/// What the pass needs before it.
pub open spec fn moe_live() -> Set<Buf> {
    set![Buf::Bi, Buf::ZeroBias]
}

/// Experts served in passes get at least one.
pub open spec fn seats_wf(w: MoeW) -> bool {
    w.seats matches ExpertSeats::Kq { cache: Some(c), .. } ==> c.n_waves >= 1
}

proof fn lemma_router(d: Dims, w: MoeW, k: WalkKnobs, n: usize, decode: bool, live: Set<Buf>)
    requires
        live.contains(Buf::Bi),
    ensures
        plan::fed(router_plan(d, w, k, n, decode), live),
        plan::written(router_plan(d, w, k, n, decode)).contains(Buf::Logits),
        plan::side_after(router_plan(d, w, k, n, decode), plan::Side::Closed)
            == plan::Side::Closed,
{
    reveal_with_fuel(plan::fed, 4);
    reveal_with_fuel(plan::written, 4);
    reveal_with_fuel(plan::side_after, 4);
}

proof fn lemma_shared(d: Dims, w: MoeW, k: WalkKnobs, n: usize, decode: bool, live: Set<Buf>)
    requires
        live.contains(Buf::Bi),
    ensures
        plan::fed(shared_plan(d, w, k, n, decode), live),
        plan::written(shared_plan(d, w, k, n, decode)).contains(Buf::Shd),
{
    reveal_with_fuel(plan::fed, 4);
    reveal_with_fuel(plan::written, 4);
}

proof fn lemma_shared_side(d: Dims, w: MoeW, k: WalkKnobs, n: usize, decode: bool, s: plan::Side)
    ensures
        plan::side_after(shared_plan(d, w, k, n, decode), s) == s,
{
    reveal_with_fuel(plan::side_after, 4);
}

proof fn lemma_pair(
    d: Dims,
    n: usize,
    idx: Buf,
    sums_in: bool,
    sums_down: bool,
    dst: Buf,
    live: Set<Buf>,
)
    requires
        live.contains(idx),
        live.contains(Buf::Xq),
        live.contains(Buf::Topw),
        sums_in ==> live.contains(Buf::Ssums),
    ensures
        plan::fed(pair_plan(d, n, idx, sums_in, sums_down, dst), live),
        plan::written(pair_plan(d, n, idx, sums_in, sums_down, dst)).contains(dst),
{
    reveal_with_fuel(plan::fed, 4);
    reveal_with_fuel(plan::written, 4);
}

proof fn lemma_pair_side(
    d: Dims,
    n: usize,
    idx: Buf,
    sums_in: bool,
    sums_down: bool,
    dst: Buf,
    s: plan::Side,
)
    ensures
        plan::side_after(pair_plan(d, n, idx, sums_in, sums_down, dst), s) == s,
{
    reveal_with_fuel(plan::side_after, 4);
}

proof fn lemma_wave(d: Dims, c: ExpertCache, n: usize, w: usize, live: Set<Buf>)
    requires
        live.contains(Buf::Idx),
        live.contains(Buf::Xq),
        live.contains(Buf::Topw),
        c.gate.needs_sums || c.up.needs_sums ==> live.contains(Buf::Ssums),
        w > 0 ==> live.contains(Buf::Mix),
    ensures
        plan::fed(wave_plan(d, c, n, w), live),
        plan::written(wave_plan(d, c, n, w)).contains(Buf::Mix),
{
    reveal_with_fuel(plan::fed, 4);
    reveal_with_fuel(plan::written, 4);
    let sums_in = c.gate.needs_sums || c.up.needs_sums;
    let rows = (n * d.n_active) as usize;
    let head = plan::then_(
        plan::then_(
            Plan::Do(Op::WaveResolve { wave: w }),
            Plan::Do(Op::CacheFill { rows: c.slots }),
        ),
        Plan::Do(Op::WaveMask { wave: w, rows }),
    );
    let l1 = live.union(plan::written(head));
    assert(l1.contains(Buf::WaveIdx));
    lemma_pair(d, n, Buf::WaveIdx, sums_in, c.down.needs_sums, Buf::Mix, l1);
    lemma_pair(d, n, Buf::WaveIdx, sums_in, c.down.needs_sums, Buf::MixWave, l1);
}

proof fn lemma_waves(d: Dims, c: ExpertCache, n: usize, w: int, live: Set<Buf>)
    requires
        0 <= w <= c.n_waves,
        live.contains(Buf::Idx),
        live.contains(Buf::Xq),
        live.contains(Buf::Topw),
        c.gate.needs_sums || c.up.needs_sums ==> live.contains(Buf::Ssums),
        w > 0 ==> live.contains(Buf::Mix),
    ensures
        plan::fed(waves_from(d, c, n, w), live),
        w < c.n_waves ==> plan::written(waves_from(d, c, n, w)).contains(Buf::Mix),
    decreases c.n_waves - w,
{
    if w < c.n_waves {
        lemma_wave(d, c, n, w as usize, live);
        let a = wave_plan(d, c, n, w as usize);
        lemma_waves(d, c, n, w + 1, live.union(plan::written(a)));
    }
}

proof fn lemma_waves_side(d: Dims, c: ExpertCache, n: usize, w: int, s: plan::Side)
    requires
        0 <= w <= c.n_waves,
    ensures
        plan::side_after(waves_from(d, c, n, w), s) == s,
    decreases c.n_waves - w,
{
    if w < c.n_waves {
        let sums_in = c.gate.needs_sums || c.up.needs_sums;
        lemma_pair_side(d, n, Buf::WaveIdx, sums_in, c.down.needs_sums, Buf::Mix, s);
        lemma_pair_side(d, n, Buf::WaveIdx, sums_in, c.down.needs_sums, Buf::MixWave, s);
        assert(plan::side_after(wave_plan(d, c, n, w as usize), s) == s) by {
            reveal_with_fuel(plan::side_after, 4);
        }
        lemma_waves_side(d, c, n, w + 1, s);
    }
}

proof fn lemma_input(d: Dims, n: usize, sums_in: bool, live: Set<Buf>)
    requires
        live.contains(Buf::Bi),
    ensures
        plan::fed(input_plan(d, n, sums_in), live),
        plan::written(input_plan(d, n, sums_in)).contains(Buf::Xq),
        sums_in ==> plan::written(input_plan(d, n, sums_in)).contains(Buf::Ssums),
        forall|s: plan::Side| #[trigger] plan::side_after(input_plan(d, n, sums_in), s) == s,
{
    reveal_with_fuel(plan::fed, 3);
    reveal_with_fuel(plan::written, 3);
    reveal_with_fuel(plan::side_after, 3);
}

proof fn lemma_routed_kq(
    d: Dims,
    gate: KqSeat,
    up: KqSeat,
    down: KqSeat,
    cache: Option<ExpertCache>,
    pack: Pack,
    n: usize,
    live: Set<Buf>,
    s: plan::Side,
)
    requires
        live.contains(Buf::Bi),
        live.contains(Buf::Idx),
        live.contains(Buf::Topw),
        cache matches Some(c) ==> c.n_waves >= 1,
    ensures
        plan::fed(routed_plan(d, gate, up, down, cache, pack, n), live),
        plan::written(routed_plan(d, gate, up, down, cache, pack, n)).contains(Buf::Mix),
        plan::side_after(routed_plan(d, gate, up, down, cache, pack, n), s) == s,
{
    let rows = (n * d.n_active) as usize;
    if in_waves(d, cache, pack, n) {
        let c = cache->0;
        let sums_in = c.gate.needs_sums || c.up.needs_sums;
        let a = Plan::Do(Op::WavePlan { rows });
        let b = input_plan(d, n, sums_in);
        lemma_input(d, n, sums_in, live.union(plan::written(a)));
        assert(plan::fed(a, live));
        assert(plan::fed(plan::then_(a, b), live));
        assert(plan::written(plan::then_(a, b)) == plan::written(a).union(plan::written(b)));
        lemma_waves(d, c, n, 0, live.union(plan::written(plan::then_(a, b))));
        lemma_waves_side(d, c, n, 0, s);
        assert(plan::side_after(a, s) == s);
        assert(plan::side_after(b, s) == s);
        assert(plan::side_after(plan::then_(a, b), s) == s);
    } else {
        let slots = in_slots(d, cache, n);
        let (g, u, dn, idx) = if slots {
            (cache->0.gate, cache->0.up, cache->0.down, Buf::SlotIdx)
        } else {
            (plane_of(gate), plane_of(up), plane_of(down), Buf::Idx)
        };
        let sums_in = g.needs_sums || u.needs_sums;
        let a = plan::when(
            slots,
            plan::then_(
                Plan::Do(Op::CacheResolve { rows }),
                Plan::Do(Op::CacheFill { rows }),
            ),
        );
        let b = input_plan(d, n, sums_in);
        let c = pair_plan(d, n, idx, sums_in, dn.needs_sums, Buf::Mix);
        assert(plan::fed(a, live) && (slots ==> plan::written(a).contains(Buf::SlotIdx))
            && plan::side_after(a, s) == s) by {
            reveal_with_fuel(plan::fed, 3);
            reveal_with_fuel(plan::written, 3);
            reveal_with_fuel(plan::side_after, 3);
        }
        lemma_input(d, n, sums_in, live.union(plan::written(a)));
        assert(plan::fed(plan::then_(a, b), live));
        assert(plan::written(plan::then_(a, b)) == plan::written(a).union(plan::written(b)));
        lemma_pair(
            d,
            n,
            idx,
            sums_in,
            dn.needs_sums,
            Buf::Mix,
            live.union(plan::written(plan::then_(a, b))),
        );
        lemma_pair_side(d, n, idx, sums_in, dn.needs_sums, Buf::Mix, s);
        assert(plan::side_after(b, s) == s);
        assert(plan::side_after(plan::then_(a, b), s) == s);
    }
}

proof fn lemma_topk(d: Dims, k: WalkKnobs, n: usize, decode: bool, live: Set<Buf>)
    requires
        live.contains(Buf::ZeroBias),
        live.contains(Buf::Logits),
    ensures
        plan::fed(topk_plan(d, k, n, decode), live),
        plan::written(topk_plan(d, k, n, decode)).contains(Buf::Idx),
        plan::written(topk_plan(d, k, n, decode)).contains(Buf::Topw),
{
    reveal_with_fuel(plan::fed, 2);
    reveal_with_fuel(plan::written, 2);
}

proof fn lemma_topk_side(d: Dims, k: WalkKnobs, n: usize, decode: bool, s: plan::Side)
    ensures
        plan::side_after(topk_plan(d, k, n, decode), s) == s,
{
    reveal_with_fuel(plan::side_after, 2);
}

proof fn lemma_nvf4(d: Dims, w: MoeW, pack: Pack, n: usize, live: Set<Buf>)
    requires
        w.seats is Nvf4,
        live.contains(Buf::Bi),
        live.contains(Buf::Idx),
        live.contains(Buf::Topw),
    ensures
        plan::fed(experts_plan(d, w, pack, n), live),
        plan::written(experts_plan(d, w, pack, n)).contains(Buf::Mix),
{
    reveal_with_fuel(plan::fed, 3);
    reveal_with_fuel(plan::written, 3);
}

proof fn lemma_nvf4_side(d: Dims, w: MoeW, pack: Pack, n: usize, s: plan::Side)
    requires
        w.seats is Nvf4,
    ensures
        plan::side_after(experts_plan(d, w, pack, n), s) == s,
{
    reveal_with_fuel(plan::side_after, 3);
}

proof fn lemma_share(d: Dims, k: WalkKnobs, n: usize, decode: bool, live: Set<Buf>)
    requires
        live.contains(Buf::Bi),
        live.contains(Buf::Mix),
        live.contains(Buf::Shd),
        live.contains(Buf::Logits),
    ensures
        plan::fed(share_plan(d, k, n, decode), live),
        plan::written(share_plan(d, k, n, decode)).contains(Buf::Mix),
{
    reveal_with_fuel(plan::fed, 3);
    reveal_with_fuel(plan::written, 3);
}

proof fn lemma_share_side(d: Dims, k: WalkKnobs, n: usize, decode: bool, s: plan::Side)
    ensures
        plan::side_after(share_plan(d, k, n, decode), s) == s,
{
    reveal_with_fuel(plan::side_after, 3);
}

proof fn lemma_routed(
    d: Dims,
    w: MoeW,
    k: WalkKnobs,
    pack: Pack,
    n: usize,
    decode: bool,
    live: Set<Buf>,
    s: plan::Side,
)
    requires
        live.contains(Buf::Bi),
        live.contains(Buf::ZeroBias),
        live.contains(Buf::Logits),
        seats_wf(w),
    ensures
        ({
            let r = plan::then_(topk_plan(d, k, n, decode), experts_plan(d, w, pack, n));
            &&& plan::fed(r, live)
            &&& plan::written(r).contains(Buf::Mix)
            &&& plan::side_after(r, s) == s
        }),
{
    let t = topk_plan(d, k, n, decode);
    lemma_topk(d, k, n, decode, live);
    lemma_topk_side(d, k, n, decode, s);
    let l = live.union(plan::written(t));
    let e = experts_plan(d, w, pack, n);
    match w.seats {
        ExpertSeats::Nvf4 => {
            lemma_nvf4(d, w, pack, n, l);
            lemma_nvf4_side(d, w, pack, n, s);
        },
        ExpertSeats::Kq { gate, up, down, cache } => {
            lemma_routed_kq(d, gate, up, down, cache, pack, n, l, s);
        },
    }
}

proof fn lemma_middle(
    d: Dims,
    w: MoeW,
    k: WalkKnobs,
    pack: Pack,
    n: usize,
    fork_ok: bool,
    decode: bool,
    live: Set<Buf>,
)
    requires
        live.contains(Buf::Bi),
        live.contains(Buf::ZeroBias),
        live.contains(Buf::Logits),
        seats_wf(w),
    ensures
        ({
            let m = middle_plan(d, w, k, pack, n, fork_ok, decode);
            &&& plan::fed(m, live)
            &&& plan::written(m).contains(Buf::Mix)
            &&& plan::written(m).contains(Buf::Shd)
            &&& plan::side_after(m, plan::Side::Closed) == plan::Side::Closed
        }),
{
    let sh = shared_plan(d, w, k, n, decode);
    let r = plan::then_(topk_plan(d, k, n, decode), experts_plan(d, w, pack, n));
    let serial = plan::then_(r, sh);
    let c = plan::Side::Closed;
    lemma_routed(d, w, k, pack, n, decode, live, c);
    lemma_shared(d, w, k, n, decode, live.union(plan::written(r)));
    lemma_shared_side(d, w, k, n, decode, c);
    assert(plan::fed(serial, live));
    assert(plan::written(serial) == plan::written(r).union(plan::written(sh)));
    assert(plan::side_after(serial, c) == c);
    if fork_ok && k.fork {
        let l0 = live.union(Set::new(|b: Buf| Op::SideFork.writes(b)));
        let end = Plan::Do(Op::SideEnd);
        let join = Plan::Do(Op::SideJoin);
        let a = plan::then_(sh, end);
        lemma_shared(d, w, k, n, decode, l0);
        lemma_shared_side(d, w, k, n, decode, plan::Side::Open);
        assert(plan::fed(end, l0.union(plan::written(sh))));
        assert(plan::fed(a, l0));
        assert(plan::written(a) == plan::written(sh).union(plan::written(end)));
        assert(plan::side_after(end, plan::Side::Open) == plan::Side::Ended);
        assert(plan::side_after(a, plan::Side::Open) == plan::Side::Ended);
        let l1 = l0.union(plan::written(a));
        lemma_routed(d, w, k, pack, n, decode, l1, plan::Side::Ended);
        let b = plan::then_(r, join);
        assert(plan::fed(join, l1.union(plan::written(r))));
        assert(plan::fed(b, l1));
        assert(plan::written(b) == plan::written(r).union(plan::written(join)));
        assert(plan::side_after(join, plan::Side::Ended) == c);
        assert(plan::side_after(b, plan::Side::Ended) == c);
        let f = plan::then_(a, b);
        assert(plan::fed(f, l0));
        assert(plan::written(f) == plan::written(a).union(plan::written(b)));
        assert(plan::side_after(f, plan::Side::Open) == c);
    }
}

/// Whatever declines, and whether or not the side stream opens, the experts read nothing that is not
/// there and leave the block's output; and a side stream that opens is ended once and joined once.
pub proof fn law_experts_feed_their_output(
    d: Dims,
    w: MoeW,
    k: WalkKnobs,
    pack: Pack,
    n: usize,
    fork_ok: bool,
    decode: bool,
)
    requires
        seats_wf(w),
    ensures
        plan::fed(moe_plan(d, w, k, pack, n, fork_ok, decode), moe_live()),
        plan::written(moe_plan(d, w, k, pack, n, fork_ok, decode)).contains(Buf::Mix),
        plan::side_after(moe_plan(d, w, k, pack, n, fork_ok, decode), plan::Side::Closed)
            == plan::Side::Closed,
{
    let live = moe_live();
    let c = plan::Side::Closed;
    let r = router_plan(d, w, k, n, decode);
    let m = middle_plan(d, w, k, pack, n, fork_ok, decode);
    let g = share_plan(d, k, n, decode);
    lemma_router(d, w, k, n, decode, live);
    lemma_middle(d, w, k, pack, n, fork_ok, decode, live.union(plan::written(r)));
    let a = plan::then_(r, m);
    assert(plan::fed(a, live));
    assert(plan::written(a) == plan::written(r).union(plan::written(m)));
    assert(plan::side_after(a, c) == c);
    let l = live.union(plan::written(a));
    lemma_share(d, k, n, decode, l);
    lemma_share_side(d, k, n, decode, c);
    assert(moe_plan(d, w, k, pack, n, fork_ok, decode) == plan::then_(a, g));
}

/// Rows are bounded by the slots: the experts are served out of them only when every routed row can
/// have one, and in passes only when the tables hold every row.
pub proof fn law_slots_hold_their_rows(d: Dims, cache: Option<ExpertCache>, pack: Pack, n: usize)
    ensures
        in_slots(d, cache, n) ==> n * d.n_active <= cache->0.slots,
        in_waves(d, cache, pack, n) ==> n * d.n_active <= cache->0.max_rows,
        !(in_slots(d, cache, n) && in_waves(d, cache, pack, n)),
{
}

/// The router's product of rows `first .. first + out` with the block's input.
pub open spec fn routed_by(d: Dims, first: usize, out: usize, bi: Val) -> Val {
    meaning::of1(Fun::MatRows(MatId::Router, first, d.hidden, out), bi)
}

/// One routed pair: gate and up of the picked experts over the quantized input, and their down
/// projection, weighted, over the quantized activations; and the sums that it leaves.
pub open spec fn pair_value(
    idx: Val,
    seat: Val,
    topw: Val,
    xq: Val,
    sums: Val,
    sums_in: bool,
    sums_down: bool,
) -> (Val, Val) {
    let act = Val::Of(
        Fun::KqGateUp,
        seq![
            idx,
            seat,
            xq,
            if sums_in {
                sums
            } else {
                Val::Nothing
            },
        ],
    );
    let fq = meaning::of1(Fun::Quantized, act);
    let left = if sums_down {
        meaning::of1(Fun::Sums, fq)
    } else {
        sums
    };
    let y = Val::Of(
        Fun::KqDown,
        seq![
            idx,
            seat,
            topw,
            fq,
            if sums_down {
                left
            } else {
                Val::Nothing
            },
        ],
    );
    (y, left)
}

/// The waves from `wave` on: each over the experts that it resolves and fills, masked to its own
/// rows, the later ones added to the first.
pub open spec fn waves_value(
    d: Dims,
    c: ExpertCache,
    n: usize,
    wave: int,
    idx: Val,
    topw: Val,
    planned: Val,
    xq: Val,
    sums: Val,
    mix: Val,
) -> Val
    decreases c.n_waves - wave,
{
    if wave >= c.n_waves {
        mix
    } else {
        let w = wave as usize;
        let (y, left) = pair_value(
            meaning::of2(Fun::WaveMasked(w), idx, planned),
            meaning::of1(Fun::Filled(c.slots), meaning::of1(Fun::WaveResolved(w), planned)),
            topw,
            xq,
            sums,
            c.gate.needs_sums || c.up.needs_sums,
            c.down.needs_sums,
        );
        let next = if wave == 0 {
            y
        } else {
            meaning::of2(Fun::Sum((n * d.hidden) as usize), mix, y)
        };
        waves_value(d, c, n, wave + 1, idx, topw, planned, xq, left, next)
    }
}

/// The routed experts of quantized planes over their picks.
pub open spec fn kq_value(
    d: Dims,
    gate: KqSeat,
    up: KqSeat,
    down: KqSeat,
    cache: Option<ExpertCache>,
    pack: Pack,
    n: usize,
    s: State,
) -> Val {
    let (idx, topw) = (s.get(Buf::Idx), s.get(Buf::Topw));
    let xq = meaning::of1(Fun::Quantized, s.get(Buf::Bi));
    let rows = (n * d.n_active) as usize;
    if in_waves(d, cache, pack, n) {
        let c = cache->0;
        let sums_in = c.gate.needs_sums || c.up.needs_sums;
        waves_value(
            d,
            c,
            n,
            0,
            idx,
            topw,
            meaning::of1(Fun::WavesOf(rows), idx),
            xq,
            if sums_in {
                meaning::of1(Fun::Sums, xq)
            } else {
                s.get(Buf::Ssums)
            },
            s.get(Buf::Mix),
        )
    } else if in_slots(d, cache, n) {
        let c = cache->0;
        pair_value(
            meaning::of1(Fun::SlotsOf, idx),
            meaning::of1(Fun::Filled(rows), meaning::of1(Fun::Resolved, idx)),
            topw,
            xq,
            meaning::of1(Fun::Sums, xq),
            c.gate.needs_sums || c.up.needs_sums,
            c.down.needs_sums,
        ).0
    } else {
        pair_value(
            idx,
            Val::Nothing,
            topw,
            xq,
            meaning::of1(Fun::Sums, xq),
            plane_of(gate).needs_sums || plane_of(up).needs_sums,
            plane_of(down).needs_sums,
        ).0
    }
}

/// The routed experts over their picks.
pub open spec fn experts_value(d: Dims, w: MoeW, pack: Pack, n: usize, s: State) -> Val {
    match w.seats {
        ExpertSeats::Nvf4 => Val::Of(
            Fun::Down,
            seq![
                s.get(Buf::Idx),
                s.get(Buf::Topw),
                meaning::of2(Fun::GateUp, s.get(Buf::Idx), s.get(Buf::Bi)),
            ],
        ),
        ExpertSeats::Kq { gate, up, down, cache } => kq_value(d, gate, up, down, cache, pack, n, s),
    }
}

/// The shared expert over the block's input.
pub open spec fn shared_value(bi: Val) -> Val {
    meaning::of1(
        Fun::Product(PlaneId::ShDown),
        meaning::of2(
            Fun::Swiglu,
            meaning::of1(Fun::Product(PlaneId::ShGate), bi),
            meaning::of1(Fun::Product(PlaneId::ShUp), bi),
        ),
    )
}

/// The state with the experts picked by the router's logits of the block's input.
pub open spec fn picks_made(d: Dims, s: State) -> State {
    meaning::picked(routed_by(d, 0, d.n_expert, s.get(Buf::Bi)), s)
}

/// Buffers of the routed chain, between the router and its output.
pub open spec fn routed_buf(b: Buf) -> bool {
    match b {
        Buf::Idx => true,
        Buf::Topw => true,
        Buf::Act => true,
        Buf::MoePart => true,
        Buf::Mix => true,
        Buf::MixWave => true,
        Buf::Xq => true,
        Buf::Fq => true,
        Buf::Ssums => true,
        Buf::SlotIdx => true,
        Buf::WaveIdx => true,
        _ => false,
    }
}

/// Buffers of the shared expert.
pub open spec fn shared_buf(b: Buf) -> bool {
    b == Buf::Shg || b == Buf::Shu || b == Buf::Shd
}

proof fn lemma_router_computes(
    c: Scene,
    w: MoeW,
    k: WalkKnobs,
    decode: bool,
    s: State,
    taken: spec_fn(Op) -> bool,
)
    requires
        moe_fits(c.d, c.at.n),
    ensures
        ({
            let n = c.at.n;
            let out = if n == 1 || folded(k, n, decode) {
                c.d.n_expert + 1
            } else {
                c.d.n_expert as int
            };
            let t = meaning::run(c, router_plan(c.d, w, k, n, decode), s, taken);
            &&& t.get(Buf::Logits) == routed_by(c.d, 0, out as usize, s.get(Buf::Bi))
            &&& forall|b: Buf| #[trigger] t.get(b) == s.get(b) || b == Buf::Logits
            &&& !meaning::fails(router_plan(c.d, w, k, n, decode), taken)
        }),
{
    reveal_with_fuel(meaning::run, 4);
    reveal_with_fuel(meaning::fails, 4);
}

proof fn lemma_shared_computes(
    c: Scene,
    w: MoeW,
    k: WalkKnobs,
    decode: bool,
    s: State,
    taken: spec_fn(Op) -> bool,
)
    requires
        moe_fits(c.d, c.at.n),
    ensures
        ({
            let p = shared_plan(c.d, w, k, c.at.n, decode);
            let t = meaning::run(c, p, s, taken);
            &&& t.get(Buf::Shd) == shared_value(s.get(Buf::Bi))
            &&& forall|b: Buf| !shared_buf(b) ==> #[trigger] t.get(b) == s.get(b)
            &&& !meaning::fails(p, taken)
        }),
{
    reveal_with_fuel(meaning::run, 5);
    reveal_with_fuel(meaning::fails, 5);
}

proof fn lemma_topk_computes(
    c: Scene,
    k: WalkKnobs,
    decode: bool,
    s: State,
    taken: spec_fn(Op) -> bool,
)
    requires
        moe_fits(c.d, c.at.n),
        ({
            let n = c.at.n;
            let out = if n == 1 || folded(k, n, decode) {
                c.d.n_expert + 1
            } else {
                c.d.n_expert as int
            };
            s.get(Buf::Logits) == routed_by(c.d, 0, out as usize, s.get(Buf::Bi))
        }),
        folded(k, c.at.n, decode) ==> taken(
            Op::TopkStrided { stride: (c.d.n_expert + 1) as usize, rows: c.at.n },
        ),
    ensures
        ({
            let p = topk_plan(c.d, k, c.at.n, decode);
            meaning::run(c, p, s, taken) == picks_made(c.d, s)
        }),
{
    reveal_with_fuel(meaning::run, 2);
}

proof fn lemma_pair_computes(
    c: Scene,
    idx: Buf,
    sums_in: bool,
    sums_down: bool,
    dst: Buf,
    s: State,
    taken: spec_fn(Op) -> bool,
)
    requires
        moe_fits(c.d, c.at.n),
        dst == Buf::Mix || dst == Buf::MixWave,
        idx == Buf::Idx || idx == Buf::SlotIdx || idx == Buf::WaveIdx,
    ensures
        ({
            let p = pair_plan(c.d, c.at.n, idx, sums_in, sums_down, dst);
            let t = meaning::run(c, p, s, taken);
            let (y, left) = pair_value(
                s.get(idx),
                if idx == Buf::Idx {
                    Val::Nothing
                } else {
                    s.filled
                },
                s.get(Buf::Topw),
                s.get(Buf::Xq),
                s.get(Buf::Ssums),
                sums_in,
                sums_down,
            );
            &&& t.get(dst) == y
            &&& t.get(Buf::Ssums) == left
            &&& forall|b: Buf| b != dst && b != Buf::Ssums && b != Buf::Act && b != Buf::Fq
                ==> #[trigger] t.get(b) == s.get(b)
            &&& t.planned == s.planned
            &&& !meaning::fails(p, taken)
        }),
{
    reveal_with_fuel(meaning::run, 4);
    reveal_with_fuel(meaning::fails, 4);
}

spec fn wave_head(d: Dims, e: ExpertCache, n: usize, wave: usize) -> Plan {
    plan::then_(
        plan::then_(Plan::Do(Op::WaveResolve { wave }), Plan::Do(Op::CacheFill { rows: e.slots })),
        Plan::Do(Op::WaveMask { wave, rows: (n * d.n_active) as usize }),
    )
}

proof fn lemma_wave_head_computes(
    c: Scene,
    e: ExpertCache,
    wave: usize,
    s: State,
    taken: spec_fn(Op) -> bool,
)
    requires
        moe_fits(c.d, c.at.n),
    ensures
        ({
            let p = wave_head(c.d, e, c.at.n, wave);
            let t = meaning::run(c, p, s, taken);
            &&& t.get(Buf::WaveIdx) == meaning::of2(
                Fun::WaveMasked(wave),
                s.get(Buf::Idx),
                s.planned,
            )
            &&& t.filled == meaning::of1(
                Fun::Filled(e.slots),
                meaning::of1(Fun::WaveResolved(wave), s.planned),
            )
            &&& t.planned == s.planned
            &&& forall|b: Buf| b != Buf::WaveIdx ==> #[trigger] t.get(b) == s.get(b)
            &&& !meaning::fails(p, taken)
        }),
{
    reveal_with_fuel(meaning::run, 3);
    reveal_with_fuel(meaning::fails, 3);
}

proof fn lemma_wave_computes(
    c: Scene,
    e: ExpertCache,
    wave: usize,
    s: State,
    taken: spec_fn(Op) -> bool,
)
    requires
        moe_fits(c.d, c.at.n),
    ensures
        ({
            let p = wave_plan(c.d, e, c.at.n, wave);
            let t = meaning::run(c, p, s, taken);
            let (y, left) = pair_value(
                meaning::of2(Fun::WaveMasked(wave), s.get(Buf::Idx), s.planned),
                meaning::of1(Fun::Filled(e.slots), meaning::of1(Fun::WaveResolved(wave), s.planned)),
                s.get(Buf::Topw),
                s.get(Buf::Xq),
                s.get(Buf::Ssums),
                e.gate.needs_sums || e.up.needs_sums,
                e.down.needs_sums,
            );
            &&& t.get(Buf::Mix) == (if wave == 0 {
                y
            } else {
                meaning::of2(Fun::Sum((c.at.n * c.d.hidden) as usize), s.get(Buf::Mix), y)
            })
            &&& t.get(Buf::Ssums) == left
            &&& t.get(Buf::Idx) == s.get(Buf::Idx)
            &&& t.get(Buf::Topw) == s.get(Buf::Topw)
            &&& t.get(Buf::Xq) == s.get(Buf::Xq)
            &&& forall|b: Buf| !routed_buf(b) ==> #[trigger] t.get(b) == s.get(b)
            &&& t.planned == s.planned
            &&& !meaning::fails(p, taken)
        }),
{
    let sums_in = e.gate.needs_sums || e.up.needs_sums;
    let head = wave_head(c.d, e, c.at.n, wave);
    lemma_wave_head_computes(c, e, wave, s, taken);
    let s3 = meaning::run(c, head, s, taken);
    let dst = if wave == 0 {
        Buf::Mix
    } else {
        Buf::MixWave
    };
    lemma_pair_computes(c, Buf::WaveIdx, sums_in, e.down.needs_sums, dst, s3, taken);
    let pair = pair_plan(c.d, c.at.n, Buf::WaveIdx, sums_in, e.down.needs_sums, dst);
    let s4 = meaning::run(c, pair, s3, taken);
    if wave > 0 {
        lemma_adds_wave(c, pair, s3, taken);
    }
    assert(meaning::run(c, wave_plan(c.d, e, c.at.n, wave), s, taken) == meaning::run(
        c,
        if wave == 0 {
            pair
        } else {
            plan::then_(pair, wave_sum(c.d, c.at.n))
        },
        s3,
        taken,
    ));
}

spec fn wave_sum(d: Dims, n: usize) -> Plan {
    Plan::Do(Op::Add { dst: Buf::Mix, src: Buf::MixWave, len: (n * d.hidden) as usize })
}

proof fn lemma_adds_wave(c: Scene, p: Plan, s: State, taken: spec_fn(Op) -> bool)
    requires
        moe_fits(c.d, c.at.n),
    ensures
        ({
            let q = plan::then_(p, wave_sum(c.d, c.at.n));
            let t = meaning::run(c, p, s, taken);
            let u = meaning::run(c, q, s, taken);
            &&& u.get(Buf::Mix) == meaning::of2(
                Fun::Sum((c.at.n * c.d.hidden) as usize),
                t.get(Buf::Mix),
                t.get(Buf::MixWave),
            )
            &&& forall|b: Buf| b != Buf::Mix ==> #[trigger] u.get(b) == t.get(b)
            &&& u.planned == t.planned
            &&& meaning::fails(q, taken) == meaning::fails(p, taken)
        }),
{
    let sum = wave_sum(c.d, c.at.n);
    let t = meaning::run(c, p, s, taken);
    let u = meaning::run(c, sum, t, taken);
    assert(!meaning::fails(sum, taken));
}

proof fn lemma_waves_compute(
    c: Scene,
    e: ExpertCache,
    wave: int,
    s: State,
    taken: spec_fn(Op) -> bool,
)
    requires
        moe_fits(c.d, c.at.n),
        0 <= wave,
    ensures
        ({
            let p = waves_from(c.d, e, c.at.n, wave);
            let t = meaning::run(c, p, s, taken);
            &&& t.get(Buf::Mix) == waves_value(
                c.d,
                e,
                c.at.n,
                wave,
                s.get(Buf::Idx),
                s.get(Buf::Topw),
                s.planned,
                s.get(Buf::Xq),
                s.get(Buf::Ssums),
                s.get(Buf::Mix),
            )
            &&& forall|b: Buf| !routed_buf(b) ==> #[trigger] t.get(b) == s.get(b)
            &&& !meaning::fails(p, taken)
        }),
    decreases e.n_waves - wave,
{
    if wave < e.n_waves {
        lemma_wave_computes(c, e, wave as usize, s, taken);
        let s1 = meaning::run(c, wave_plan(c.d, e, c.at.n, wave as usize), s, taken);
        lemma_waves_compute(c, e, wave + 1, s1, taken);
    }
}

proof fn lemma_routed_computes(
    c: Scene,
    gate: KqSeat,
    up: KqSeat,
    down: KqSeat,
    cache: Option<ExpertCache>,
    pack: Pack,
    s: State,
    taken: spec_fn(Op) -> bool,
)
    requires
        moe_fits(c.d, c.at.n),
    ensures
        ({
            let p = routed_plan(c.d, gate, up, down, cache, pack, c.at.n);
            let t = meaning::run(c, p, s, taken);
            &&& t.get(Buf::Mix) == kq_value(c.d, gate, up, down, cache, pack, c.at.n, s)
            &&& forall|b: Buf| !routed_buf(b) ==> #[trigger] t.get(b) == s.get(b)
            &&& !meaning::fails(p, taken)
        }),
{
    let n = c.at.n;
    let d = c.d;
    let rows = (n * d.n_active) as usize;
    if in_waves(d, cache, pack, n) {
        let e = cache->0;
        let sums_in = e.gate.needs_sums || e.up.needs_sums;
        let a = Plan::Do(Op::WavePlan { rows });
        let b = input_plan(d, n, sums_in);
        let s1 = meaning::run(c, a, s, taken);
        lemma_input_computes(c, sums_in, s1, taken);
        let s2 = meaning::run(c, b, s1, taken);
        lemma_waves_compute(c, e, 0, s2, taken);
        assert(s2 == meaning::run(c, plan::then_(a, b), s, taken));
        assert(!meaning::fails(a, taken));
        assert(!meaning::fails(plan::then_(a, b), taken));
    } else {
        let slots = in_slots(d, cache, n);
        let (g, u, dn, idx) = if slots {
            (cache->0.gate, cache->0.up, cache->0.down, Buf::SlotIdx)
        } else {
            (plane_of(gate), plane_of(up), plane_of(down), Buf::Idx)
        };
        let sums_in = g.needs_sums || u.needs_sums;
        let r = Plan::Do(Op::CacheResolve { rows });
        let f = Plan::Do(Op::CacheFill { rows });
        let a = plan::when(slots, plan::then_(r, f));
        let b = input_plan(d, n, sums_in);
        let s0 = meaning::run(c, r, s, taken);
        let s01 = meaning::run(c, f, s0, taken);
        let s1 = meaning::run(c, a, s, taken);
        assert(slots ==> s1 == s01);
        assert(!meaning::fails(r, taken) && !meaning::fails(f, taken));
        assert(!meaning::fails(a, taken));
        lemma_input_computes(c, sums_in, s1, taken);
        let s2 = meaning::run(c, b, s1, taken);
        assert(s2 == meaning::run(c, plan::then_(a, b), s, taken));
        assert(!meaning::fails(plan::then_(a, b), taken));
        lemma_pair_computes(c, idx, sums_in, dn.needs_sums, Buf::Mix, s2, taken);
        let pair = pair_plan(d, n, idx, sums_in, dn.needs_sums, Buf::Mix);
        let s3 = meaning::run(c, pair, s2, taken);
        assert(s3.get(Buf::Mix) == kq_value(d, gate, up, down, cache, pack, n, s));
    }
}

proof fn lemma_input_computes(
    c: Scene,
    sums_in: bool,
    s: State,
    taken: spec_fn(Op) -> bool,
)
    requires
        moe_fits(c.d, c.at.n),
    ensures
        ({
            let p = input_plan(c.d, c.at.n, sums_in);
            let t = meaning::run(c, p, s, taken);
            let xq = meaning::of1(Fun::Quantized, s.get(Buf::Bi));
            &&& t.get(Buf::Xq) == xq
            &&& t.get(Buf::Ssums) == (if sums_in {
                meaning::of1(Fun::Sums, xq)
            } else {
                s.get(Buf::Ssums)
            })
            &&& forall|b: Buf| b != Buf::Xq && b != Buf::Ssums ==> #[trigger] t.get(b) == s.get(b)
            &&& t.planned == s.planned && t.sought == s.sought && t.filled == s.filled
            &&& !meaning::fails(p, taken)
        }),
{
    reveal_with_fuel(meaning::run, 3);
    reveal_with_fuel(meaning::fails, 3);
}

proof fn lemma_experts_compute(
    c: Scene,
    w: MoeW,
    pack: Pack,
    s: State,
    taken: spec_fn(Op) -> bool,
)
    requires
        moe_fits(c.d, c.at.n),
    ensures
        ({
            let p = experts_plan(c.d, w, pack, c.at.n);
            let t = meaning::run(c, p, s, taken);
            &&& t.get(Buf::Mix) == experts_value(c.d, w, pack, c.at.n, s)
            &&& forall|b: Buf| !routed_buf(b) ==> #[trigger] t.get(b) == s.get(b)
            &&& !meaning::fails(p, taken)
        }),
{
    match w.seats {
        ExpertSeats::Nvf4 => {
            reveal_with_fuel(meaning::run, 4);
            reveal_with_fuel(meaning::fails, 4);
        },
        ExpertSeats::Kq { gate, up, down, cache } => {
            lemma_routed_computes(c, gate, up, down, cache, pack, s, taken);
        },
    }
}

proof fn lemma_experts_value_local(
    d: Dims,
    w: MoeW,
    pack: Pack,
    n: usize,
    s: State,
    t: State,
)
    requires
        forall|b: Buf| !shared_buf(b) && b != Buf::Logits ==> #[trigger] t.get(b) == s.get(b),
    ensures
        experts_value(d, w, pack, n, picks_made(d, t)) == experts_value(d, w, pack, n, picks_made(d, s)),
{
    assert(t.get(Buf::Bi) == s.get(Buf::Bi));
    assert(t.get(Buf::ZeroBias) == s.get(Buf::ZeroBias));
    assert(t.get(Buf::Mix) == s.get(Buf::Mix));
    assert(t.get(Buf::Ssums) == s.get(Buf::Ssums));
    let a = picks_made(d, t);
    let b = picks_made(d, s);
    assert(a.get(Buf::Idx) == b.get(Buf::Idx));
    assert(a.get(Buf::Topw) == b.get(Buf::Topw));
    assert(a.get(Buf::Bi) == b.get(Buf::Bi));
    assert(a.get(Buf::Mix) == b.get(Buf::Mix));
    assert(a.get(Buf::Ssums) == b.get(Buf::Ssums));
}

proof fn lemma_share_computes(
    c: Scene,
    k: WalkKnobs,
    decode: bool,
    s: State,
    taken: spec_fn(Op) -> bool,
)
    requires
        moe_fits(c.d, c.at.n),
        ({
            let n = c.at.n;
            let out = if n == 1 || folded(k, n, decode) {
                c.d.n_expert + 1
            } else {
                c.d.n_expert as int
            };
            s.get(Buf::Logits) == routed_by(c.d, 0, out as usize, s.get(Buf::Bi))
        }),
    ensures
        ({
            let p = share_plan(c.d, k, c.at.n, decode);
            let t = meaning::run(c, p, s, taken);
            &&& t.get(Buf::Mix) == meaning::of3(
                Fun::AddGated,
                s.get(Buf::Mix),
                s.get(Buf::Shd),
                routed_by(c.d, c.d.n_expert, 1, s.get(Buf::Bi)),
            )
            &&& !meaning::fails(p, taken)
        }),
{
    reveal_with_fuel(meaning::run, 4);
    reveal_with_fuel(meaning::fails, 4);
}

proof fn lemma_middle_computes(
    c: Scene,
    w: MoeW,
    k: WalkKnobs,
    pack: Pack,
    fork_ok: bool,
    decode: bool,
    s: State,
    taken: spec_fn(Op) -> bool,
)
    requires
        moe_fits(c.d, c.at.n),
        ({
            let n = c.at.n;
            let out = if n == 1 || folded(k, n, decode) {
                c.d.n_expert + 1
            } else {
                c.d.n_expert as int
            };
            s.get(Buf::Logits) == routed_by(c.d, 0, out as usize, s.get(Buf::Bi))
        }),
        folded(k, c.at.n, decode) ==> taken(
            Op::TopkStrided { stride: (c.d.n_expert + 1) as usize, rows: c.at.n },
        ),
    ensures
        ({
            let t = meaning::run(c, middle_plan(c.d, w, k, pack, c.at.n, fork_ok, decode), s, taken);
            &&& t.get(Buf::Mix) == experts_value(c.d, w, pack, c.at.n, picks_made(c.d, s))
            &&& t.get(Buf::Shd) == shared_value(s.get(Buf::Bi))
            &&& t.get(Buf::Logits) == s.get(Buf::Logits)
            &&& t.get(Buf::Bi) == s.get(Buf::Bi)
        }),
{
    let n = c.at.n;
    let shared = shared_plan(c.d, w, k, n, decode);
    let topk = topk_plan(c.d, k, n, decode);
    let experts = experts_plan(c.d, w, pack, n);
    let routed = plan::then_(topk, experts);
    let serial = plan::then_(routed, shared);
    let end = Plan::Do(Op::SideEnd);
    let join = Plan::Do(Op::SideJoin);
    let forked = plan::then_(plan::then_(shared, end), plan::then_(routed, join));
    assert(meaning::step(c, Op::SideFork, s) == s);
    // one after the other
    lemma_topk_computes(c, k, decode, s, taken);
    let a1 = meaning::run(c, topk, s, taken);
    lemma_experts_compute(c, w, pack, a1, taken);
    let a2 = meaning::run(c, experts, a1, taken);
    assert(a2 == meaning::run(c, routed, s, taken));
    lemma_shared_computes(c, w, k, decode, a2, taken);
    let a3 = meaning::run(c, shared, a2, taken);
    assert(a3 == meaning::run(c, serial, s, taken));
    assert(a2.get(Buf::Bi) == s.get(Buf::Bi));
    assert(a3.get(Buf::Bi) == a2.get(Buf::Bi));
    assert(a3.get(Buf::Mix) == a2.get(Buf::Mix));
    assert(a3.get(Buf::Logits) == a2.get(Buf::Logits));
    assert(a2.get(Buf::Logits) == a1.get(Buf::Logits));
    // side by side
    lemma_shared_computes(c, w, k, decode, s, taken);
    let b1 = meaning::run(c, shared, s, taken);
    let b2 = meaning::run(c, end, b1, taken);
    assert(b2 == b1);
    assert(b1 == meaning::run(c, plan::then_(shared, end), s, taken));
    assert(b1.get(Buf::Bi) == s.get(Buf::Bi));
    assert(b1.get(Buf::Logits) == s.get(Buf::Logits));
    lemma_topk_computes(c, k, decode, b1, taken);
    let b3 = meaning::run(c, topk, b1, taken);
    lemma_experts_compute(c, w, pack, b3, taken);
    let b4 = meaning::run(c, experts, b3, taken);
    assert(b4 == meaning::run(c, routed, b1, taken));
    let b5 = meaning::run(c, join, b4, taken);
    assert(b5 == b4);
    assert(b4 == meaning::run(c, plan::then_(routed, join), b1, taken));
    assert(b4 == meaning::run(c, forked, s, taken));
    lemma_experts_value_local(c.d, w, pack, n, s, b1);
    assert(b4.get(Buf::Shd) == b3.get(Buf::Shd));
    assert(b4.get(Buf::Bi) == b3.get(Buf::Bi));
    assert(b4.get(Buf::Logits) == b3.get(Buf::Logits));
}

/// Every path of the experts' pass computes the same, folded or apart, forked or not, whatever
/// declines: the experts that the router's logits pick, weighted, over the block's input, and the
/// shared expert over the same input, added by the logit of the router's last row. One path is left
/// out: where the picks off folded rows decline.
pub proof fn law_experts_compute_one_thing(
    c: Scene,
    w: MoeW,
    k: WalkKnobs,
    pack: Pack,
    fork_ok: bool,
    decode: bool,
    s: State,
    taken: spec_fn(Op) -> bool,
)
    requires
        moe_fits(c.d, c.at.n),
        folded(k, c.at.n, decode) ==> taken(
            Op::TopkStrided { stride: (c.d.n_expert + 1) as usize, rows: c.at.n },
        ),
    ensures
        ({
            let t = meaning::run(c, moe_plan(c.d, w, k, pack, c.at.n, fork_ok, decode), s, taken);
            let bi = s.get(Buf::Bi);
            t.get(Buf::Mix) == meaning::of3(
                Fun::AddGated,
                experts_value(c.d, w, pack, c.at.n, picks_made(c.d, s)),
                shared_value(bi),
                routed_by(c.d, c.d.n_expert, 1, bi),
            )
        }),
{
    let n = c.at.n;
    let a = router_plan(c.d, w, k, n, decode);
    let b = middle_plan(c.d, w, k, pack, n, fork_ok, decode);
    let e = share_plan(c.d, k, n, decode);
    lemma_router_computes(c, w, k, decode, s, taken);
    let s1 = meaning::run(c, a, s, taken);
    assert(s1.get(Buf::Bi) == s.get(Buf::Bi));
    lemma_middle_computes(c, w, k, pack, fork_ok, decode, s1, taken);
    let s2 = meaning::run(c, b, s1, taken);
    lemma_share_computes(c, k, decode, s2, taken);
    assert(s2 == meaning::run(c, plan::then_(a, b), s, taken));
    lemma_experts_value_local(c.d, w, pack, n, s, s1);
}

proof fn lemma_waves_touch(d: Dims, e: ExpertCache, n: usize, wave: int, b: Buf)
    requires
        b == Buf::H || b == Buf::M || b == Buf::Inj,
    ensures
        !meaning::touches(waves_from(d, e, n, wave), b),
    decreases e.n_waves - wave,
{
    reveal_with_fuel(meaning::touches, 7);
    if wave < e.n_waves {
        lemma_waves_touch(d, e, n, wave + 1, b);
    }
}

proof fn lemma_experts_touch(d: Dims, w: MoeW, pack: Pack, n: usize, b: Buf)
    requires
        b == Buf::H || b == Buf::M || b == Buf::Inj,
    ensures
        !meaning::touches(experts_plan(d, w, pack, n), b),
{
    if let ExpertSeats::Kq { cache: Some(c), .. } = w.seats {
        lemma_waves_touch(d, c, n, 0, b);
    }
    reveal_with_fuel(meaning::touches, 7);
}

/// The experts' pass leaves the state, the low-rank rows and the inject logits of its mix alone.
pub proof fn law_experts_keep_the_mix(
    d: Dims,
    w: MoeW,
    k: WalkKnobs,
    pack: Pack,
    n: usize,
    fork_ok: bool,
    decode: bool,
    b: Buf,
)
    requires
        b == Buf::H || b == Buf::M || b == Buf::Inj,
    ensures
        !meaning::touches(moe_plan(d, w, k, pack, n, fork_ok, decode), b),
{
    lemma_experts_touch(d, w, pack, n, b);
    reveal_with_fuel(meaning::touches, 5);
    assert(!meaning::touches(shared_plan(d, w, k, n, decode), b));
    assert(!meaning::touches(topk_plan(d, k, n, decode), b));
    assert(!meaning::touches(middle_plan(d, w, k, pack, n, fork_ok, decode), b));
    assert(!meaning::touches(router_plan(d, w, k, n, decode), b));
    assert(!meaning::touches(share_plan(d, k, n, decode), b));
}

/// Experts are served out of the slots exactly when these and their tables hold all routed rows,
/// and wave by wave exactly when only the tables do and the kernel pack can; every other layer is
/// served where its experts are held.
pub proof fn law_caches_serve_what_they_hold(d: Dims, cache: Option<ExpertCache>, pack: Pack, n: usize)
    ensures
        cache is None ==> !in_slots(d, cache, n) && !in_waves(d, cache, pack, n),
        cache matches Some(c) ==> {
            let rows = n * d.n_active;
            &&& in_slots(d, cache, n) <==> rows <= c.slots && rows <= c.max_rows
            &&& in_waves(d, cache, pack, n) <==> c.slots < rows <= c.max_rows && pack.moe_wave
        },
        !(in_slots(d, cache, n) && in_waves(d, cache, pack, n)),
{
}

/// The shared expert's gate rides with the router only where the switch is on, on two to 32 decode
/// rows.
pub proof fn law_folds_serve_decode_rows(k: WalkKnobs, n: usize, decode: bool)
    requires
        n >= 1,
    ensures
        folded(k, n, decode) <==> k.router_fold && decode && 2 <= n <= 32,
{
}

/// Launches of the experts' pass that may decline, or open a side stream.
pub open spec fn optional(op: Op) -> bool {
    op is SharedDual || op is Pair || op is RouterGemv || op is MatvecSplit || op is TopkStrided
        || op is AddGatedStrided || op is SideFork
}

proof fn lemma_waves_name(d: Dims, e: ExpertCache, n: usize, wave: int, op: Op)
    requires
        optional(op),
    ensures
        !meaning::names(waves_from(d, e, n, wave), op),
    decreases e.n_waves - wave,
{
    reveal_with_fuel(meaning::names, 7);
    if wave < e.n_waves {
        lemma_waves_name(d, e, n, wave + 1, op);
    }
}

proof fn lemma_experts_name(d: Dims, w: MoeW, pack: Pack, n: usize, op: Op)
    requires
        optional(op),
    ensures
        !meaning::names(experts_plan(d, w, pack, n), op),
{
    if let ExpertSeats::Kq { cache: Some(c), .. } = w.seats {
        lemma_waves_name(d, c, n, 0, op);
    }
    reveal_with_fuel(meaning::names, 7);
}

/// The folded, fused and split launches of the experts' pass are offered where they may be, and
/// nowhere else.
pub proof fn law_experts_offer_what_they_may(
    d: Dims,
    w: MoeW,
    k: WalkKnobs,
    pack: Pack,
    n: usize,
    fork_ok: bool,
    decode: bool,
    op: Op,
)
    requires
        optional(op),
    ensures
        ({
            let q = moe_plan(d, w, k, pack, n, fork_ok, decode);
            let fold = k.router_fold && decode && n <= 32 && n != 1;
            let dual = n == 1 && k.sh2 && w.sh_gate.holds_bf16() && w.sh_up.holds_bf16();
            &&& op is SharedDual ==> (meaning::names(q, op) <==> dual)
            &&& op is Pair && meaning::names(q, op) ==> n >= 2 && decode && w.sh_gu
            &&& n >= 2 && decode && w.sh_gu && op == (Op::Pair {
                pair: PairId::SharedGateUp,
                x: Buf::Bi,
                ya: Buf::Shg,
                yb: Buf::Shu,
                oa: d.shared_ff,
                ob: d.shared_ff,
                rows: n,
            }) ==> meaning::names(q, op)
            &&& op is RouterGemv && meaning::names(q, op) ==> n == 1 && w.router16 && k.router_gemv
            &&& op is MatvecSplit && meaning::names(q, op) ==> n == 1 && k.sk_split >= 2
            &&& op is TopkStrided && meaning::names(q, op) ==> fold
            &&& op is AddGatedStrided && meaning::names(q, op) ==> fold
            &&& op is SideFork ==> (meaning::names(q, op) <==> fork_ok && k.fork)
        }),
{
    lemma_experts_name(d, w, pack, n, op);
    lemma_shared_names(d, w, k, n, decode, op);
    lemma_router_names(d, w, k, n, decode, op);
    lemma_middle_names(d, w, k, pack, n, fork_ok, decode, op);
    let a = router_plan(d, w, k, n, decode);
    let b = middle_plan(d, w, k, pack, n, fork_ok, decode);
    let c = share_plan(d, k, n, decode);
    assert(meaning::names(plan::then_(a, b), op) == (meaning::names(a, op) || meaning::names(b, op)));
    assert(meaning::names(moe_plan(d, w, k, pack, n, fork_ok, decode), op) == (meaning::names(
        plan::then_(a, b),
        op,
    ) || meaning::names(c, op)));
}

proof fn lemma_middle_names(
    d: Dims,
    w: MoeW,
    k: WalkKnobs,
    pack: Pack,
    n: usize,
    fork_ok: bool,
    decode: bool,
    op: Op,
)
    requires
        optional(op),
    ensures
        meaning::names(middle_plan(d, w, k, pack, n, fork_ok, decode), op) <==> {
            ||| meaning::names(shared_plan(d, w, k, n, decode), op)
            ||| meaning::names(topk_plan(d, k, n, decode), op)
            ||| op is SideFork && fork_ok && k.fork
        },
{
    lemma_experts_name(d, w, pack, n, op);
    let shared = shared_plan(d, w, k, n, decode);
    let topk = topk_plan(d, k, n, decode);
    let experts = experts_plan(d, w, pack, n);
    let routed = plan::then_(topk, experts);
    let serial = plan::then_(routed, shared);
    let end = Plan::Do(Op::SideEnd);
    let join = Plan::Do(Op::SideJoin);
    assert(meaning::names(routed, op) == meaning::names(topk, op));
    assert(meaning::names(serial, op) == (meaning::names(topk, op) || meaning::names(shared, op)));
    assert(!meaning::names(end, op) && !meaning::names(join, op));
    assert(meaning::names(plan::then_(shared, end), op) == meaning::names(shared, op));
    assert(meaning::names(plan::then_(routed, join), op) == meaning::names(topk, op));
    let forked = plan::then_(plan::then_(shared, end), plan::then_(routed, join));
    assert(meaning::names(forked, op) == (meaning::names(shared, op) || meaning::names(topk, op)));
}

proof fn lemma_shared_names(d: Dims, w: MoeW, k: WalkKnobs, n: usize, decode: bool, op: Op)
    requires
        optional(op),
    ensures
        ({
            let q = shared_plan(d, w, k, n, decode);
            let dual = n == 1 && k.sh2 && w.sh_gate.holds_bf16() && w.sh_up.holds_bf16();
            &&& op is SharedDual ==> (meaning::names(q, op) <==> dual)
            &&& op is Pair && meaning::names(q, op) ==> n >= 2 && decode && w.sh_gu
            &&& n >= 2 && decode && w.sh_gu && op == (Op::Pair {
                pair: PairId::SharedGateUp,
                x: Buf::Bi,
                ya: Buf::Shg,
                yb: Buf::Shu,
                oa: d.shared_ff,
                ob: d.shared_ff,
                rows: n,
            }) ==> meaning::names(q, op)
            &&& meaning::names(q, op) ==> op is SharedDual || op is Pair
        }),
{
    reveal_with_fuel(meaning::names, 5);
}

proof fn lemma_router_names(d: Dims, w: MoeW, k: WalkKnobs, n: usize, decode: bool, op: Op)
    requires
        optional(op),
    ensures
        ({
            let q = router_plan(d, w, k, n, decode);
            let t = topk_plan(d, k, n, decode);
            let s = share_plan(d, k, n, decode);
            &&& op is RouterGemv && meaning::names(q, op) ==> n == 1 && w.router16 && k.router_gemv
            &&& op is MatvecSplit && meaning::names(q, op) ==> n == 1 && k.sk_split >= 2
            &&& meaning::names(q, op) ==> op is RouterGemv || op is MatvecSplit
            &&& meaning::names(t, op) ==> op is TopkStrided && folded(k, n, decode)
            &&& meaning::names(s, op) ==> op is AddGatedStrided && folded(k, n, decode)
        }),
{
    reveal_with_fuel(meaning::names, 4);
}

/// A launch is shown the plane that its seat holds, on the device or on the host.
pub proof fn law_launches_see_the_seated_plane(s: KqSeat)
    ensures
        s matches KqSeat::Dev(w) ==> plane_of(s) == w,
        s matches KqSeat::Host(h) ==> plane_of(s) == h.plane,
{
}

} // verus!
