//! The attention mixer's pass, and which kernel serves its rows.
use crate::qwen4exp::config::{Dims, Pack, Phase, WalkKnobs};
use crate::qwen4exp::dense::DenseStage;
use crate::qwen4exp::gdn;
use crate::qwen4exp::gdn::WalkAt;
use crate::qwen4exp::meaning;
use crate::qwen4exp::meaning::{Fun, Scene, State, Val};
use crate::qwen4exp::plan;
use crate::qwen4exp::plan::{attempt, chain, if_so, AttnArm, Buf, Op, Plan, PlaneId};
use crate::qwen4exp::stage;
use crate::qwen4exp::stage::{n_qtiles, Run};
use vstd::prelude::*;

verus! {

/// What a pass needs to know of the mixer's planes.
#[derive(Debug, Clone, Copy, PartialEq, Eq, Structural)]
pub struct AttnW {
    /// the three input projections are also held as one plane
    pub qkv: bool,
}

/// The key-value heads as the tensor-core kernel counts them: groups of twelve query heads split in
/// two, for its tiles hold six.
pub open spec fn virtual_kv(d: Dims) -> int {
    if d.n_kv_heads > 0 && d.n_heads == d.n_kv_heads * 12 {
        d.n_kv_heads * 2
    } else {
        d.n_kv_heads as int
    }
}

/// The tensor-core kernel serves the rows.
pub open spec fn tc5_serves(d: Dims, k: WalkKnobs, pack: Pack, phase: Phase, max_ctx: usize) -> bool {
    &&& phase.decodes()
    &&& k.attn_tc5
    &&& k.kv8
    &&& d.head_dim == 256
    &&& virtual_kv(d) > 0
    &&& d.n_heads == virtual_kv(d) * 6
    &&& max_ctx % 16 == 0
    &&& pack.tc5_paged
}

/// The kernel that serves the rows when the tensor cores do not.
pub open spec fn attn_arm(
    d: Dims,
    k: WalkKnobs,
    pack: Pack,
    phase: Phase,
    n: usize,
    runs: Seq<Run>,
) -> AttnArm {
    let wide = d.head_dim == 128 || d.head_dim == 256;
    match phase {
        Phase::PrefillRuns => AttnArm::PrefillWave {
            tiles: stage::tile_count(runs, runs.len() as int) as usize,
        },
        Phase::Prefill => AttnArm::Prefill,
        _ => if pack.fmha_sp && k.fmha_sp >= 2 && k.attn_fmha && n <= 64 && wide {
            AttnArm::FmhaSplit { splits: k.fmha_sp }
        } else if pack.fmha && k.attn_fmha && wide {
            AttnArm::Fmha
        } else if pack.batch_ps && k.attn_ps {
            AttnArm::ParallelScore
        } else {
            AttnArm::Tile
        },
    }
}

/// The attention itself.
pub open spec fn attend_plan(
    d: Dims,
    k: WalkKnobs,
    pack: Pack,
    at: WalkAt,
    max_ctx: usize,
    runs: Seq<Run>,
) -> Plan {
    let plain = Plan::Do(
        Op::Attention { arm: attn_arm(d, k, pack, at.phase, at.n, runs), rows: at.n },
    );
    if tc5_serves(d, k, pack, at.phase, max_ctx) {
        plan::either(
            Op::Attention {
                arm: AttnArm::Tc5 {
                    kv_heads: virtual_kv(d) as usize,
                    blocks: (max_ctx / 16) as usize,
                    window: (max_ctx + 16) as usize,
                },
                rows: at.n,
            },
            Plan::Skip,
            plain,
        )
    } else {
        plain
    }
}

/// The product of one attention projection.
pub open spec fn proj(plane: PlaneId, y: Buf, n: usize) -> Plan {
    Plan::Do(Op::Matmul { plane, x: Buf::Bi, y, rows: n })
}

/// The keys and values, where the fused projection did not leave them.
pub open spec fn kv_plan(n: usize, fused: bool) -> Plan {
    plan::when(
        !fused,
        plan::then_(proj(PlaneId::AttnK, Buf::K, n), proj(PlaneId::AttnV, Buf::V, n)),
    )
}

/// The queries, where the fused projection did not leave them, split from their gates.
pub open spec fn q_plan(n: usize, fused: bool) -> Plan {
    plan::then_(
        plan::when(!fused, proj(PlaneId::AttnQ, Buf::Qg, n)),
        Plan::Do(Op::SplitQg { rows: n }),
    )
}

/// The keys and values, appended to the caches.
pub open spec fn append_plan(n: usize) -> Plan {
    plan::then_(Plan::Do(Op::AppendK { rows: n }), Plan::Do(Op::AppendV { rows: n }))
}

/// Queries, keys and values with the keys on a side stream.
pub open spec fn forked_plan(d: Dims, n: usize, fused: bool) -> Plan {
    let side = plan::then_(
        plan::then_(
            kv_plan(n, fused),
            plan::then_(
                Plan::Do(Op::NormK { rows: (n * d.n_kv_heads) as usize }),
                Plan::Do(Op::RopeK { rows: n }),
            ),
        ),
        plan::then_(append_plan(n), Plan::Do(Op::SideEnd)),
    );
    let main = plan::then_(
        q_plan(n, fused),
        plan::then_(
            Plan::Do(Op::NormQ { rows: (n * d.n_heads) as usize }),
            Plan::Do(Op::RopeQ { rows: n }),
        ),
    );
    plan::then_(side, plan::then_(main, Plan::Do(Op::SideJoin)))
}

/// Queries, keys and values on one stream.
pub open spec fn serial_plan(d: Dims, n: usize, fused: bool) -> Plan {
    plan::then_(
        plan::then_(
            plan::then_(q_plan(n, fused), kv_plan(n, fused)),
            plan::then_(
                Plan::Do(Op::NormQ { rows: (n * d.n_heads) as usize }),
                Plan::Do(Op::NormK { rows: (n * d.n_kv_heads) as usize }),
            ),
        ),
        plan::then_(
            plan::then_(Plan::Do(Op::RopeQ { rows: n }), Plan::Do(Op::RopeK { rows: n })),
            append_plan(n),
        ),
    )
}

/// The fused projection serves the rows.
pub open spec fn fuses_qkv(k: WalkKnobs, pack: Pack, p: DenseStage, n: usize, w: AttnW) -> bool {
    n >= 2 && gdn::off_twin(k, p, n) && k.fuse_qkv && pack.qkv_gemm && w.qkv
}

/// The attention mixer's pass.
pub open spec fn attn_plan(
    d: Dims,
    w: AttnW,
    k: WalkKnobs,
    pack: Pack,
    p: DenseStage,
    at: WalkAt,
    max_ctx: usize,
    runs: Seq<Run>,
) -> Plan {
    let n = at.n;
    let fused = fuses_qkv(k, pack, p, n, w);
    let head = plan::when(
        fused,
        Plan::Do(
            Op::FusedQkv {
                q_rows: d.attn_q_rows,
                kv_dim: (d.n_kv_heads * d.head_dim) as usize,
                rows: n,
            },
        ),
    );
    let qkv = if at.fork_ok && k.fork {
        plan::either(Op::SideFork, forked_plan(d, n, fused), serial_plan(d, n, fused))
    } else {
        serial_plan(d, n, fused)
    };
    plan::then_(
        plan::then_(head, qkv),
        plan::then_(
            attend_plan(d, k, pack, at, max_ctx, runs),
            plan::then_(
                Plan::Do(Op::GateAttn { len: (n * (d.n_heads * d.head_dim)) as usize }),
                Plan::Do(Op::Matmul { plane: PlaneId::AttnO, x: Buf::Attn, y: Buf::Mix, rows: n }),
            ),
        ),
    )
}

/// What the pass computes with fits a machine word.
pub open spec fn attn_fits(d: Dims, at: WalkAt, max_ctx: usize, runs: Seq<Run>) -> bool {
    &&& at.n * d.n_heads <= usize::MAX
    &&& at.n * d.n_kv_heads <= usize::MAX
    &&& d.n_kv_heads * d.head_dim <= usize::MAX
    &&& d.n_heads * d.head_dim <= usize::MAX
    &&& at.n * (d.n_heads * d.head_dim) <= usize::MAX
    &&& d.n_kv_heads * 12 <= usize::MAX
    &&& max_ctx + 16 <= usize::MAX
    &&& at.phase == Phase::PrefillRuns ==> stage::row_count(runs, runs.len() as int) + 15
        * runs.len() <= usize::MAX
}

fn attend(d: &Dims, k: &WalkKnobs, pack: &Pack, at: &WalkAt, max_ctx: usize, runs: &Vec<Run>) -> (p:
    Plan)
    requires
        attn_fits(*d, *at, max_ctx, runs@),
    ensures
        p == attend_plan(*d, *k, *pack, *at, max_ctx, runs@),
{
    let n: usize = at.n;
    let wide: bool = d.head_dim == 128 || d.head_dim == 256;
    let arm: AttnArm = match at.phase {
        Phase::PrefillRuns => AttnArm::PrefillWave { tiles: n_qtiles(runs) },
        Phase::Prefill => AttnArm::Prefill,
        _ => {
            if pack.fmha_sp && k.fmha_sp >= 2 && k.attn_fmha && n <= 64 && wide {
                AttnArm::FmhaSplit { splits: k.fmha_sp }
            } else if pack.fmha && k.attn_fmha && wide {
                AttnArm::Fmha
            } else if pack.batch_ps && k.attn_ps {
                AttnArm::ParallelScore
            } else {
                AttnArm::Tile
            }
        },
    };
    let plain: Plan = Plan::Do(Op::Attention { arm, rows: n });
    let kv: usize = if d.n_kv_heads > 0 && d.n_heads == d.n_kv_heads * 12 {
        d.n_kv_heads * 2
    } else {
        d.n_kv_heads
    };
    if at.phase.is_decode() && k.attn_tc5 && k.kv8 && d.head_dim == 256 && kv > 0 && d.n_heads / 6
        == kv && d.n_heads % 6 == 0 && max_ctx % 16 == 0 && pack.tc5_paged {
        attempt(
            Op::Attention {
                arm: AttnArm::Tc5 { kv_heads: kv, blocks: max_ctx / 16, window: max_ctx + 16 },
                rows: n,
            },
            Plan::Skip,
            plain,
        )
    } else {
        plain
    }
}

fn one(plane: PlaneId, y: Buf, n: usize) -> (p: Plan)
    ensures
        p == proj(plane, y, n),
{
    Plan::Do(Op::Matmul { plane, x: Buf::Bi, y, rows: n })
}

fn keys(n: usize, fused: bool) -> (p: Plan)
    ensures
        p == kv_plan(n, fused),
{
    if_so(!fused, chain(one(PlaneId::AttnK, Buf::K, n), one(PlaneId::AttnV, Buf::V, n)))
}

fn queries(n: usize, fused: bool) -> (p: Plan)
    ensures
        p == q_plan(n, fused),
{
    chain(if_so(!fused, one(PlaneId::AttnQ, Buf::Qg, n)), Plan::Do(Op::SplitQg { rows: n }))
}

fn append(n: usize) -> (p: Plan)
    ensures
        p == append_plan(n),
{
    chain(Plan::Do(Op::AppendK { rows: n }), Plan::Do(Op::AppendV { rows: n }))
}

fn forked(d: &Dims, n: usize, fused: bool) -> (p: Plan)
    requires
        n * d.n_heads <= usize::MAX,
        n * d.n_kv_heads <= usize::MAX,
    ensures
        p == forked_plan(*d, n, fused),
{
    let side: Plan = chain(
        chain(
            keys(n, fused),
            chain(
                Plan::Do(Op::NormK { rows: n * d.n_kv_heads }),
                Plan::Do(Op::RopeK { rows: n }),
            ),
        ),
        chain(append(n), Plan::Do(Op::SideEnd)),
    );
    let main: Plan = chain(
        queries(n, fused),
        chain(Plan::Do(Op::NormQ { rows: n * d.n_heads }), Plan::Do(Op::RopeQ { rows: n })),
    );
    chain(side, chain(main, Plan::Do(Op::SideJoin)))
}

fn serial(d: &Dims, n: usize, fused: bool) -> (p: Plan)
    requires
        n * d.n_heads <= usize::MAX,
        n * d.n_kv_heads <= usize::MAX,
    ensures
        p == serial_plan(*d, n, fused),
{
    let head: Plan = chain(
        chain(queries(n, fused), keys(n, fused)),
        chain(
            Plan::Do(Op::NormQ { rows: n * d.n_heads }),
            Plan::Do(Op::NormK { rows: n * d.n_kv_heads }),
        ),
    );
    chain(
        head,
        chain(
            chain(Plan::Do(Op::RopeQ { rows: n }), Plan::Do(Op::RopeK { rows: n })),
            append(n),
        ),
    )
}

/// The attention mixer's pass over the rows of a walk.
pub fn attn_pass(
    d: &Dims,
    w: &AttnW,
    k: &WalkKnobs,
    pack: &Pack,
    p: &DenseStage,
    at: &WalkAt,
    max_ctx: usize,
    runs: &Vec<Run>,
) -> (r: Plan)
    requires
        attn_fits(*d, *at, max_ctx, runs@),
    ensures
        r == attn_plan(*d, *w, *k, *pack, *p, *at, max_ctx, runs@),
{
    let n: usize = at.n;
    let twin: bool = p.f16_ok && n >= k.dense.f16_min && n <= p.f16_max;
    let fused: bool = n >= 2 && !twin && k.fuse_qkv && pack.qkv_gemm && w.qkv;
    let head: Plan = if_so(
        fused,
        Plan::Do(
            Op::FusedQkv { q_rows: d.attn_q_rows, kv_dim: d.n_kv_heads * d.head_dim, rows: n },
        ),
    );
    let qkv: Plan = if at.fork_ok && k.fork {
        attempt(Op::SideFork, forked(d, n, fused), serial(d, n, fused))
    } else {
        serial(d, n, fused)
    };
    chain(
        chain(head, qkv),
        chain(
            attend(d, k, pack, at, max_ctx, runs),
            chain(
                Plan::Do(Op::GateAttn { len: n * (d.n_heads * d.head_dim) }),
                Plan::Do(Op::Matmul { plane: PlaneId::AttnO, x: Buf::Attn, y: Buf::Mix, rows: n }),
            ),
        ),
    )
}

/// A wave never takes a kernel that serves one slot, and a prompt never takes a decode kernel.
pub proof fn law_kernels_serve_their_phase(
    d: Dims,
    k: WalkKnobs,
    pack: Pack,
    phase: Phase,
    n: usize,
    max_ctx: usize,
    runs: Seq<Run>,
)
    ensures
        attn_arm(d, k, pack, phase, n, runs) is PrefillWave <==> phase == Phase::PrefillRuns,
        attn_arm(d, k, pack, phase, n, runs) is Prefill <==> phase == Phase::Prefill,
        tc5_serves(d, k, pack, phase, max_ctx) ==> phase.decodes() && k.kv8,
{
}

/// What the pass needs before it.
pub open spec fn attn_live() -> Set<Buf> {
    set![
        Buf::Bi,
        Buf::Pos,
        Buf::Slots,
        Buf::Mrope,
        Buf::KvK,
        Buf::KvV,
        Buf::Sinks,
        Buf::TileRow0,
        Buf::TileSlot,
        Buf::BlkTab,
    ]
}

/// What the projections leave for the attention.
pub open spec fn qkv_left(p: Plan) -> bool {
    plan::written(p).contains(Buf::Qn) && plan::written(p).contains(Buf::Agate)
}

proof fn lemma_serial(d: Dims, n: usize, fused: bool, live: Set<Buf>)
    requires
        live.contains(Buf::Bi),
        live.contains(Buf::Pos),
        live.contains(Buf::Slots),
        live.contains(Buf::Mrope),
        fused ==> live.contains(Buf::Qg) && live.contains(Buf::K) && live.contains(Buf::V),
    ensures
        plan::fed(serial_plan(d, n, fused), live),
        qkv_left(serial_plan(d, n, fused)),
{
    reveal_with_fuel(plan::fed, 5);
    reveal_with_fuel(plan::written, 5);
}

proof fn lemma_forked(d: Dims, n: usize, fused: bool, live: Set<Buf>)
    requires
        live.contains(Buf::Bi),
        live.contains(Buf::Pos),
        live.contains(Buf::Slots),
        live.contains(Buf::Mrope),
        fused ==> live.contains(Buf::Qg) && live.contains(Buf::K) && live.contains(Buf::V),
    ensures
        plan::fed(forked_plan(d, n, fused), live),
        qkv_left(forked_plan(d, n, fused)),
{
    reveal_with_fuel(plan::fed, 6);
    reveal_with_fuel(plan::written, 6);
}

proof fn lemma_attend(
    d: Dims,
    k: WalkKnobs,
    pack: Pack,
    at: WalkAt,
    max_ctx: usize,
    runs: Seq<Run>,
    live: Set<Buf>,
)
    requires
        attn_live().subset_of(live),
        live.contains(Buf::Qn),
    ensures
        plan::fed(attend_plan(d, k, pack, at, max_ctx, runs), live),
        plan::written(attend_plan(d, k, pack, at, max_ctx, runs)).contains(Buf::Attn),
{
    reveal_with_fuel(plan::fed, 2);
    reveal_with_fuel(plan::written, 2);
    assert(attn_live().contains(Buf::Pos));
    assert(attn_live().contains(Buf::Slots));
    assert(attn_live().contains(Buf::KvK));
    assert(attn_live().contains(Buf::KvV));
    assert(attn_live().contains(Buf::Sinks));
    assert(attn_live().contains(Buf::TileRow0));
    assert(attn_live().contains(Buf::TileSlot));
    assert(attn_live().contains(Buf::BlkTab));
}

/// Whatever declines, and whether or not the side stream opens, attention reads nothing that is not
/// there, and leaves the block's output.
pub proof fn law_attention_feeds_its_output(
    d: Dims,
    w: AttnW,
    k: WalkKnobs,
    pack: Pack,
    p: DenseStage,
    at: WalkAt,
    max_ctx: usize,
    runs: Seq<Run>,
)
    ensures
        plan::fed(attn_plan(d, w, k, pack, p, at, max_ctx, runs), attn_live()),
        plan::written(attn_plan(d, w, k, pack, p, at, max_ctx, runs)).contains(Buf::Mix),
{
    let n = at.n;
    let fused = fuses_qkv(k, pack, p, n, w);
    let head = plan::when(
        fused,
        Plan::Do(
            Op::FusedQkv {
                q_rows: d.attn_q_rows,
                kv_dim: (d.n_kv_heads * d.head_dim) as usize,
                rows: n,
            },
        ),
    );
    let qkv = if at.fork_ok && k.fork {
        plan::either(Op::SideFork, forked_plan(d, n, fused), serial_plan(d, n, fused))
    } else {
        serial_plan(d, n, fused)
    };
    let live = attn_live();
    assert(plan::fed(head, live));
    let l1 = live.union(plan::written(head));
    assert(fused ==> l1.contains(Buf::Qg) && l1.contains(Buf::K) && l1.contains(Buf::V));
    lemma_serial(d, n, fused, l1);
    lemma_forked(d, n, fused, l1.union(Set::new(|b: Buf| Op::SideFork.writes(b))));
    assert(plan::fed(qkv, l1));
    assert(qkv_left(qkv));
    let a = plan::then_(head, qkv);
    assert(plan::fed(a, live));
    assert(plan::written(a) == plan::written(head).union(plan::written(qkv)));
    let l2 = live.union(plan::written(a));
    lemma_attend(d, k, pack, at, max_ctx, runs, l2);
    let t = attend_plan(d, k, pack, at, max_ctx, runs);
    let g = Plan::Do(Op::GateAttn { len: (n * (d.n_heads * d.head_dim)) as usize });
    let o = Plan::Do(Op::Matmul { plane: PlaneId::AttnO, x: Buf::Attn, y: Buf::Mix, rows: n });
    let l3 = l2.union(plan::written(t));
    assert(plan::fed(g, l3));
    assert(plan::fed(o, l3.union(plan::written(g))));
    assert(plan::fed(plan::then_(g, o), l3));
    assert(plan::fed(plan::then_(t, plan::then_(g, o)), l2));
    assert(plan::written(o).contains(Buf::Mix));
    assert(plan::written(plan::then_(g, o)).contains(Buf::Mix));
    assert(plan::written(plan::then_(t, plan::then_(g, o))).contains(Buf::Mix));
}

proof fn lemma_serial_side(d: Dims, n: usize, fused: bool)
    ensures
        plan::side_after(serial_plan(d, n, fused), plan::Side::Closed) == plan::Side::Closed,
{
    reveal_with_fuel(plan::side_after, 5);
}

proof fn lemma_forked_side(d: Dims, n: usize, fused: bool)
    ensures
        plan::side_after(forked_plan(d, n, fused), plan::Side::Open) == plan::Side::Closed,
{
    reveal_with_fuel(plan::side_after, 6);
}

/// A side stream that attention opens is ended once and joined once, on every path; where it does
/// not open, none is joined.
pub proof fn law_attention_joins_its_side(
    d: Dims,
    w: AttnW,
    k: WalkKnobs,
    pack: Pack,
    p: DenseStage,
    at: WalkAt,
    max_ctx: usize,
    runs: Seq<Run>,
)
    ensures
        plan::side_after(
            attn_plan(d, w, k, pack, p, at, max_ctx, runs),
            plan::Side::Closed,
        ) == plan::Side::Closed,
{
    let n = at.n;
    let fused = fuses_qkv(k, pack, p, n, w);
    lemma_serial_side(d, n, fused);
    lemma_forked_side(d, n, fused);
    let head = plan::when(
        fused,
        Plan::Do(
            Op::FusedQkv {
                q_rows: d.attn_q_rows,
                kv_dim: (d.n_kv_heads * d.head_dim) as usize,
                rows: n,
            },
        ),
    );
    let qkv = if at.fork_ok && k.fork {
        plan::either(Op::SideFork, forked_plan(d, n, fused), serial_plan(d, n, fused))
    } else {
        serial_plan(d, n, fused)
    };
    let t = attend_plan(d, k, pack, at, max_ctx, runs);
    let g = Plan::Do(Op::GateAttn { len: (n * (d.n_heads * d.head_dim)) as usize });
    let o = Plan::Do(Op::Matmul { plane: PlaneId::AttnO, x: Buf::Attn, y: Buf::Mix, rows: n });
    let c = plan::Side::Closed;
    assert(plan::side_after(head, c) == c);
    assert(plan::side_after(qkv, c) == c);
    assert(plan::side_after(plan::then_(head, qkv), c) == c);
    assert(plan::side_after(t, c) == c) by {
        reveal_with_fuel(plan::side_after, 2);
    }
    assert(plan::side_after(g, c) == c);
    assert(plan::side_after(o, c) == c);
    assert(plan::side_after(plan::then_(g, o), c) == c);
    assert(plan::side_after(plan::then_(t, plan::then_(g, o)), c) == c);
}

proof fn lemma_qkv_computes(
    c: Scene,
    d: Dims,
    n: usize,
    fused: bool,
    serial: bool,
    s: State,
    taken: spec_fn(Op) -> bool,
)
    requires
        c.d == d,
        c.at.n == n,
        n * d.n_heads <= usize::MAX,
        n * d.n_kv_heads <= usize::MAX,
        fused ==> s.get(Buf::Qg) == meaning::of1(Fun::Product(PlaneId::AttnQ), s.get(Buf::Bi)),
        fused ==> s.get(Buf::K) == meaning::of1(Fun::Product(PlaneId::AttnK), s.get(Buf::Bi)),
        fused ==> s.get(Buf::V) == meaning::of1(Fun::Product(PlaneId::AttnV), s.get(Buf::Bi)),
    ensures
        ({
            let p = if serial {
                serial_plan(d, n, fused)
            } else {
                forked_plan(d, n, fused)
            };
            let t = meaning::run(c, p, s, taken);
            let x = s.get(Buf::Bi);
            let qg = meaning::of1(Fun::Product(PlaneId::AttnQ), x);
            let key = meaning::of2(
                Fun::Rope,
                meaning::of1(Fun::NormK, meaning::of1(Fun::Product(PlaneId::AttnK), x)),
                s.get(Buf::Mrope),
            );
            &&& t.get(Buf::Qn) == meaning::of2(
                Fun::Rope,
                meaning::of1(Fun::NormQ, meaning::of1(Fun::QueryOf, qg)),
                s.get(Buf::Mrope),
            )
            &&& t.get(Buf::Agate) == meaning::of1(Fun::GateOf, qg)
            &&& t.get(Buf::KvK) == meaning::appended(s.get(Buf::KvK), key, s)
            &&& t.get(Buf::KvV) == meaning::appended(
                s.get(Buf::KvV),
                meaning::of1(Fun::Product(PlaneId::AttnV), x),
                s,
            )
            &&& t.get(Buf::Sinks) == s.get(Buf::Sinks)
            &&& t.get(Buf::Pos) == s.get(Buf::Pos)
            &&& t.get(Buf::Slots) == s.get(Buf::Slots)
        }),
{
    reveal_with_fuel(meaning::run, 8);
}

/// The keys and values that the rows of a pass leave in the caches.
pub open spec fn cached(s: State) -> (Val, Val) {
    let x = s.get(Buf::Bi);
    let key = meaning::of2(
        Fun::Rope,
        meaning::of1(Fun::NormK, meaning::of1(Fun::Product(PlaneId::AttnK), x)),
        s.get(Buf::Mrope),
    );
    let value = meaning::of1(Fun::Product(PlaneId::AttnV), x);
    (
        meaning::appended(s.get(Buf::KvK), key, s),
        meaning::appended(s.get(Buf::KvV), value, s),
    )
}

/// The attention over the rows of a pass: queries normed and roped, against the caches that hold
/// the rows' own keys and values already, gated by the other half of the query projection, and
/// projected.
pub open spec fn attended(s: State) -> Val {
    let qg = meaning::of1(Fun::Product(PlaneId::AttnQ), s.get(Buf::Bi));
    let q = meaning::of2(
        Fun::Rope,
        meaning::of1(Fun::NormQ, meaning::of1(Fun::QueryOf, qg)),
        s.get(Buf::Mrope),
    );
    let (keys, values) = cached(s);
    let y = Val::Of(
        Fun::Attend,
        seq![q, keys, values, s.get(Buf::Sinks), s.get(Buf::Pos), s.get(Buf::Slots)],
    );
    meaning::of1(
        Fun::Product(PlaneId::AttnO),
        meaning::of2(Fun::Gated, y, meaning::of1(Fun::GateOf, qg)),
    )
}

/// Every path of the attention pass computes the same, fused or apart, forked or not, whatever
/// declines: each row's roped key and its value are appended to the caches before the attention
/// reads them, for all rows, and the result is the gated attention over those caches, projected.
pub proof fn law_attention_reads_what_it_appends(
    d: Dims,
    w: AttnW,
    k: WalkKnobs,
    pack: Pack,
    p: DenseStage,
    at: WalkAt,
    max_ctx: usize,
    runs: Seq<Run>,
    s: State,
    taken: spec_fn(Op) -> bool,
)
    requires
        attn_fits(d, at, max_ctx, runs),
    ensures
        ({
            let c = Scene { d, at, max_ctx, runs };
            let q = attn_plan(d, w, k, pack, p, at, max_ctx, runs);
            let t = meaning::run(c, q, s, taken);
            &&& t.get(Buf::KvK) == cached(s).0
            &&& t.get(Buf::KvV) == cached(s).1
            &&& t.get(Buf::Mix) == attended(s)
            &&& !meaning::fails(q, taken)
        }),
{
    let c = Scene { d, at, max_ctx, runs };
    let n = at.n;
    let fused = fuses_qkv(k, pack, p, n, w);
    let head = plan::when(
        fused,
        Plan::Do(
            Op::FusedQkv {
                q_rows: d.attn_q_rows,
                kv_dim: (d.n_kv_heads * d.head_dim) as usize,
                rows: n,
            },
        ),
    );
    let s1 = meaning::run(c, head, s, taken);
    assert(s1.get(Buf::Bi) == s.get(Buf::Bi) && s1.get(Buf::Mrope) == s.get(Buf::Mrope));
    let f = forked_plan(d, n, fused);
    let g = serial_plan(d, n, fused);
    let qkv = if at.fork_ok && k.fork {
        plan::either(Op::SideFork, f, g)
    } else {
        g
    };
    lemma_qkv_computes(c, d, n, fused, true, s1, taken);
    lemma_qkv_computes(c, d, n, fused, false, s1, taken);
    let s2 = meaning::run(c, qkv, s1, taken);
    assert(s2 == meaning::run(c, f, s1, taken) || s2 == meaning::run(c, g, s1, taken)) by {
        assert(meaning::step(c, Op::SideFork, s1) == s1);
    }
    let a = attend_plan(d, k, pack, at, max_ctx, runs);
    lemma_attend_computes(d, k, pack, at, max_ctx, runs, s2, taken);
    let s3 = meaning::run(c, a, s2, taken);
    let gate = Plan::Do(Op::GateAttn { len: (n * (d.n_heads * d.head_dim)) as usize });
    let out = Plan::Do(Op::Matmul { plane: PlaneId::AttnO, x: Buf::Attn, y: Buf::Mix, rows: n });
    let s4 = meaning::run(c, gate, s3, taken);
    let s5 = meaning::run(c, out, s4, taken);
    assert(s5 == meaning::run(c, plan::then_(gate, out), s3, taken));
    assert(s5 == meaning::run(c, plan::then_(a, plan::then_(gate, out)), s2, taken));
    assert(s2 == meaning::run(c, plan::then_(head, qkv), s, taken));
    lemma_attention_never_fails(d, w, k, pack, p, at, max_ctx, runs, taken);
}

proof fn lemma_attend_computes(
    d: Dims,
    k: WalkKnobs,
    pack: Pack,
    at: WalkAt,
    max_ctx: usize,
    runs: Seq<Run>,
    s: State,
    taken: spec_fn(Op) -> bool,
)
    requires
        attn_fits(d, at, max_ctx, runs),
    ensures
        ({
            let c = Scene { d, at, max_ctx, runs };
            let t = meaning::run(c, attend_plan(d, k, pack, at, max_ctx, runs), s, taken);
            t == s.set(
                Buf::Attn,
                Val::Of(
                    Fun::Attend,
                    seq![
                        s.get(Buf::Qn),
                        s.get(Buf::KvK),
                        s.get(Buf::KvV),
                        s.get(Buf::Sinks),
                        s.get(Buf::Pos),
                        s.get(Buf::Slots),
                    ],
                ),
            )
        }),
{
    reveal_with_fuel(meaning::run, 2);
    let c = Scene { d, at, max_ctx, runs };
    if at.phase == Phase::PrefillRuns {
        stage::lemma_tiles_bound(runs, runs.len() as int);
    }
    assert(meaning::arm_fits(c, attn_arm(d, k, pack, at.phase, at.n, runs)));
}

proof fn lemma_attention_never_fails(
    d: Dims,
    w: AttnW,
    k: WalkKnobs,
    pack: Pack,
    p: DenseStage,
    at: WalkAt,
    max_ctx: usize,
    runs: Seq<Run>,
    taken: spec_fn(Op) -> bool,
)
    ensures
        !meaning::fails(attn_plan(d, w, k, pack, p, at, max_ctx, runs), taken),
{
    reveal_with_fuel(meaning::fails, 9);
}

/// The attention pass leaves the state, the low-rank rows and the inject logits of its mix alone.
pub proof fn law_attention_keeps_the_mix(
    d: Dims,
    w: AttnW,
    k: WalkKnobs,
    pack: Pack,
    p: DenseStage,
    at: WalkAt,
    max_ctx: usize,
    runs: Seq<Run>,
    b: Buf,
)
    requires
        b == Buf::H || b == Buf::M || b == Buf::Inj,
    ensures
        !meaning::touches(attn_plan(d, w, k, pack, p, at, max_ctx, runs), b),
{
    reveal_with_fuel(meaning::touches, 9);
}

/// The tensor-core kernel is tried only on decode rows over 8-bit pools of heads of two hundred and
/// fifty-six, six query heads to a key head as it counts them, in a window of whole blocks, where
/// the pack has it and the switch is on; and always then.
pub proof fn law_tensor_cores_serve_their_shape(
    d: Dims,
    k: WalkKnobs,
    pack: Pack,
    phase: Phase,
    max_ctx: usize,
)
    requires
        d.n_kv_heads > 0,
    ensures
        tc5_serves(d, k, pack, phase, max_ctx) <==> phase.decodes() && k.attn_tc5 && k.kv8
            && pack.tc5_paged && d.head_dim == 256 && max_ctx % 16 == 0 && (d.n_heads == 12
            * d.n_kv_heads || d.n_heads == 6 * d.n_kv_heads),
        d.n_heads == 12 * d.n_kv_heads ==> 6 * virtual_kv(d) == d.n_heads,
        d.n_heads != 12 * d.n_kv_heads ==> virtual_kv(d) == d.n_kv_heads,
{
}

/// Behind the tensor cores a decode row is served by the split kernel up to sixty-four rows, by the
/// fused one, by the parallel one or by the tiles, the first that the pack has and the switches
/// allow; only heads of a hundred and twenty-eight or two hundred and fifty-six take the first two.
pub proof fn law_decode_rows_take_the_best_kernel(
    d: Dims,
    k: WalkKnobs,
    pack: Pack,
    phase: Phase,
    n: usize,
    runs: Seq<Run>,
)
    requires
        phase.decodes(),
    ensures
        ({
            let a = attn_arm(d, k, pack, phase, n, runs);
            let wide = d.head_dim == 128 || d.head_dim == 256;
            &&& a is FmhaSplit <==> wide && k.attn_fmha && pack.fmha_sp && k.fmha_sp >= 2 && n < 65
            &&& a matches AttnArm::FmhaSplit { splits } ==> splits == k.fmha_sp
            &&& a is Fmha ==> wide && k.attn_fmha && pack.fmha
            &&& wide && k.attn_fmha && pack.fmha ==> a is Fmha || a is FmhaSplit
            &&& a is ParallelScore ==> pack.batch_ps && k.attn_ps
            &&& pack.batch_ps && k.attn_ps ==> !(a is Tile)
            &&& !(a is Prefill) && !(a is PrefillWave) && !(a is Tc5)
        }),
{
}

/// The fused projection serves two rows and more that stay off the twin, where the plane is held,
/// the pack has it and the switch is on.
pub proof fn law_fused_projections_need_their_plane(
    k: WalkKnobs,
    pack: Pack,
    p: DenseStage,
    n: usize,
    w: AttnW,
)
    ensures
        fuses_qkv(k, pack, p, n, w) ==> n >= 2 && w.qkv && pack.qkv_gemm && k.fuse_qkv,
        fuses_qkv(k, pack, p, n, w) ==> !p.f16_ok || n < k.dense.f16_min || n > p.f16_max,
        n >= 2 && w.qkv && pack.qkv_gemm && k.fuse_qkv && (!p.f16_ok || n < k.dense.f16_min || n
            > p.f16_max) ==> fuses_qkv(k, pack, p, n, w),
{
}

/// The fused projection, the side stream and the tensor cores are launched where they may be, and
/// nowhere else.
pub proof fn law_attention_offers_what_it_may(
    d: Dims,
    w: AttnW,
    k: WalkKnobs,
    pack: Pack,
    p: DenseStage,
    at: WalkAt,
    max_ctx: usize,
    runs: Seq<Run>,
    op: Op,
)
    ensures
        ({
            let q = attn_plan(d, w, k, pack, p, at, max_ctx, runs);
            &&& op is FusedQkv && meaning::names(q, op) ==> fuses_qkv(k, pack, p, at.n, w)
            &&& fuses_qkv(k, pack, p, at.n, w) ==> !meaning::names(
                q,
                Op::Matmul { plane: PlaneId::AttnK, x: Buf::Bi, y: Buf::K, rows: at.n },
            )
            &&& meaning::names(q, Op::SideFork) <==> at.fork_ok && k.fork
            &&& meaning::names(q, Op::SideJoin) <==> at.fork_ok && k.fork
            &&& op matches Op::Attention { arm, .. } ==> arm is Tc5 && meaning::names(q, op)
                ==> tc5_serves(d, k, pack, at.phase, max_ctx)
            &&& tc5_serves(d, k, pack, at.phase, max_ctx) ==> meaning::names(
                q,
                Op::Attention {
                    arm: AttnArm::Tc5 {
                        kv_heads: virtual_kv(d) as usize,
                        blocks: (max_ctx / 16) as usize,
                        window: (max_ctx + 16) as usize,
                    },
                    rows: at.n,
                },
            )
        }),
{
    reveal_with_fuel(meaning::names, 9);
}

} // verus!
