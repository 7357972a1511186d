//! The recurrent mixer's pass: projections, a short convolution over the rows before, the gated
//! recurrence, and the norm behind it.
use crate::qwen4exp::config::{Dims, Pack, Phase, WalkKnobs};
use crate::qwen4exp::dense::DenseStage;
use crate::qwen4exp::meaning;
use crate::qwen4exp::meaning::{Fun, Scene, State, Val};
use crate::qwen4exp::ngram::RowMove;
use crate::qwen4exp::plan;
use crate::qwen4exp::plan::{attempt, chain, if_so, Buf, Fault, MatId, Op, PairId, Plan, PlaneId};
use crate::qwen4exp::stage::Run;
use vstd::prelude::*;

verus! {

/// What a pass needs to know of the mixer's planes.
#[derive(Debug, Clone, Copy, PartialEq, Eq, Structural)]
pub struct GdnW {
    /// the two input projections are also held as one plane
    pub zqkv: bool,
    /// value heads are tiled over the key heads
    pub tiled_heads: bool,
}

/// Where a walk stands: its rows, its phase, the slot of its prompt, and whether it may fork.
#[derive(Debug, Clone, Copy, PartialEq, Eq, Structural)]
pub struct WalkAt {
    pub n: usize,
    pub phase: Phase,
    pub slot: usize,
    pub fork_ok: bool,
}

/// The batch stays off the f16 twin's window.
pub open spec fn off_twin(k: WalkKnobs, p: DenseStage, n: usize) -> bool {
    !(p.f16_ok && k.dense.f16_min <= n <= p.f16_max)
}

/// The move that leaves the window behind a prompt of `n` rows, whose first row is `off`: the last
/// `km1` rows, oldest first; a shorter prompt lies at the end.
pub open spec fn window_move(off: int, n: int, km1: int) -> RowMove {
    if n >= km1 {
        RowMove { src: (off + n - km1) as usize, dst: 0, rows: km1 as usize }
    } else {
        RowMove { src: off as usize, dst: (km1 - n) as usize, rows: n as usize }
    }
}

/// The window holds the prompt's tail, oldest first: window row `i` is position `n - km1 + i`, and
/// rows before the prompt's start are left as they were.
pub proof fn law_window_holds_the_tail(off: int, n: int, km1: int, i: int)
    requires
        0 <= off,
        0 <= n,
        off + n <= usize::MAX,
        0 <= i < km1 <= usize::MAX,
    ensures
        ({
            let m = window_move(off, n, km1);
            if n - km1 + i >= 0 {
                m.dst <= i < m.dst + m.rows && m.src + (i - m.dst) == off + n - km1 + i
            } else {
                i < m.dst
            }
        }),
{
}

/// The window of `slot` and the pass's rows lie inside what can be addressed.
pub open spec fn window_fits(d: Dims, slot: int, rows: int) -> bool {
    &&& d.gdn_conv >= 1
    &&& slot * (d.gdn_conv - 1) <= usize::MAX
    &&& (slot + 1) * (d.gdn_conv - 1) * d.gdn_qkv_rows <= usize::MAX
    &&& rows * d.gdn_qkv_rows <= usize::MAX
}

/// The copy that leaves the window of `slot` behind a prompt.
pub open spec fn window_plan(d: Dims, slot: int, off: int, n: int) -> Plan {
    let km1 = d.gdn_conv - 1;
    let m = window_move(off, n, km1);
    let w = d.gdn_qkv_rows;
    Plan::Do(
        Op::Copy {
            src: Buf::Qkv,
            src_off: (m.src * w) as usize,
            dst: Buf::GdnWin,
            dst_off: (slot * km1 * w + m.dst * w) as usize,
            len: (m.rows * w) as usize,
        },
    )
}

fn window(d: &Dims, slot: usize, off: usize, n: usize) -> (p: Plan)
    requires
        window_fits(*d, slot as int, off + n),
        off + n <= usize::MAX,
    ensures
        p == window_plan(*d, slot as int, off as int, n as int),
{
    let km1: usize = d.gdn_conv - 1;
    let w: usize = d.gdn_qkv_rows;
    proof {
        assert((slot + 1) * km1 * w == slot * km1 * w + km1 * w) by (nonlinear_arith);
        assert(0 <= slot * km1 * w) by (nonlinear_arith);
        assert(0 <= slot * km1) by (nonlinear_arith);
    }
    let (src, dst, rows): (usize, usize, usize) = if n >= km1 {
        (off + n - km1, 0, km1)
    } else {
        (off, km1 - n, n)
    };
    proof {
        assert(src * w <= (off + n) * w) by (nonlinear_arith)
            requires
                src <= off + n,
        ;
        assert(dst * w <= km1 * w) by (nonlinear_arith)
            requires
                dst <= km1,
        ;
        assert(rows * w <= (off + n) * w) by (nonlinear_arith)
            requires
                rows <= off + n,
        ;
        assert(0 <= src * w && 0 <= dst * w && 0 <= rows * w) by (nonlinear_arith);
    }
    Plan::Do(
        Op::Copy {
            src: Buf::Qkv,
            src_off: src * w,
            dst: Buf::GdnWin,
            dst_off: slot * km1 * w + dst * w,
            len: rows * w,
        },
    )
}

/// The convolution and window of every run from the `i`th on.
pub open spec fn conv_runs(d: Dims, runs: Seq<Run>, i: int) -> Plan
    decreases runs.len() - i,
{
    if i >= runs.len() {
        Plan::Skip
    } else {
        plan::then_(
            plan::then_(
                Plan::Do(Op::GdnConv { off: runs[i].off, rows: runs[i].len }),
                window_plan(d, runs[i].slot as int, runs[i].off as int, runs[i].len as int),
            ),
            conv_runs(d, runs, i + 1),
        )
    }
}

fn each_run(d: &Dims, runs: &Vec<Run>) -> (p: Plan)
    requires
        forall|i: int|
            0 <= i < runs@.len() ==> {
                let r = #[trigger] runs@[i];
                r.off + r.len <= usize::MAX && window_fits(*d, r.slot as int, r.off + r.len)
            },
    ensures
        p == conv_runs(*d, runs@, 0),
{
    let mut p: Plan = Plan::Skip;
    let mut i: usize = runs.len();
    while i > 0
        invariant
            i <= runs@.len(),
            forall|i: int|
                0 <= i < runs@.len() ==> {
                    let r = #[trigger] runs@[i];
                    r.off + r.len <= usize::MAX && window_fits(*d, r.slot as int, r.off + r.len)
                },
            p == conv_runs(*d, runs@, i as int),
        decreases i,
    {
        i = i - 1;
        let r: Run = runs[i];
        assert(window_fits(
            *d,
            runs@[i as int].slot as int,
            runs@[i as int].off + runs@[i as int].len,
        ));
        let one: Plan = chain(
            Plan::Do(Op::GdnConv { off: r.off, rows: r.len }),
            window(d, r.slot, r.off, r.len),
        );
        p = chain(one, p);
    }
    p
}

/// The gates' inputs.
pub open spec fn ab_plan(d: Dims, k: WalkKnobs, n: usize) -> Plan {
    let out = (2 * d.gdn_v_heads) as usize;
    let plain = Plan::Do(
        Op::Matvec {
            mat: MatId::GdnAb,
            first: 0,
            depth: d.hidden,
            out,
            x: Buf::Bi,
            y: Buf::Ab,
            rows: n,
        },
    );
    if n == 1 && k.sk_split >= 2 {
        plan::either(
            Op::MatvecSplit {
                mat: MatId::GdnAb,
                depth: d.hidden,
                out,
                x: Buf::Bi,
                y: Buf::Ab,
                split: k.sk_split,
            },
            Plan::Skip,
            plain,
        )
    } else {
        plain
    }
}

/// The output gate's projection, where the fused one did not leave it.
pub open spec fn z_plan(n: usize, fused: bool) -> Plan {
    plan::when(
        !fused,
        Plan::Do(Op::Matmul { plane: PlaneId::GdnZ, x: Buf::Bi, y: Buf::Zg, rows: n }),
    )
}

/// What runs before the main branch, or on the side stream beside it.
pub open spec fn side_plan(d: Dims, k: WalkKnobs, n: usize, fused: bool, forked: bool) -> Plan {
    let head = plan::then_(z_plan(n, fused), ab_plan(d, k, n));
    if forked {
        plan::then_(
            head,
            plan::then_(Plan::Do(Op::DeltaGates { rows: n }), Plan::Do(Op::SideEnd)),
        )
    } else {
        head
    }
}

/// The heads split apart and widened.
pub open spec fn split_plan(w: GdnW, pack: Pack, n: usize) -> Plan {
    if w.tiled_heads && !pack.tiled_split {
        Plan::Fail(Fault::NoTiledSplit)
    } else {
        Plan::Do(Op::SplitWiden { tiled: w.tiled_heads, rows: n })
    }
}

/// The projection and the convolution, up to the split heads.
pub open spec fn conv_plan(d: Dims, w: GdnW, pack: Pack, at: WalkAt, runs: Seq<Run>, fused: bool) -> Plan {
    let split = split_plan(w, pack, at.n);
    plan::then_(
        plan::when(
            !fused,
            Plan::Do(Op::Matmul { plane: PlaneId::GdnQkv, x: Buf::Bi, y: Buf::Qkv, rows: at.n }),
        ),
        match at.phase {
            Phase::Prefill => plan::then_(
                plan::then_(
                    Plan::Do(Op::GdnConv { off: 0, rows: at.n }),
                    window_plan(d, at.slot as int, 0, at.n as int),
                ),
                split,
            ),
            Phase::PrefillRuns => plan::then_(conv_runs(d, runs, 0), split),
            Phase::Decode => plan::then_(Plan::Do(Op::ConvStep), split),
            Phase::DecodeBatch => {
                let apart = plan::then_(Plan::Do(Op::ConvStepSlots { rows: at.n }), split);
                if w.tiled_heads {
                    apart
                } else {
                    plan::either(Op::ConvStepSplit { rows: at.n }, Plan::Skip, apart)
                }
            },
        },
    )
}

/// The recurrence and the gated norm behind it.
pub open spec fn recur_plan(d: Dims, k: WalkKnobs, at: WalkAt, runs: nat) -> Plan {
    let norm = Plan::Do(Op::GatedNorm { rows: (at.n * d.gdn_v_heads) as usize });
    match at.phase {
        Phase::PrefillRuns => {
            let plain = Plan::Do(Op::RecurRuns { runs: runs as usize });
            plan::then_(
                if k.dn_prenorm {
                    plan::either(
                        Op::RecurRunsNorm { runs: runs as usize, rows: at.n },
                        Plan::Skip,
                        plain,
                    )
                } else {
                    plain
                },
                norm,
            )
        },
        Phase::DecodeBatch => plan::either(
            Op::RecurSlotsNorm { rows: at.n },
            Plan::Skip,
            plan::then_(Plan::Do(Op::RecurSlots { rows: at.n }), norm),
        ),
        _ => plan::then_(
            Plan::Do(
                Op::RecurAt {
                    state_off: (at.slot * d.gdn_v_heads * d.gdn_k_dim * d.gdn_k_dim) as usize,
                    rows: at.n,
                },
            ),
            norm,
        ),
    }
}

/// The pass, once it is known whether the fused projection was taken and the side stream opened.
pub open spec fn gdn_body(
    d: Dims,
    w: GdnW,
    k: WalkKnobs,
    pack: Pack,
    at: WalkAt,
    runs: Seq<Run>,
    fused: bool,
    forked: bool,
) -> Plan {
    plan::then_(
        plan::then_(
            side_plan(d, k, at.n, fused, forked),
            conv_plan(d, w, pack, at, runs, fused),
        ),
        plan::then_(
            plan::then_(
                Plan::Do(
                    if forked {
                        Op::SideJoin
                    } else {
                        Op::DeltaGates { rows: at.n }
                    },
                ),
                recur_plan(d, k, at, runs.len()),
            ),
            Plan::Do(Op::Matmul { plane: PlaneId::GdnOut, x: Buf::Core, y: Buf::Mix, rows: at.n }),
        ),
    )
}

/// The pass, once it is known whether the fused projection was taken.
pub open spec fn gdn_branch(
    d: Dims,
    w: GdnW,
    k: WalkKnobs,
    pack: Pack,
    at: WalkAt,
    runs: Seq<Run>,
    fused: bool,
) -> Plan {
    if at.fork_ok && k.fork {
        plan::either(
            Op::SideFork,
            gdn_body(d, w, k, pack, at, runs, fused, true),
            gdn_body(d, w, k, pack, at, runs, fused, false),
        )
    } else {
        gdn_body(d, w, k, pack, at, runs, fused, false)
    }
}

/// The recurrent mixer's pass.
pub open spec fn gdn_plan(
    d: Dims,
    w: GdnW,
    k: WalkKnobs,
    pack: Pack,
    p: DenseStage,
    at: WalkAt,
    runs: Seq<Run>,
) -> Plan {
    if at.n >= 2 && off_twin(k, p, at.n) && k.fuse_zq && w.zqkv {
        plan::either(
            Op::Pair {
                pair: PairId::GdnZQkv,
                x: Buf::Bi,
                ya: Buf::Zg,
                yb: Buf::Qkv,
                oa: d.gdn_z_rows,
                ob: d.gdn_qkv_rows,
                rows: at.n,
            },
            gdn_branch(d, w, k, pack, at, runs, true),
            gdn_branch(d, w, k, pack, at, runs, false),
        )
    } else {
        gdn_branch(d, w, k, pack, at, runs, false)
    }
}

/// What the pass computes with fits a machine word.
pub open spec fn gdn_fits(d: Dims, at: WalkAt, runs: Seq<Run>) -> bool {
    &&& 2 * d.gdn_v_heads <= usize::MAX
    &&& at.n * d.gdn_v_heads <= usize::MAX
    &&& at.phase == Phase::Prefill ==> window_fits(d, at.slot as int, at.n as int)
    &&& at.phase == Phase::PrefillRuns ==> forall|i: int|
        0 <= i < runs.len() ==> {
            let r = #[trigger] runs[i];
            r.off + r.len <= usize::MAX && window_fits(d, r.slot as int, r.off + r.len)
        }
    &&& at.slot * d.gdn_v_heads <= usize::MAX
    &&& at.slot * d.gdn_v_heads * d.gdn_k_dim <= usize::MAX
    &&& at.slot * d.gdn_v_heads * d.gdn_k_dim * d.gdn_k_dim <= usize::MAX
}

fn gate_inputs(d: &Dims, k: &WalkKnobs, n: usize) -> (p: Plan)
    requires
        2 * d.gdn_v_heads <= usize::MAX,
    ensures
        p == ab_plan(*d, *k, n),
{
    let out: usize = 2 * d.gdn_v_heads;
    let plain: Plan = Plan::Do(
        Op::Matvec {
            mat: MatId::GdnAb,
            first: 0,
            depth: d.hidden,
            out,
            x: Buf::Bi,
            y: Buf::Ab,
            rows: n,
        },
    );
    if n == 1 && k.sk_split >= 2 {
        attempt(
            Op::MatvecSplit {
                mat: MatId::GdnAb,
                depth: d.hidden,
                out,
                x: Buf::Bi,
                y: Buf::Ab,
                split: k.sk_split,
            },
            Plan::Skip,
            plain,
        )
    } else {
        plain
    }
}

fn side(d: &Dims, k: &WalkKnobs, n: usize, fused: bool, forked: bool) -> (p: Plan)
    requires
        2 * d.gdn_v_heads <= usize::MAX,
    ensures
        p == side_plan(*d, *k, n, fused, forked),
{
    let z: Plan = if_so(
        !fused,
        Plan::Do(Op::Matmul { plane: PlaneId::GdnZ, x: Buf::Bi, y: Buf::Zg, rows: n }),
    );
    let head: Plan = chain(z, gate_inputs(d, k, n));
    if forked {
        chain(head, chain(Plan::Do(Op::DeltaGates { rows: n }), Plan::Do(Op::SideEnd)))
    } else {
        head
    }
}

fn split(w: &GdnW, pack: &Pack, n: usize) -> (p: Plan)
    ensures
        p == split_plan(*w, *pack, n),
{
    if w.tiled_heads && !pack.tiled_split {
        Plan::Fail(Fault::NoTiledSplit)
    } else {
        Plan::Do(Op::SplitWiden { tiled: w.tiled_heads, rows: n })
    }
}

fn convolve(d: &Dims, w: &GdnW, pack: &Pack, at: &WalkAt, runs: &Vec<Run>, fused: bool) -> (p: Plan)
    requires
        gdn_fits(*d, *at, runs@),
    ensures
        p == conv_plan(*d, *w, *pack, *at, runs@, fused),
{
    let qkv: Plan = if_so(
        !fused,
        Plan::Do(Op::Matmul { plane: PlaneId::GdnQkv, x: Buf::Bi, y: Buf::Qkv, rows: at.n }),
    );
    let conv: Plan = match at.phase {
        Phase::Prefill => chain(
            chain(Plan::Do(Op::GdnConv { off: 0, rows: at.n }), window(d, at.slot, 0, at.n)),
            split(w, pack, at.n),
        ),
        Phase::PrefillRuns => chain(each_run(d, runs), split(w, pack, at.n)),
        Phase::Decode => chain(Plan::Do(Op::ConvStep), split(w, pack, at.n)),
        Phase::DecodeBatch => {
            let apart: Plan = chain(
                Plan::Do(Op::ConvStepSlots { rows: at.n }),
                split(w, pack, at.n),
            );
            if w.tiled_heads {
                apart
            } else {
                attempt(Op::ConvStepSplit { rows: at.n }, Plan::Skip, apart)
            }
        },
    };
    chain(qkv, conv)
}

fn recur(d: &Dims, k: &WalkKnobs, at: &WalkAt, runs: usize) -> (p: Plan)
    requires
        at.n * d.gdn_v_heads <= usize::MAX,
        at.slot * d.gdn_v_heads <= usize::MAX,
        at.slot * d.gdn_v_heads * d.gdn_k_dim <= usize::MAX,
        at.slot * d.gdn_v_heads * d.gdn_k_dim * d.gdn_k_dim <= usize::MAX,
    ensures
        p == recur_plan(*d, *k, *at, runs as nat),
{
    let norm: Plan = Plan::Do(Op::GatedNorm { rows: at.n * d.gdn_v_heads });
    match at.phase {
        Phase::PrefillRuns => {
            let plain: Plan = Plan::Do(Op::RecurRuns { runs });
            let walk: Plan = if k.dn_prenorm {
                attempt(Op::RecurRunsNorm { runs, rows: at.n }, Plan::Skip, plain)
            } else {
                plain
            };
            chain(walk, norm)
        },
        Phase::DecodeBatch => attempt(
            Op::RecurSlotsNorm { rows: at.n },
            Plan::Skip,
            chain(Plan::Do(Op::RecurSlots { rows: at.n }), norm),
        ),
        _ => {
            let state_off: usize = at.slot * d.gdn_v_heads * d.gdn_k_dim * d.gdn_k_dim;
            chain(Plan::Do(Op::RecurAt { state_off, rows: at.n }), norm)
        },
    }
}

fn body(
    d: &Dims,
    w: &GdnW,
    k: &WalkKnobs,
    pack: &Pack,
    at: &WalkAt,
    runs: &Vec<Run>,
    fused: bool,
    forked: bool,
) -> (p: Plan)
    requires
        gdn_fits(*d, *at, runs@),
    ensures
        p == gdn_body(*d, *w, *k, *pack, *at, runs@, fused, forked),
{
    let join: Op = if forked {
        Op::SideJoin
    } else {
        Op::DeltaGates { rows: at.n }
    };
    chain(
        chain(side(d, k, at.n, fused, forked), convolve(d, w, pack, at, runs, fused)),
        chain(
            chain(Plan::Do(join), recur(d, k, at, runs.len())),
            Plan::Do(Op::Matmul { plane: PlaneId::GdnOut, x: Buf::Core, y: Buf::Mix, rows: at.n }),
        ),
    )
}

fn branch(
    d: &Dims,
    w: &GdnW,
    k: &WalkKnobs,
    pack: &Pack,
    at: &WalkAt,
    runs: &Vec<Run>,
    fused: bool,
) -> (p: Plan)
    requires
        gdn_fits(*d, *at, runs@),
    ensures
        p == gdn_branch(*d, *w, *k, *pack, *at, runs@, fused),
{
    if at.fork_ok && k.fork {
        attempt(
            Op::SideFork,
            body(d, w, k, pack, at, runs, fused, true),
            body(d, w, k, pack, at, runs, fused, false),
        )
    } else {
        body(d, w, k, pack, at, runs, fused, false)
    }
}

/// The recurrent mixer's pass over the rows of a walk.
pub fn gdn_pass(
    d: &Dims,
    w: &GdnW,
    k: &WalkKnobs,
    pack: &Pack,
    p: &DenseStage,
    at: &WalkAt,
    runs: &Vec<Run>,
) -> (r: Plan)
    requires
        gdn_fits(*d, *at, runs@),
    ensures
        r == gdn_plan(*d, *w, *k, *pack, *p, *at, runs@),
{
    let twin: bool = p.f16_ok && at.n >= k.dense.f16_min && at.n <= p.f16_max;
    if at.n >= 2 && !twin && k.fuse_zq && w.zqkv {
        attempt(
            Op::Pair {
                pair: PairId::GdnZQkv,
                x: Buf::Bi,
                ya: Buf::Zg,
                yb: Buf::Qkv,
                oa: d.gdn_z_rows,
                ob: d.gdn_qkv_rows,
                rows: at.n,
            },
            branch(d, w, k, pack, at, runs, true),
            branch(d, w, k, pack, at, runs, false),
        )
    } else {
        branch(d, w, k, pack, at, runs, false)
    }
}

/// What the pass needs before it.
pub open spec fn gdn_live() -> Set<Buf> {
    set![
        Buf::Bi,
        Buf::Recur,
        Buf::GdnWin,
        Buf::Slots,
        Buf::RunOff,
        Buf::RunLen,
        Buf::RunSlot,
    ]
}

proof fn lemma_conv_runs(d: Dims, runs: Seq<Run>, i: int, live: Set<Buf>)
    requires
        live.contains(Buf::Qkv),
        0 <= i <= runs.len(),
    ensures
        plan::fed(conv_runs(d, runs, i), live),
        i < runs.len() ==> plan::written(conv_runs(d, runs, i)).contains(Buf::Conv),
    decreases runs.len() - i,
{
    reveal_with_fuel(plan::fed, 3);
    reveal_with_fuel(plan::written, 3);
    if i < runs.len() {
        let a = plan::then_(
            Plan::Do(Op::GdnConv { off: runs[i].off, rows: runs[i].len }),
            window_plan(d, runs[i].slot as int, runs[i].off as int, runs[i].len as int),
        );
        lemma_conv_runs(d, runs, i + 1, live.union(plan::written(a)));
    }
}

proof fn lemma_side(d: Dims, k: WalkKnobs, n: usize, fused: bool, forked: bool, live: Set<Buf>)
    requires
        live.contains(Buf::Bi),
    ensures
        ({
            let s = side_plan(d, k, n, fused, forked);
            &&& plan::fed(s, live)
            &&& plan::written(s).contains(Buf::Ab)
            &&& !fused ==> plan::written(s).contains(Buf::Zg)
            &&& forked ==> plan::written(s).contains(Buf::G) && plan::written(s).contains(Buf::Beta)
        }),
{
    reveal_with_fuel(plan::fed, 5);
    reveal_with_fuel(plan::written, 5);
}

proof fn lemma_conv(
    d: Dims,
    w: GdnW,
    pack: Pack,
    at: WalkAt,
    runs: Seq<Run>,
    fused: bool,
    live: Set<Buf>,
)
    requires
        live.contains(Buf::Bi),
        live.contains(Buf::GdnWin),
        live.contains(Buf::Slots),
        fused ==> live.contains(Buf::Qkv),
        at.phase == Phase::PrefillRuns ==> runs.len() > 0,
    ensures
        ({
            let c = conv_plan(d, w, pack, at, runs, fused);
            &&& plan::fed(c, live)
            &&& plan::written(c).contains(Buf::Dq)
            &&& plan::written(c).contains(Buf::Dk)
            &&& plan::written(c).contains(Buf::Dv)
        }),
{
    reveal_with_fuel(plan::fed, 5);
    reveal_with_fuel(plan::written, 5);
    let q = plan::when(
        !fused,
        Plan::Do(Op::Matmul { plane: PlaneId::GdnQkv, x: Buf::Bi, y: Buf::Qkv, rows: at.n }),
    );
    let more = live.union(plan::written(q));
    assert(more.contains(Buf::Qkv));
    lemma_conv_runs(d, runs, 0, more);
}

proof fn lemma_recur(d: Dims, k: WalkKnobs, at: WalkAt, runs: nat, live: Set<Buf>)
    requires
        live.contains(Buf::Dq),
        live.contains(Buf::Dk),
        live.contains(Buf::Dv),
        live.contains(Buf::G),
        live.contains(Buf::Beta),
        live.contains(Buf::Recur),
        live.contains(Buf::Zg),
        live.contains(Buf::Slots),
        live.contains(Buf::RunOff),
        live.contains(Buf::RunLen),
        live.contains(Buf::RunSlot),
    ensures
        plan::fed(recur_plan(d, k, at, runs), live),
        plan::written(recur_plan(d, k, at, runs)).contains(Buf::Core),
{
    reveal_with_fuel(plan::fed, 4);
    reveal_with_fuel(plan::written, 4);
}

proof fn lemma_body(
    d: Dims,
    w: GdnW,
    k: WalkKnobs,
    pack: Pack,
    at: WalkAt,
    runs: Seq<Run>,
    fused: bool,
    forked: bool,
    live: Set<Buf>,
)
    requires
        gdn_live().subset_of(live),
        fused ==> live.contains(Buf::Qkv) && live.contains(Buf::Zg),
        at.phase == Phase::PrefillRuns ==> runs.len() > 0,
    ensures
        plan::fed(gdn_body(d, w, k, pack, at, runs, fused, forked), live),
        plan::written(gdn_body(d, w, k, pack, at, runs, fused, forked)).contains(Buf::Mix),
{
    assert(gdn_live().contains(Buf::Bi));
    assert(gdn_live().contains(Buf::Recur));
    assert(gdn_live().contains(Buf::GdnWin));
    assert(gdn_live().contains(Buf::Slots));
    assert(gdn_live().contains(Buf::RunOff));
    assert(gdn_live().contains(Buf::RunLen));
    assert(gdn_live().contains(Buf::RunSlot));
    let s = side_plan(d, k, at.n, fused, forked);
    let c = conv_plan(d, w, pack, at, runs, fused);
    let j = Plan::Do(
        if forked {
            Op::SideJoin
        } else {
            Op::DeltaGates { rows: at.n }
        },
    );
    let r = recur_plan(d, k, at, runs.len());
    let o = Plan::Do(Op::Matmul { plane: PlaneId::GdnOut, x: Buf::Core, y: Buf::Mix, rows: at.n });
    let head = plan::then_(s, c);
    let tail = plan::then_(plan::then_(j, r), o);
    lemma_side(d, k, at.n, fused, forked, live);
    let l1 = live.union(plan::written(s));
    lemma_conv(d, w, pack, at, runs, fused, l1);
    assert(plan::written(head) == plan::written(s).union(plan::written(c)));
    let l2 = live.union(plan::written(head));
    assert(plan::written(j) == Set::new(
        |b: Buf|
            (if forked {
                Op::SideJoin
            } else {
                Op::DeltaGates { rows: at.n }
            }).writes(b),
    ));
    assert(plan::fed(j, l2));
    let l3 = l2.union(plan::written(j));
    lemma_recur(d, k, at, runs.len(), l3);
    assert(plan::fed(plan::then_(j, r), l2));
    assert(plan::written(plan::then_(j, r)) == plan::written(j).union(plan::written(r)));
    assert(plan::fed(o, l2.union(plan::written(plan::then_(j, r)))));
    assert(plan::written(o).contains(Buf::Mix));
    assert(plan::fed(head, live));
    assert(plan::fed(tail, l2));
    assert(plan::written(tail) == plan::written(plan::then_(j, r)).union(plan::written(o)));
}

proof fn lemma_branch(
    d: Dims,
    w: GdnW,
    k: WalkKnobs,
    pack: Pack,
    at: WalkAt,
    runs: Seq<Run>,
    fused: bool,
    live: Set<Buf>,
)
    requires
        gdn_live().subset_of(live),
        fused ==> live.contains(Buf::Qkv) && live.contains(Buf::Zg),
        at.phase == Phase::PrefillRuns ==> runs.len() > 0,
    ensures
        plan::fed(gdn_branch(d, w, k, pack, at, runs, fused), live),
        plan::written(gdn_branch(d, w, k, pack, at, runs, fused)).contains(Buf::Mix),
{
    let on = live.union(Set::new(|b: Buf| Op::SideFork.writes(b)));
    lemma_body(d, w, k, pack, at, runs, fused, false, live);
    lemma_body(d, w, k, pack, at, runs, fused, true, on);
}

/// Whatever declines, and whether or not the side stream opens, the recurrent mixer reads nothing
/// that is not there, and leaves the block's output. A wave has at least one run.
pub proof fn law_recurrence_feeds_its_output(
    d: Dims,
    w: GdnW,
    k: WalkKnobs,
    pack: Pack,
    p: DenseStage,
    at: WalkAt,
    runs: Seq<Run>,
)
    requires
        at.phase == Phase::PrefillRuns ==> runs.len() > 0,
    ensures
        plan::fed(gdn_plan(d, w, k, pack, p, at, runs), gdn_live()),
        plan::written(gdn_plan(d, w, k, pack, p, at, runs)).contains(Buf::Mix),
{
    let op = Op::Pair {
        pair: PairId::GdnZQkv,
        x: Buf::Bi,
        ya: Buf::Zg,
        yb: Buf::Qkv,
        oa: d.gdn_z_rows,
        ob: d.gdn_qkv_rows,
        rows: at.n,
    };
    let on = gdn_live().union(Set::new(|b: Buf| op.writes(b)));
    assert(on.contains(Buf::Qkv) && on.contains(Buf::Zg));
    lemma_branch(d, w, k, pack, at, runs, true, on);
    lemma_branch(d, w, k, pack, at, runs, false, gdn_live());
}

proof fn lemma_conv_runs_side(d: Dims, runs: Seq<Run>, i: int, s: plan::Side)
    requires
        0 <= i <= runs.len(),
    ensures
        plan::side_after(conv_runs(d, runs, i), s) == s,
    decreases runs.len() - i,
{
    reveal_with_fuel(plan::side_after, 3);
    if i < runs.len() {
        lemma_conv_runs_side(d, runs, i + 1, s);
    }
}

proof fn lemma_body_side(
    d: Dims,
    w: GdnW,
    k: WalkKnobs,
    pack: Pack,
    at: WalkAt,
    runs: Seq<Run>,
    fused: bool,
    forked: bool,
)
    requires
        w.tiled_heads ==> pack.tiled_split,
    ensures
        plan::side_after(
            gdn_body(d, w, k, pack, at, runs, fused, forked),
            if forked {
                plan::Side::Open
            } else {
                plan::Side::Closed
            },
        ) == plan::Side::Closed,
{
    let start = if forked {
        plan::Side::Open
    } else {
        plan::Side::Closed
    };
    let mid = if forked {
        plan::Side::Ended
    } else {
        plan::Side::Closed
    };
    lemma_side_side(d, k, at.n, fused, forked);
    lemma_conv_side(d, w, pack, at, runs, fused, mid);
    lemma_recur_side(d, k, at, runs.len());
    let a = side_plan(d, k, at.n, fused, forked);
    let b = conv_plan(d, w, pack, at, runs, fused);
    let j = Plan::Do(
        if forked {
            Op::SideJoin
        } else {
            Op::DeltaGates { rows: at.n }
        },
    );
    let r = recur_plan(d, k, at, runs.len());
    let o = Plan::Do(Op::Matmul { plane: PlaneId::GdnOut, x: Buf::Core, y: Buf::Mix, rows: at.n });
    assert(plan::side_after(plan::then_(a, b), start) == mid);
    assert(plan::side_after(j, mid) == plan::Side::Closed);
    assert(plan::side_after(plan::then_(j, r), mid) == plan::Side::Closed);
    assert(plan::side_after(o, plan::Side::Closed) == plan::Side::Closed);
    assert(plan::side_after(plan::then_(plan::then_(j, r), o), mid) == plan::Side::Closed);
}

proof fn lemma_side_side(d: Dims, k: WalkKnobs, n: usize, fused: bool, forked: bool)
    ensures
        plan::side_after(
            side_plan(d, k, n, fused, forked),
            if forked {
                plan::Side::Open
            } else {
                plan::Side::Closed
            },
        ) == (if forked {
            plan::Side::Ended
        } else {
            plan::Side::Closed
        }),
{
    reveal_with_fuel(plan::side_after, 5);
}

proof fn lemma_conv_side(
    d: Dims,
    w: GdnW,
    pack: Pack,
    at: WalkAt,
    runs: Seq<Run>,
    fused: bool,
    s: plan::Side,
)
    requires
        w.tiled_heads ==> pack.tiled_split,
    ensures
        plan::side_after(conv_plan(d, w, pack, at, runs, fused), s) == s,
{
    reveal_with_fuel(plan::side_after, 5);
    lemma_conv_runs_side(d, runs, 0, s);
}

proof fn lemma_recur_side(d: Dims, k: WalkKnobs, at: WalkAt, runs: nat)
    ensures
        plan::side_after(recur_plan(d, k, at, runs), plan::Side::Closed) == plan::Side::Closed,
{
    reveal_with_fuel(plan::side_after, 4);
}

/// A side stream that the recurrent mixer opens is ended once and joined once, on every path; where
/// it does not open, none is joined.
pub proof fn law_recurrence_joins_its_side(
    d: Dims,
    w: GdnW,
    k: WalkKnobs,
    pack: Pack,
    p: DenseStage,
    at: WalkAt,
    runs: Seq<Run>,
)
    requires
        w.tiled_heads ==> pack.tiled_split,
    ensures
        plan::side_after(gdn_plan(d, w, k, pack, p, at, runs), plan::Side::Closed)
            == plan::Side::Closed,
{
    reveal_with_fuel(plan::side_after, 3);
    lemma_body_side(d, w, k, pack, at, runs, true, true);
    lemma_body_side(d, w, k, pack, at, runs, true, false);
    lemma_body_side(d, w, k, pack, at, runs, false, true);
    lemma_body_side(d, w, k, pack, at, runs, false, false);
}

/// A slot's window behind a prompt whose rows are `off .. off + n` of `x`: its last rows, oldest
/// first, at the end of the slot's part.
pub open spec fn tail_kept(d: Dims, slot: int, off: int, n: int, win: Val, x: Val) -> Val {
    let taps = d.gdn_conv - 1;
    let w = d.gdn_qkv_rows;
    let kept = if n < taps {
        n
    } else {
        taps
    };
    meaning::of2(
        Fun::Moved(
            ((off + n - kept) * w) as usize,
            (slot * taps * w + (taps - kept) * w) as usize,
            (kept * w) as usize,
        ),
        win,
        x,
    )
}

/// The convolution of the runs from the `i`th on, each for itself, and the windows behind them.
pub open spec fn runs_convolved(d: Dims, runs: Seq<Run>, i: int, conv: Val, win: Val, x: Val) -> (
    Val,
    Val,
)
    decreases runs.len() - i,
{
    if i >= runs.len() {
        (conv, win)
    } else {
        let r = runs[i];
        runs_convolved(
            d,
            runs,
            i + 1,
            meaning::of2(Fun::Put(r.off, r.len), conv, meaning::of1(Fun::GdnConv(r.off, r.len), x)),
            tail_kept(d, r.slot as int, r.off as int, r.len as int, win, x),
            x,
        )
    }
}

/// The convolution over the rows of a pass, and the window that it leaves.
pub open spec fn convolved(c: Scene, s: State, x: Val) -> (Val, Val) {
    let (conv, win, slots) = (s.get(Buf::Conv), s.get(Buf::GdnWin), s.get(Buf::Slots));
    match c.at.phase {
        Phase::Prefill => (
            meaning::of2(Fun::Put(0, c.at.n), conv, meaning::of1(Fun::GdnConv(0, c.at.n), x)),
            tail_kept(c.d, c.at.slot as int, 0, c.at.n as int, win, x),
        ),
        Phase::PrefillRuns => runs_convolved(c.d, c.runs, 0, conv, win, x),
        Phase::Decode => (
            meaning::of2(Fun::StepConv, x, win),
            meaning::of2(Fun::StepWindow, x, win),
        ),
        Phase::DecodeBatch => (
            meaning::of3(Fun::SlotsConv, x, win, slots),
            meaning::of3(Fun::SlotsWindow, x, win, slots),
        ),
    }
}

/// The recurrence over the rows of a pass, and the state that it leaves.
pub open spec fn recurred(c: Scene, args: Seq<Val>) -> (Val, Val) {
    let at = (c.at.slot * c.d.gdn_v_heads * c.d.gdn_k_dim * c.d.gdn_k_dim) as usize;
    match c.at.phase {
        Phase::PrefillRuns => (
            Val::Of(Fun::RecurOutRuns(c.runs.len() as usize), args),
            Val::Of(Fun::RecurStateRuns(c.runs.len() as usize), args),
        ),
        Phase::DecodeBatch => (
            Val::Of(Fun::RecurOutSlots, args),
            Val::Of(Fun::RecurStateSlots, args),
        ),
        _ => (Val::Of(Fun::RecurOutAt(at), args), Val::Of(Fun::RecurStateAt(at), args)),
    }
}

/// What the recurrence takes: the heads of the convolution, the gates of the block's input, and the
/// state.
pub open spec fn recur_inputs(d: Dims, tiled: bool, conv: Val, bi: Val, state: Val) -> Seq<Val> {
    let ab = meaning::of1(
        Fun::MatRows(MatId::GdnAb, 0, d.hidden, (2 * d.gdn_v_heads) as usize),
        bi,
    );
    seq![
        meaning::of1(Fun::HeadQ(tiled), conv),
        meaning::of1(Fun::HeadK(tiled), conv),
        meaning::of1(Fun::HeadV(tiled), conv),
        meaning::of1(Fun::GateG, ab),
        meaning::of1(Fun::GateBeta, ab),
        state,
    ]
}

/// The recurrent mixer over the rows of a pass: its output, the state and the window it leaves.
pub open spec fn mixed_in(c: Scene, tiled: bool, s: State) -> (Val, Val, Val) {
    let bi = s.get(Buf::Bi);
    let x = meaning::of1(Fun::Product(PlaneId::GdnQkv), bi);
    let z = meaning::of1(Fun::Product(PlaneId::GdnZ), bi);
    let (conv, win) = convolved(c, s, x);
    let (out, state) = recurred(c, recur_inputs(c.d, tiled, conv, bi, s.get(Buf::Recur)));
    (
        meaning::of1(Fun::Product(PlaneId::GdnOut), meaning::of2(Fun::GatedNorm, out, z)),
        state,
        win,
    )
}

proof fn lemma_window_computes(
    c: Scene,
    slot: int,
    off: int,
    n: int,
    s: State,
    taken: spec_fn(Op) -> bool,
)
    requires
        0 <= off,
        0 <= n,
        c.d.gdn_conv >= 1,
        off + n <= usize::MAX,
    ensures
        meaning::run(c, window_plan(c.d, slot, off, n), s, taken) == s.set(
            Buf::GdnWin,
            tail_kept(c.d, slot, off, n, s.get(Buf::GdnWin), s.get(Buf::Qkv)),
        ),
{
    let km1 = c.d.gdn_conv - 1;
    let w = c.d.gdn_qkv_rows;
    if n >= km1 {
        assert((km1 - km1) * w == 0) by (nonlinear_arith);
        assert(0 * w == 0);
    }
}

/// The buffers that a convolution leaves alone.
pub open spec fn same_but_conv(s: State, t: State) -> bool {
    forall|b: Buf| #![trigger t.get(b)] #![trigger s.get(b)]
        b != Buf::Conv && b != Buf::GdnWin ==> t.get(b) == s.get(b)
}

proof fn lemma_runs_convolve(
    c: Scene,
    i: int,
    s: State,
    taken: spec_fn(Op) -> bool,
)
    requires
        0 <= i <= c.runs.len(),
        c.d.gdn_conv >= 1,
        forall|j: int| 0 <= j < c.runs.len() ==> (#[trigger] c.runs[j]).off + c.runs[j].len <= usize::MAX,
    ensures
        ({
            let t = meaning::run(c, conv_runs(c.d, c.runs, i), s, taken);
            let v = runs_convolved(
                c.d,
                c.runs,
                i,
                s.get(Buf::Conv),
                s.get(Buf::GdnWin),
                s.get(Buf::Qkv),
            );
            t.get(Buf::Conv) == v.0 && t.get(Buf::GdnWin) == v.1 && same_but_conv(s, t)
        }),
    decreases c.runs.len() - i,
{
    if i < c.runs.len() {
        let r = c.runs[i];
        let one = Plan::Do(Op::GdnConv { off: r.off, rows: r.len });
        let win = window_plan(c.d, r.slot as int, r.off as int, r.len as int);
        let s1 = meaning::run(c, one, s, taken);
        lemma_window_computes(c, r.slot as int, r.off as int, r.len as int, s1, taken);
        let s2 = meaning::run(c, win, s1, taken);
        assert(s2 == meaning::run(c, plan::then_(one, win), s, taken));
        lemma_runs_convolve(c, i + 1, s2, taken);
    }
}

/// What a pass's convolution leaves, out of `s`, in `t`.
pub open spec fn conv_left(c: Scene, w: GdnW, s: State, x: Val, t: State) -> bool {
    let (conv, win) = convolved(c, s, x);
    &&& t.get(Buf::Dq) == meaning::of1(Fun::HeadQ(w.tiled_heads), conv)
    &&& t.get(Buf::Dk) == meaning::of1(Fun::HeadK(w.tiled_heads), conv)
    &&& t.get(Buf::Dv) == meaning::of1(Fun::HeadV(w.tiled_heads), conv)
    &&& t.get(Buf::GdnWin) == win
    &&& t.get(Buf::Bi) == s.get(Buf::Bi)
    &&& t.get(Buf::Zg) == s.get(Buf::Zg)
    &&& t.get(Buf::Ab) == s.get(Buf::Ab)
    &&& t.get(Buf::G) == s.get(Buf::G)
    &&& t.get(Buf::Beta) == s.get(Buf::Beta)
    &&& t.get(Buf::Recur) == s.get(Buf::Recur)
}

proof fn lemma_prompt_convolves(
    c: Scene,
    w: GdnW,
    pack: Pack,
    s: State,
    taken: spec_fn(Op) -> bool,
)
    requires
        gdn_fits(c.d, c.at, c.runs),
        !(w.tiled_heads && !pack.tiled_split),
        c.at.phase == Phase::Prefill,
    ensures
        ({
            let one = Plan::Do(Op::GdnConv { off: 0, rows: c.at.n });
            let win = window_plan(c.d, c.at.slot as int, 0, c.at.n as int);
            let p = plan::then_(plan::then_(one, win), split_plan(w, pack, c.at.n));
            conv_left(c, w, s, s.get(Buf::Qkv), meaning::run(c, p, s, taken))
        }),
{
    let split = split_plan(w, pack, c.at.n);
    let one = Plan::Do(Op::GdnConv { off: 0, rows: c.at.n });
    let win = window_plan(c.d, c.at.slot as int, 0, c.at.n as int);
    let s2 = meaning::run(c, one, s, taken);
    lemma_window_computes(c, c.at.slot as int, 0, c.at.n as int, s2, taken);
    let s3 = meaning::run(c, win, s2, taken);
    assert(s3 == meaning::run(c, plan::then_(one, win), s, taken));
    let s4 = meaning::run(c, split, s3, taken);
    assert(s4 == meaning::run(c, plan::then_(plan::then_(one, win), split), s, taken));
}

proof fn lemma_wave_convolves(
    c: Scene,
    w: GdnW,
    pack: Pack,
    s: State,
    taken: spec_fn(Op) -> bool,
)
    requires
        gdn_fits(c.d, c.at, c.runs),
        !(w.tiled_heads && !pack.tiled_split),
        c.at.phase == Phase::PrefillRuns,
        c.runs.len() > 0,
    ensures
        ({
            let p = plan::then_(conv_runs(c.d, c.runs, 0), split_plan(w, pack, c.at.n));
            conv_left(c, w, s, s.get(Buf::Qkv), meaning::run(c, p, s, taken))
        }),
{
    assert(window_fits(c.d, c.runs[0].slot as int, c.runs[0].off + c.runs[0].len));
    lemma_runs_convolve(c, 0, s, taken);
    let all = conv_runs(c.d, c.runs, 0);
    let split = split_plan(w, pack, c.at.n);
    let s3 = meaning::run(c, all, s, taken);
    let s4 = meaning::run(c, split, s3, taken);
    assert(s4 == meaning::run(c, plan::then_(all, split), s, taken));
}

proof fn lemma_steps_convolve(
    c: Scene,
    w: GdnW,
    pack: Pack,
    s: State,
    taken: spec_fn(Op) -> bool,
)
    requires
        !(w.tiled_heads && !pack.tiled_split),
    ensures
        ({
            let split = split_plan(w, pack, c.at.n);
            let p = plan::then_(Plan::Do(Op::ConvStep), split);
            c.at.phase == Phase::Decode ==> conv_left(
                c,
                w,
                s,
                s.get(Buf::Qkv),
                meaning::run(c, p, s, taken),
            )
        }),
        ({
            let split = split_plan(w, pack, c.at.n);
            let p = plan::then_(Plan::Do(Op::ConvStepSlots { rows: c.at.n }), split);
            let q = plan::either(Op::ConvStepSplit { rows: c.at.n }, Plan::Skip, p);
            c.at.phase == Phase::DecodeBatch ==> {
                &&& conv_left(c, w, s, s.get(Buf::Qkv), meaning::run(c, p, s, taken))
                &&& !w.tiled_heads ==> conv_left(
                    c,
                    w,
                    s,
                    s.get(Buf::Qkv),
                    meaning::run(c, q, s, taken),
                )
            }
        }),
{
    reveal_with_fuel(meaning::run, 3);
}

proof fn lemma_conv_computes(
    c: Scene,
    w: GdnW,
    pack: Pack,
    s: State,
    fused: bool,
    taken: spec_fn(Op) -> bool,
)
    requires
        gdn_fits(c.d, c.at, c.runs),
        !(w.tiled_heads && !pack.tiled_split),
        c.at.phase == Phase::PrefillRuns ==> c.runs.len() > 0,
        fused ==> s.get(Buf::Qkv) == meaning::of1(Fun::Product(PlaneId::GdnQkv), s.get(Buf::Bi)),
    ensures
        conv_left(
            c,
            w,
            s,
            meaning::of1(Fun::Product(PlaneId::GdnQkv), s.get(Buf::Bi)),
            meaning::run(c, conv_plan(c.d, w, pack, c.at, c.runs, fused), s, taken),
        ),
{
    let proj = plan::when(
        !fused,
        Plan::Do(Op::Matmul { plane: PlaneId::GdnQkv, x: Buf::Bi, y: Buf::Qkv, rows: c.at.n }),
    );
    let s1 = meaning::run(c, proj, s, taken);
    let x = s1.get(Buf::Qkv);
    assert(x == meaning::of1(Fun::Product(PlaneId::GdnQkv), s.get(Buf::Bi)));
    assert(convolved(c, s1, x) == convolved(c, s, x));
    match c.at.phase {
        Phase::Prefill => {
            lemma_prompt_convolves(c, w, pack, s1, taken);
        },
        Phase::PrefillRuns => {
            lemma_wave_convolves(c, w, pack, s1, taken);
        },
        _ => {
            lemma_steps_convolve(c, w, pack, s1, taken);
        },
    }
}

proof fn lemma_recur_computes(
    c: Scene,
    k: WalkKnobs,
    s: State,
    taken: spec_fn(Op) -> bool,
)
    requires
        gdn_fits(c.d, c.at, c.runs),
        c.runs.len() <= usize::MAX,
    ensures
        ({
            let t = meaning::run(c, recur_plan(c.d, k, c.at, c.runs.len()), s, taken);
            let (out, state) = recurred(c, meaning::recur_args(s));
            &&& t.get(Buf::Core) == meaning::of2(Fun::GatedNorm, out, s.get(Buf::Zg))
            &&& t.get(Buf::Recur) == state
            &&& t.get(Buf::GdnWin) == s.get(Buf::GdnWin)
        }),
{
    reveal_with_fuel(meaning::run, 4);
}

proof fn lemma_side_computes(
    c: Scene,
    k: WalkKnobs,
    s: State,
    fused: bool,
    forked: bool,
    taken: spec_fn(Op) -> bool,
)
    requires
        gdn_fits(c.d, c.at, c.runs),
        fused ==> s.get(Buf::Zg) == meaning::of1(Fun::Product(PlaneId::GdnZ), s.get(Buf::Bi)),
    ensures
        ({
            let t = meaning::run(c, side_plan(c.d, k, c.at.n, fused, forked), s, taken);
            let ab = meaning::of1(
                Fun::MatRows(MatId::GdnAb, 0, c.d.hidden, (2 * c.d.gdn_v_heads) as usize),
                s.get(Buf::Bi),
            );
            &&& t.get(Buf::Zg) == meaning::of1(Fun::Product(PlaneId::GdnZ), s.get(Buf::Bi))
            &&& t.get(Buf::Ab) == ab
            &&& forked ==> t.get(Buf::G) == meaning::of1(Fun::GateG, ab)
            &&& forked ==> t.get(Buf::Beta) == meaning::of1(Fun::GateBeta, ab)
            &&& t.get(Buf::Bi) == s.get(Buf::Bi)
            &&& t.get(Buf::Qkv) == s.get(Buf::Qkv)
            &&& t.get(Buf::Conv) == s.get(Buf::Conv)
            &&& t.get(Buf::GdnWin) == s.get(Buf::GdnWin)
            &&& t.get(Buf::Slots) == s.get(Buf::Slots)
            &&& t.get(Buf::Recur) == s.get(Buf::Recur)
        }),
{
    reveal_with_fuel(meaning::run, 5);
}

proof fn lemma_body_computes(
    c: Scene,
    w: GdnW,
    k: WalkKnobs,
    pack: Pack,
    s: State,
    fused: bool,
    forked: bool,
    taken: spec_fn(Op) -> bool,
)
    requires
        gdn_fits(c.d, c.at, c.runs),
        !(w.tiled_heads && !pack.tiled_split),
        c.at.phase == Phase::PrefillRuns ==> c.runs.len() > 0,
        c.runs.len() <= usize::MAX,
        fused ==> s.get(Buf::Zg) == meaning::of1(Fun::Product(PlaneId::GdnZ), s.get(Buf::Bi)),
        fused ==> s.get(Buf::Qkv) == meaning::of1(Fun::Product(PlaneId::GdnQkv), s.get(Buf::Bi)),
    ensures
        ({
            let t = meaning::run(
                c,
                gdn_body(c.d, w, k, pack, c.at, c.runs, fused, forked),
                s,
                taken,
            );
            let v = mixed_in(c, w.tiled_heads, s);
            t.get(Buf::Mix) == v.0 && t.get(Buf::Recur) == v.1 && t.get(Buf::GdnWin) == v.2
        }),
{
    let side = side_plan(c.d, k, c.at.n, fused, forked);
    let conv = conv_plan(c.d, w, pack, c.at, c.runs, fused);
    let gate = Plan::Do(
        if forked {
            Op::SideJoin
        } else {
            Op::DeltaGates { rows: c.at.n }
        },
    );
    let recur = recur_plan(c.d, k, c.at, c.runs.len());
    let out = Plan::Do(
        Op::Matmul { plane: PlaneId::GdnOut, x: Buf::Core, y: Buf::Mix, rows: c.at.n },
    );
    lemma_side_computes(c, k, s, fused, forked, taken);
    let s1 = meaning::run(c, side, s, taken);
    lemma_conv_computes(c, w, pack, s1, fused, taken);
    let s2 = meaning::run(c, conv, s1, taken);
    let s3 = meaning::run(c, gate, s2, taken);
    lemma_recur_computes(c, k, s3, taken);
    let s4 = meaning::run(c, recur, s3, taken);
    let s5 = meaning::run(c, out, s4, taken);
    assert(s2 == meaning::run(c, plan::then_(side, conv), s, taken));
    assert(s4 == meaning::run(c, plan::then_(gate, recur), s2, taken));
    assert(s5 == meaning::run(c, plan::then_(plan::then_(gate, recur), out), s2, taken));
    let x = meaning::of1(Fun::Product(PlaneId::GdnQkv), s.get(Buf::Bi));
    assert(convolved(c, s1, x) == convolved(c, s, x));
    let (cv, _) = convolved(c, s, x);
    assert(meaning::recur_args(s3) == recur_inputs(
        c.d,
        w.tiled_heads,
        cv,
        s.get(Buf::Bi),
        s.get(Buf::Recur),
    ));
}

/// Every path of the recurrent pass computes the same, fused or apart, forked or not, whatever
/// declines: the recurrence over the convolved heads and the gates of the block's input, normed by
/// its gate and projected; the state moves on, and the window keeps the rows that the next
/// convolution reads.
pub proof fn law_recurrence_computes_one_thing(
    d: Dims,
    w: GdnW,
    k: WalkKnobs,
    pack: Pack,
    p: DenseStage,
    at: WalkAt,
    max_ctx: usize,
    runs: Seq<Run>,
    s: State,
    taken: spec_fn(Op) -> bool,
)
    requires
        gdn_fits(d, at, runs),
        at.phase == Phase::PrefillRuns ==> runs.len() > 0,
        runs.len() <= usize::MAX,
        w.tiled_heads ==> pack.tiled_split,
    ensures
        ({
            let c = Scene { d, at, max_ctx, runs };
            let t = meaning::run(c, gdn_plan(d, w, k, pack, p, at, runs), s, taken);
            let v = mixed_in(c, w.tiled_heads, s);
            t.get(Buf::Mix) == v.0 && t.get(Buf::Recur) == v.1 && t.get(Buf::GdnWin) == v.2
        }),
{
    let c = Scene { d, at, max_ctx, runs };
    let fusing = at.n >= 2 && off_twin(k, p, at.n) && k.fuse_zq && w.zqkv;
    let pair = Op::Pair {
        pair: PairId::GdnZQkv,
        x: Buf::Bi,
        ya: Buf::Zg,
        yb: Buf::Qkv,
        oa: d.gdn_z_rows,
        ob: d.gdn_qkv_rows,
        rows: at.n,
    };
    let fused = fusing && taken(pair);
    let s1 = if fused {
        meaning::step(c, pair, s)
    } else {
        s
    };
    let x = meaning::of1(Fun::Product(PlaneId::GdnQkv), s.get(Buf::Bi));
    assert(convolved(c, s1, x) == convolved(c, s, x));
    assert(mixed_in(c, w.tiled_heads, s1) == mixed_in(c, w.tiled_heads, s));
    lemma_body_computes(c, w, k, pack, s1, fused, true, taken);
    lemma_body_computes(c, w, k, pack, s1, fused, false, taken);
    let b = gdn_branch(d, w, k, pack, at, runs, fused);
    let s2 = meaning::run(c, b, s1, taken);
    assert(meaning::step(c, Op::SideFork, s1) == s1);
    assert(s2 == meaning::run(c, gdn_body(d, w, k, pack, at, runs, fused, true), s1, taken) || s2
        == meaning::run(c, gdn_body(d, w, k, pack, at, runs, fused, false), s1, taken));
    assert(meaning::run(c, gdn_plan(d, w, k, pack, p, at, runs), s, taken) == s2);
}

proof fn lemma_runs_never_fail(d: Dims, runs: Seq<Run>, i: int, taken: spec_fn(Op) -> bool)
    ensures
        !meaning::fails(conv_runs(d, runs, i), taken),
    decreases runs.len() - i,
{
    reveal_with_fuel(meaning::fails, 4);
    if i < runs.len() {
        lemma_runs_never_fail(d, runs, i + 1, taken);
    }
}

/// The recurrent pass fails exactly where heads are tiled that the kernel pack cannot split,
/// whatever declines.
pub proof fn law_recurrence_fails_only_on_tiled_heads(
    d: Dims,
    w: GdnW,
    k: WalkKnobs,
    pack: Pack,
    p: DenseStage,
    at: WalkAt,
    runs: Seq<Run>,
    taken: spec_fn(Op) -> bool,
)
    ensures
        meaning::fails(gdn_plan(d, w, k, pack, p, at, runs), taken) <==> w.tiled_heads
            && !pack.tiled_split,
{
    lemma_runs_never_fail(d, runs, 0, taken);
    lemma_body_fails(d, w, k, pack, at, runs, true, true, taken);
    lemma_body_fails(d, w, k, pack, at, runs, true, false, taken);
    lemma_body_fails(d, w, k, pack, at, runs, false, true, taken);
    lemma_body_fails(d, w, k, pack, at, runs, false, false, taken);
    reveal_with_fuel(meaning::fails, 3);
}

proof fn lemma_body_fails(
    d: Dims,
    w: GdnW,
    k: WalkKnobs,
    pack: Pack,
    at: WalkAt,
    runs: Seq<Run>,
    fused: bool,
    forked: bool,
    taken: spec_fn(Op) -> bool,
)
    ensures
        meaning::fails(gdn_body(d, w, k, pack, at, runs, fused, forked), taken) <==> w.tiled_heads
            && !pack.tiled_split,
{
    lemma_runs_never_fail(d, runs, 0, taken);
    reveal_with_fuel(meaning::fails, 8);
}

proof fn lemma_runs_touch(d: Dims, runs: Seq<Run>, i: int, b: Buf)
    requires
        b == Buf::H || b == Buf::M || b == Buf::Inj,
    ensures
        !meaning::touches(conv_runs(d, runs, i), b),
    decreases runs.len() - i,
{
    reveal_with_fuel(meaning::touches, 4);
    if i < runs.len() {
        lemma_runs_touch(d, runs, i + 1, b);
    }
}

proof fn lemma_body_touches(
    d: Dims,
    w: GdnW,
    k: WalkKnobs,
    pack: Pack,
    at: WalkAt,
    runs: Seq<Run>,
    fused: bool,
    forked: bool,
    b: Buf,
)
    requires
        b == Buf::H || b == Buf::M || b == Buf::Inj,
    ensures
        !meaning::touches(gdn_body(d, w, k, pack, at, runs, fused, forked), b),
{
    lemma_runs_touch(d, runs, 0, b);
    reveal_with_fuel(meaning::touches, 8);
}

/// The recurrent pass leaves the state, the low-rank rows and the inject logits of its mix alone.
pub proof fn law_recurrence_keeps_the_mix(
    d: Dims,
    w: GdnW,
    k: WalkKnobs,
    pack: Pack,
    p: DenseStage,
    at: WalkAt,
    runs: Seq<Run>,
    b: Buf,
)
    requires
        b == Buf::H || b == Buf::M || b == Buf::Inj,
    ensures
        !meaning::touches(gdn_plan(d, w, k, pack, p, at, runs), b),
{
    lemma_body_touches(d, w, k, pack, at, runs, true, true, b);
    lemma_body_touches(d, w, k, pack, at, runs, true, false, b);
    lemma_body_touches(d, w, k, pack, at, runs, false, true, b);
    lemma_body_touches(d, w, k, pack, at, runs, false, false, b);
    reveal_with_fuel(meaning::touches, 3);
}

proof fn lemma_runs_name(d: Dims, runs: Seq<Run>, i: int, op: Op)
    requires
        !(op is GdnConv),
        !(op is Copy),
    ensures
        !meaning::names(conv_runs(d, runs, i), op),
    decreases runs.len() - i,
{
    reveal_with_fuel(meaning::names, 4);
    if i < runs.len() {
        lemma_runs_name(d, runs, i + 1, op);
    }
}

proof fn lemma_body_names(
    d: Dims,
    w: GdnW,
    k: WalkKnobs,
    pack: Pack,
    at: WalkAt,
    runs: Seq<Run>,
    fused: bool,
    forked: bool,
    op: Op,
)
    requires
        !(op is GdnConv),
        !(op is Copy),
    ensures
        ({
            let q = gdn_body(d, w, k, pack, at, runs, fused, forked);
            &&& op is Pair || op is SideFork ==> !meaning::names(q, op)
            &&& op is MatvecSplit && meaning::names(q, op) ==> at.n == 1 && k.sk_split >= 2
            &&& at.n == 1 && k.sk_split >= 2 ==> meaning::names(
                q,
                Op::MatvecSplit {
                    mat: MatId::GdnAb,
                    depth: d.hidden,
                    out: (2 * d.gdn_v_heads) as usize,
                    x: Buf::Bi,
                    y: Buf::Ab,
                    split: k.sk_split,
                },
            )
            &&& op is ConvStepSplit && meaning::names(q, op) ==> at.phase == Phase::DecodeBatch
                && !w.tiled_heads
            &&& at.phase == Phase::DecodeBatch && !w.tiled_heads ==> meaning::names(
                q,
                Op::ConvStepSplit { rows: at.n },
            )
            &&& op is RecurRunsNorm && meaning::names(q, op) ==> at.phase == Phase::PrefillRuns
                && k.dn_prenorm
            &&& op is RecurSlotsNorm && meaning::names(q, op) ==> at.phase == Phase::DecodeBatch
            &&& op is RecurSlots && meaning::names(q, op) ==> at.phase == Phase::DecodeBatch
            &&& op is RecurRuns && meaning::names(q, op) ==> at.phase == Phase::PrefillRuns
            &&& at.phase == Phase::PrefillRuns && k.dn_prenorm ==> meaning::names(
                q,
                Op::RecurRunsNorm { runs: runs.len() as usize, rows: at.n },
            )
        }),
{
    lemma_runs_name(d, runs, 0, op);
    reveal_with_fuel(meaning::names, 8);
}

/// The fused projection, the side stream, the split products and the folded steps are launched
/// where they may be, and nowhere else.
pub proof fn law_recurrence_offers_what_it_may(
    d: Dims,
    w: GdnW,
    k: WalkKnobs,
    pack: Pack,
    p: DenseStage,
    at: WalkAt,
    runs: Seq<Run>,
    op: Op,
)
    requires
        !(op is GdnConv),
        !(op is Copy),
    ensures
        ({
            let q = gdn_plan(d, w, k, pack, p, at, runs);
            let fuses = at.n >= 2 && k.fuse_zq && w.zqkv && (!p.f16_ok || at.n < k.dense.f16_min
                || at.n > p.f16_max);
            &&& op is Pair && meaning::names(q, op) ==> fuses
            &&& fuses ==> meaning::names(
                q,
                Op::Pair {
                    pair: PairId::GdnZQkv,
                    x: Buf::Bi,
                    ya: Buf::Zg,
                    yb: Buf::Qkv,
                    oa: d.gdn_z_rows,
                    ob: d.gdn_qkv_rows,
                    rows: at.n,
                },
            )
            &&& meaning::names(q, Op::SideFork) <==> at.fork_ok && k.fork
            &&& op is MatvecSplit && meaning::names(q, op) ==> at.n == 1 && k.sk_split >= 2
            &&& op is ConvStepSplit && meaning::names(q, op) ==> at.phase == Phase::DecodeBatch
                && !w.tiled_heads
            &&& at.phase == Phase::DecodeBatch && !w.tiled_heads ==> meaning::names(
                q,
                Op::ConvStepSplit { rows: at.n },
            )
            &&& op is RecurRunsNorm && meaning::names(q, op) ==> at.phase == Phase::PrefillRuns
                && k.dn_prenorm
            &&& op is RecurSlotsNorm && meaning::names(q, op) ==> at.phase == Phase::DecodeBatch
        }),
{
    lemma_body_names(d, w, k, pack, at, runs, true, true, op);
    lemma_body_names(d, w, k, pack, at, runs, true, false, op);
    lemma_body_names(d, w, k, pack, at, runs, false, true, op);
    lemma_body_names(d, w, k, pack, at, runs, false, false, op);
    lemma_body_names(d, w, k, pack, at, runs, true, true, Op::SideFork);
    lemma_body_names(d, w, k, pack, at, runs, true, false, Op::SideFork);
    lemma_body_names(d, w, k, pack, at, runs, false, true, Op::SideFork);
    lemma_body_names(d, w, k, pack, at, runs, false, false, Op::SideFork);
    reveal_with_fuel(meaning::names, 3);
}

} // verus!
