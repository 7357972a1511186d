//! The hyper-connection mix: what a block reads out of the streams, and how its result goes back in.
use crate::qwen4exp::config::Dims;
use crate::qwen4exp::dense::{DenseKnobs, DensePlane};
use crate::qwen4exp::meaning;
use crate::qwen4exp::meaning::{Fun, Scene, State, Val};
use crate::qwen4exp::plan;
use crate::qwen4exp::plan::{attempt, chain, if_so, Buf, Fault, HcId, MatId, NormId, Op, Plan, PlaneId};
use vstd::prelude::*;

verus! {

/// One mix's planes.
#[derive(Debug, Clone, Copy, PartialEq, Eq, Structural)]
pub struct HcW {
    pub down: DensePlane,
    pub up: DensePlane,
    /// inject rows behind the low-rank rows of `down`, or zero
    pub inject_rows: usize,
    /// the up projection is also held in the order of the fused mix
    pub up_fused: bool,
}

/// Where a mix left its inject logits: behind the low-rank output, or in a plane of their own.
#[derive(Debug, Clone, Copy, PartialEq, Eq, Structural)]
pub enum Inj {
    InM(usize),
    Separate,
}

/// The product of the plane's two segments, or of each in turn.
pub open spec fn two_segments(d: Dims, w: HcW, id: HcId, k: DenseKnobs, n: usize) -> Plan {
    let plane = PlaneId::HcDown(id);
    let (lr, hc) = (d.hc_lowrank, d.hc_count);
    let rows = match w.down {
        DensePlane::F8Row { .. } => Plan::Fail(Fault::NoFoldedRows),
        DensePlane::Kq { .. } => Plan::Fail(Fault::NoFoldedRows),
        _ => plan::then_(
            Plan::Do(Op::MatmulRows { plane, first: 0, out: lr, x: Buf::Xn, y: Buf::M, rows: n }),
            Plan::Do(Op::MatmulRows { plane, first: lr, out: hc, x: Buf::Xn, y: Buf::Inj, rows: n }),
        ),
    };
    let tiled = plan::either(
        Op::Matmul2Seg {
            plane,
            x: Buf::Xn,
            ya: Buf::M,
            yb: Buf::Inj,
            oa: lr,
            ob: hc,
            rows: n,
        },
        Plan::Skip,
        rows,
    );
    if !w.down.holds_bf16() {
        rows
    } else if n >= 2 && k.mrow && w.down.out_dim() <= k.mrow_max_out {
        plan::either(
            Op::MatmulMrow { plane, x: Buf::Xn, ya: Buf::M, yb: Buf::Inj, oa: lr, rows: n },
            Plan::Skip,
            tiled,
        )
    } else {
        tiled
    }
}

/// The low-rank product with its scale and silu.
pub open spec fn low_rank(d: Dims, w: HcW, id: HcId, k: DenseKnobs, n: usize) -> Plan {
    let plane = PlaneId::HcDown(id);
    let plain = plan::then_(
        Plan::Do(Op::Matmul { plane, x: Buf::Xn, y: Buf::M, rows: n }),
        Plan::Do(Op::ScaleSilu { len: (n * d.hc_lowrank) as usize }),
    );
    if n == 1 && k.fuse_silu && w.down.holds_bf16() {
        plan::either(
            Op::MatmulSilu { plane, x: Buf::Xn, y: Buf::M, silu_rows: d.hc_lowrank },
            Plan::Skip,
            plain,
        )
    } else {
        plain
    }
}

/// The up projection and the mix.
pub open spec fn raise(w: HcW, id: HcId, fuse_upmix: bool, n: usize) -> Plan {
    let plain = plan::then_(
        Plan::Do(Op::Matmul { plane: PlaneId::HcUp(id), x: Buf::M, y: Buf::Gate, rows: n }),
        Plan::Do(Op::HcMix { rows: n }),
    );
    if n == 1 && fuse_upmix && w.up.holds_bf16() {
        plan::either(Op::UpMixGemv { id }, Plan::Skip, plain)
    } else {
        plain
    }
}

/// The norm of the state, where the combine before did not leave it.
pub open spec fn norm_first(id: HcId, n: usize, pre_normed: bool) -> Plan {
    plan::when(
        !pre_normed,
        Plan::Do(Op::GroupNorm { norm: NormId::Hc(id), src: Buf::H, dst: Buf::Xn, rows: n }),
    )
}

/// The projections of a mix.
pub open spec fn project(d: Dims, w: HcW, id: HcId, k: DenseKnobs, n: usize) -> Plan {
    let silu = Plan::Do(Op::ScaleSilu { len: (n * d.hc_lowrank) as usize });
    if w.inject_rows > 0 && n == 1 {
        low_rank(d, w, id, k, n)
    } else if w.inject_rows > 0 {
        plan::then_(two_segments(d, w, id, k, n), silu)
    } else {
        plan::then_(
            plan::then_(
                Plan::Do(
                    Op::Matmul { plane: PlaneId::HcDown(id), x: Buf::Xn, y: Buf::M, rows: n },
                ),
                Plan::Do(
                    Op::Matvec {
                        mat: MatId::Inject(id),
                        first: 0,
                        depth: (d.hc_count * d.hidden) as usize,
                        out: d.hc_count,
                        x: Buf::Xn,
                        y: Buf::Inj,
                        rows: n,
                    },
                ),
            ),
            silu,
        )
    }
}

/// One mix: norm, low-rank projection, scale and silu, up projection, mix.
pub open spec fn mix_plan(
    d: Dims,
    w: HcW,
    id: HcId,
    k: DenseKnobs,
    fuse_upmix: bool,
    n: usize,
    pre_normed: bool,
) -> Plan {
    let up = raise(w, id, fuse_upmix, n);
    plan::then_(
        plan::then_(norm_first(id, n, pre_normed), project(d, w, id, k, n)),
        if w.up_fused && 2 <= n <= 32 {
            plan::either(Op::UpMixGemm { id, rows: n }, Plan::Skip, up)
        } else {
            up
        },
    )
}

/// Where a mix leaves its inject logits.
pub open spec fn mix_inj(d: Dims, w: HcW, n: usize) -> Inj {
    if w.inject_rows > 0 && n == 1 {
        Inj::InM(d.hc_lowrank)
    } else {
        Inj::Separate
    }
}

fn rows_in_turn(d: &Dims, w: &HcW, id: HcId, n: usize) -> (p: Plan)
    ensures
        p == (match w.down {
            DensePlane::F8Row { .. } => Plan::Fail(Fault::NoFoldedRows),
            DensePlane::Kq { .. } => Plan::Fail(Fault::NoFoldedRows),
            _ => plan::then_(
                Plan::Do(
                    Op::MatmulRows {
                        plane: PlaneId::HcDown(id),
                        first: 0,
                        out: d.hc_lowrank,
                        x: Buf::Xn,
                        y: Buf::M,
                        rows: n,
                    },
                ),
                Plan::Do(
                    Op::MatmulRows {
                        plane: PlaneId::HcDown(id),
                        first: d.hc_lowrank,
                        out: d.hc_count,
                        x: Buf::Xn,
                        y: Buf::Inj,
                        rows: n,
                    },
                ),
            ),
        }),
{
    let plane = PlaneId::HcDown(id);
    match w.down {
        DensePlane::F8Row { .. } => Plan::Fail(Fault::NoFoldedRows),
        DensePlane::Kq { .. } => Plan::Fail(Fault::NoFoldedRows),
        _ => chain(
            Plan::Do(
                Op::MatmulRows {
                    plane,
                    first: 0,
                    out: d.hc_lowrank,
                    x: Buf::Xn,
                    y: Buf::M,
                    rows: n,
                },
            ),
            Plan::Do(
                Op::MatmulRows {
                    plane,
                    first: d.hc_lowrank,
                    out: d.hc_count,
                    x: Buf::Xn,
                    y: Buf::Inj,
                    rows: n,
                },
            ),
        ),
    }
}

fn segments(d: &Dims, w: &HcW, id: HcId, k: &DenseKnobs, n: usize) -> (p: Plan)
    ensures
        p == two_segments(*d, *w, id, *k, n),
{
    let plane = PlaneId::HcDown(id);
    let rows: Plan = rows_in_turn(d, w, id, n);
    if !w.down.raw_bf16() {
        return rows;
    }
    let tiled: Plan = attempt(
        Op::Matmul2Seg {
            plane,
            x: Buf::Xn,
            ya: Buf::M,
            yb: Buf::Inj,
            oa: d.hc_lowrank,
            ob: d.hc_count,
            rows: n,
        },
        Plan::Skip,
        rows,
    );
    let arms = w.down.matmul_2seg(k, n);
    if arms.len() == 2 {
        attempt(
            Op::MatmulMrow {
                plane,
                x: Buf::Xn,
                ya: Buf::M,
                yb: Buf::Inj,
                oa: d.hc_lowrank,
                rows: n,
            },
            Plan::Skip,
            tiled,
        )
    } else {
        tiled
    }
}

fn lower(d: &Dims, w: &HcW, id: HcId, k: &DenseKnobs, n: usize) -> (p: Plan)
    requires
        n * d.hc_lowrank <= usize::MAX,
    ensures
        p == low_rank(*d, *w, id, *k, n),
{
    let plane = PlaneId::HcDown(id);
    let plain: Plan = chain(
        Plan::Do(Op::Matmul { plane, x: Buf::Xn, y: Buf::M, rows: n }),
        Plan::Do(Op::ScaleSilu { len: n * d.hc_lowrank }),
    );
    if w.down.matmul_silu(k, n) {
        attempt(
            Op::MatmulSilu { plane, x: Buf::Xn, y: Buf::M, silu_rows: d.hc_lowrank },
            Plan::Skip,
            plain,
        )
    } else {
        plain
    }
}

fn lift(w: &HcW, id: HcId, fuse_upmix: bool, n: usize) -> (p: Plan)
    ensures
        p == raise(*w, id, fuse_upmix, n),
{
    let plain: Plan = chain(
        Plan::Do(Op::Matmul { plane: PlaneId::HcUp(id), x: Buf::M, y: Buf::Gate, rows: n }),
        Plan::Do(Op::HcMix { rows: n }),
    );
    if n == 1 && fuse_upmix && w.up.raw_bf16() {
        attempt(Op::UpMixGemv { id }, Plan::Skip, plain)
    } else {
        plain
    }
}

/// One mix over `n` rows, and where it leaves its inject logits.
pub fn hc_mix_pass(
    d: &Dims,
    w: &HcW,
    id: HcId,
    k: &DenseKnobs,
    fuse_upmix: bool,
    n: usize,
    pre_normed: bool,
) -> (r: (Plan, Inj))
    requires
        n * d.hc_lowrank <= usize::MAX,
        d.hc_count * d.hidden <= usize::MAX,
    ensures
        r.0 == mix_plan(*d, *w, id, *k, fuse_upmix, n, pre_normed),
        r.1 == mix_inj(*d, *w, n),
{
    let norm: Plan = if_so(
        !pre_normed,
        Plan::Do(Op::GroupNorm { norm: NormId::Hc(id), src: Buf::H, dst: Buf::Xn, rows: n }),
    );
    let silu: Plan = Plan::Do(Op::ScaleSilu { len: n * d.hc_lowrank });
    let (proj, inj): (Plan, Inj) = if w.inject_rows > 0 && n == 1 {
        (lower(d, w, id, k, n), Inj::InM(d.hc_lowrank))
    } else if w.inject_rows > 0 {
        (chain(segments(d, w, id, k, n), silu), Inj::Separate)
    } else {
        (
            chain(
                chain(
                    Plan::Do(
                        Op::Matmul { plane: PlaneId::HcDown(id), x: Buf::Xn, y: Buf::M, rows: n },
                    ),
                    Plan::Do(
                        Op::Matvec {
                            mat: MatId::Inject(id),
                            first: 0,
                            depth: d.hc_count * d.hidden,
                            out: d.hc_count,
                            x: Buf::Xn,
                            y: Buf::Inj,
                            rows: n,
                        },
                    ),
                ),
                silu,
            ),
            Inj::Separate,
        )
    };
    let up: Plan = lift(w, id, fuse_upmix, n);
    let tail: Plan = if w.up_fused && 2 <= n && n <= 32 {
        attempt(Op::UpMixGemm { id, rows: n }, Plan::Skip, up)
    } else {
        up
    };
    (chain(chain(norm, proj), tail), inj)
}

/// The mix behind the last layer: it injects nothing.
pub open spec fn last_mix(
    d: Dims,
    w: HcW,
    k: DenseKnobs,
    fuse_upmix: bool,
    n: usize,
    pre_normed: bool,
) -> Plan {
    plan::then_(
        plan::then_(
            norm_first(HcId::Last, n, pre_normed),
            low_rank(d, w, HcId::Last, k, n),
        ),
        raise(w, HcId::Last, fuse_upmix, n),
    )
}

/// The mix behind the last layer.
pub fn final_mix(d: &Dims, w: &HcW, k: &DenseKnobs, fuse_upmix: bool, n: usize, pre_normed: bool)
    -> (p: Plan)
    requires
        n * d.hc_lowrank <= usize::MAX,
    ensures
        p == last_mix(*d, *w, *k, fuse_upmix, n, pre_normed),
{
    let norm: Plan = if_so(
        !pre_normed,
        Plan::Do(
            Op::GroupNorm { norm: NormId::Hc(HcId::Last), src: Buf::H, dst: Buf::Xn, rows: n },
        ),
    );
    chain(
        chain(norm, lower(d, w, HcId::Last, k, n)),
        lift(w, HcId::Last, fuse_upmix, n),
    )
}

/// How a block's result goes back into the streams; with the norm that reads them next, if one can
/// be taken already.
pub open spec fn combined(inj: Inj, next: Option<NormId>, n: usize) -> Op {
    let (src, off) = match inj {
        Inj::InM(off) => (Buf::M, off),
        Inj::Separate => (Buf::Inj, 0usize),
    };
    match next {
        Some(norm) => Op::CombineNorm { inj: src, off, norm, rows: n },
        None => Op::Combine { inj: src, off, rows: n },
    }
}

/// How a block's result goes back into the streams, and whether that leaves them normed.
pub fn combine(inj: Inj, next: Option<NormId>, n: usize) -> (r: (Op, bool))
    ensures
        r.0 == combined(inj, next, n),
        r.1 == (next is Some),
{
    let (src, off): (Buf, usize) = match inj {
        Inj::InM(off) => (Buf::M, off),
        Inj::Separate => (Buf::Inj, 0),
    };
    match next {
        Some(norm) => (Op::CombineNorm { inj: src, off, norm, rows: n }, true),
        None => (Op::Combine { inj: src, off, rows: n }, false),
    }
}

/// What a mix needs before it: the state, and its norm when the combine before left it.
pub open spec fn mix_live(pre_normed: bool) -> Set<Buf> {
    if pre_normed {
        set![Buf::H, Buf::Xn]
    } else {
        set![Buf::H]
    }
}

/// The buffer that holds the inject logits.
pub open spec fn inj_buf(inj: Inj) -> Buf {
    match inj {
        Inj::InM(_) => Buf::M,
        Inj::Separate => Buf::Inj,
    }
}

/// Whatever declines, a mix reads nothing that is not there, and leaves the block's input and its
/// inject logits.
pub proof fn law_mix_feeds_its_block(
    d: Dims,
    w: HcW,
    id: HcId,
    k: DenseKnobs,
    fuse_upmix: bool,
    n: usize,
    pre_normed: bool,
)
    ensures
        plan::fed(mix_plan(d, w, id, k, fuse_upmix, n, pre_normed), mix_live(pre_normed)),
        plan::written(mix_plan(d, w, id, k, fuse_upmix, n, pre_normed)).contains(Buf::Bi),
        plan::written(mix_plan(d, w, id, k, fuse_upmix, n, pre_normed)).contains(
            inj_buf(mix_inj(d, w, n)),
        ),
{
    reveal_with_fuel(plan::fed, 6);
    reveal_with_fuel(plan::written, 6);
    let live = mix_live(pre_normed);
    let a = norm_first(id, n, pre_normed);
    let b = project(d, w, id, k, n);
    let live_a = live.union(plan::written(a));
    assert(live_a.contains(Buf::Xn));
    assert(plan::fed(b, live_a));
    assert(plan::written(b).contains(Buf::M));
}

/// The last mix reads nothing that is not there, and leaves the rows that the head reads.
pub proof fn law_last_mix_feeds_the_head(
    d: Dims,
    w: HcW,
    k: DenseKnobs,
    fuse_upmix: bool,
    n: usize,
    pre_normed: bool,
)
    ensures
        plan::fed(last_mix(d, w, k, fuse_upmix, n, pre_normed), mix_live(pre_normed)),
        plan::written(last_mix(d, w, k, fuse_upmix, n, pre_normed)).contains(Buf::Bi),
{
    reveal_with_fuel(plan::fed, 6);
    reveal_with_fuel(plan::written, 6);
    let live = mix_live(pre_normed);
    let a = norm_first(HcId::Last, n, pre_normed);
    assert(live.union(plan::written(a)).contains(Buf::Xn));
}

/// The state as a mix reads it: normed, by the combine before or by the mix itself.
pub open spec fn normed(id: HcId, pre_normed: bool, s: State) -> Val {
    if pre_normed {
        s.get(Buf::Xn)
    } else {
        meaning::of1(Fun::Norm(NormId::Hc(id)), s.get(Buf::H))
    }
}

/// The low-rank rows of a mix over the normed state, scaled and through the silu. On one row the
/// inject rows lie behind them.
pub open spec fn lowered(d: Dims, folded: bool, id: HcId, n: usize, x: Val) -> Val {
    meaning::of1(
        Fun::Silu(d.hc_lowrank),
        meaning::of1(
            if folded && n != 1 {
                Fun::Segment(PlaneId::HcDown(id), 0, d.hc_lowrank)
            } else {
                Fun::Product(PlaneId::HcDown(id))
            },
            x,
        ),
    )
}

/// The inject logits of a mix that leaves them in a plane of their own: the rows behind the
/// low-rank ones, or the product of their own matrix.
pub open spec fn injected(d: Dims, folded: bool, id: HcId, x: Val) -> Val {
    meaning::of1(
        if folded {
            Fun::Segment(PlaneId::HcDown(id), d.hc_lowrank, d.hc_count)
        } else {
            Fun::MatRows(MatId::Inject(id), 0, (d.hc_count * d.hidden) as usize, d.hc_count)
        },
        x,
    )
}

/// What a mix leaves: the block's input, mixed of the normed state and its low-rank image; the
/// low-rank rows, the inject logits and the norm that the combine reads; and the state as it was.
pub open spec fn mix_left(
    d: Dims,
    w: HcW,
    id: HcId,
    n: usize,
    pre_normed: bool,
    s: State,
    t: State,
) -> bool {
    let x = normed(id, pre_normed, s);
    let m = lowered(d, w.inject_rows > 0, id, n, x);
    &&& t.get(Buf::Bi) == meaning::of2(
        Fun::Mix,
        x,
        meaning::of1(Fun::Product(PlaneId::HcUp(id)), m),
    )
    &&& t.get(Buf::M) == m
    &&& !(w.inject_rows > 0 && n == 1) ==> t.get(Buf::Inj) == injected(d, w.inject_rows > 0, id, x)
    &&& t.get(Buf::Xn) == x
    &&& t.get(Buf::H) == s.get(Buf::H)
}

proof fn lemma_low_rank_computes(
    c: Scene,
    w: HcW,
    id: HcId,
    k: DenseKnobs,
    s: State,
    taken: spec_fn(Op) -> bool,
)
    requires
        c.at.n * c.d.hc_lowrank <= usize::MAX,
    ensures
        meaning::run(c, low_rank(c.d, w, id, k, c.at.n), s, taken).at =~= s.set(
            Buf::M,
            lowered(c.d, false, id, c.at.n, s.get(Buf::Xn)),
        ).at,
        !meaning::fails(low_rank(c.d, w, id, k, c.at.n), taken),
{
    reveal_with_fuel(meaning::run, 3);
    reveal_with_fuel(meaning::fails, 3);
}

proof fn lemma_raise_computes(
    c: Scene,
    w: HcW,
    id: HcId,
    fuse_upmix: bool,
    s: State,
    taken: spec_fn(Op) -> bool,
)
    ensures
        ({
            let t = meaning::run(c, raise(w, id, fuse_upmix, c.at.n), s, taken);
            &&& t.get(Buf::Bi) == meaning::of2(
                Fun::Mix,
                s.get(Buf::Xn),
                meaning::of1(Fun::Product(PlaneId::HcUp(id)), s.get(Buf::M)),
            )
            &&& t.get(Buf::M) == s.get(Buf::M)
            &&& t.get(Buf::Inj) == s.get(Buf::Inj)
            &&& t.get(Buf::Xn) == s.get(Buf::Xn)
            &&& t.get(Buf::H) == s.get(Buf::H)
            &&& !meaning::fails(raise(w, id, fuse_upmix, c.at.n), taken)
        }),
{
    reveal_with_fuel(meaning::run, 3);
    reveal_with_fuel(meaning::fails, 3);
}

/// The folded rows cannot be had apart.
pub open spec fn unfoldable(w: HcW) -> bool {
    w.down is F8Row || w.down is Kq
}

proof fn lemma_two_segments_compute(
    c: Scene,
    w: HcW,
    id: HcId,
    k: DenseKnobs,
    s: State,
    taken: spec_fn(Op) -> bool,
)
    ensures
        meaning::fails(two_segments(c.d, w, id, k, c.at.n), taken) <==> unfoldable(w),
        !unfoldable(w) ==> {
            let t = meaning::run(c, two_segments(c.d, w, id, k, c.at.n), s, taken);
            &&& t.get(Buf::M) == meaning::of1(
                Fun::Segment(PlaneId::HcDown(id), 0, c.d.hc_lowrank),
                s.get(Buf::Xn),
            )
            &&& t.get(Buf::Inj) == meaning::of1(
                Fun::Segment(PlaneId::HcDown(id), c.d.hc_lowrank, c.d.hc_count),
                s.get(Buf::Xn),
            )
            &&& t.get(Buf::Xn) == s.get(Buf::Xn)
            &&& t.get(Buf::H) == s.get(Buf::H)
        },
{
    reveal_with_fuel(meaning::run, 4);
    reveal_with_fuel(meaning::fails, 4);
}

proof fn lemma_project_computes(
    c: Scene,
    w: HcW,
    id: HcId,
    k: DenseKnobs,
    s: State,
    taken: spec_fn(Op) -> bool,
)
    requires
        c.at.n * c.d.hc_lowrank <= usize::MAX,
    ensures
        meaning::fails(project(c.d, w, id, k, c.at.n), taken) <==> w.inject_rows > 0 && c.at.n != 1
            && unfoldable(w),
        !meaning::fails(project(c.d, w, id, k, c.at.n), taken) ==> {
            let t = meaning::run(c, project(c.d, w, id, k, c.at.n), s, taken);
            let x = s.get(Buf::Xn);
            &&& t.get(Buf::M) == lowered(c.d, w.inject_rows > 0, id, c.at.n, x)
            &&& !(w.inject_rows > 0 && c.at.n == 1) ==> t.get(Buf::Inj) == injected(
                c.d,
                w.inject_rows > 0,
                id,
                x,
            )
            &&& t.get(Buf::Xn) == x
            &&& t.get(Buf::H) == s.get(Buf::H)
        },
{
    let n = c.at.n;
    let silu = Plan::Do(Op::ScaleSilu { len: (n * c.d.hc_lowrank) as usize });
    if w.inject_rows > 0 && n == 1 {
        lemma_low_rank_computes(c, w, id, k, s, taken);
    } else if w.inject_rows > 0 {
        lemma_two_segments_compute(c, w, id, k, s, taken);
        let s1 = meaning::run(c, two_segments(c.d, w, id, k, n), s, taken);
        let s2 = meaning::run(c, silu, s1, taken);
        reveal_with_fuel(meaning::fails, 2);
    } else {
        reveal_with_fuel(meaning::run, 4);
        reveal_with_fuel(meaning::fails, 4);
    }
}

/// Every path of a mix computes the same, fused or apart, whatever declines: the block's input is
/// the normed state mixed by its low-rank image, and the inject logits are where the combine looks
/// for them. It fails exactly where folded rows must come apart that cannot.
pub proof fn law_mix_computes_one_thing(
    c: Scene,
    w: HcW,
    id: HcId,
    k: DenseKnobs,
    fuse_upmix: bool,
    pre_normed: bool,
    s: State,
    taken: spec_fn(Op) -> bool,
)
    requires
        c.at.n * c.d.hc_lowrank <= usize::MAX,
    ensures
        ({
            let p = mix_plan(c.d, w, id, k, fuse_upmix, c.at.n, pre_normed);
            &&& meaning::fails(p, taken) <==> w.inject_rows > 0 && c.at.n != 1 && (w.down is F8Row
                || w.down is Kq)
            &&& !meaning::fails(p, taken) ==> mix_left(
                c.d,
                w,
                id,
                c.at.n,
                pre_normed,
                s,
                meaning::run(c, p, s, taken),
            )
        }),
{
    let n = c.at.n;
    let first = norm_first(id, n, pre_normed);
    let proj = project(c.d, w, id, k, n);
    let up = raise(w, id, fuse_upmix, n);
    let last = if w.up_fused && 2 <= n <= 32 {
        plan::either(Op::UpMixGemm { id, rows: n }, Plan::Skip, up)
    } else {
        up
    };
    let s1 = meaning::run(c, first, s, taken);
    assert(s1.get(Buf::Xn) == normed(id, pre_normed, s));
    assert(s1.get(Buf::H) == s.get(Buf::H));
    lemma_project_computes(c, w, id, k, s1, taken);
    let s2 = meaning::run(c, proj, s1, taken);
    lemma_raise_computes(c, w, id, fuse_upmix, s2, taken);
    let s3 = meaning::run(c, last, s2, taken);
    let head = plan::then_(first, proj);
    assert(s2 == meaning::run(c, head, s, taken));
    assert(!meaning::fails(first, taken));
    assert(meaning::fails(head, taken) == meaning::fails(proj, taken));
    assert(meaning::run(c, Plan::Skip, meaning::step(c, Op::UpMixGemm { id, rows: n }, s2), taken)
        == meaning::step(c, Op::UpMixGemm { id, rows: n }, s2));
    assert(!meaning::fails(Plan::Skip, taken));
    assert(!meaning::fails(last, taken));
}

/// Every path of the mix behind the last layer computes the same, and none fails.
pub proof fn law_last_mix_computes_one_thing(
    c: Scene,
    w: HcW,
    k: DenseKnobs,
    fuse_upmix: bool,
    pre_normed: bool,
    s: State,
    taken: spec_fn(Op) -> bool,
)
    requires
        c.at.n * c.d.hc_lowrank <= usize::MAX,
    ensures
        ({
            let p = last_mix(c.d, w, k, fuse_upmix, c.at.n, pre_normed);
            let x = normed(HcId::Last, pre_normed, s);
            &&& !meaning::fails(p, taken)
            &&& meaning::run(c, p, s, taken).get(Buf::Bi) == meaning::of2(
                Fun::Mix,
                x,
                meaning::of1(
                    Fun::Product(PlaneId::HcUp(HcId::Last)),
                    lowered(c.d, false, HcId::Last, c.at.n, x),
                ),
            )
        }),
{
    let n = c.at.n;
    let first = norm_first(HcId::Last, n, pre_normed);
    let low = low_rank(c.d, w, HcId::Last, k, n);
    let s1 = meaning::run(c, first, s, taken);
    lemma_low_rank_computes(c, w, HcId::Last, k, s1, taken);
    let s2 = meaning::run(c, low, s1, taken);
    assert(s2.get(Buf::Xn) == s1.get(Buf::Xn));
    lemma_raise_computes(c, w, HcId::Last, fuse_upmix, s2, taken);
    assert(s2 == meaning::run(c, plan::then_(first, low), s, taken));
    assert(!meaning::fails(first, taken));
    assert(!meaning::fails(plan::then_(first, low), taken));
}

/// The combine reads the inject logits where the mix left them, and the state it leaves is normed
/// by the norm that reads it next, where there is one.
pub proof fn law_combine_reads_what_the_mix_left(
    c: Scene,
    w: HcW,
    next: Option<NormId>,
    s: State,
)
    ensures
        ({
            let n = c.at.n;
            let t = meaning::step(c, combined(mix_inj(c.d, w, n), next, n), s);
            let inj = if w.inject_rows > 0 && n == 1 {
                s.get(Buf::M)
            } else {
                s.get(Buf::Inj)
            };
            let off = if w.inject_rows > 0 && n == 1 {
                c.d.hc_lowrank
            } else {
                0
            };
            let h = meaning::of3(Fun::Combine(off), s.get(Buf::H), s.get(Buf::Mix), inj);
            &&& t.get(Buf::H) == h
            &&& next matches Some(norm) ==> t.get(Buf::Xn) == meaning::of1(Fun::Norm(norm), h)
            &&& next is None ==> t.get(Buf::Xn) == s.get(Buf::Xn)
        }),
{
}

/// The folded and fused launches of a mix are offered where they may be, and nowhere else: the
/// scale and silu in the product on one row, the rows in one launch on a few, the up projection with
/// the mix on one row or up to thirty-two.
pub proof fn law_mix_offers_what_it_may(
    d: Dims,
    w: HcW,
    id: HcId,
    k: DenseKnobs,
    fuse_upmix: bool,
    n: usize,
    pre_normed: bool,
    op: Op,
)
    ensures
        ({
            let q = mix_plan(d, w, id, k, fuse_upmix, n, pre_normed);
            let both = w.down is Bf16 || w.down is Dual;
            &&& op is MatmulSilu && meaning::names(q, op) ==> n == 1 && k.fuse_silu && both
                && w.inject_rows > 0
            &&& n == 1 && k.fuse_silu && both && w.inject_rows > 0 ==> meaning::names(
                q,
                Op::MatmulSilu {
                    plane: PlaneId::HcDown(id),
                    x: Buf::Xn,
                    y: Buf::M,
                    silu_rows: d.hc_lowrank,
                },
            )
            &&& op is MatmulMrow && meaning::names(q, op) ==> n >= 2 && k.mrow && both
                && w.down.out_dim() <= k.mrow_max_out && w.inject_rows > 0
            &&& n >= 2 && k.mrow && both && w.down.out_dim() <= k.mrow_max_out && w.inject_rows > 0
                ==> meaning::names(
                q,
                Op::MatmulMrow {
                    plane: PlaneId::HcDown(id),
                    x: Buf::Xn,
                    ya: Buf::M,
                    yb: Buf::Inj,
                    oa: d.hc_lowrank,
                    rows: n,
                },
            )
            &&& op is Matmul2Seg && meaning::names(q, op) ==> both && w.inject_rows > 0 && n != 1
            &&& op is UpMixGemm && meaning::names(q, op) ==> w.up_fused && 2 <= n <= 32
            &&& w.up_fused && 2 <= n <= 32 ==> meaning::names(q, Op::UpMixGemm { id, rows: n })
            &&& op is UpMixGemv && meaning::names(q, op) ==> n == 1 && fuse_upmix
                && w.up.holds_bf16()
            &&& n == 1 && fuse_upmix && w.up.holds_bf16() ==> meaning::names(
                q,
                Op::UpMixGemv { id },
            )
            &&& op is GroupNorm && meaning::names(q, op) ==> !pre_normed
        }),
{
    reveal_with_fuel(meaning::names, 8);
}

} // verus!
