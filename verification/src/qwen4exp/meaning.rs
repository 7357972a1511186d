//! What a plan computes. A buffer's value is written as a term over what the buffers held before,
//! launch by launch along one path of the plan; two paths that leave the same term compute the same
//! thing, however they came to it.
use crate::qwen4exp::config::{Dims, Phase};
use crate::qwen4exp::gdn::WalkAt;
use crate::qwen4exp::plan::{AttnArm, Buf, MatId, NormId, Op, PairId, Plan, PlaneId};
use crate::qwen4exp::stage;
use crate::qwen4exp::stage::Run;
use vstd::prelude::*;

verus! {

/// What a launch does to its arguments. All but the copies and the convolutions of single runs are
/// over all rows of the pass.
pub enum Fun {
    Embed,
    Product(PlaneId),
    /// rows `first .. first + out` of a plane's product
    Segment(PlaneId, usize, usize),
    /// rows `first .. first + out` of a matrix's product, of the given depth
    MatRows(MatId, usize, usize, usize),
    Norm(NormId),
    /// scale and silu of the first rows of a product
    Silu(usize),
    Mix,
    Combine(usize),
    Sum(usize),
    /// elements of the second argument over those of the first
    Moved(usize, usize, usize),
    /// rows `off .. off + rows` of the second argument over those of the first
    Put(usize, usize),
    PleGate,
    PleConv(usize, usize),
    RingConv,
    RingStore,
    GateG,
    GateBeta,
    GdnConv(usize, usize),
    StepConv,
    StepWindow,
    SlotsConv,
    SlotsWindow,
    HeadQ(bool),
    HeadK(bool),
    HeadV(bool),
    RecurOutRuns(usize),
    RecurStateRuns(usize),
    RecurOutSlots,
    RecurStateSlots,
    RecurOutAt(usize),
    RecurStateAt(usize),
    GatedNorm,
    QueryOf,
    GateOf,
    NormQ,
    NormK,
    Rope,
    Append,
    Attend,
    Gated,
    Picks,
    Weights,
    GateUp,
    Down,
    DownParts,
    Quantized,
    Sums,
    KqGateUp,
    KqDown,
    Resolved,
    SlotsOf,
    WavesOf(usize),
    WaveResolved(usize),
    WaveMasked(usize),
    Filled(usize),
    Swiglu,
    AddGated,
}

/// A value.
pub enum Val {
    Nothing,
    /// what a buffer held before
    Was(Buf),
    /// the result of a launch that does not fit the pass
    Odd(Op),
    Of(Fun, Seq<Val>),
}

/// The pass that a plan is for.
pub struct Scene {
    pub d: Dims,
    pub at: WalkAt,
    pub max_ctx: usize,
    pub runs: Seq<Run>,
}

/// What the buffers hold, and what the expert cache has planned, sought and filled.
pub struct State {
    pub at: Map<Buf, Val>,
    pub planned: Val,
    pub sought: Val,
    pub filled: Val,
}

impl State {
    /// The value of a buffer.
    pub open spec fn get(self, b: Buf) -> Val {
        self.at[b]
    }

    /// The state with a buffer's value replaced.
    pub open spec fn set(self, b: Buf, v: Val) -> State {
        State { at: self.at.insert(b, v), ..self }
    }
}

pub open spec fn of1(f: Fun, a: Val) -> Val {
    Val::Of(f, seq![a])
}

pub open spec fn of2(f: Fun, a: Val, b: Val) -> Val {
    Val::Of(f, seq![a, b])
}

pub open spec fn of3(f: Fun, a: Val, b: Val, c: Val) -> Val {
    Val::Of(f, seq![a, b, c])
}

/// The logits of the experts alone, out of rows that may carry the shared expert's gate behind
/// them, `stride` logits apart.
pub open spec fn expert_logits(c: Scene, stride: usize, v: Val, op: Op) -> Val {
    match v {
        Val::Of(Fun::MatRows(m, first, depth, out), x) => if first == 0 && out >= c.d.n_expert && (
        c.at.n == 1 || stride == out) {
            Val::Of(Fun::MatRows(m, 0, depth, c.d.n_expert), x)
        } else {
            Val::Odd(op)
        },
        _ => Val::Odd(op),
    }
}

/// The logit of the shared expert's gate, out of rows that carry it behind those of the experts.
pub open spec fn gate_logit(c: Scene, stride: int, v: Val, op: Op) -> Val {
    match v {
        Val::Of(Fun::MatRows(m, first, depth, out), x) => if first == 0 && out == c.d.n_expert + 1
            && (c.at.n == 1 || stride == out) {
            Val::Of(Fun::MatRows(m, c.d.n_expert, depth, 1), x)
        } else {
            Val::Odd(op)
        },
        _ => Val::Odd(op),
    }
}

/// The experts' output, put together from its parts.
pub open spec fn joined(v: Val, op: Op) -> Val {
    match v {
        Val::Of(Fun::DownParts, x) => Val::Of(Fun::Down, x),
        _ => Val::Odd(op),
    }
}

/// The kernel serves the rows of the pass, and is told the pass's sizes.
pub open spec fn arm_fits(c: Scene, arm: AttnArm) -> bool {
    match arm {
        AttnArm::PrefillWave { tiles } => c.at.phase == Phase::PrefillRuns && tiles
            == stage::tile_count(c.runs, c.runs.len() as int),
        AttnArm::Prefill => c.at.phase == Phase::Prefill,
        AttnArm::Tc5 { kv_heads, blocks, window } => {
            &&& c.at.phase.decodes()
            &&& c.d.head_dim == 256
            &&& kv_heads * 6 == c.d.n_heads
            &&& kv_heads == c.d.n_kv_heads || kv_heads == 2 * c.d.n_kv_heads
            &&& blocks * 16 == c.max_ctx
            &&& window == c.max_ctx + 16
        },
        AttnArm::FmhaSplit { splits } => {
            &&& c.at.phase.decodes()
            &&& splits >= 2
            &&& c.d.head_dim == 128 || c.d.head_dim == 256
        },
        AttnArm::Fmha => c.at.phase.decodes() && (c.d.head_dim == 128 || c.d.head_dim == 256),
        AttnArm::ParallelScore => c.at.phase.decodes(),
        AttnArm::Tile => c.at.phase.decodes(),
    }
}

/// The launch is over all rows of the pass, and its sizes are those of the model.
pub open spec fn fits(c: Scene, op: Op) -> bool {
    let n = c.at.n;
    let d = c.d;
    match op {
        Op::EmbedGather { rows, .. } => rows == n,
        Op::Copy { .. } => true,
        Op::Add { len, .. } => len == n * d.hidden || len == n * d.hc_width,
        Op::GroupNorm { rows, .. } => rows == n,
        Op::Matmul { rows, .. } => rows == n,
        Op::MatmulSilu { silu_rows, .. } => n == 1 && silu_rows == d.hc_lowrank,
        Op::MatmulMrow { oa, rows, .. } => rows == n && oa == d.hc_lowrank,
        Op::Matmul2Seg { oa, ob, rows, .. } => rows == n && oa == d.hc_lowrank && ob == d.hc_count,
        Op::MatmulRows { rows, .. } => rows == n,
        Op::Pair { pair, oa, ob, rows, .. } => {
            &&& rows == n && n >= 2
            &&& match pair {
                PairId::GdnZQkv => oa == d.gdn_z_rows && ob == d.gdn_qkv_rows,
                PairId::SharedGateUp => oa == d.shared_ff && ob == d.shared_ff,
            }
        },
        Op::FusedQkv { q_rows, kv_dim, rows } => rows == n && n >= 2 && q_rows == d.attn_q_rows && kv_dim
            == d.n_kv_heads * d.head_dim,
        Op::MatvecSplit { split, .. } => n == 1 && split >= 2,
        Op::Matvec { rows, .. } => rows == n,
        Op::RouterGemv { .. } => n == 1,
        Op::ScaleSilu { len } => len == n * d.hc_lowrank,
        Op::UpMixGemm { rows, .. } => rows == n && 2 <= n <= 32,
        Op::UpMixGemv { .. } => n == 1,
        Op::HcMix { rows } => rows == n,
        Op::Combine { rows, .. } => rows == n,
        Op::CombineNorm { rows, .. } => rows == n,
        Op::PleGate { rows } => rows == n,
        Op::PleConv { .. } => true,
        Op::PleRingStep { rows } => rows == n,
        Op::DeltaGates { rows } => rows == n,
        Op::GdnConv { .. } => true,
        Op::ConvStep => c.at.phase == Phase::Decode,
        Op::ConvStepSplit { rows } => rows == n,
        Op::ConvStepSlots { rows } => rows == n,
        Op::SplitWiden { rows, .. } => rows == n,
        Op::RecurRunsNorm { runs, rows } => rows == n && runs == c.runs.len(),
        Op::RecurRuns { runs } => runs == c.runs.len(),
        Op::RecurSlotsNorm { rows } => rows == n,
        Op::RecurSlots { rows } => rows == n,
        Op::RecurAt { rows, .. } => rows == n,
        Op::GatedNorm { rows } => rows == n * d.gdn_v_heads,
        Op::SplitQg { rows } => rows == n,
        Op::NormQ { rows } => rows == n * d.n_heads,
        Op::NormK { rows } => rows == n * d.n_kv_heads,
        Op::RopeQ { rows } => rows == n,
        Op::RopeK { rows } => rows == n,
        Op::AppendK { rows } => rows == n,
        Op::AppendV { rows } => rows == n,
        Op::Attention { arm, rows } => rows == n && arm_fits(c, arm),
        Op::GateAttn { len } => len == n * (d.n_heads * d.head_dim),
        Op::TopkStrided { rows, .. } => rows == n,
        Op::Topk { rows } => rows == n,
        Op::Nvf4GateUp { rows } => rows == n,
        Op::Nvf4Down { rows, .. } => rows == n,
        Op::Nvf4Combine { parts, rows } => rows == n && d.n_active <= 2 * parts <= d.n_active + 1,
        Op::CacheResolve { rows } => rows == n * d.n_active,
        Op::CacheFill { .. } => true,
        Op::WavePlan { rows } => rows == n * d.n_active,
        Op::WaveResolve { .. } => true,
        Op::WaveMask { rows, .. } => rows == n * d.n_active,
        Op::QuantizeIn { len } => len == n * d.hidden,
        Op::SumsIn { rows } => rows == n,
        Op::KqGateUp { rows, .. } => rows == n,
        Op::QuantizeAct { len } => len == n * d.n_active * d.moe_ff,
        Op::SumsAct { rows } => rows == n * d.n_active,
        Op::KqDown { rows, .. } => rows == n,
        Op::SharedDual => n == 1,
        Op::Swiglu { len } => len == n * d.shared_ff,
        Op::AddGatedAt { rows } => n == 1 && rows == 1,
        Op::AddGatedStrided { rows, .. } => rows == n,
        Op::AddGated { rows } => rows == n,
        Op::SideFork => true,
        Op::SideEnd => true,
        Op::SideJoin => true,
    }
}

/// The two projections of a fused plane.
pub open spec fn pair_of(p: PairId) -> (PlaneId, PlaneId) {
    match p {
        PairId::GdnZQkv => (PlaneId::GdnZ, PlaneId::GdnQkv),
        PairId::SharedGateUp => (PlaneId::ShGate, PlaneId::ShUp),
    }
}

/// What the recurrence takes: heads, gates and its state.
pub open spec fn recur_args(s: State) -> Seq<Val> {
    seq![
        s.get(Buf::Dq),
        s.get(Buf::Dk),
        s.get(Buf::Dv),
        s.get(Buf::G),
        s.get(Buf::Beta),
        s.get(Buf::Recur),
    ]
}

/// Where a routed launch finds its experts: held in full, or in the slots that were filled.
pub open spec fn seats(s: State, idx: Buf) -> Val {
    if idx == Buf::Idx {
        Val::Nothing
    } else {
        s.filled
    }
}

/// The sums of the quantized activations, where a launch takes them.
pub open spec fn sums_for(s: State, sums: bool) -> Val {
    if sums {
        s.get(Buf::Ssums)
    } else {
        Val::Nothing
    }
}

/// What a launch that fits the pass leaves.
pub open spec fn done(c: Scene, op: Op, s: State) -> State {
    match op {
        Op::EmbedGather { .. } => s.set(Buf::X, of1(Fun::Embed, s.get(Buf::Tok))),
        Op::Copy { src, src_off, dst, dst_off, len } => s.set(
            dst,
            of2(Fun::Moved(src_off, dst_off, len), s.get(dst), s.get(src)),
        ),
        Op::Add { dst, src, len } => s.set(dst, of2(Fun::Sum(len), s.get(dst), s.get(src))),
        Op::GroupNorm { norm, src, dst, .. } => s.set(dst, of1(Fun::Norm(norm), s.get(src))),
        Op::Matmul { plane, x, y, .. } => s.set(y, of1(Fun::Product(plane), s.get(x))),
        Op::MatmulSilu { plane, x, y, silu_rows } => s.set(
            y,
            of1(Fun::Silu(silu_rows), of1(Fun::Product(plane), s.get(x))),
        ),
        Op::MatmulMrow { plane, x, ya, yb, oa, .. } => s.set(
            ya,
            of1(Fun::Segment(plane, 0, oa), s.get(x)),
        ).set(yb, of1(Fun::Segment(plane, oa, c.d.hc_count), s.get(x))),
        Op::Matmul2Seg { plane, x, ya, yb, oa, ob, .. } => s.set(
            ya,
            of1(Fun::Segment(plane, 0, oa), s.get(x)),
        ).set(yb, of1(Fun::Segment(plane, oa, ob), s.get(x))),
        Op::MatmulRows { plane, first, out, x, y, .. } => s.set(
            y,
            of1(Fun::Segment(plane, first, out), s.get(x)),
        ),
        Op::Pair { pair, x, ya, yb, .. } => s.set(
            ya,
            of1(Fun::Product(pair_of(pair).0), s.get(x)),
        ).set(yb, of1(Fun::Product(pair_of(pair).1), s.get(x))),
        Op::FusedQkv { .. } => s.set(
            Buf::Qg,
            of1(Fun::Product(PlaneId::AttnQ), s.get(Buf::Bi)),
        ).set(Buf::K, of1(Fun::Product(PlaneId::AttnK), s.get(Buf::Bi))).set(
            Buf::V,
            of1(Fun::Product(PlaneId::AttnV), s.get(Buf::Bi)),
        ),
        Op::MatvecSplit { mat, depth, out, x, y, .. } => s.set(
            y,
            of1(Fun::MatRows(mat, 0, depth, out), s.get(x)),
        ),
        Op::Matvec { mat, first, depth, out, x, y, .. } => s.set(
            y,
            of1(Fun::MatRows(mat, first, depth, out), s.get(x)),
        ),
        Op::RouterGemv { depth, out } => s.set(
            Buf::Logits,
            of1(Fun::MatRows(MatId::Router, 0, depth, out), s.get(Buf::Bi)),
        ),
        Op::ScaleSilu { .. } => s.set(Buf::M, of1(Fun::Silu(c.d.hc_lowrank), s.get(Buf::M))),
        Op::UpMixGemm { id, .. } => s.set(
            Buf::Bi,
            of2(Fun::Mix, s.get(Buf::Xn), of1(Fun::Product(PlaneId::HcUp(id)), s.get(Buf::M))),
        ),
        Op::UpMixGemv { id } => s.set(
            Buf::Bi,
            of2(Fun::Mix, s.get(Buf::Xn), of1(Fun::Product(PlaneId::HcUp(id)), s.get(Buf::M))),
        ),
        Op::HcMix { .. } => s.set(Buf::Bi, of2(Fun::Mix, s.get(Buf::Xn), s.get(Buf::Gate))),
        Op::Combine { inj, off, .. } => s.set(
            Buf::H,
            of3(Fun::Combine(off), s.get(Buf::H), s.get(Buf::Mix), s.get(inj)),
        ),
        Op::CombineNorm { inj, off, norm, .. } => {
            let h = of3(Fun::Combine(off), s.get(Buf::H), s.get(Buf::Mix), s.get(inj));
            s.set(Buf::H, h).set(Buf::Xn, of1(Fun::Norm(norm), h))
        },
        Op::PleGate { .. } => s.set(
            Buf::Pgv,
            of3(Fun::PleGate, s.get(Buf::Pkn), s.get(Buf::Pqn), s.get(Buf::Pval)),
        ),
        Op::PleConv { off, rows } => s.set(
            Buf::Pconv,
            of2(
                Fun::Put(off, rows),
                s.get(Buf::Pconv),
                of1(Fun::PleConv(off, rows), s.get(Buf::Pkn)),
            ),
        ),
        Op::PleRingStep { .. } => {
            let x = seq![s.get(Buf::Pkn), s.get(Buf::PleWin), s.get(Buf::Slots), s.get(Buf::Pos)];
            s.set(Buf::Pconv, Val::Of(Fun::RingConv, x)).set(
                Buf::PleWin,
                Val::Of(Fun::RingStore, x),
            )
        },
        Op::DeltaGates { .. } => s.set(Buf::G, of1(Fun::GateG, s.get(Buf::Ab))).set(
            Buf::Beta,
            of1(Fun::GateBeta, s.get(Buf::Ab)),
        ),
        Op::GdnConv { off, rows } => s.set(
            Buf::Conv,
            of2(
                Fun::Put(off, rows),
                s.get(Buf::Conv),
                of1(Fun::GdnConv(off, rows), s.get(Buf::Qkv)),
            ),
        ),
        Op::ConvStep => s.set(
            Buf::Conv,
            of2(Fun::StepConv, s.get(Buf::Qkv), s.get(Buf::GdnWin)),
        ).set(Buf::GdnWin, of2(Fun::StepWindow, s.get(Buf::Qkv), s.get(Buf::GdnWin))),
        Op::ConvStepSplit { .. } => {
            let (x, w, slots) = (s.get(Buf::Qkv), s.get(Buf::GdnWin), s.get(Buf::Slots));
            let y = of3(Fun::SlotsConv, x, w, slots);
            s.set(Buf::Dq, of1(Fun::HeadQ(false), y)).set(Buf::Dk, of1(Fun::HeadK(false), y)).set(
                Buf::Dv,
                of1(Fun::HeadV(false), y),
            ).set(Buf::GdnWin, of3(Fun::SlotsWindow, x, w, slots))
        },
        Op::ConvStepSlots { .. } => {
            let (x, w, slots) = (s.get(Buf::Qkv), s.get(Buf::GdnWin), s.get(Buf::Slots));
            s.set(Buf::Conv, of3(Fun::SlotsConv, x, w, slots)).set(
                Buf::GdnWin,
                of3(Fun::SlotsWindow, x, w, slots),
            )
        },
        Op::SplitWiden { tiled, .. } => s.set(
            Buf::Dq,
            of1(Fun::HeadQ(tiled), s.get(Buf::Conv)),
        ).set(Buf::Dk, of1(Fun::HeadK(tiled), s.get(Buf::Conv))).set(
            Buf::Dv,
            of1(Fun::HeadV(tiled), s.get(Buf::Conv)),
        ),
        Op::RecurRunsNorm { runs, .. } => s.set(
            Buf::Dattn,
            Val::Of(Fun::RecurOutRuns(runs), recur_args(s)),
        ).set(Buf::Recur, Val::Of(Fun::RecurStateRuns(runs), recur_args(s))),
        Op::RecurRuns { runs } => s.set(
            Buf::Dattn,
            Val::Of(Fun::RecurOutRuns(runs), recur_args(s)),
        ).set(Buf::Recur, Val::Of(Fun::RecurStateRuns(runs), recur_args(s))),
        Op::RecurSlotsNorm { .. } => s.set(
            Buf::Core,
            of2(Fun::GatedNorm, Val::Of(Fun::RecurOutSlots, recur_args(s)), s.get(Buf::Zg)),
        ).set(Buf::Recur, Val::Of(Fun::RecurStateSlots, recur_args(s))),
        Op::RecurSlots { .. } => s.set(
            Buf::Dattn,
            Val::Of(Fun::RecurOutSlots, recur_args(s)),
        ).set(Buf::Recur, Val::Of(Fun::RecurStateSlots, recur_args(s))),
        Op::RecurAt { state_off, .. } => s.set(
            Buf::Dattn,
            Val::Of(Fun::RecurOutAt(state_off), recur_args(s)),
        ).set(Buf::Recur, Val::Of(Fun::RecurStateAt(state_off), recur_args(s))),
        Op::GatedNorm { .. } => s.set(
            Buf::Core,
            of2(Fun::GatedNorm, s.get(Buf::Dattn), s.get(Buf::Zg)),
        ),
        Op::SplitQg { .. } => s.set(Buf::Q, of1(Fun::QueryOf, s.get(Buf::Qg))).set(
            Buf::Agate,
            of1(Fun::GateOf, s.get(Buf::Qg)),
        ),
        Op::NormQ { .. } => s.set(Buf::Qn, of1(Fun::NormQ, s.get(Buf::Q))),
        Op::NormK { .. } => s.set(Buf::Kn, of1(Fun::NormK, s.get(Buf::K))),
        Op::RopeQ { .. } => s.set(Buf::Qn, of2(Fun::Rope, s.get(Buf::Qn), s.get(Buf::Mrope))),
        Op::RopeK { .. } => s.set(Buf::Kn, of2(Fun::Rope, s.get(Buf::Kn), s.get(Buf::Mrope))),
        Op::AppendK { .. } => s.set(
            Buf::KvK,
            appended(s.get(Buf::KvK), s.get(Buf::Kn), s),
        ),
        Op::AppendV { .. } => s.set(Buf::KvV, appended(s.get(Buf::KvV), s.get(Buf::V), s)),
        Op::Attention { .. } => s.set(
            Buf::Attn,
            Val::Of(
                Fun::Attend,
                seq![
                    s.get(Buf::Qn),
                    s.get(Buf::KvK),
                    s.get(Buf::KvV),
                    s.get(Buf::Sinks),
                    s.get(Buf::Pos),
                    s.get(Buf::Slots),
                ],
            ),
        ),
        Op::GateAttn { .. } => s.set(
            Buf::Attn,
            of2(Fun::Gated, s.get(Buf::Attn), s.get(Buf::Agate)),
        ),
        Op::TopkStrided { stride, .. } => picked(
            expert_logits(c, stride, s.get(Buf::Logits), op),
            s,
        ),
        Op::Topk { .. } => picked(expert_logits(c, c.d.n_expert, s.get(Buf::Logits), op), s),
        Op::Nvf4GateUp { .. } => s.set(
            Buf::Act,
            of2(Fun::GateUp, s.get(Buf::Idx), s.get(Buf::Bi)),
        ),
        Op::Nvf4Down { zsplit, .. } => {
            let x = seq![s.get(Buf::Idx), s.get(Buf::Topw), s.get(Buf::Act)];
            if zsplit {
                s.set(Buf::MoePart, Val::Of(Fun::DownParts, x))
            } else {
                s.set(Buf::Mix, Val::Of(Fun::Down, x))
            }
        },
        Op::Nvf4Combine { .. } => s.set(Buf::Mix, joined(s.get(Buf::MoePart), op)),
        Op::CacheResolve { .. } => State {
            sought: of1(Fun::Resolved, s.get(Buf::Idx)),
            ..s.set(Buf::SlotIdx, of1(Fun::SlotsOf, s.get(Buf::Idx)))
        },
        Op::CacheFill { rows } => State { filled: of1(Fun::Filled(rows), s.sought), ..s },
        Op::WavePlan { rows } => State { planned: of1(Fun::WavesOf(rows), s.get(Buf::Idx)), ..s },
        Op::WaveResolve { wave } => State { sought: of1(Fun::WaveResolved(wave), s.planned), ..s },
        Op::WaveMask { wave, .. } => s.set(
            Buf::WaveIdx,
            of2(Fun::WaveMasked(wave), s.get(Buf::Idx), s.planned),
        ),
        Op::QuantizeIn { .. } => s.set(Buf::Xq, of1(Fun::Quantized, s.get(Buf::Bi))),
        Op::SumsIn { .. } => s.set(Buf::Ssums, of1(Fun::Sums, s.get(Buf::Xq))),
        Op::KqGateUp { idx, sums, .. } => s.set(
            Buf::Act,
            Val::Of(
                Fun::KqGateUp,
                seq![s.get(idx), seats(s, idx), s.get(Buf::Xq), sums_for(s, sums)],
            ),
        ),
        Op::QuantizeAct { .. } => s.set(Buf::Fq, of1(Fun::Quantized, s.get(Buf::Act))),
        Op::SumsAct { .. } => s.set(Buf::Ssums, of1(Fun::Sums, s.get(Buf::Fq))),
        Op::KqDown { idx, sums, dst, .. } => s.set(
            dst,
            Val::Of(
                Fun::KqDown,
                seq![
                    s.get(idx),
                    seats(s, idx),
                    s.get(Buf::Topw),
                    s.get(Buf::Fq),
                    sums_for(s, sums),
                ],
            ),
        ),
        Op::SharedDual => s.set(
            Buf::Shg,
            of2(
                Fun::Swiglu,
                of1(Fun::Product(PlaneId::ShGate), s.get(Buf::Bi)),
                of1(Fun::Product(PlaneId::ShUp), s.get(Buf::Bi)),
            ),
        ),
        Op::Swiglu { .. } => s.set(Buf::Shg, of2(Fun::Swiglu, s.get(Buf::Shg), s.get(Buf::Shu))),
        Op::AddGatedAt { .. } => gated_in(gate_logit(c, 0, s.get(Buf::Logits), op), s),
        Op::AddGatedStrided { stride, .. } => gated_in(
            gate_logit(c, stride as int, s.get(Buf::Logits), op),
            s,
        ),
        Op::AddGated { .. } => gated_in(s.get(Buf::ShGate), s),
        Op::SideFork => s,
        Op::SideEnd => s,
        Op::SideJoin => s,
    }
}

/// A cache with the rows of the pass appended where their positions and slots say.
pub open spec fn appended(cache: Val, rows: Val, s: State) -> Val {
    Val::Of(Fun::Append, seq![cache, rows, s.get(Buf::Pos), s.get(Buf::Slots)])
}

/// The picks off the experts' logits, and their weights.
pub open spec fn picked(logits: Val, s: State) -> State {
    s.set(Buf::Idx, of2(Fun::Picks, logits, s.get(Buf::ZeroBias))).set(
        Buf::Topw,
        of2(Fun::Weights, logits, s.get(Buf::ZeroBias)),
    )
}

/// The shared expert's share, added by its gate.
pub open spec fn gated_in(gate: Val, s: State) -> State {
    s.set(Buf::Mix, of3(Fun::AddGated, s.get(Buf::Mix), s.get(Buf::Shd), gate))
}

/// What a launch leaves; one that does not fit the pass leaves nothing to rely on.
pub open spec fn step(c: Scene, op: Op, s: State) -> State {
    if fits(c, op) {
        done(c, op, s)
    } else {
        State {
            at: Map::new(|b: Buf| true, |b: Buf| if op.writes(b) { Val::Odd(op) } else { s.at[b] }),
            planned: Val::Odd(op),
            sought: Val::Odd(op),
            filled: Val::Odd(op),
        }
    }
}

/// What a plan leaves along the path on which the launches are taken that `taken` says.
pub open spec fn run(c: Scene, p: Plan, s: State, taken: spec_fn(Op) -> bool) -> State
    decreases p,
{
    match p {
        Plan::Skip => s,
        Plan::Do(op) => step(c, op, s),
        Plan::Try(op, t, d) => if taken(op) {
            run(c, *t, step(c, op, s), taken)
        } else {
            run(c, *d, s, taken)
        },
        Plan::Both(a, b) => run(c, *b, run(c, *a, s, taken), taken),
        Plan::Fail(_) => s,
    }
}

/// The path ends in a fault.
pub open spec fn fails(p: Plan, taken: spec_fn(Op) -> bool) -> bool
    decreases p,
{
    match p {
        Plan::Skip => false,
        Plan::Do(_) => false,
        Plan::Try(op, t, d) => if taken(op) {
            fails(*t, taken)
        } else {
            fails(*d, taken)
        },
        Plan::Both(a, b) => fails(*a, taken) || fails(*b, taken),
        Plan::Fail(_) => true,
    }
}

/// Some path of the plan writes the buffer.
pub open spec fn touches(p: Plan, b: Buf) -> bool
    decreases p,
{
    match p {
        Plan::Skip => false,
        Plan::Do(op) => op.writes(b),
        Plan::Try(op, t, d) => op.writes(b) || touches(*t, b) || touches(*d, b),
        Plan::Both(x, y) => touches(*x, b) || touches(*y, b),
        Plan::Fail(_) => false,
    }
}

proof fn lemma_step_keeps(c: Scene, op: Op, s: State, b: Buf)
    requires
        !op.writes(b),
    ensures
        step(c, op, s).get(b) == s.get(b),
{
}

/// What a plan does not write, it leaves as it was, whatever declines.
pub proof fn law_plans_keep_what_they_do_not_write(
    c: Scene,
    p: Plan,
    s: State,
    taken: spec_fn(Op) -> bool,
    b: Buf,
)
    requires
        !touches(p, b),
    ensures
        run(c, p, s, taken).get(b) == s.get(b),
    decreases p,
{
    match p {
        Plan::Skip => {},
        Plan::Do(op) => {
            lemma_step_keeps(c, op, s, b);
        },
        Plan::Try(op, t, d) => {
            if taken(op) {
                lemma_step_keeps(c, op, s, b);
                law_plans_keep_what_they_do_not_write(c, *t, step(c, op, s), taken, b);
            } else {
                law_plans_keep_what_they_do_not_write(c, *d, s, taken, b);
            }
        },
        Plan::Both(x, y) => {
            law_plans_keep_what_they_do_not_write(c, *x, s, taken, b);
            law_plans_keep_what_they_do_not_write(c, *y, run(c, *x, s, taken), taken, b);
        },
        Plan::Fail(_) => {},
    }
}

/// Some path of the plan launches the operation, or offers it.
pub open spec fn names(p: Plan, op: Op) -> bool
    decreases p,
{
    match p {
        Plan::Skip => false,
        Plan::Do(o) => o == op,
        Plan::Try(o, t, d) => o == op || names(*t, op) || names(*d, op),
        Plan::Both(a, b) => names(*a, op) || names(*b, op),
        Plan::Fail(_) => false,
    }
}

} // verus!
