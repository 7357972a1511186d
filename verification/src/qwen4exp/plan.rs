//! Launch plans: what a pass over a layer launches, in which order, and what it falls back to when a
//! launch declines the shape it is offered.
use vstd::prelude::*;

verus! {

/// A device buffer of the walk.
#[derive(Debug, Clone, Copy, PartialEq, Eq, Structural)]
pub enum Buf {
    // staged before the walk
    Tok,
    Pos,
    Mrope,
    Slots,
    Emb,
    RunOff,
    RunLen,
    RunSlot,
    TileRow0,
    TileSlot,
    // kept over walks
    BlkTab,
    Sinks,
    ZeroBias,
    KvK,
    KvV,
    Recur,
    GdnWin,
    PleWin,
    // the state and the mix
    X,
    H,
    Xn,
    M,
    Gate,
    Bi,
    Inj,
    Mix,
    MixWave,
    // the recurrent mixer
    Qkv,
    Zg,
    Ab,
    G,
    Beta,
    Conv,
    Dq,
    Dk,
    Dv,
    Dattn,
    Core,
    // attention
    Qg,
    Q,
    Agate,
    K,
    V,
    Qn,
    Kn,
    Attn,
    // experts
    Logits,
    Idx,
    Topw,
    Act,
    MoePart,
    Xq,
    Fq,
    Ssums,
    SlotIdx,
    WaveIdx,
    Shg,
    Shu,
    Shd,
    ShGate,
    // n-grams
    Pkey,
    Pval,
    Pkn,
    Pqn,
    Pgv,
    Pconv,
    // the head
    Fin,
    Out,
}

/// Which mix of a layer, or the one behind the last.
#[derive(Debug, Clone, Copy, PartialEq, Eq, Structural)]
pub enum HcId {
    Attn,
    Mlp,
    Last,
}

/// A dense plane of a layer, or the head.
#[derive(Debug, Clone, Copy, PartialEq, Eq, Structural)]
pub enum PlaneId {
    HcDown(HcId),
    HcUp(HcId),
    PleKey,
    PleValue,
    GdnZ,
    GdnQkv,
    GdnOut,
    AttnQ,
    AttnK,
    AttnV,
    AttnO,
    ShGate,
    ShUp,
    ShDown,
    LmHead,
}

/// A full-precision matrix.
#[derive(Debug, Clone, Copy, PartialEq, Eq, Structural)]
pub enum MatId {
    Inject(HcId),
    GdnAb,
    Router,
}

/// A norm's weight.
#[derive(Debug, Clone, Copy, PartialEq, Eq, Structural)]
pub enum NormId {
    Hc(HcId),
    /// the attention mix of the layer behind this one
    NextAttn,
    PleKey,
    PleQuery,
    PleConv,
}

/// Two projections fused into one plane at load.
#[derive(Debug, Clone, Copy, PartialEq, Eq, Structural)]
pub enum PairId {
    GdnZQkv,
    SharedGateUp,
}

/// Whose rows an attention kernel serves.
#[derive(Debug, Clone, Copy, PartialEq, Eq, Structural)]
pub enum AttnArm {
    /// a wave of prompts, tile by tile
    PrefillWave { tiles: usize },
    /// one prompt
    Prefill,
    /// decode rows over 8-bit pools, on the tensor cores; may decline
    Tc5 { kv_heads: usize, blocks: usize, window: usize },
    /// decode rows, with the keys split
    FmhaSplit { splits: usize },
    Fmha,
    ParallelScore,
    Tile,
}

/// One launch.
#[derive(Debug, Clone, Copy, PartialEq, Eq, Structural)]
pub enum Op {
    EmbedGather { quantized: bool, rows: usize },
    Copy { src: Buf, src_off: usize, dst: Buf, dst_off: usize, len: usize },
    Add { dst: Buf, src: Buf, len: usize },
    GroupNorm { norm: NormId, src: Buf, dst: Buf, rows: usize },
    /// a dense product, by the route of its plane
    Matmul { plane: PlaneId, x: Buf, y: Buf, rows: usize },
    /// the product with the scale and silu folded in; may decline
    MatmulSilu { plane: PlaneId, x: Buf, y: Buf, silu_rows: usize },
    /// two segments, one block per row; may decline
    MatmulMrow { plane: PlaneId, x: Buf, ya: Buf, yb: Buf, oa: usize, rows: usize },
    /// two segments, tiled; may decline
    Matmul2Seg { plane: PlaneId, x: Buf, ya: Buf, yb: Buf, oa: usize, ob: usize, rows: usize },
    /// a segment of a plane's rows
    MatmulRows { plane: PlaneId, first: usize, out: usize, x: Buf, y: Buf, rows: usize },
    /// two fused projections; may decline
    Pair { pair: PairId, x: Buf, ya: Buf, yb: Buf, oa: usize, ob: usize, rows: usize },
    /// the three fused attention projections
    FusedQkv { q_rows: usize, kv_dim: usize, rows: usize },
    /// a full-precision product with the depth split; may decline
    MatvecSplit { mat: MatId, depth: usize, out: usize, x: Buf, y: Buf, split: u32 },
    /// rows `first .. first + out` of a full-precision product
    Matvec { mat: MatId, first: usize, depth: usize, out: usize, x: Buf, y: Buf, rows: usize },
    /// the router as one block per output row; may decline
    RouterGemv { depth: usize, out: usize },
    ScaleSilu { len: usize },
    /// the up projection and the mix in one; may decline
    UpMixGemm { id: HcId, rows: usize },
    UpMixGemv { id: HcId },
    HcMix { rows: usize },
    Combine { inj: Buf, off: usize, rows: usize },
    CombineNorm { inj: Buf, off: usize, norm: NormId, rows: usize },
    // n-grams
    PleGate { rows: usize },
    PleConv { off: usize, rows: usize },
    /// the ring step: reads the window by position and stores the row over the one it evicts
    PleRingStep { rows: usize },
    // the recurrent mixer
    DeltaGates { rows: usize },
    GdnConv { off: usize, rows: usize },
    ConvStep,
    /// a step per slot with the split folded in; may decline
    ConvStepSplit { rows: usize },
    ConvStepSlots { rows: usize },
    SplitWiden { tiled: bool, rows: usize },
    /// a wave's recurrence that normalizes its inputs itself; may decline
    RecurRunsNorm { runs: usize, rows: usize },
    RecurRuns { runs: usize },
    /// a step per slot with the gated norm folded in; may decline
    RecurSlotsNorm { rows: usize },
    RecurSlots { rows: usize },
    RecurAt { state_off: usize, rows: usize },
    GatedNorm { rows: usize },
    // attention
    SplitQg { rows: usize },
    NormQ { rows: usize },
    NormK { rows: usize },
    RopeQ { rows: usize },
    RopeK { rows: usize },
    AppendK { rows: usize },
    AppendV { rows: usize },
    Attention { arm: AttnArm, rows: usize },
    GateAttn { len: usize },
    // experts
    /// the picks off rows that carry the shared gate too; may decline
    TopkStrided { stride: usize, rows: usize },
    Topk { rows: usize },
    Nvf4GateUp { rows: usize },
    Nvf4Down { zsplit: bool, rows: usize },
    Nvf4Combine { parts: usize, rows: usize },
    CacheResolve { rows: usize },
    CacheFill { rows: usize },
    WavePlan { rows: usize },
    WaveResolve { wave: usize },
    WaveMask { wave: usize, rows: usize },
    QuantizeIn { len: usize },
    SumsIn { rows: usize },
    KqGateUp { idx: Buf, sums: bool, rows: usize },
    QuantizeAct { len: usize },
    SumsAct { rows: usize },
    KqDown { idx: Buf, sums: bool, dst: Buf, rows: usize },
    /// gate, up and swiglu of a single row in one; may decline
    SharedDual,
    Swiglu { len: usize },
    AddGatedAt { rows: usize },
    /// the shared gate off the folded rows; may decline
    AddGatedStrided { stride: usize, rows: usize },
    AddGated { rows: usize },
    // streams
    /// open a side stream; may decline
    SideFork,
    SideEnd,
    SideJoin,
}

/// What a pass cannot do.
#[derive(Debug, Clone, Copy, PartialEq, Eq, Structural)]
pub enum Fault {
    /// the 8-bit and quantized classes hold no folded planes
    NoFoldedRows,
    /// the kernel pack cannot split tiled heads
    NoTiledSplit,
    /// a recurrent layer holds an attention mixer
    GdnHoldsAttn,
    /// an attention layer holds a recurrent mixer
    AttnHoldsGdn,
}

impl Fault {
    /// The fault in words.
    pub fn to_string(&self) -> (s: String)
        ensures
            s@ == (match *self {
                Fault::NoFoldedRows =>
                    "matmul_rows: the 8-bit and k-quant dense classes hold no folded planes"@,
                Fault::NoTiledSplit =>
                    "kernel pack has no q4x_gdn_split_widen_tiled (slot 540) - rebuild packs/cuda"@,
                Fault::GdnHoldsAttn => "gdn layer has an attn mixer"@,
                Fault::AttnHoldsGdn => "attn layer has a gdn mixer"@,
            }),
    {
        match *self {
            Fault::NoFoldedRows =>
                "matmul_rows: the 8-bit and k-quant dense classes hold no folded planes".to_owned(),
            Fault::NoTiledSplit =>
                "kernel pack has no q4x_gdn_split_widen_tiled (slot 540) - rebuild packs/cuda".to_owned(),
            Fault::GdnHoldsAttn => "gdn layer has an attn mixer".to_owned(),
            Fault::AttnHoldsGdn => "attn layer has a gdn mixer".to_owned(),
        }
    }
}

/// A plan of launches.
#[derive(Debug)]
pub enum Plan {
    Skip,
    Do(Op),
    /// a launch that may decline, and what follows either way
    Try(Op, Box<Plan>, Box<Plan>),
    Both(Box<Plan>, Box<Plan>),
    Fail(Fault),
}

/// The plan of one after the other.
pub open spec fn then_(a: Plan, b: Plan) -> Plan {
    Plan::Both(Box::new(a), Box::new(b))
}

/// The plan of a launch, and what follows when it is taken and when it declines.
pub open spec fn either(op: Op, taken: Plan, declined: Plan) -> Plan {
    Plan::Try(op, Box::new(taken), Box::new(declined))
}

/// A plan, when it applies.
pub open spec fn when(b: bool, p: Plan) -> Plan {
    if b {
        p
    } else {
        Plan::Skip
    }
}

/// One plan after the other.
pub fn chain(a: Plan, b: Plan) -> (p: Plan)
    ensures
        p == then_(a, b),
{
    Plan::Both(Box::new(a), Box::new(b))
}

/// A launch, and what follows when it is taken and when it declines.
pub fn attempt(op: Op, taken: Plan, declined: Plan) -> (p: Plan)
    ensures
        p == either(op, taken, declined),
{
    Plan::Try(op, Box::new(taken), Box::new(declined))
}

/// A plan, when it applies.
pub fn if_so(b: bool, p: Plan) -> (q: Plan)
    ensures
        q == when(b, p),
{
    if b {
        p
    } else {
        Plan::Skip
    }
}

impl Buf {
    /// The buffer holds something before the walk starts.
    pub open spec fn ready(self) -> bool {
        match self {
            Buf::Tok => true,
            Buf::Pos => true,
            Buf::Mrope => true,
            Buf::Slots => true,
            Buf::Emb => true,
            Buf::RunOff => true,
            Buf::RunLen => true,
            Buf::RunSlot => true,
            Buf::TileRow0 => true,
            Buf::TileSlot => true,
            Buf::BlkTab => true,
            Buf::Sinks => true,
            Buf::ZeroBias => true,
            Buf::KvK => true,
            Buf::KvV => true,
            Buf::Recur => true,
            Buf::GdnWin => true,
            Buf::PleWin => true,
            _ => false,
        }
    }
}

impl Op {
    /// The launch reads the buffer.
    pub open spec fn reads(self, b: Buf) -> bool {
        match self {
            Op::EmbedGather { .. } => b == Buf::Tok,
            Op::Copy { src, .. } => b == src,
            Op::Add { dst, src, .. } => b == dst || b == src,
            Op::GroupNorm { src, .. } => b == src,
            Op::Matmul { x, .. } => b == x,
            Op::MatmulSilu { x, .. } => b == x,
            Op::MatmulMrow { x, .. } => b == x,
            Op::Matmul2Seg { x, .. } => b == x,
            Op::MatmulRows { x, .. } => b == x,
            Op::Pair { x, .. } => b == x,
            Op::FusedQkv { .. } => b == Buf::Bi,
            Op::MatvecSplit { x, .. } => b == x,
            Op::Matvec { x, .. } => b == x,
            Op::RouterGemv { .. } => b == Buf::Bi,
            Op::ScaleSilu { .. } => b == Buf::M,
            Op::UpMixGemm { .. } => b == Buf::M || b == Buf::Xn,
            Op::UpMixGemv { .. } => b == Buf::M || b == Buf::Xn,
            Op::HcMix { .. } => b == Buf::Xn || b == Buf::Gate,
            Op::Combine { inj, .. } => b == Buf::H || b == Buf::Mix || b == inj,
            Op::CombineNorm { inj, .. } => b == Buf::H || b == Buf::Mix || b == inj,
            Op::PleGate { .. } => b == Buf::Pkn || b == Buf::Pqn || b == Buf::Pval,
            Op::PleConv { .. } => b == Buf::Pkn,
            Op::PleRingStep { .. } => b == Buf::Pkn || b == Buf::PleWin || b == Buf::Slots || b
                == Buf::Pos,
            Op::DeltaGates { .. } => b == Buf::Ab,
            Op::GdnConv { .. } => b == Buf::Qkv,
            Op::ConvStep => b == Buf::Qkv || b == Buf::GdnWin,
            Op::ConvStepSplit { .. } => b == Buf::Qkv || b == Buf::GdnWin || b == Buf::Slots,
            Op::ConvStepSlots { .. } => b == Buf::Qkv || b == Buf::GdnWin || b == Buf::Slots,
            Op::SplitWiden { .. } => b == Buf::Conv,
            Op::RecurRunsNorm { .. } => recur_reads(b) || run_tables(b),
            Op::RecurRuns { .. } => recur_reads(b) || run_tables(b),
            Op::RecurSlotsNorm { .. } => recur_reads(b) || b == Buf::Slots || b == Buf::Zg,
            Op::RecurSlots { .. } => recur_reads(b) || b == Buf::Slots,
            Op::RecurAt { .. } => recur_reads(b),
            Op::GatedNorm { .. } => b == Buf::Dattn || b == Buf::Zg,
            Op::SplitQg { .. } => b == Buf::Qg,
            Op::NormQ { .. } => b == Buf::Q,
            Op::NormK { .. } => b == Buf::K,
            Op::RopeQ { .. } => b == Buf::Qn || b == Buf::Mrope,
            Op::RopeK { .. } => b == Buf::Kn || b == Buf::Mrope,
            Op::AppendK { .. } => b == Buf::Kn || b == Buf::Pos || b == Buf::Slots,
            Op::AppendV { .. } => b == Buf::V || b == Buf::Pos || b == Buf::Slots,
            Op::Attention { arm, .. } => {
                ||| b == Buf::Qn || b == Buf::KvK || b == Buf::KvV
                ||| b == Buf::Sinks || b == Buf::Pos || b == Buf::Slots
                ||| arm is PrefillWave && (b == Buf::TileRow0 || b == Buf::TileSlot)
                ||| arm is Tc5 && b == Buf::BlkTab
            },
            Op::GateAttn { .. } => b == Buf::Attn || b == Buf::Agate,
            Op::TopkStrided { .. } => b == Buf::Logits || b == Buf::ZeroBias,
            Op::Topk { .. } => b == Buf::Logits || b == Buf::ZeroBias,
            Op::Nvf4GateUp { .. } => b == Buf::Idx || b == Buf::Bi,
            Op::Nvf4Down { .. } => b == Buf::Idx || b == Buf::Topw || b == Buf::Act,
            Op::Nvf4Combine { .. } => b == Buf::MoePart,
            Op::CacheResolve { .. } => b == Buf::Idx,
            Op::CacheFill { .. } => false,
            Op::WavePlan { .. } => b == Buf::Idx,
            Op::WaveResolve { .. } => false,
            Op::WaveMask { .. } => b == Buf::Idx,
            Op::QuantizeIn { .. } => b == Buf::Bi,
            Op::SumsIn { .. } => b == Buf::Xq,
            Op::KqGateUp { idx, sums, .. } => b == idx || b == Buf::Xq || (sums && b == Buf::Ssums),
            Op::QuantizeAct { .. } => b == Buf::Act,
            Op::SumsAct { .. } => b == Buf::Fq,
            Op::KqDown { idx, sums, .. } => b == idx || b == Buf::Topw || b == Buf::Fq || (sums
                && b == Buf::Ssums),
            Op::SharedDual => b == Buf::Bi,
            Op::Swiglu { .. } => b == Buf::Shg || b == Buf::Shu,
            Op::AddGatedAt { .. } => b == Buf::Mix || b == Buf::Shd || b == Buf::Logits,
            Op::AddGatedStrided { .. } => b == Buf::Mix || b == Buf::Shd || b == Buf::Logits,
            Op::AddGated { .. } => b == Buf::Mix || b == Buf::Shd || b == Buf::ShGate,
            Op::SideFork => false,
            Op::SideEnd => false,
            Op::SideJoin => false,
        }
    }

    /// The launch writes the buffer.
    pub open spec fn writes(self, b: Buf) -> bool {
        match self {
            Op::EmbedGather { .. } => b == Buf::X,
            Op::Copy { dst, .. } => b == dst,
            Op::Add { dst, .. } => b == dst,
            Op::GroupNorm { dst, .. } => b == dst,
            Op::Matmul { y, .. } => b == y,
            Op::MatmulSilu { y, .. } => b == y,
            Op::MatmulMrow { ya, yb, .. } => b == ya || b == yb,
            Op::Matmul2Seg { ya, yb, .. } => b == ya || b == yb,
            Op::MatmulRows { y, .. } => b == y,
            Op::Pair { ya, yb, .. } => b == ya || b == yb,
            Op::FusedQkv { .. } => b == Buf::Qg || b == Buf::K || b == Buf::V,
            Op::MatvecSplit { y, .. } => b == y,
            Op::Matvec { y, .. } => b == y,
            Op::RouterGemv { .. } => b == Buf::Logits,
            Op::ScaleSilu { .. } => b == Buf::M,
            Op::UpMixGemm { .. } => b == Buf::Bi,
            Op::UpMixGemv { .. } => b == Buf::Bi,
            Op::HcMix { .. } => b == Buf::Bi,
            Op::Combine { .. } => b == Buf::H,
            Op::CombineNorm { .. } => b == Buf::H || b == Buf::Xn,
            Op::PleGate { .. } => b == Buf::Pgv,
            Op::PleConv { .. } => b == Buf::Pconv,
            Op::PleRingStep { .. } => b == Buf::Pconv || b == Buf::PleWin,
            Op::DeltaGates { .. } => b == Buf::G || b == Buf::Beta,
            Op::GdnConv { .. } => b == Buf::Conv,
            Op::ConvStep => b == Buf::Conv || b == Buf::GdnWin,
            Op::ConvStepSplit { .. } => b == Buf::Dq || b == Buf::Dk || b == Buf::Dv || b
                == Buf::GdnWin,
            Op::ConvStepSlots { .. } => b == Buf::Conv || b == Buf::GdnWin,
            Op::SplitWiden { .. } => b == Buf::Dq || b == Buf::Dk || b == Buf::Dv,
            Op::RecurRunsNorm { .. } => b == Buf::Dattn || b == Buf::Recur,
            Op::RecurRuns { .. } => b == Buf::Dattn || b == Buf::Recur,
            Op::RecurSlotsNorm { .. } => b == Buf::Core || b == Buf::Recur,
            Op::RecurSlots { .. } => b == Buf::Dattn || b == Buf::Recur,
            Op::RecurAt { .. } => b == Buf::Dattn || b == Buf::Recur,
            Op::GatedNorm { .. } => b == Buf::Core,
            Op::SplitQg { .. } => b == Buf::Q || b == Buf::Agate,
            Op::NormQ { .. } => b == Buf::Qn,
            Op::NormK { .. } => b == Buf::Kn,
            Op::RopeQ { .. } => b == Buf::Qn,
            Op::RopeK { .. } => b == Buf::Kn,
            Op::AppendK { .. } => b == Buf::KvK,
            Op::AppendV { .. } => b == Buf::KvV,
            Op::Attention { .. } => b == Buf::Attn,
            Op::GateAttn { .. } => b == Buf::Attn,
            Op::TopkStrided { .. } => b == Buf::Idx || b == Buf::Topw,
            Op::Topk { .. } => b == Buf::Idx || b == Buf::Topw,
            Op::Nvf4GateUp { .. } => b == Buf::Act,
            Op::Nvf4Down { zsplit, .. } => b == (if zsplit {
                Buf::MoePart
            } else {
                Buf::Mix
            }),
            Op::Nvf4Combine { .. } => b == Buf::Mix,
            Op::CacheResolve { .. } => b == Buf::SlotIdx,
            Op::CacheFill { .. } => false,
            Op::WavePlan { .. } => false,
            Op::WaveResolve { .. } => false,
            Op::WaveMask { .. } => b == Buf::WaveIdx,
            Op::QuantizeIn { .. } => b == Buf::Xq,
            Op::SumsIn { .. } => b == Buf::Ssums,
            Op::KqGateUp { .. } => b == Buf::Act,
            Op::QuantizeAct { .. } => b == Buf::Fq,
            Op::SumsAct { .. } => b == Buf::Ssums,
            Op::KqDown { dst, .. } => b == dst,
            Op::SharedDual => b == Buf::Shg,
            Op::Swiglu { .. } => b == Buf::Shg,
            Op::AddGatedAt { .. } => b == Buf::Mix,
            Op::AddGatedStrided { .. } => b == Buf::Mix,
            Op::AddGated { .. } => b == Buf::Mix,
            Op::SideFork => false,
            Op::SideEnd => false,
            Op::SideJoin => false,
        }
    }
}

/// What the recurrence reads.
pub open spec fn recur_reads(b: Buf) -> bool {
    b == Buf::Dq || b == Buf::Dk || b == Buf::Dv || b == Buf::G || b == Buf::Beta || b == Buf::Recur
}

/// The tables of a wave's runs.
pub open spec fn run_tables(b: Buf) -> bool {
    b == Buf::RunOff || b == Buf::RunLen || b == Buf::RunSlot
}

/// Everything that a plan is sure to have written, whatever declines.
pub open spec fn written(p: Plan) -> Set<Buf>
    decreases p,
{
    match p {
        Plan::Skip => Set::empty(),
        Plan::Do(op) => Set::new(|b: Buf| op.writes(b)),
        Plan::Try(op, t, d) => Set::new(
            |b: Buf| (op.writes(b) || written(*t).contains(b)) && written(*d).contains(b),
        ),
        Plan::Both(a, b) => written(*a).union(written(*b)),
        Plan::Fail(_) => Set::full(),
    }
}

/// Every launch of the plan finds what it reads, whatever declines: in `live`, or written before it.
pub open spec fn fed(p: Plan, live: Set<Buf>) -> bool
    decreases p,
{
    match p {
        Plan::Skip => true,
        Plan::Do(op) => forall|b: Buf| #[trigger] op.reads(b) ==> live.contains(b),
        Plan::Try(op, t, d) => {
            &&& forall|b: Buf| #[trigger] op.reads(b) ==> live.contains(b)
            &&& fed(*t, live.union(Set::new(|b: Buf| op.writes(b))))
            &&& fed(*d, live)
        },
        Plan::Both(a, b) => fed(*a, live) && fed(*b, live.union(written(*a))),
        Plan::Fail(_) => true,
    }
}

/// More at hand never starves a plan.
pub proof fn lemma_fed_mono(p: Plan, live: Set<Buf>, more: Set<Buf>)
    requires
        fed(p, live),
        live.subset_of(more),
    ensures
        fed(p, more),
    decreases p,
{
    match p {
        Plan::Try(op, t, d) => {
            let w = Set::new(|b: Buf| op.writes(b));
            lemma_fed_mono(*t, live.union(w), more.union(w));
            lemma_fed_mono(*d, live, more);
        },
        Plan::Both(a, b) => {
            lemma_fed_mono(*a, live, more);
            lemma_fed_mono(*b, live.union(written(*a)), more.union(written(*a)));
        },
        _ => {},
    }
}

/// Where the side stream stands: closed, open, or ended and not joined yet.
#[derive(Debug, Clone, Copy, PartialEq, Eq, Structural)]
pub enum Side {
    Closed,
    Open,
    Ended,
    /// launches out of order
    Wrong,
}

/// Where the side stream stands behind a plan, whatever declines. A plan that leaves it in two
/// different ways, or that fails, is wrong.
pub open spec fn side_after(p: Plan, s: Side) -> Side
    decreases p,
{
    if s == Side::Wrong {
        Side::Wrong
    } else {
        match p {
            Plan::Skip => s,
            Plan::Do(op) => match op {
                Op::SideFork => Side::Wrong,
                Op::SideEnd => if s == Side::Open {
                    Side::Ended
                } else {
                    Side::Wrong
                },
                Op::SideJoin => if s == Side::Ended {
                    Side::Closed
                } else {
                    Side::Wrong
                },
                _ => s,
            },
            Plan::Try(op, t, d) => {
                let on = if op == Op::SideFork {
                    if s == Side::Closed {
                        Side::Open
                    } else {
                        Side::Wrong
                    }
                } else {
                    s
                };
                let a = side_after(*t, on);
                if a == side_after(*d, s) {
                    a
                } else {
                    Side::Wrong
                }
            },
            Plan::Both(a, b) => side_after(*b, side_after(*a, s)),
            Plan::Fail(_) => Side::Wrong,
        }
    }
}

} // verus!
