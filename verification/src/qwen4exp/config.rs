//! The model's shape, what is set for its walks, and what the kernel pack offers.
use crate::qwen4exp::dense::{DenseKnobs, DenseStage, DensePlane};
use vstd::prelude::*;

verus! {

/// What mixes the tokens of a layer.
#[derive(Debug, Clone, Copy, PartialEq, Eq, Structural)]
pub enum Block {
    /// the recurrence
    Gdn,
    Attention,
}

/// The numbers of the model's shape.
#[derive(Debug, Clone, Copy, PartialEq, Eq, Structural)]
pub struct Dims {
    pub hidden: usize,
    /// streams of the state, and their width together
    pub hc_count: usize,
    pub hc_width: usize,
    /// rank of the mix
    pub hc_lowrank: usize,
    pub vocab: usize,
    pub n_heads: usize,
    pub n_kv_heads: usize,
    pub head_dim: usize,
    pub attn_q_rows: usize,
    pub gdn_k_heads: usize,
    pub gdn_v_heads: usize,
    pub gdn_k_dim: usize,
    pub gdn_v_dim: usize,
    /// taps of the recurrent mixer's convolution
    pub gdn_conv: usize,
    pub gdn_qkv_rows: usize,
    pub gdn_z_rows: usize,
    pub n_expert: usize,
    pub n_active: usize,
    pub moe_ff: usize,
    pub shared_ff: usize,
    pub ple_embed: usize,
    pub ple_heads: usize,
    /// taps of the n-gram layer's convolution
    pub ple_conv: usize,
}

/// The model's shape, layer by layer.
#[derive(Debug)]
pub struct Qwen4ExpConfig {
    pub dims: Dims,
    pub blocks: Vec<Block>,
    /// layers that read n-grams
    pub ple_layers: Vec<usize>,
    /// the token that starts a segment
    pub bos_id: u32,
    /// the tokens that end a sequence
    pub eos_ids: Vec<u32>,
}

/// What is set for the walks.
#[derive(Debug, Clone, Copy, PartialEq, Eq, Structural)]
pub struct WalkKnobs {
    pub dense: DenseKnobs,
    /// side streams
    pub fork: bool,
    pub fuse_upmix: bool,
    pub fuse_zq: bool,
    pub fuse_qkv: bool,
    pub dn_prenorm: bool,
    pub router_fold: bool,
    pub router_gemv: bool,
    pub sh2: bool,
    /// splits of the full-precision products; below two they are not split
    pub sk_split: u32,
    pub attn_tc5: bool,
    pub attn_fmha: bool,
    /// key splits of the fused decode attention
    pub fmha_sp: usize,
    pub attn_ps: bool,
    /// the caches hold one byte per element
    pub kv8: bool,
    /// widest batch of the f16 twin in a walk that forks
    pub f16_fork_max: usize,
}

/// What the kernel pack offers.
#[derive(Debug, Clone, Copy, PartialEq, Eq, Structural)]
pub struct Pack {
    /// the f16 lane can be told of a side stream
    pub f16_ksplit_set: bool,
    pub f16_mmaf_gate: bool,
    pub qkv_gemm: bool,
    pub tiled_split: bool,
    pub tc5_paged: bool,
    pub fmha_sp: bool,
    pub fmha: bool,
    pub batch_ps: bool,
    pub moe_wave: bool,
}

/// Which shape a walk runs in.
#[derive(Debug, Clone, Copy, PartialEq, Eq, Structural)]
pub enum Phase {
    /// a prompt
    Prefill,
    /// one token of one sequence
    Decode,
    /// one token of each of several sequences
    DecodeBatch,
    /// several prompts
    PrefillRuns,
}

impl Phase {
    /// The rows are decode rows.
    pub open spec fn decodes(self) -> bool {
        self == Phase::Decode || self == Phase::DecodeBatch
    }

    pub fn is_decode(self) -> (b: bool)
        ensures
            b == self.decodes(),
    {
        match self {
            Phase::Decode => true,
            Phase::DecodeBatch => true,
            _ => false,
        }
    }
}

/// A walk may open side streams: it decodes, forks are on, and no branch stages activations that
/// another would overwrite.
pub open spec fn forks(phase: Phase, k: WalkKnobs, first: Option<DensePlane>, head: DensePlane) -> bool {
    phase.decodes() && k.fork && (first matches Some(p) && p is Bf16) && !(head is Kq)
}

/// A walk may open side streams. `first` is the first layer's down projection.
pub fn fork_ok(phase: Phase, k: &WalkKnobs, first: &Option<DensePlane>, head: &DensePlane) -> (b:
    bool)
    ensures
        b == forks(phase, *k, *first, *head),
{
    let plain: bool = match first {
        Some(DensePlane::Bf16 { .. }) => true,
        _ => false,
    };
    let quantized: bool = match head {
        DensePlane::Kq { .. } => true,
        _ => false,
    };
    phase.is_decode() && k.fork && plain && !quantized
}

/// What the walk lets its dense products do. The cluster arm is for decode rows alone, so that a
/// prompt is summed in the same order whether it came alone or in a wave; and a walk that forks
/// bounds the f16 twin.
pub open spec fn dense_phase(
    phase: Phase,
    k: WalkKnobs,
    pack: Pack,
    fork_ok: bool,
    lowm_refused: bool,
) -> DenseStage {
    DenseStage {
        f16_ok: pack.f16_ksplit_set && pack.f16_mmaf_gate,
        lowm_ok: phase.decodes() && !lowm_refused,
        f16_max: if fork_ok {
            k.f16_fork_max
        } else {
            usize::MAX
        },
    }
}

/// What the walk lets its dense products do.
pub fn walk_phase(phase: Phase, k: &WalkKnobs, pack: &Pack, fork_ok: bool, lowm_refused: bool) -> (p:
    DenseStage)
    ensures
        p == dense_phase(phase, *k, *pack, fork_ok, lowm_refused),
{
    DenseStage {
        f16_ok: pack.f16_ksplit_set && pack.f16_mmaf_gate,
        lowm_ok: phase.is_decode() && !lowm_refused,
        f16_max: if fork_ok {
            k.f16_fork_max
        } else {
            usize::MAX
        },
    }
}

/// A forked walk never runs the f16 twin wider than its bound: a prompt is never forked, and a
/// forked decode walk clamps the window.
pub proof fn law_forked_walks_bound_the_twin(
    phase: Phase,
    k: WalkKnobs,
    pack: Pack,
    first: Option<DensePlane>,
    head: DensePlane,
    refused: bool,
)
    ensures
        forks(phase, k, first, head) ==> dense_phase(
            phase,
            k,
            pack,
            forks(phase, k, first, head),
            refused,
        ).f16_max <= k.f16_fork_max,
        !phase.decodes() ==> !forks(phase, k, first, head),
        !phase.decodes() ==> !dense_phase(phase, k, pack, false, refused).lowm_ok,
{
}

/// Decode ticks are captured: unless that is turned off, and never while the walk is being dumped.
pub fn capture_wanted(no_graph: bool, dumping: bool) -> (b: bool)
    ensures
        b == (!no_graph && !dumping),
{
    !no_graph && !dumping
}

/// A walk forks only on decode rows, where the switch is on, the first plane is held in bf16 alone
/// and the head is not quantized, and always then.
pub proof fn law_walks_fork_where_they_may(
    phase: Phase,
    k: WalkKnobs,
    first: Option<DensePlane>,
    head: DensePlane,
)
    ensures
        forks(phase, k, first, head) ==> phase.decodes() && k.fork && first is Some && first->0 is Bf16,
        head is Kq || first is None ==> !forks(phase, k, first, head),
        phase.decodes() && k.fork && (first matches Some(p) && p is Bf16) && head !is Kq ==> forks(
            phase,
            k,
            first,
            head,
        ),
        phase.decodes() <==> phase == Phase::Decode || phase == Phase::DecodeBatch,
        !Phase::Prefill.decodes() && !Phase::PrefillRuns.decodes(),
{
}

/// The twin needs both of its kernels, the cluster a decode phase in which it was not refused, and
/// only a forked walk bounds the twin's rows.
pub proof fn law_dense_stages_need_their_kernels(
    phase: Phase,
    k: WalkKnobs,
    pack: Pack,
    fork_ok: bool,
    refused: bool,
)
    ensures
        ({
            let s = dense_phase(phase, k, pack, fork_ok, refused);
            &&& s.f16_ok <==> pack.f16_ksplit_set && pack.f16_mmaf_gate
            &&& s.lowm_ok ==> phase.decodes() && !refused
            &&& phase.decodes() && !refused ==> s.lowm_ok
            &&& fork_ok ==> s.f16_max == k.f16_fork_max
            &&& !fork_ok ==> s.f16_max == usize::MAX
        }),
{
}

} // verus!
