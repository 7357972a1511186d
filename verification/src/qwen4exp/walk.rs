//! The walk over the layers: the embedding spread over the streams, each layer's mixer and experts
//! between their mixes, and the head over the rows that are asked for.
use crate::qwen4exp::attn;
use crate::qwen4exp::attn::{attn_pass, AttnW};
use crate::qwen4exp::config::{Block, Dims, Pack, Phase, WalkKnobs};
use crate::qwen4exp::dense::DenseStage;
use crate::qwen4exp::gdn;
use crate::qwen4exp::gdn::{gdn_pass, GdnW, WalkAt};
use crate::qwen4exp::mix;
use crate::qwen4exp::mix::{combine, final_mix, hc_mix_pass, HcW};
use crate::qwen4exp::moe;
use crate::qwen4exp::moe::{moe_pass, MoeW};
use crate::qwen4exp::ngram;
use crate::qwen4exp::ngram::ple_pass;
use crate::qwen4exp::meaning;
use crate::qwen4exp::meaning::{Fun, Scene, State, Val};
use crate::qwen4exp::plan;
use crate::qwen4exp::plan::{chain, Buf, Fault, HcId, NormId, Op, Plan, PlaneId};
use crate::qwen4exp::stage::Run;
use vstd::prelude::*;

verus! {

/// A layer's mixer.
#[derive(Debug, Clone, Copy, PartialEq, Eq, Structural)]
pub enum MixerW {
    Gdn(GdnW),
    Attn(AttnW),
}

/// What a walk needs to know of a layer.
#[derive(Debug, Clone, Copy, PartialEq, Eq, Structural)]
pub struct Qwen4ExpLayer {
    pub block: Block,
    pub attn_hc: HcW,
    pub mlp_hc: HcW,
    pub mixer: MixerW,
    pub moe: MoeW,
    /// the layer reads n-grams
    pub ple: bool,
}

/// A walk's launches.
#[derive(Debug)]
pub struct WalkPlan {
    pub embed: Op,
    /// the copies that spread the embedding over the streams
    pub spread: Vec<Op>,
    pub layers: Vec<Plan>,
    pub last: Plan,
    /// the rows that are asked for, gathered, and the head over them
    pub head: Vec<Op>,
}

/// The state enters layer `li` normed: the combine before it took the norm already, which it may
/// unless the layer adds its n-grams first.
pub open spec fn enters_normed(layers: Seq<Qwen4ExpLayer>, li: int) -> bool {
    li > 0 && (li < layers.len() ==> !layers[li].ple)
}

/// The norm that reads the state behind layer `li`, where the combine may take it.
pub open spec fn next_norm(layers: Seq<Qwen4ExpLayer>, li: int) -> Option<NormId> {
    if li + 1 < layers.len() {
        if layers[li + 1].ple {
            None
        } else {
            Some(NormId::NextAttn)
        }
    } else {
        Some(NormId::Hc(HcId::Last))
    }
}

/// A layer's mixer.
pub open spec fn mixer_plan(
    d: Dims,
    l: Qwen4ExpLayer,
    k: WalkKnobs,
    pack: Pack,
    p: DenseStage,
    at: WalkAt,
    max_ctx: usize,
    runs: Seq<Run>,
) -> Plan {
    match (l.block, l.mixer) {
        (Block::Gdn, MixerW::Gdn(w)) => gdn::gdn_plan(d, w, k, pack, p, at, runs),
        (Block::Gdn, MixerW::Attn(_)) => Plan::Fail(Fault::GdnHoldsAttn),
        (Block::Attention, MixerW::Attn(w)) => attn::attn_plan(
            d,
            w,
            k,
            pack,
            p,
            at,
            max_ctx,
            runs,
        ),
        (Block::Attention, MixerW::Gdn(_)) => Plan::Fail(Fault::AttnHoldsGdn),
    }
}

/// The first half of a layer: its n-grams, its mixer, and the combine behind it.
pub open spec fn front_plan(
    d: Dims,
    l: Qwen4ExpLayer,
    k: WalkKnobs,
    pack: Pack,
    p: DenseStage,
    at: WalkAt,
    max_ctx: usize,
    runs: Seq<Run>,
    normed: bool,
) -> Plan {
    plan::then_(
        plan::then_(
            plan::when(l.ple, ngram::ple_plan(d, at.n, at.phase, at.slot, runs)),
            mix::mix_plan(d, l.attn_hc, HcId::Attn, k.dense, k.fuse_upmix, at.n, normed),
        ),
        plan::then_(
            mixer_plan(d, l, k, pack, p, at, max_ctx, runs),
            Plan::Do(
                mix::combined(
                    mix::mix_inj(d, l.attn_hc, at.n),
                    Some(NormId::Hc(HcId::Mlp)),
                    at.n,
                ),
            ),
        ),
    )
}

/// The second half of a layer: its experts, and the combine behind them.
pub open spec fn back_plan(
    d: Dims,
    l: Qwen4ExpLayer,
    k: WalkKnobs,
    pack: Pack,
    at: WalkAt,
    next: Option<NormId>,
) -> Plan {
    plan::then_(
        plan::then_(
            mix::mix_plan(d, l.mlp_hc, HcId::Mlp, k.dense, k.fuse_upmix, at.n, true),
            moe::moe_plan(d, l.moe, k, pack, at.n, at.fork_ok, at.phase.decodes()),
        ),
        Plan::Do(mix::combined(mix::mix_inj(d, l.mlp_hc, at.n), next, at.n)),
    )
}

/// Layer `li`.
pub open spec fn layer_plan(
    d: Dims,
    layers: Seq<Qwen4ExpLayer>,
    li: int,
    k: WalkKnobs,
    pack: Pack,
    p: DenseStage,
    at: WalkAt,
    max_ctx: usize,
    runs: Seq<Run>,
) -> Plan {
    plan::then_(
        front_plan(d, layers[li], k, pack, p, at, max_ctx, runs, enters_normed(layers, li)),
        back_plan(d, layers[li], k, pack, at, next_norm(layers, li)),
    )
}

/// The copy of row `t` into stream `s`.
pub open spec fn spread_copy(d: Dims, t: int, s: int) -> Op {
    Op::Copy {
        src: Buf::X,
        src_off: (t * d.hidden) as usize,
        dst: Buf::H,
        dst_off: (t * d.hc_width + s * d.hidden) as usize,
        len: d.hidden,
    }
}

/// The copies of the first `t` rows, and of the first `s` streams of the row behind them.
pub open spec fn spread_to(d: Dims, t: int, s: int) -> Seq<Op>
    decreases t, s,
{
    if s > 0 {
        spread_to(d, t, s - 1).push(spread_copy(d, t, s - 1))
    } else if t > 0 {
        spread_to(d, t - 1, d.hc_count as int)
    } else {
        seq![]
    }
}

/// The last row of a run, into row `i` of the head's input.
pub open spec fn last_copy(d: Dims, r: Run, i: int) -> Op {
    Op::Copy {
        src: Buf::Bi,
        src_off: ((r.off + r.len - 1) * d.hidden) as usize,
        dst: Buf::Fin,
        dst_off: (i * d.hidden) as usize,
        len: d.hidden,
    }
}

/// The head: over every row of a decode batch, over the last row of each run of a wave, and over
/// the last row otherwise.
pub open spec fn head_ops(d: Dims, phase: Phase, n: usize, runs: Seq<Run>) -> Seq<Op> {
    match phase {
        Phase::DecodeBatch => seq![
            Op::Matmul { plane: PlaneId::LmHead, x: Buf::Bi, y: Buf::Out, rows: n },
        ],
        Phase::PrefillRuns => Seq::new(runs.len(), |i: int| last_copy(d, runs[i], i)).push(
            Op::Matmul {
                plane: PlaneId::LmHead,
                x: Buf::Fin,
                y: Buf::Out,
                rows: runs.len() as usize,
            },
        ),
        _ => seq![
            Op::Copy {
                src: Buf::Bi,
                src_off: ((n - 1) * d.hidden) as usize,
                dst: Buf::Fin,
                dst_off: 0,
                len: d.hidden,
            },
            Op::Matmul { plane: PlaneId::LmHead, x: Buf::Fin, y: Buf::Out, rows: 1 },
        ],
    }
}

/// What a walk over `n` rows computes with fits a machine word.
pub open spec fn walk_fits(d: Dims, at: WalkAt, max_ctx: usize, runs: Seq<Run>) -> bool {
    &&& at.n >= 1
    &&& d.hc_width == d.hc_count * d.hidden
    &&& at.n * d.hc_width <= usize::MAX
    &&& at.n * d.hc_lowrank <= usize::MAX
    &&& gdn::gdn_fits(d, at, runs)
    &&& attn::attn_fits(d, at, max_ctx, runs)
    &&& moe::moe_fits(d, at.n)
    &&& at.phase == Phase::PrefillRuns ==> runs.len() * d.hidden <= usize::MAX && forall|i: int|
        0 <= i < runs.len() ==> {
            let r = #[trigger] runs[i];
            r.len >= 1 && r.off + r.len <= at.n
        }
}

/// The rings of the walk's prompts fit a machine word, where a layer reads n-grams.
pub open spec fn rings_fit(d: Dims, at: WalkAt, runs: Seq<Run>) -> bool {
    &&& at.phase == Phase::Prefill ==> ngram::ring_fits(d, at.slot as int, at.n as int)
    &&& at.phase == Phase::PrefillRuns ==> forall|i: int|
        0 <= i < runs.len() ==> {
            let r = #[trigger] runs[i];
            r.off + r.len <= usize::MAX && ngram::ring_fits(d, r.slot as int, r.off + r.len)
        }
}

fn mixer(
    d: &Dims,
    l: &Qwen4ExpLayer,
    k: &WalkKnobs,
    pack: &Pack,
    p: &DenseStage,
    at: &WalkAt,
    max_ctx: usize,
    runs: &Vec<Run>,
) -> (r: Plan)
    requires
        walk_fits(*d, *at, max_ctx, runs@),
    ensures
        r == mixer_plan(*d, *l, *k, *pack, *p, *at, max_ctx, runs@),
{
    match l.block {
        Block::Gdn => match &l.mixer {
            MixerW::Gdn(w) => gdn_pass(d, w, k, pack, p, at, runs),
            MixerW::Attn(_) => Plan::Fail(Fault::GdnHoldsAttn),
        },
        Block::Attention => match &l.mixer {
            MixerW::Attn(w) => attn_pass(d, w, k, pack, p, at, max_ctx, runs),
            MixerW::Gdn(_) => Plan::Fail(Fault::AttnHoldsGdn),
        },
    }
}

/// Layer `li` of the walk.
pub fn walk_layer(
    d: &Dims,
    layers: &Vec<Qwen4ExpLayer>,
    li: usize,
    k: &WalkKnobs,
    pack: &Pack,
    p: &DenseStage,
    at: &WalkAt,
    max_ctx: usize,
    runs: &Vec<Run>,
) -> (r: Plan)
    requires
        li < layers@.len(),
        walk_fits(*d, *at, max_ctx, runs@),
        layers@[li as int].ple ==> rings_fit(*d, *at, runs@),
    ensures
        r == layer_plan(*d, layers@, li as int, *k, *pack, *p, *at, max_ctx, runs@),
{
    let n: usize = at.n;
    let count: usize = layers.len();
    let l: Qwen4ExpLayer = layers[li];
    let normed: bool = li > 0 && !l.ple;
    let ple: Plan = if l.ple {
        ple_pass(d, n, at.phase, at.slot, runs)
    } else {
        Plan::Skip
    };
    proof {
        assert(1 * d.hc_width <= n * d.hc_width) by (nonlinear_arith)
            requires
                n >= 1,
        ;
    }
    let (mix1, inj1) = hc_mix_pass(d, &l.attn_hc, HcId::Attn, &k.dense, k.fuse_upmix, n, normed);
    let block: Plan = mixer(d, &l, k, pack, p, at, max_ctx, runs);
    let (join1, _normed1) = combine(inj1, Some(NormId::Hc(HcId::Mlp)), n);
    let front: Plan = chain(chain(ple, mix1), chain(block, Plan::Do(join1)));
    let (mix2, inj2) = hc_mix_pass(d, &l.mlp_hc, HcId::Mlp, &k.dense, k.fuse_upmix, n, true);
    let experts: Plan = moe_pass(d, &l.moe, k, pack, n, at.fork_ok, at.phase.is_decode());
    let next: Option<NormId> = if li < count - 1 {
        if layers[li + 1].ple {
            None
        } else {
            Some(NormId::NextAttn)
        }
    } else {
        Some(NormId::Hc(HcId::Last))
    };
    let (join2, _normed2) = combine(inj2, next, n);
    let back: Plan = chain(chain(mix2, experts), Plan::Do(join2));
    chain(front, back)
}

fn spread(d: &Dims, n: usize) -> (v: Vec<Op>)
    requires
        d.hc_width == d.hc_count * d.hidden,
        n * d.hc_width <= usize::MAX,
    ensures
        v@ == spread_to(*d, n as int, 0),
{
    let mut v: Vec<Op> = Vec::new();
    let mut t: usize = 0;
    while t < n
        invariant
            t <= n,
            d.hc_width == d.hc_count * d.hidden,
            n * d.hc_width <= usize::MAX,
            v@ == spread_to(*d, t as int, 0),
        decreases n - t,
    {
        let mut s: usize = 0;
        while s < d.hc_count
            invariant
                t < n,
                s <= d.hc_count,
                d.hc_width == d.hc_count * d.hidden,
                n * d.hc_width <= usize::MAX,
                v@ == spread_to(*d, t as int, s as int),
            decreases d.hc_count - s,
        {
            proof {
                assert(t * d.hc_width + d.hc_width <= n * d.hc_width) by (nonlinear_arith)
                    requires
                        t + 1 <= n,
                ;
                assert(s * d.hidden + d.hidden <= d.hc_count * d.hidden) by (nonlinear_arith)
                    requires
                        s + 1 <= d.hc_count,
                ;
                assert(0 <= t * d.hc_width && 0 <= s * d.hidden) by (nonlinear_arith);
                assert(t * d.hidden <= t * d.hc_width) by (nonlinear_arith)
                    requires
                        d.hidden <= d.hc_width,
                ;
                assert(0 <= t * d.hidden) by (nonlinear_arith);
            }
            v.push(
                Op::Copy {
                    src: Buf::X,
                    src_off: t * d.hidden,
                    dst: Buf::H,
                    dst_off: t * d.hc_width + s * d.hidden,
                    len: d.hidden,
                },
            );
            s = s + 1;
            assert(v@ == spread_to(*d, t as int, s as int));
        }
        t = t + 1;
        assert(spread_to(*d, t as int, 0) == spread_to(*d, t - 1, d.hc_count as int));
    }
    v
}

fn head(d: &Dims, phase: Phase, n: usize, runs: &Vec<Run>) -> (v: Vec<Op>)
    requires
        n >= 1,
        n * d.hidden <= usize::MAX,
        phase == Phase::PrefillRuns ==> runs@.len() * d.hidden <= usize::MAX && forall|i: int|
            0 <= i < runs@.len() ==> {
                let r = #[trigger] runs@[i];
                r.len >= 1 && r.off + r.len <= n
            },
    ensures
        v@ == head_ops(*d, phase, n, runs@),
{
    let mut v: Vec<Op> = Vec::new();
    match phase {
        Phase::DecodeBatch => {
            v.push(Op::Matmul { plane: PlaneId::LmHead, x: Buf::Bi, y: Buf::Out, rows: n });
        },
        Phase::PrefillRuns => {
            let mut i: usize = 0;
            while i < runs.len()
                invariant
                    i <= runs@.len(),
                    n * d.hidden <= usize::MAX,
                    runs@.len() * d.hidden <= usize::MAX,
                    forall|i: int|
                        0 <= i < runs@.len() ==> {
                            let r = #[trigger] runs@[i];
                            r.len >= 1 && r.off + r.len <= n
                        },
                    v@ == Seq::new(i as nat, |j: int| last_copy(*d, runs@[j], j)),
                decreases runs@.len() - i,
            {
                let r: Run = runs[i];
                assert(runs@[i as int].len >= 1);
                proof {
                    assert((r.off + r.len - 1) * d.hidden <= n * d.hidden) by (nonlinear_arith)
                        requires
                            r.off + r.len <= n,
                    ;
                    assert(0 <= (r.off + r.len - 1) * d.hidden) by (nonlinear_arith)
                        requires
                            r.off + r.len >= 1,
                    ;
                    assert(i * d.hidden <= runs@.len() * d.hidden) by (nonlinear_arith)
                        requires
                            i <= runs@.len(),
                    ;
                    assert(0 <= i * d.hidden) by (nonlinear_arith);
                }
                v.push(
                    Op::Copy {
                        src: Buf::Bi,
                        src_off: (r.off + r.len - 1) * d.hidden,
                        dst: Buf::Fin,
                        dst_off: i * d.hidden,
                        len: d.hidden,
                    },
                );
                i = i + 1;
                assert(v@ =~= Seq::new(i as nat, |j: int| last_copy(*d, runs@[j], j)));
            }
            v.push(
                Op::Matmul { plane: PlaneId::LmHead, x: Buf::Fin, y: Buf::Out, rows: runs.len() },
            );
        },
        _ => {
            proof {
                assert((n - 1) * d.hidden <= n * d.hidden) by (nonlinear_arith);
                assert(0 <= (n - 1) * d.hidden) by (nonlinear_arith)
                    requires
                        n >= 1,
                ;
            }
            v.push(
                Op::Copy {
                    src: Buf::Bi,
                    src_off: (n - 1) * d.hidden,
                    dst: Buf::Fin,
                    dst_off: 0,
                    len: d.hidden,
                },
            );
            v.push(Op::Matmul { plane: PlaneId::LmHead, x: Buf::Fin, y: Buf::Out, rows: 1 });
        },
    }
    assert(v@ =~= head_ops(*d, phase, n, runs@));
    v
}

/// The walk over every layer, for the rows that were staged.
pub fn device_walk(
    d: &Dims,
    quantized_embed: bool,
    layers: &Vec<Qwen4ExpLayer>,
    last: &HcW,
    k: &WalkKnobs,
    pack: &Pack,
    p: &DenseStage,
    at: &WalkAt,
    max_ctx: usize,
    runs: &Vec<Run>,
) -> (w: WalkPlan)
    requires
        walk_fits(*d, *at, max_ctx, runs@),
        forall|i: int| 0 <= i < layers@.len() ==> ((#[trigger] layers@[i]).ple ==> rings_fit(*d, *at, runs@)),
    ensures
        w.embed == (Op::EmbedGather { quantized: quantized_embed, rows: at.n }),
        w.spread@ == spread_to(*d, at.n as int, 0),
        w.layers@ == Seq::new(
            layers@.len(),
            |li: int| layer_plan(*d, layers@, li, *k, *pack, *p, *at, max_ctx, runs@),
        ),
        w.last == mix::last_mix(
            *d,
            *last,
            k.dense,
            k.fuse_upmix,
            at.n,
            enters_normed(layers@, layers@.len() as int),
        ),
        w.head@ == head_ops(*d, at.phase, at.n, runs@),
{
    let mut plans: Vec<Plan> = Vec::new();
    let mut li: usize = 0;
    while li < layers.len()
        invariant
            li <= layers@.len(),
            walk_fits(*d, *at, max_ctx, runs@),
            forall|i: int|
                0 <= i < layers@.len() ==> ((#[trigger] layers@[i]).ple ==> rings_fit(*d, *at, runs@)),
            plans@ == Seq::new(
                li as nat,
                |li: int| layer_plan(*d, layers@, li, *k, *pack, *p, *at, max_ctx, runs@),
            ),
        decreases layers@.len() - li,
    {
        assert(layers@[li as int].ple ==> rings_fit(*d, *at, runs@));
        plans.push(walk_layer(d, layers, li, k, pack, p, at, max_ctx, runs));
        li = li + 1;
        assert(plans@ =~= Seq::new(
            li as nat,
            |li: int| layer_plan(*d, layers@, li, *k, *pack, *p, *at, max_ctx, runs@),
        ));
    }
    WalkPlan {
        embed: Op::EmbedGather { quantized: quantized_embed, rows: at.n },
        spread: spread(d, at.n),
        layers: plans,
        last: final_mix(d, last, &k.dense, k.fuse_upmix, at.n, layers.len() > 0),
        head: head(d, at.phase, at.n, runs),
    }
}

/// A layer that adds n-grams is never handed a state whose norm was taken before it.
pub proof fn law_ngrams_come_before_the_norm(layers: Seq<Qwen4ExpLayer>, li: int)
    requires
        0 <= li < layers.len(),
        layers[li].ple,
    ensures
        !enters_normed(layers, li),
        li > 0 ==> next_norm(layers, li - 1) is None,
{
}

/// What is at hand when layer `li` starts: what was staged or kept, the state, and its norm where
/// the combine before took it.
pub open spec fn entry(layers: Seq<Qwen4ExpLayer>, li: int) -> Set<Buf> {
    Set::new(|b: Buf| b.ready() || b == Buf::H || (b == Buf::Xn && enters_normed(layers, li)))
}

proof fn lemma_front(
    d: Dims,
    l: Qwen4ExpLayer,
    k: WalkKnobs,
    pack: Pack,
    p: DenseStage,
    at: WalkAt,
    max_ctx: usize,
    runs: Seq<Run>,
    normed: bool,
    live: Set<Buf>,
)
    requires
        forall|b: Buf| #[trigger] b.ready() ==> live.contains(b),
        live.contains(Buf::H),
        normed ==> live.contains(Buf::Xn) && !l.ple,
        at.phase == Phase::PrefillRuns ==> runs.len() > 0,
    ensures
        plan::fed(front_plan(d, l, k, pack, p, at, max_ctx, runs, normed), live),
        plan::written(front_plan(d, l, k, pack, p, at, max_ctx, runs, normed)).contains(Buf::Xn),
        plan::written(front_plan(d, l, k, pack, p, at, max_ctx, runs, normed)).contains(Buf::H),
{
    let e = plan::when(l.ple, ngram::ple_plan(d, at.n, at.phase, at.slot, runs));
    let m = mix::mix_plan(d, l.attn_hc, HcId::Attn, k.dense, k.fuse_upmix, at.n, normed);
    let b = mixer_plan(d, l, k, pack, p, at, max_ctx, runs);
    let inj = mix::mix_inj(d, l.attn_hc, at.n);
    let c = Plan::Do(mix::combined(inj, Some(NormId::Hc(HcId::Mlp)), at.n));
    assert(live.contains(Buf::Emb)) by {
        assert(Buf::Emb.ready());
    }
    ready_facts(live);
    if l.ple {
        ngram::law_ngrams_feed_the_state(d, at.n, at.phase, at.slot, runs);
        assert(ngram::ple_live().subset_of(live));
        plan::lemma_fed_mono(e, ngram::ple_live(), live);
    }
    assert(plan::fed(e, live));
    let l1 = live.union(plan::written(e));
    mix::law_mix_feeds_its_block(d, l.attn_hc, HcId::Attn, k.dense, k.fuse_upmix, at.n, normed);
    assert(mix::mix_live(normed).subset_of(l1));
    plan::lemma_fed_mono(m, mix::mix_live(normed), l1);
    let em = plan::then_(e, m);
    assert(plan::fed(em, live));
    assert(plan::written(em) == plan::written(e).union(plan::written(m)));
    let l2 = live.union(plan::written(em));
    ready_facts(l2);
    assert(l2.contains(Buf::Bi));
    match (l.block, l.mixer) {
        (Block::Gdn, MixerW::Gdn(w)) => {
            gdn::law_recurrence_feeds_its_output(d, w, k, pack, p, at, runs);
            assert(gdn::gdn_live().subset_of(l2));
            plan::lemma_fed_mono(b, gdn::gdn_live(), l2);
        },
        (Block::Attention, MixerW::Attn(w)) => {
            attn::law_attention_feeds_its_output(d, w, k, pack, p, at, max_ctx, runs);
            assert(attn::attn_live().subset_of(l2));
            plan::lemma_fed_mono(b, attn::attn_live(), l2);
        },
        _ => {},
    }
    assert(plan::fed(b, l2));
    assert(plan::written(b).contains(Buf::Mix));
    let l3 = l2.union(plan::written(b));
    assert(l3.contains(mix::inj_buf(inj)));
    assert(plan::fed(c, l3));
    assert(plan::written(c).contains(Buf::H) && plan::written(c).contains(Buf::Xn));
    let bc = plan::then_(b, c);
    assert(plan::fed(bc, l2));
    assert(plan::written(bc) == plan::written(b).union(plan::written(c)));
}

proof fn ready_facts(live: Set<Buf>)
    requires
        forall|b: Buf| #[trigger] b.ready() ==> live.contains(b),
    ensures
        live.contains(Buf::Emb),
        live.contains(Buf::PleWin),
        live.contains(Buf::Slots),
        live.contains(Buf::Pos),
        live.contains(Buf::Mrope),
        live.contains(Buf::Recur),
        live.contains(Buf::GdnWin),
        live.contains(Buf::RunOff),
        live.contains(Buf::RunLen),
        live.contains(Buf::RunSlot),
        live.contains(Buf::KvK),
        live.contains(Buf::KvV),
        live.contains(Buf::Sinks),
        live.contains(Buf::TileRow0),
        live.contains(Buf::TileSlot),
        live.contains(Buf::BlkTab),
        live.contains(Buf::ZeroBias),
{
    assert(Buf::Emb.ready() && Buf::PleWin.ready() && Buf::Slots.ready() && Buf::Pos.ready());
    assert(Buf::Mrope.ready() && Buf::Recur.ready() && Buf::GdnWin.ready());
    assert(Buf::RunOff.ready() && Buf::RunLen.ready() && Buf::RunSlot.ready());
    assert(Buf::KvK.ready() && Buf::KvV.ready() && Buf::Sinks.ready());
    assert(Buf::TileRow0.ready() && Buf::TileSlot.ready() && Buf::BlkTab.ready());
    assert(Buf::ZeroBias.ready());
}

proof fn lemma_back(
    d: Dims,
    l: Qwen4ExpLayer,
    k: WalkKnobs,
    pack: Pack,
    at: WalkAt,
    next: Option<NormId>,
    live: Set<Buf>,
)
    requires
        live.contains(Buf::ZeroBias),
        live.contains(Buf::H),
        live.contains(Buf::Xn),
        moe::seats_wf(l.moe),
    ensures
        plan::fed(back_plan(d, l, k, pack, at, next), live),
        plan::written(back_plan(d, l, k, pack, at, next)).contains(Buf::H),
        next is Some ==> plan::written(back_plan(d, l, k, pack, at, next)).contains(Buf::Xn),
{
    let m = mix::mix_plan(d, l.mlp_hc, HcId::Mlp, k.dense, k.fuse_upmix, at.n, true);
    let e = moe::moe_plan(d, l.moe, k, pack, at.n, at.fork_ok, at.phase.decodes());
    let inj = mix::mix_inj(d, l.mlp_hc, at.n);
    let c = Plan::Do(mix::combined(inj, next, at.n));
    mix::law_mix_feeds_its_block(d, l.mlp_hc, HcId::Mlp, k.dense, k.fuse_upmix, at.n, true);
    assert(mix::mix_live(true).subset_of(live));
    plan::lemma_fed_mono(m, mix::mix_live(true), live);
    let l1 = live.union(plan::written(m));
    moe::law_experts_feed_their_output(d, l.moe, k, pack, at.n, at.fork_ok, at.phase.decodes());
    assert(moe::moe_live().subset_of(l1));
    plan::lemma_fed_mono(e, moe::moe_live(), l1);
    let me = plan::then_(m, e);
    assert(plan::fed(me, live));
    assert(plan::written(me) == plan::written(m).union(plan::written(e)));
    let l2 = live.union(plan::written(me));
    assert(l2.contains(mix::inj_buf(inj)));
    assert(plan::fed(c, l2));
    assert(plan::written(c).contains(Buf::H));
}

/// Every layer finds what it reads, whatever declines on the way, and leaves what the next one
/// reads: the state, and its norm where the next one counts on it.
pub proof fn law_layers_hand_over(
    d: Dims,
    layers: Seq<Qwen4ExpLayer>,
    li: int,
    k: WalkKnobs,
    pack: Pack,
    p: DenseStage,
    at: WalkAt,
    max_ctx: usize,
    runs: Seq<Run>,
)
    requires
        0 <= li < layers.len(),
        moe::seats_wf(layers[li].moe),
        at.phase == Phase::PrefillRuns ==> runs.len() > 0,
    ensures
        ({
            let q = layer_plan(d, layers, li, k, pack, p, at, max_ctx, runs);
            &&& plan::fed(q, entry(layers, li))
            &&& forall|b: Buf| #[trigger]
                entry(layers, li + 1).contains(b) ==> b.ready() || plan::written(q).contains(b)
        }),
{
    let live = entry(layers, li);
    let normed = enters_normed(layers, li);
    let f = front_plan(d, layers[li], k, pack, p, at, max_ctx, runs, normed);
    let b = back_plan(d, layers[li], k, pack, at, next_norm(layers, li));
    lemma_front(d, layers[li], k, pack, p, at, max_ctx, runs, normed, live);
    let l1 = live.union(plan::written(f));
    assert(Buf::ZeroBias.ready());
    lemma_back(d, layers[li], k, pack, at, next_norm(layers, li), l1);
    let q = layer_plan(d, layers, li, k, pack, p, at, max_ctx, runs);
    assert(plan::written(q) == plan::written(f).union(plan::written(b)));
}

/// The mix behind the last layer finds the state, and its norm where there was a layer to take it.
pub proof fn law_last_mix_finds_the_state(
    d: Dims,
    layers: Seq<Qwen4ExpLayer>,
    w: HcW,
    k: WalkKnobs,
    n: usize,
)
    ensures
        plan::fed(
            mix::last_mix(
                d,
                w,
                k.dense,
                k.fuse_upmix,
                n,
                enters_normed(layers, layers.len() as int),
            ),
            entry(layers, layers.len() as int),
        ),
{
    let normed = enters_normed(layers, layers.len() as int);
    mix::law_last_mix_feeds_the_head(d, w, k.dense, k.fuse_upmix, n, normed);
    assert(mix::mix_live(normed).subset_of(entry(layers, layers.len() as int)));
    plan::lemma_fed_mono(
        mix::last_mix(d, w, k.dense, k.fuse_upmix, n, normed),
        mix::mix_live(normed),
        entry(layers, layers.len() as int),
    );
}

proof fn lemma_spread(d: Dims, n: int, m: int, t: int, s: int)
    requires
        0 <= m <= d.hc_count,
        0 <= s < d.hc_count,
        0 <= t,
        t < n || (t == n && s < m),
    ensures
        exists|i: int|
            0 <= i < spread_to(d, n, m).len() && #[trigger] spread_to(d, n, m)[i] == spread_copy(d, t, s),
    decreases n, m,
{
    if m > 0 {
        if t == n && s == m - 1 {
            let i = spread_to(d, n, m).len() - 1;
            assert(spread_to(d, n, m)[i] == spread_copy(d, t, s));
        } else {
            lemma_spread(d, n, m - 1, t, s);
            let i = choose|i: int|
                0 <= i < spread_to(d, n, m - 1).len() && #[trigger] spread_to(d, n, m - 1)[i]
                    == spread_copy(d, t, s);
            assert(spread_to(d, n, m)[i] == spread_copy(d, t, s));
        }
    } else {
        lemma_spread(d, n - 1, d.hc_count as int, t, s);
    }
}

/// Every stream of every row starts as the row's embedding.
pub proof fn law_streams_start_as_the_embedding(d: Dims, n: int, t: int, s: int)
    requires
        0 <= t < n,
        0 <= s < d.hc_count,
    ensures
        exists|i: int|
            0 <= i < spread_to(d, n, 0).len() && #[trigger] spread_to(d, n, 0)[i] == spread_copy(d, t, s),
{
    lemma_spread(d, n, 0, t, s);
}

/// The head runs over as many rows as are asked for: one per sequence.
pub proof fn law_head_rows(d: Dims, phase: Phase, n: usize, runs: Seq<Run>)
    requires
        runs.len() <= usize::MAX,
    ensures
        head_ops(d, phase, n, runs).last() matches Op::Matmul { plane, rows, .. } && plane
            == PlaneId::LmHead && rows == (match phase {
            Phase::DecodeBatch => n as int,
            Phase::PrefillRuns => runs.len() as int,
            _ => 1,
        }),
{
}

/// What a layer's mixer makes of the block's input.
pub open spec fn mixer_value(c: Scene, l: Qwen4ExpLayer, s: State) -> Val {
    match l.mixer {
        MixerW::Gdn(w) => gdn::mixed_in(c, w.tiled_heads, s).0,
        MixerW::Attn(_) => attn::attended(s),
    }
}

/// The state behind a combine: the block's result goes into the streams by the inject logits that
/// its mix left.
pub open spec fn combined_value(c: Scene, w: HcW, h: Val, y: Val, s: State) -> Val {
    if w.inject_rows > 0 && c.at.n == 1 {
        meaning::of3(Fun::Combine(c.d.hc_lowrank), h, y, s.get(Buf::M))
    } else {
        meaning::of3(Fun::Combine(0), h, y, s.get(Buf::Inj))
    }
}

/// The first half of a layer computes one thing, whatever declines: the n-grams of a layer that
/// reads them are added to the state first; the mix then reads the state, the mixer that the layer
/// holds reads the mix, and its result goes back into the state, which is left normed for the mix
/// of the experts. The mixer's caches, state and window move on.
pub proof fn law_front_half_mixes_then_combines(
    c: Scene,
    l: Qwen4ExpLayer,
    k: WalkKnobs,
    pack: Pack,
    p: DenseStage,
    normed: bool,
    s: State,
    taken: spec_fn(Op) -> bool,
)
    requires
        l.block == Block::Gdn <==> l.mixer is Gdn,
        attn::attn_fits(c.d, c.at, c.max_ctx, c.runs),
        gdn::gdn_fits(c.d, c.at, c.runs),
        c.at.phase == Phase::PrefillRuns ==> c.runs.len() > 0,
        c.runs.len() <= usize::MAX,
        l.mixer matches MixerW::Gdn(w) ==> w.tiled_heads ==> pack.tiled_split,
        c.at.n * c.d.hc_lowrank <= usize::MAX,
        l.attn_hc.inject_rows > 0 && c.at.n != 1 ==> !(l.attn_hc.down is F8Row || l.attn_hc.down is Kq),
    ensures
        ({
            let n = c.at.n;
            let q = front_plan(c.d, l, k, pack, p, c.at, c.max_ctx, c.runs, normed);
            let t = meaning::run(c, q, s, taken);
            let s1 = if l.ple {
                meaning::run(
                    c,
                    ngram::ple_plan(c.d, n, c.at.phase, c.at.slot, c.runs),
                    s,
                    taken,
                )
            } else {
                s
            };
            let m = mix::mix_plan(c.d, l.attn_hc, HcId::Attn, k.dense, k.fuse_upmix, n, normed);
            let s2 = meaning::run(c, m, s1, taken);
            let h = combined_value(c, l.attn_hc, s1.get(Buf::H), mixer_value(c, l, s2), s2);
            &&& mix::mix_left(c.d, l.attn_hc, HcId::Attn, n, normed, s1, s2)
            &&& t.get(Buf::H) == h
            &&& t.get(Buf::Xn) == meaning::of1(Fun::Norm(NormId::Hc(HcId::Mlp)), h)
            &&& l.mixer matches MixerW::Gdn(w) ==> t.get(Buf::Recur) == gdn::mixed_in(
                c,
                w.tiled_heads,
                s2,
            ).1 && t.get(Buf::GdnWin) == gdn::mixed_in(c, w.tiled_heads, s2).2
            &&& l.mixer is Attn ==> t.get(Buf::KvK) == attn::cached(s2).0 && t.get(Buf::KvV)
                == attn::cached(s2).1
        }),
{
    let n = c.at.n;
    let ple = plan::when(l.ple, ngram::ple_plan(c.d, n, c.at.phase, c.at.slot, c.runs));
    let m = mix::mix_plan(c.d, l.attn_hc, HcId::Attn, k.dense, k.fuse_upmix, n, normed);
    let mixer = mixer_plan(c.d, l, k, pack, p, c.at, c.max_ctx, c.runs);
    let op = mix::combined(mix::mix_inj(c.d, l.attn_hc, n), Some(NormId::Hc(HcId::Mlp)), n);
    let s1 = meaning::run(c, ple, s, taken);
    mix::law_mix_computes_one_thing(c, l.attn_hc, HcId::Attn, k.dense, k.fuse_upmix, normed, s1, taken);
    let s2 = meaning::run(c, m, s1, taken);
    let s3 = meaning::run(c, mixer, s2, taken);
    match l.mixer {
        MixerW::Gdn(w) => {
            gdn::law_recurrence_computes_one_thing(
                c.d, w, k, pack, p, c.at, c.max_ctx, c.runs, s2, taken,
            );
        },
        MixerW::Attn(w) => {
            attn::law_attention_reads_what_it_appends(
                c.d, w, k, pack, p, c.at, c.max_ctx, c.runs, s2, taken,
            );
        },
    }
    lemma_mixer_keeps(c, l, k, pack, p, s2, taken, Buf::H);
    lemma_mixer_keeps(c, l, k, pack, p, s2, taken, Buf::M);
    lemma_mixer_keeps(c, l, k, pack, p, s2, taken, Buf::Inj);
    mix::law_combine_reads_what_the_mix_left(c, l.attn_hc, Some(NormId::Hc(HcId::Mlp)), s3);
    let last = Plan::Do(op);
    let s4 = meaning::run(c, last, s3, taken);
    assert(s4 == meaning::step(c, op, s3));
    assert(s2 == meaning::run(c, plan::then_(ple, m), s, taken));
    assert(s4 == meaning::run(c, plan::then_(mixer, last), s2, taken));
}

proof fn lemma_mixer_keeps(
    c: Scene,
    l: Qwen4ExpLayer,
    k: WalkKnobs,
    pack: Pack,
    p: DenseStage,
    s: State,
    taken: spec_fn(Op) -> bool,
    b: Buf,
)
    requires
        l.block == Block::Gdn <==> l.mixer is Gdn,
        b == Buf::H || b == Buf::M || b == Buf::Inj,
    ensures
        meaning::run(
            c,
            mixer_plan(c.d, l, k, pack, p, c.at, c.max_ctx, c.runs),
            s,
            taken,
        ).get(b) == s.get(b),
{
    match l.mixer {
        MixerW::Gdn(w) => {
            gdn::law_recurrence_keeps_the_mix(c.d, w, k, pack, p, c.at, c.runs, b);
        },
        MixerW::Attn(w) => {
            attn::law_attention_keeps_the_mix(c.d, w, k, pack, p, c.at, c.max_ctx, c.runs, b);
        },
    }
    meaning::law_plans_keep_what_they_do_not_write(
        c,
        mixer_plan(c.d, l, k, pack, p, c.at, c.max_ctx, c.runs),
        s,
        taken,
        b,
    );
}

/// The second half of a layer computes one thing, whatever declines but the picks off folded rows:
/// the mix reads the normed state, the experts read the mix, and their result goes back into the
/// state, which is left normed for what reads it next, where that may be taken already.
pub proof fn law_back_half_mixes_then_combines(
    c: Scene,
    l: Qwen4ExpLayer,
    k: WalkKnobs,
    pack: Pack,
    next: Option<NormId>,
    s: State,
    taken: spec_fn(Op) -> bool,
)
    requires
        moe::moe_fits(c.d, c.at.n),
        c.at.n * c.d.hc_lowrank <= usize::MAX,
        l.mlp_hc.inject_rows > 0 && c.at.n != 1 ==> !(l.mlp_hc.down is F8Row || l.mlp_hc.down is Kq),
        moe::folded(k, c.at.n, c.at.phase.decodes()) ==> taken(
            Op::TopkStrided { stride: (c.d.n_expert + 1) as usize, rows: c.at.n },
        ),
    ensures
        ({
            let n = c.at.n;
            let t = meaning::run(c, back_plan(c.d, l, k, pack, c.at, next), s, taken);
            let m = mix::mix_plan(c.d, l.mlp_hc, HcId::Mlp, k.dense, k.fuse_upmix, n, true);
            let s1 = meaning::run(c, m, s, taken);
            let bi = s1.get(Buf::Bi);
            let y = meaning::of3(
                Fun::AddGated,
                moe::experts_value(c.d, l.moe, pack, n, moe::picks_made(c.d, s1)),
                moe::shared_value(bi),
                moe::routed_by(c.d, c.d.n_expert, 1, bi),
            );
            let h = combined_value(c, l.mlp_hc, s.get(Buf::H), y, s1);
            &&& mix::mix_left(c.d, l.mlp_hc, HcId::Mlp, n, true, s, s1)
            &&& t.get(Buf::H) == h
            &&& next matches Some(norm) ==> t.get(Buf::Xn) == meaning::of1(Fun::Norm(norm), h)
        }),
{
    let n = c.at.n;
    let decode = c.at.phase.decodes();
    let m = mix::mix_plan(c.d, l.mlp_hc, HcId::Mlp, k.dense, k.fuse_upmix, n, true);
    let e = moe::moe_plan(c.d, l.moe, k, pack, n, c.at.fork_ok, decode);
    let op = mix::combined(mix::mix_inj(c.d, l.mlp_hc, n), next, n);
    mix::law_mix_computes_one_thing(c, l.mlp_hc, HcId::Mlp, k.dense, k.fuse_upmix, true, s, taken);
    let s1 = meaning::run(c, m, s, taken);
    moe::law_experts_compute_one_thing(c, l.moe, k, pack, c.at.fork_ok, decode, s1, taken);
    let s2 = meaning::run(c, e, s1, taken);
    lemma_experts_keep(c, l, k, pack, s1, taken, Buf::H);
    lemma_experts_keep(c, l, k, pack, s1, taken, Buf::M);
    lemma_experts_keep(c, l, k, pack, s1, taken, Buf::Inj);
    mix::law_combine_reads_what_the_mix_left(c, l.mlp_hc, next, s2);
    let last = Plan::Do(op);
    let s3 = meaning::run(c, last, s2, taken);
    assert(s3 == meaning::step(c, op, s2));
    assert(s2 == meaning::run(c, plan::then_(m, e), s, taken));
}

proof fn lemma_experts_keep(
    c: Scene,
    l: Qwen4ExpLayer,
    k: WalkKnobs,
    pack: Pack,
    s: State,
    taken: spec_fn(Op) -> bool,
    b: Buf,
)
    requires
        b == Buf::H || b == Buf::M || b == Buf::Inj,
    ensures
        meaning::run(
            c,
            moe::moe_plan(c.d, l.moe, k, pack, c.at.n, c.at.fork_ok, c.at.phase.decodes()),
            s,
            taken,
        ).get(b) == s.get(b),
{
    let decode = c.at.phase.decodes();
    moe::law_experts_keep_the_mix(c.d, l.moe, k, pack, c.at.n, c.at.fork_ok, decode, b);
    meaning::law_plans_keep_what_they_do_not_write(
        c,
        moe::moe_plan(c.d, l.moe, k, pack, c.at.n, c.at.fork_ok, decode),
        s,
        taken,
        b,
    );
}

/// A layer is its first half and then its second. The state enters it normed exactly where the
/// combine of the layer before took the norm that its own mix would have taken, and leaves it
/// normed for the layer behind, or for the last mix; before a layer that adds its n-grams nobody
/// norms.
pub proof fn law_layers_run_half_by_half(
    c: Scene,
    layers: Seq<Qwen4ExpLayer>,
    li: int,
    k: WalkKnobs,
    pack: Pack,
    p: DenseStage,
    s: State,
    taken: spec_fn(Op) -> bool,
)
    requires
        0 <= li < layers.len(),
    ensures
        ({
            let q = layer_plan(c.d, layers, li, k, pack, p, c.at, c.max_ctx, c.runs);
            let normed = li > 0 && !layers[li].ple;
            let next = if li + 1 == layers.len() {
                Some(NormId::Hc(HcId::Last))
            } else if layers[li + 1].ple {
                None
            } else {
                Some(NormId::NextAttn)
            };
            let f = front_plan(c.d, layers[li], k, pack, p, c.at, c.max_ctx, c.runs, normed);
            let b = back_plan(c.d, layers[li], k, pack, c.at, next);
            meaning::run(c, q, s, taken) == meaning::run(c, b, meaning::run(c, f, s, taken), taken)
        }),
{
}

/// A layer whose mixer is not of its kind fails, and says which.
pub proof fn law_strange_mixers_fail(
    d: Dims,
    l: Qwen4ExpLayer,
    k: WalkKnobs,
    pack: Pack,
    p: DenseStage,
    at: WalkAt,
    max_ctx: usize,
    runs: Seq<Run>,
)
    ensures
        l.block == Block::Gdn && l.mixer is Attn ==> mixer_plan(d, l, k, pack, p, at, max_ctx, runs)
            == Plan::Fail(Fault::GdnHoldsAttn),
        l.block == Block::Attention && l.mixer is Gdn ==> mixer_plan(
            d,
            l,
            k,
            pack,
            p,
            at,
            max_ctx,
            runs,
        ) == Plan::Fail(Fault::AttnHoldsGdn),
{
}

/// The streams start as the embedding: row `t` of the embedding goes to every stream of row `t` of
/// the state, as a whole, and as many copies are made as there are rows and streams.
pub proof fn law_every_stream_gets_its_row(d: Dims, n: int, t: int, s: int)
    requires
        0 <= t < n,
        0 <= s < d.hc_count,
        d.hc_width == d.hc_count * d.hidden,
        n * d.hc_width <= usize::MAX,
    ensures
        spread_to(d, n, 0).len() == n * d.hc_count,
        exists|i: int|
            0 <= i < spread_to(d, n, 0).len() && (#[trigger] spread_to(d, n, 0)[i] matches Op::Copy {
                src,
                src_off,
                dst,
                dst_off,
                len,
            } && src == Buf::X && dst == Buf::H && len == d.hidden && src_off == t * d.hidden
                && dst_off == (t * d.hc_count + s) * d.hidden),
{
    lemma_spread_len(d, n, 0);
    law_streams_start_as_the_embedding(d, n, t, s);
    let i = choose|i: int|
        0 <= i < spread_to(d, n, 0).len() && #[trigger] spread_to(d, n, 0)[i] == spread_copy(d, t, s);
    let (c, w) = (d.hc_count as int, d.hidden as int);
    assert(t * d.hc_width + s * w == (t * c + s) * w) by (nonlinear_arith)
        requires
            d.hc_width == c * w,
    ;
    assert(0 <= t * d.hc_width + s * w <= n * d.hc_width) by (nonlinear_arith)
        requires
            0 <= t < n,
            0 <= s < c,
            d.hc_width == c * w,
            w >= 0,
    ;
    assert(0 <= t * w <= t * d.hc_width) by (nonlinear_arith)
        requires
            0 <= t,
            d.hc_width == c * w,
            c >= 1,
            w >= 0,
    ;
    assert(t * d.hc_width <= n * d.hc_width) by (nonlinear_arith)
        requires
            t < n,
    ;
    assert(spread_to(d, n, 0)[i] == spread_copy(d, t, s));
}

proof fn lemma_spread_len(d: Dims, t: int, s: int)
    requires
        0 <= t,
        0 <= s <= d.hc_count,
    ensures
        spread_to(d, t, s).len() == t * d.hc_count + s,
    decreases t, s,
{
    if s > 0 {
        lemma_spread_len(d, t, s - 1);
    } else if t > 0 {
        lemma_spread_len(d, t - 1, d.hc_count as int);
        assert((t - 1) * d.hc_count + d.hc_count == t * d.hc_count) by (nonlinear_arith);
    } else {
        assert(0 * d.hc_count == 0);
    }
}

/// The head reads the rows that are asked for: all of a decode batch as they are; of a wave the
/// last row of each run, in the order of the runs; and of a prompt or a single row the last.
pub proof fn law_head_reads_the_last_rows(d: Dims, phase: Phase, n: usize, runs: Seq<Run>, i: int)
    requires
        n >= 1,
        n * d.hidden <= usize::MAX,
        runs.len() * d.hidden <= usize::MAX,
        0 <= i < runs.len() <= usize::MAX,
        runs[i].len >= 1,
        runs[i].off + runs[i].len <= n,
    ensures
        phase == Phase::DecodeBatch ==> head_ops(d, phase, n, runs).len() == 1 && head_ops(
            d,
            phase,
            n,
            runs,
        )[0] == (Op::Matmul { plane: PlaneId::LmHead, x: Buf::Bi, y: Buf::Out, rows: n }),
        phase == Phase::PrefillRuns ==> {
            let h = head_ops(d, phase, n, runs);
            &&& h.len() == runs.len() + 1
            &&& h[i] matches Op::Copy { src, src_off, dst, dst_off, len } && src == Buf::Bi && dst
                == Buf::Fin && len == d.hidden && src_off + d.hidden == (runs[i].off + runs[i].len)
                * d.hidden && dst_off == i * d.hidden
            &&& h.last() matches Op::Matmul { plane, x, y, rows } && plane == PlaneId::LmHead && x
                == Buf::Fin && y == Buf::Out && rows == runs.len()
        },
        phase == Phase::Prefill || phase == Phase::Decode ==> {
            let h = head_ops(d, phase, n, runs);
            &&& h.len() == 2
            &&& h[0] matches Op::Copy { src, src_off, dst, dst_off, len } && src == Buf::Bi && dst
                == Buf::Fin && len == d.hidden && src_off + d.hidden == n * d.hidden && dst_off == 0
            &&& h[1] matches Op::Matmul { plane, x, y, rows } && plane == PlaneId::LmHead && x
                == Buf::Fin && y == Buf::Out && rows == 1
        },
{
    let w = d.hidden as int;
    let e = runs[i].off + runs[i].len;
    assert((e - 1) * w + w == e * w && 0 <= (e - 1) * w && e * w <= n * w) by (nonlinear_arith)
        requires
            1 <= e <= n,
            w >= 0,
    ;
    assert((n - 1) * w + w == n * w && 0 <= (n - 1) * w) by (nonlinear_arith)
        requires
            1 <= n,
            w >= 0,
    ;
    assert(0 <= i * w && i * w <= runs.len() * w) by (nonlinear_arith)
        requires
            0 <= i < runs.len(),
            w >= 0,
    ;
}

} // verus!
