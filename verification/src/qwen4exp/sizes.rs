//! How much the model allocates: scratch by rows, carried state by slots, and the slots that cache
//! host-held experts.
use crate::qwen4exp::config::{Block, Dims};
use crate::qwen4exp::kq;
use crate::qwen4exp::kq::{ExpertCache, ExpertSeats, KqSeat, KqStage, KQ_TILE_ROWS, MMQ_TILE_BYTES};
use crate::qwen4exp::model::Qwen4ExpGpu;
use crate::qwen4exp::ngram::PLE_DILATION;
use crate::qwen4exp::walk::Qwen4ExpLayer;
use vstd::prelude::*;

verus! {

/// `n`, or one when that is nothing.
pub open spec fn at_least_one(n: int) -> int {
    if n >= 1 {
        n
    } else {
        1
    }
}

/// `n`, or two when it is less.
pub open spec fn at_least_two(n: int) -> int {
    if n >= 2 {
        n
    } else {
        2
    }
}

/// The greater of two numbers.
pub open spec fn greater(a: int, b: int) -> int {
    if a >= b {
        a
    } else {
        b
    }
}

fn one_up(n: usize) -> (m: usize)
    ensures
        m == at_least_one(n as int),
{
    if n >= 1 {
        n
    } else {
        1
    }
}

/// Elements of every scratch buffer.
#[derive(Debug, Clone, Copy, PartialEq, Eq, Structural)]
pub struct Scratch {
    /// ids of the identity block table
    pub blk_tab: usize,
    pub tok: usize,
    pub pos: usize,
    pub mrope: usize,
    pub slots: usize,
    pub x: usize,
    pub h: usize,
    pub xn: usize,
    /// the low-rank rows, and behind them the folded inject logits of a single row
    pub m: usize,
    pub gate: usize,
    pub bi: usize,
    pub inj: usize,
    pub mix: usize,
    pub mix_wave: usize,
    pub qkv: usize,
    pub zg: usize,
    pub ab: usize,
    pub g: usize,
    pub beta: usize,
    pub conv: usize,
    pub dq: usize,
    pub dk: usize,
    pub dv: usize,
    pub dattn: usize,
    pub core: usize,
    pub qg: usize,
    pub q: usize,
    pub agate: usize,
    pub k: usize,
    pub v: usize,
    pub qn: usize,
    pub kn: usize,
    pub attn: usize,
    pub sinks: usize,
    /// the router's rows with the shared gate behind them
    pub logits: usize,
    pub dnrn: usize,
    /// partial sums of at most 64 rows
    pub moe_part: usize,
    /// partial sums of at most 64 rows and 16 key splits
    pub fmha_part: usize,
    pub zero_bias: usize,
    /// partial sums of the split products
    pub skp: usize,
    pub skc: usize,
    pub idx: usize,
    pub xq: usize,
    pub xs: usize,
    /// sums of the wider of the two quantized inputs
    pub ssums: usize,
    pub fq: usize,
    pub fs: usize,
    pub topw: usize,
    pub act: usize,
    pub par: usize,
    pub tpar: usize,
    pub ids: usize,
    pub shg: usize,
    pub shu: usize,
    pub shd: usize,
    pub shgate: usize,
    pub emb: usize,
    pub ple_ids: usize,
    pub run_off: usize,
    pub run_len: usize,
    pub run_slot: usize,
    pub tile_row0: usize,
    pub tile_slot: usize,
    pub pkey: usize,
    pub pval: usize,
    pub pkn: usize,
    pub pqn: usize,
    pub pgv: usize,
    pub pconv: usize,
    /// one row per slot
    pub fin: usize,
    /// one distribution per slot
    pub out: usize,
}

impl Scratch {
    /// The buffers are sized for `t` rows, `slots` sequences, quantized planes or not, and products
    /// split `sk` ways.
    pub open spec fn is_sized(self, d: Dims, t: int, slots: int, kq: bool, sk: u32) -> bool {
        &&& self.blk_tab == at_least_one(slots * (t / 16))
        &&& self.tok == t
        &&& self.pos == t
        &&& self.mrope == 4 * t
        &&& self.slots == t
        &&& self.x == t * d.hidden
        &&& self.h == t * d.hc_width
        &&& self.xn == t * d.hc_width
        &&& self.m == t * d.hc_lowrank + d.hc_count
        &&& self.gate == t * d.hc_width
        &&& self.bi == t * d.hidden
        &&& self.inj == t * d.hc_count
        &&& self.mix == t * d.hidden
        &&& self.mix_wave == t * d.hidden
        &&& self.qkv == t * d.gdn_qkv_rows
        &&& self.zg == t * d.gdn_z_rows
        &&& self.ab == t * 2 * d.gdn_v_heads
        &&& self.g == t * d.gdn_v_heads
        &&& self.beta == t * d.gdn_v_heads
        &&& self.conv == t * d.gdn_qkv_rows
        &&& self.dq == t * (d.gdn_v_heads * d.gdn_k_dim)
        &&& self.dk == t * (d.gdn_v_heads * d.gdn_k_dim)
        &&& self.dv == t * (d.gdn_v_heads * d.gdn_v_dim)
        &&& self.dattn == t * (d.gdn_v_heads * d.gdn_v_dim)
        &&& self.core == t * (d.gdn_v_heads * d.gdn_v_dim)
        &&& self.qg == t * d.attn_q_rows
        &&& self.q == t * (d.n_heads * d.head_dim)
        &&& self.agate == t * (d.n_heads * d.head_dim)
        &&& self.k == t * (d.n_kv_heads * d.head_dim)
        &&& self.v == t * (d.n_kv_heads * d.head_dim)
        &&& self.qn == t * (d.n_heads * d.head_dim)
        &&& self.kn == t * (d.n_kv_heads * d.head_dim)
        &&& self.attn == t * (d.n_heads * d.head_dim)
        &&& self.sinks == d.n_heads
        &&& self.logits == t * (d.n_expert + 1)
        &&& self.dnrn == t * d.gdn_v_heads * 2
        &&& self.moe_part == 64 * ((d.n_active + 1) / 2) * d.hidden
        &&& self.fmha_part == 64 * d.n_heads * 16 * (256 + 2)
        &&& self.zero_bias == d.n_expert
        &&& self.skp == (d.n_expert + 1) * at_least_two(sk as int)
        &&& self.skc == d.n_expert + 1
        &&& self.idx == t * d.n_active
        &&& self.xq == (if kq {
                t * d.hidden
            } else {
                1
            })
        &&& self.xs == (if kq {
                t * d.hidden / 32
            } else {
                1
            })
        &&& self.ssums == (if kq {
                t * greater(d.hidden as int, d.n_active * d.moe_ff) / 16
            } else {
                1
            })
        &&& self.fq == (if kq {
                t * d.n_active * d.moe_ff
            } else {
                1
            })
        &&& self.fs == (if kq {
                t * d.n_active * d.moe_ff / 32
            } else {
                1
            })
        &&& self.topw == t * d.n_active
        &&& self.act == t * d.n_active * d.moe_ff
        &&& self.par == at_least_one(t) * 4
        &&& self.tpar == at_least_one(t) * 4
        &&& self.ids == at_least_one(t)
        &&& self.shg == t * d.shared_ff
        &&& self.shu == t * d.shared_ff
        &&& self.shd == t * d.hidden
        &&& self.shgate == t
        &&& self.emb == t * d.ple_embed
        &&& self.ple_ids == t * d.ple_heads
        &&& self.run_off == at_least_one(slots)
        &&& self.run_len == at_least_one(slots)
        &&& self.run_slot == at_least_one(slots)
        &&& self.tile_row0 == t / 16 + at_least_one(slots) + 1
        &&& self.tile_slot == t / 16 + at_least_one(slots) + 1
        &&& self.pkey == t * d.hc_width
        &&& self.pval == t * d.hidden
        &&& self.pkn == t * d.hc_width
        &&& self.pqn == t * d.hc_width
        &&& self.pgv == t * d.hc_width
        &&& self.pconv == t * d.hc_width
        &&& self.fin == slots * d.hidden
        &&& self.out == slots * d.vocab
    }
}

/// Every size fits a machine word.
pub open spec fn scratch_fits(d: Dims, t: int, slots: int, sk: u32) -> bool {
    &&& 4 * t <= usize::MAX
    &&& t * d.hidden <= usize::MAX
    &&& t * d.hc_width <= usize::MAX
    &&& t * d.hc_lowrank + d.hc_count <= usize::MAX
    &&& t * d.hc_count <= usize::MAX
    &&& t * d.gdn_qkv_rows <= usize::MAX
    &&& t * d.gdn_z_rows <= usize::MAX
    &&& t * 2 * d.gdn_v_heads <= usize::MAX
    &&& 2 * t <= usize::MAX
    &&& t * d.gdn_v_heads <= usize::MAX
    &&& d.gdn_v_heads * d.gdn_k_dim <= usize::MAX
    &&& t * (d.gdn_v_heads * d.gdn_k_dim) <= usize::MAX
    &&& d.gdn_v_heads * d.gdn_v_dim <= usize::MAX
    &&& t * (d.gdn_v_heads * d.gdn_v_dim) <= usize::MAX
    &&& t * d.attn_q_rows <= usize::MAX
    &&& d.n_heads * d.head_dim <= usize::MAX
    &&& t * (d.n_heads * d.head_dim) <= usize::MAX
    &&& d.n_kv_heads * d.head_dim <= usize::MAX
    &&& t * (d.n_kv_heads * d.head_dim) <= usize::MAX
    &&& d.n_expert + 1 <= usize::MAX
    &&& t * (d.n_expert + 1) <= usize::MAX
    &&& t * d.gdn_v_heads * 2 <= usize::MAX
    &&& d.n_active + 1 <= usize::MAX
    &&& 64 * ((d.n_active + 1) / 2) <= usize::MAX
    &&& 64 * ((d.n_active + 1) / 2) * d.hidden <= usize::MAX
    &&& 64 * d.n_heads * 16 * 258 <= usize::MAX
    &&& (d.n_expert + 1) * at_least_two(sk as int) <= usize::MAX
    &&& t * d.n_active <= usize::MAX
    &&& t * d.n_active * d.moe_ff <= usize::MAX
    &&& d.n_active * d.moe_ff <= usize::MAX
    &&& t * greater(d.hidden as int, d.n_active * d.moe_ff) <= usize::MAX
    &&& at_least_one(t) * 4 <= usize::MAX
    &&& t * d.shared_ff <= usize::MAX
    &&& t * d.ple_embed <= usize::MAX
    &&& t * d.ple_heads <= usize::MAX
    &&& t / 16 + at_least_one(slots) + 1 <= usize::MAX
    &&& slots * d.hidden <= usize::MAX
    &&& slots * d.vocab <= usize::MAX
    &&& slots * (t / 16) <= usize::MAX
}

impl Scratch {
    /// Size the buffers.
    pub fn new(d: &Dims, t: usize, slots: usize, kq: bool, sk: u32) -> (s: Self)
        requires
            scratch_fits(*d, t as int, slots as int, sk),
        ensures
            s.is_sized(*d, t as int, slots as int, kq, sk),
    {
        let two: usize = if sk >= 2 {
            sk as usize
        } else {
            2
        };
        let ff: usize = d.n_active * d.moe_ff;
        let wide: usize = if d.hidden >= ff {
            d.hidden
        } else {
            ff
        };
        Scratch {
            blk_tab: one_up(slots * (t / 16)),
            tok: t,
            pos: t,
            mrope: 4 * t,
            slots: t,
            x: t * d.hidden,
            h: t * d.hc_width,
            xn: t * d.hc_width,
            m: t * d.hc_lowrank + d.hc_count,
            gate: t * d.hc_width,
            bi: t * d.hidden,
            inj: t * d.hc_count,
            mix: t * d.hidden,
            mix_wave: t * d.hidden,
            qkv: t * d.gdn_qkv_rows,
            zg: t * d.gdn_z_rows,
            ab: t * 2 * d.gdn_v_heads,
            g: t * d.gdn_v_heads,
            beta: t * d.gdn_v_heads,
            conv: t * d.gdn_qkv_rows,
            dq: t * (d.gdn_v_heads * d.gdn_k_dim),
            dk: t * (d.gdn_v_heads * d.gdn_k_dim),
            dv: t * (d.gdn_v_heads * d.gdn_v_dim),
            dattn: t * (d.gdn_v_heads * d.gdn_v_dim),
            core: t * (d.gdn_v_heads * d.gdn_v_dim),
            qg: t * d.attn_q_rows,
            q: t * (d.n_heads * d.head_dim),
            agate: t * (d.n_heads * d.head_dim),
            k: t * (d.n_kv_heads * d.head_dim),
            v: t * (d.n_kv_heads * d.head_dim),
            qn: t * (d.n_heads * d.head_dim),
            kn: t * (d.n_kv_heads * d.head_dim),
            attn: t * (d.n_heads * d.head_dim),
            sinks: d.n_heads,
            logits: t * (d.n_expert + 1),
            dnrn: t * d.gdn_v_heads * 2,
            moe_part: 64 * ((d.n_active + 1) / 2) * d.hidden,
            fmha_part: 64 * d.n_heads * 16 * (256 + 2),
            zero_bias: d.n_expert,
            skp: (d.n_expert + 1) * two,
            skc: d.n_expert + 1,
            idx: t * d.n_active,
            xq: if kq {
                t * d.hidden
            } else {
                1
            },
            xs: if kq {
                t * d.hidden / 32
            } else {
                1
            },
            ssums: if kq {
                t * wide / 16
            } else {
                1
            },
            fq: if kq {
                t * d.n_active * d.moe_ff
            } else {
                1
            },
            fs: if kq {
                t * d.n_active * d.moe_ff / 32
            } else {
                1
            },
            topw: t * d.n_active,
            act: t * d.n_active * d.moe_ff,
            par: one_up(t) * 4,
            tpar: one_up(t) * 4,
            ids: one_up(t),
            shg: t * d.shared_ff,
            shu: t * d.shared_ff,
            shd: t * d.hidden,
            shgate: t,
            emb: t * d.ple_embed,
            ple_ids: t * d.ple_heads,
            run_off: one_up(slots),
            run_len: one_up(slots),
            run_slot: one_up(slots),
            tile_row0: t / 16 + one_up(slots) + 1,
            tile_slot: t / 16 + one_up(slots) + 1,
            pkey: t * d.hc_width,
            pval: t * d.hidden,
            pkn: t * d.hc_width,
            pqn: t * d.hc_width,
            pgv: t * d.hc_width,
            pconv: t * d.hc_width,
            fin: slots * d.hidden,
            out: slots * d.vocab,
        }
    }
}

/// What the walks carry over: elements of each layer's recurrence, caches and windows.
#[derive(Debug, Clone, Copy, PartialEq, Eq, Structural)]
pub struct LayerState {
    /// the recurrence and its window, of a recurrent layer
    pub recur: Option<usize>,
    pub window: Option<usize>,
    /// bytes of each of the two caches, of an attention layer
    pub kv: Option<usize>,
}

/// Bytes of a cached element.
pub open spec fn kv_bytes(kv8: bool) -> int {
    if kv8 {
        1
    } else {
        2
    }
}

/// What a layer carries over, for `slots` sequences of `t` tokens.
pub open spec fn layer_state(d: Dims, b: Block, t: int, slots: int, kv8: bool) -> LayerState {
    match b {
        Block::Gdn => LayerState {
            recur: Some((slots * d.gdn_v_heads * d.gdn_k_dim * d.gdn_v_dim) as usize),
            window: Some((slots * (d.gdn_conv - 1) * d.gdn_qkv_rows) as usize),
            kv: None,
        },
        Block::Attention => LayerState {
            recur: None,
            window: None,
            kv: Some((slots * t * d.n_kv_heads * d.head_dim * kv_bytes(kv8)) as usize),
        },
    }
}

/// The carried state fits a machine word.
pub open spec fn state_fits(d: Dims, t: int, slots: int) -> bool {
    &&& d.gdn_conv >= 1
    &&& slots * d.gdn_v_heads <= usize::MAX
    &&& slots * d.gdn_v_heads * d.gdn_k_dim <= usize::MAX
    &&& slots * d.gdn_v_heads * d.gdn_k_dim * d.gdn_v_dim <= usize::MAX
    &&& slots * (d.gdn_conv - 1) <= usize::MAX
    &&& slots * (d.gdn_conv - 1) * d.gdn_qkv_rows <= usize::MAX
    &&& slots * t <= usize::MAX
    &&& slots * t * d.n_kv_heads <= usize::MAX
    &&& slots * t * d.n_kv_heads * d.head_dim <= usize::MAX
    &&& slots * t * d.n_kv_heads * d.head_dim * 2 <= usize::MAX
}

/// What every layer carries over.
pub fn alloc_state(d: &Dims, blocks: &Vec<Block>, t: usize, slots: usize, kv8: bool) -> (v: Vec<
    LayerState,
>)
    requires
        state_fits(*d, t as int, slots as int),
    ensures
        v@ == Seq::new(
            blocks@.len(),
            |i: int| layer_state(*d, blocks@[i], t as int, slots as int, kv8),
        ),
{
    let elems: usize = slots * t * d.n_kv_heads * d.head_dim;
    let bytes: usize = if kv8 {
        elems
    } else {
        elems * 2
    };
    let state: usize = slots * d.gdn_v_heads * d.gdn_k_dim * d.gdn_v_dim;
    let window: usize = slots * (d.gdn_conv - 1) * d.gdn_qkv_rows;
    let mut v: Vec<LayerState> = Vec::new();
    let mut i: usize = 0;
    while i < blocks.len()
        invariant
            i <= blocks@.len(),
            bytes == slots * t * d.n_kv_heads * d.head_dim * kv_bytes(kv8),
            state == slots * d.gdn_v_heads * d.gdn_k_dim * d.gdn_v_dim,
            window == slots * (d.gdn_conv - 1) * d.gdn_qkv_rows,
            v@ == Seq::new(
                i as nat,
                |i: int| layer_state(*d, blocks@[i], t as int, slots as int, kv8),
            ),
        decreases blocks@.len() - i,
    {
        match blocks[i] {
            Block::Gdn => {
                v.push(LayerState { recur: Some(state), window: Some(window), kv: None });
            },
            Block::Attention => {
                v.push(LayerState { recur: None, window: None, kv: Some(bytes) });
            },
        }
        i = i + 1;
        assert(v@ =~= Seq::new(
            i as nat,
            |i: int| layer_state(*d, blocks@[i], t as int, slots as int, kv8),
        ));
    }
    v
}

/// Elements of one slot's recurrence.
pub open spec fn slot_state(d: Dims) -> int {
    d.gdn_v_heads * d.gdn_k_dim * d.gdn_v_dim
}

/// Elements of one slot's ring.
pub open spec fn slot_ring(d: Dims) -> int {
    (d.ple_conv - 1) * PLE_DILATION * d.hc_width
}

/// Elements of the rings of every slot, where a layer reads n-grams.
pub fn ring_len(d: &Dims, slots: usize, reads_ngrams: bool) -> (n: Option<usize>)
    requires
        reads_ngrams ==> {
            &&& d.ple_conv >= 1
            &&& slots * (d.ple_conv - 1) <= usize::MAX
            &&& slots * (d.ple_conv - 1) * PLE_DILATION <= usize::MAX
            &&& slots * (d.ple_conv - 1) * PLE_DILATION * d.hc_width <= usize::MAX
        },
    ensures
        n == (if reads_ngrams {
            Some((slots * (d.ple_conv - 1) * PLE_DILATION * d.hc_width) as usize)
        } else {
            None
        }),
{
    if reads_ngrams {
        Some(slots * (d.ple_conv - 1) * PLE_DILATION * d.hc_width)
    } else {
        None
    }
}

/// A region of a buffer: where it starts, and how long it is.
#[derive(Debug, Clone, Copy, PartialEq, Eq, Structural)]
pub struct Region {
    pub off: usize,
    pub len: usize,
}

/// The regions that hold one slot's carried state.
#[derive(Debug, Clone, Copy, PartialEq, Eq, Structural)]
pub struct SlotRegions {
    pub recur: Region,
    pub window: Region,
    pub ring: Region,
}

/// The `slot`th of equal regions.
pub open spec fn nth(slot: int, len: int) -> Region {
    Region { off: (slot * len) as usize, len: len as usize }
}

/// One slot's state fits a machine word.
pub open spec fn slot_fits(d: Dims, slot: int) -> bool {
    &&& d.gdn_conv >= 1
    &&& d.ple_conv >= 1
    &&& d.gdn_v_heads * d.gdn_k_dim <= usize::MAX
    &&& slot_state(d) <= usize::MAX
    &&& slot * slot_state(d) <= usize::MAX
    &&& (d.gdn_conv - 1) * d.gdn_qkv_rows <= usize::MAX
    &&& slot * ((d.gdn_conv - 1) * d.gdn_qkv_rows) <= usize::MAX
    &&& (d.ple_conv - 1) * PLE_DILATION <= usize::MAX
    &&& slot_ring(d) <= usize::MAX
    &&& slot * slot_ring(d) <= usize::MAX
}

/// What is zeroed to drop one slot's sequence: its own regions and no other's.
pub fn reset_slot(d: &Dims, slot: usize) -> (r: SlotRegions)
    requires
        slot_fits(*d, slot as int),
    ensures
        r.recur == nth(slot as int, slot_state(*d)),
        r.window == nth(slot as int, (d.gdn_conv - 1) * d.gdn_qkv_rows),
        r.ring == nth(slot as int, slot_ring(*d)),
{
    let state: usize = d.gdn_v_heads * d.gdn_k_dim * d.gdn_v_dim;
    let window: usize = (d.gdn_conv - 1) * d.gdn_qkv_rows;
    let ring: usize = (d.ple_conv - 1) * PLE_DILATION * d.hc_width;
    SlotRegions {
        recur: Region { off: slot * state, len: state },
        window: Region { off: slot * window, len: window },
        ring: Region { off: slot * ring, len: ring },
    }
}

/// Two slots' regions do not overlap.
pub proof fn law_slot_regions_are_apart(a: int, b: int, len: int)
    requires
        0 <= a < b,
        0 <= len,
        (b + 1) * len <= usize::MAX,
    ensures
        nth(a, len).off + nth(a, len).len <= nth(b, len).off,
        nth(b, len).off + nth(b, len).len <= (b + 1) * len,
{
    assert((a + 1) * len <= b * len) by (nonlinear_arith)
        requires
            a + 1 <= b,
            0 <= len,
    ;
    assert((a + 1) * len == a * len + len) by (nonlinear_arith);
    assert((b + 1) * len == b * len + len) by (nonlinear_arith);
    assert(0 <= a * len) by (nonlinear_arith)
        requires
            0 <= a,
            0 <= len,
    ;
}

/// Elements of the staging buffers of dense products: of activations as they are, and of their
/// quantized forms where planes are quantized.
pub fn stage_sizes(d: &Dims, t: usize, quantized: bool) -> (s: KqStage)
    requires
        t * d.hc_width <= usize::MAX,
        d.hc_width + 127 <= usize::MAX,
        kq::chunk_tiles(d.hc_width as int) * MMQ_TILE_BYTES <= usize::MAX,
    ensures
        s.q == t * d.hc_width,
        s.xs == (if quantized {
            t * d.hc_width / 32
        } else {
            1
        }),
        s.ssums == (if quantized {
            t * d.hc_width / 16
        } else {
            1
        }),
        s.yq == (if quantized {
            kq::chunk_tiles(d.hc_width as int) * MMQ_TILE_BYTES
        } else {
            1
        }),
        s.xsums == (if quantized {
            kq::chunk_tiles(d.hc_width as int) * 4
        } else {
            1
        }),
{
    let n: usize = t * d.hc_width;
    let chunk: usize = (d.hc_width + 127) / 128 * KQ_TILE_ROWS;
    if quantized {
        KqStage { q: n, xs: n / 32, ssums: n / 16, yq: chunk * MMQ_TILE_BYTES, xsums: chunk * 4 }
    } else {
        KqStage { q: n, xs: 1, ssums: 1, yq: 1, xsums: 1 }
    }
}

/// The staging buffers of quantized planes hold every product of at most `t` rows, as deep as the
/// state is wide.
pub proof fn law_stage_holds_every_product(d: Dims, t: int, s: KqStage, in_dim: int, batch: int)
    requires
        s.q == t * d.hc_width,
        s.xs == t * d.hc_width / 32,
        s.ssums == t * d.hc_width / 16,
        0 <= batch <= t,
        0 <= in_dim <= d.hc_width,
    ensures
        kq::staged(s, in_dim, batch),
{
    assert(batch * in_dim <= t * d.hc_width) by (nonlinear_arith)
        requires
            0 <= batch <= t,
            0 <= in_dim <= d.hc_width,
    ;
}

/// A walk of at most `t` rows stays inside its scratch: the state, the rows that the head reads, and
/// the distributions that it leaves.
pub proof fn law_scratch_holds_a_walk(
    s: Scratch,
    d: Dims,
    t: int,
    slots: int,
    kq: bool,
    sk: u32,
    n: int,
    asked: int,
)
    requires
        s.is_sized(d, t, slots, kq, sk),
        0 <= n <= t,
        0 <= asked <= slots,
    ensures
        n * d.hc_width <= s.h,
        n * d.hc_width <= s.xn,
        n * d.hidden <= s.bi,
        n * d.hc_lowrank + d.hc_count <= s.m,
        n * (d.n_expert + 1) <= s.logits,
        asked * d.hidden <= s.fin,
        asked * d.vocab <= s.out,
        4 * n <= s.mrope,
{
    assert(n * d.hc_width <= t * d.hc_width) by (nonlinear_arith)
        requires
            n <= t,
    ;
    assert(n * d.hidden <= t * d.hidden) by (nonlinear_arith)
        requires
            n <= t,
    ;
    assert(n * d.hc_lowrank <= t * d.hc_lowrank) by (nonlinear_arith)
        requires
            n <= t,
    ;
    assert(n * (d.n_expert + 1) <= t * (d.n_expert + 1)) by (nonlinear_arith)
        requires
            n <= t,
    ;
    assert(asked * d.hidden <= slots * d.hidden) by (nonlinear_arith)
        requires
            asked <= slots,
    ;
    assert(asked * d.vocab <= slots * d.vocab) by (nonlinear_arith)
        requires
            asked <= slots,
    ;
}

/// The cluster arm is off: its kernel is missing, there is no plane for it, or it refused to warm
/// up.
pub fn lowm_refused(quantized: bool, has_lowm: bool, warmed: bool) -> (b: bool)
    ensures
        b == (quantized || !has_lowm || !warmed),
{
    quantized || !has_lowm || !warmed
}

/// The layer's experts are all held on the host, with no slots over them yet.
pub open spec fn wants_slots(l: Qwen4ExpLayer) -> bool {
    l.moe.seats matches ExpertSeats::Kq { gate, up, down, cache } && gate is Host && up is Host
        && down is Host && cache is None
}

/// Whether a layer wants slots: its experts are held by the host, and nothing caches them yet.
pub fn wants_cache(l: &Qwen4ExpLayer) -> (b: bool)
    ensures
        b == wants_slots(*l),
{
    match &l.moe.seats {
        ExpertSeats::Nvf4 => false,
        ExpertSeats::Kq { gate, up, down, cache } => gate.host().is_some() && up.host().is_some()
            && down.host().is_some() && cache.is_none(),
    }
}

/// What one slot costs on every layer that wants slots, of the first `n`.
pub open spec fn slot_price(layers: Seq<Qwen4ExpLayer>, prices: Seq<u64>, n: int) -> int
    decreases n,
{
    if n <= 0 {
        0
    } else {
        slot_price(layers, prices, n - 1) + if wants_slots(layers[n - 1]) {
            prices[n - 1] as int
        } else {
            0
        }
    }
}

proof fn lemma_price(layers: Seq<Qwen4ExpLayer>, prices: Seq<u64>, i: int, j: int)
    requires
        0 <= i <= j,
    ensures
        0 <= slot_price(layers, prices, i) <= slot_price(layers, prices, j),
    decreases j,
{
    if i < j {
        lemma_price(layers, prices, i, j - 1);
    } else if i > 0 {
        lemma_price(layers, prices, i - 1, i - 1);
    }
}

/// Fewer slots than these are not worth a cache.
pub const MIN_CACHE_SLOTS: usize = 8;

/// The slots that a budget buys on every layer alike: none when no layer wants any, the kernels are
/// missing, or there is no room for enough; never more than there are experts.
pub open spec fn slots_bought(
    price: int,
    available: bool,
    budget: u64,
    cap: Option<u64>,
    pin: Option<usize>,
    n_expert: usize,
) -> Option<int> {
    let room = match cap {
        Some(c) => if c <= budget {
            c
        } else {
            budget
        },
        None => budget,
    };
    if price == 0 || !available {
        None
    } else {
        let slots = match pin {
            Some(n) => n as int,
            None => room as int / price,
        };
        if slots < MIN_CACHE_SLOTS {
            None
        } else if slots <= n_expert {
            Some(slots)
        } else {
            Some(n_expert as int)
        }
    }
}

/// The slots that each layer gets over its host-held experts.
pub fn cache_slots(
    layers: &Vec<Qwen4ExpLayer>,
    prices: &Vec<u64>,
    available: bool,
    budget: u64,
    cap: Option<u64>,
    pin: Option<usize>,
    n_expert: usize,
) -> (s: Option<usize>)
    requires
        prices@.len() == layers@.len(),
        slot_price(layers@, prices@, layers@.len() as int) <= u64::MAX,
        u64::MAX <= usize::MAX || pin is Some || budget <= usize::MAX,
    ensures
        match s {
            Some(s) => slots_bought(
                slot_price(layers@, prices@, layers@.len() as int),
                available,
                budget,
                cap,
                pin,
                n_expert,
            ) == Some(s as int),
            None => slots_bought(
                slot_price(layers@, prices@, layers@.len() as int),
                available,
                budget,
                cap,
                pin,
                n_expert,
            ) is None,
        },
{
    let mut price: u64 = 0;
    let mut i: usize = 0;
    while i < layers.len()
        invariant
            i <= layers@.len(),
            prices@.len() == layers@.len(),
            slot_price(layers@, prices@, layers@.len() as int) <= u64::MAX,
            price == slot_price(layers@, prices@, i as int),
        decreases layers@.len() - i,
    {
        proof {
            lemma_price(layers@, prices@, i + 1, layers@.len() as int);
        }
        if wants_cache(&layers[i]) {
            price = price + prices[i];
        }
        i = i + 1;
    }
    if price == 0 || !available {
        return None;
    }
    let room: u64 = match cap {
        Some(c) => {
            if c <= budget {
                c
            } else {
                budget
            }
        },
        None => budget,
    };
    let slots: usize = match pin {
        Some(n) => n,
        None => {
            assert(0 <= room as int / price as int && room as int / price as int <= room)
                by (nonlinear_arith)
                requires
                    price > 0,
                    room >= 0,
            ;
            (room / price) as usize
        },
    };
    if slots < MIN_CACHE_SLOTS {
        None
    } else if slots <= n_expert {
        Some(slots)
    } else {
        Some(n_expert)
    }
}

/// The layer with slots over its host-held experts.
pub open spec fn seated(l: Qwen4ExpLayer, c: ExpertCache) -> Qwen4ExpLayer {
    match l.moe.seats {
        ExpertSeats::Kq { gate, up, down, .. } => Qwen4ExpLayer {
            moe: crate::qwen4exp::moe::MoeW {
                seats: ExpertSeats::Kq { gate, up, down, cache: Some(c) },
                ..l.moe
            },
            ..l
        },
        ExpertSeats::Nvf4 => l,
    }
}

fn seat(layer: &mut Qwen4ExpLayer, cache: ExpertCache) -> (b: bool)
    ensures
        b == wants_slots(*old(layer)),
        *final(layer) == (if wants_slots(*old(layer)) {
            seated(*old(layer), cache)
        } else {
            *old(layer)
        }),
{
    if !wants_cache(layer) {
        return false;
    }
    let seats: ExpertSeats = layer.moe.seats;
    match seats {
        ExpertSeats::Kq { gate, up, down, .. } => {
            layer.moe.seats = ExpertSeats::Kq { gate, up, down, cache: Some(cache) };
        },
        ExpertSeats::Nvf4 => {},
    }
    true
}

/// A layer that has its slots does not ask for them again.
pub proof fn law_slots_are_seated_once(l: Qwen4ExpLayer, c: ExpertCache)
    requires
        wants_slots(l),
    ensures
        !wants_slots(seated(l, c)),
{
}

/// Cache counters of every layer together: rows resolved, and misses.
pub open spec fn stats_sum(stats: Seq<(u64, u64)>, n: int) -> (int, int)
    decreases n,
{
    if n <= 0 {
        (0, 0)
    } else {
        let s = stats_sum(stats, n - 1);
        (s.0 + stats[n - 1].0, s.1 + stats[n - 1].1)
    }
}

proof fn lemma_stats(stats: Seq<(u64, u64)>, i: int, j: int)
    requires
        0 <= i <= j,
    ensures
        0 <= stats_sum(stats, i).0 <= stats_sum(stats, j).0,
        0 <= stats_sum(stats, i).1 <= stats_sum(stats, j).1,
    decreases j,
{
    if i < j {
        lemma_stats(stats, i, j - 1);
    } else if i > 0 {
        lemma_stats(stats, i - 1, i - 1);
    }
}

fn sum_stats(stats: &Vec<(u64, u64)>) -> (r: (u64, u64))
    requires
        stats_sum(stats@, stats@.len() as int).0 <= u64::MAX,
        stats_sum(stats@, stats@.len() as int).1 <= u64::MAX,
    ensures
        r.0 == stats_sum(stats@, stats@.len() as int).0,
        r.1 == stats_sum(stats@, stats@.len() as int).1,
{
    let mut rows: u64 = 0;
    let mut misses: u64 = 0;
    let mut i: usize = 0;
    while i < stats.len()
        invariant
            i <= stats@.len(),
            stats_sum(stats@, stats@.len() as int).0 <= u64::MAX,
            stats_sum(stats@, stats@.len() as int).1 <= u64::MAX,
            rows == stats_sum(stats@, i as int).0,
            misses == stats_sum(stats@, i as int).1,
        decreases stats@.len() - i,
    {
        proof {
            lemma_stats(stats@, i + 1, stats@.len() as int);
        }
        let (r, m): (u64, u64) = stats[i];
        rows = rows + r;
        misses = misses + m;
        i = i + 1;
    }
    (rows, misses)
}

/// Host bytes of a layer's experts.
pub open spec fn host_bytes(l: Qwen4ExpLayer) -> int {
    match l.moe.seats {
        ExpertSeats::Kq { gate, up, down, .. } => gate.split().1 + up.split().1 + down.split().1,
        ExpertSeats::Nvf4 => 0,
    }
}

/// Host bytes of the first `n` layers' experts.
pub open spec fn host_total(layers: Seq<Qwen4ExpLayer>, n: int) -> int
    decreases n,
{
    if n <= 0 {
        0
    } else {
        host_total(layers, n - 1) + host_bytes(layers[n - 1])
    }
}

proof fn lemma_host(layers: Seq<Qwen4ExpLayer>, i: int, j: int)
    requires
        0 <= i <= j,
    ensures
        0 <= host_total(layers, i) <= host_total(layers, j),
    decreases j,
{
    if i < j {
        lemma_host(layers, i, j - 1);
    } else if i > 0 {
        lemma_host(layers, i - 1, i - 1);
    }
}

fn host_side(s: &KqSeat) -> (n: u64)
    ensures
        n == s.split().1,
{
    match s {
        KqSeat::Dev(_) => 0,
        KqSeat::Host(h) => h.host_bytes,
    }
}

fn sum_host_bytes(layers: &Vec<Qwen4ExpLayer>) -> (n: u64)
    requires
        host_total(layers@, layers@.len() as int) <= u64::MAX,
    ensures
        n == host_total(layers@, layers@.len() as int),
{
    let mut n: u64 = 0;
    let mut i: usize = 0;
    while i < layers.len()
        invariant
            i <= layers@.len(),
            host_total(layers@, layers@.len() as int) <= u64::MAX,
            n == host_total(layers@, i as int),
        decreases layers@.len() - i,
    {
        proof {
            lemma_host(layers@, i as int, i + 1);
            lemma_host(layers@, i + 1, layers@.len() as int);
        }
        match &layers[i].moe.seats {
            ExpertSeats::Kq { gate, up, down, .. } => {
                n = n + host_side(gate) + host_side(up) + host_side(down);
            },
            ExpertSeats::Nvf4 => {},
        }
        i = i + 1;
    }
    n
}

/// The layers before `n` that want slots.
pub open spec fn wanting(layers: Seq<Qwen4ExpLayer>, n: int) -> int
    decreases n,
{
    if n <= 0 {
        0
    } else {
        wanting(layers, n - 1) + if wants_slots(layers[n - 1]) {
            1int
        } else {
            0
        }
    }
}

impl Qwen4ExpGpu {
    /// Give every layer that wants slots its cache, and leave the others alone. Says how many got
    /// one.
    pub fn enable_moe_cache(&mut self, caches: &Vec<Option<ExpertCache>>) -> (n: usize)
        requires
            caches@.len() == old(self).layers@.len(),
            forall|i: int|
                0 <= i < caches@.len() && wants_slots(old(self).layers@[i])
                    ==> #[trigger] caches@[i] is Some,
        ensures
            n == wanting(old(self).layers@, old(self).layers@.len() as int),
            final(self).layers@ == Seq::new(
                old(self).layers@.len(),
                |i: int|
                    if wants_slots(old(self).layers@[i]) {
                        seated(old(self).layers@[i], caches@[i]->0)
                    } else {
                        old(self).layers@[i]
                    },
            ),
            final(self)@ == old(self)@,
            final(self).same_but_slots(
                (Qwen4ExpGpu { layers: final(self).layers, ..*old(self) }),
            ),
    {
        let ghost before = self.layers@;
        let mut n: usize = 0;
        let mut i: usize = 0;
        let len: usize = self.layers.len();
        while i < len
            invariant
                i <= len,
                len == before.len(),
                before == old(self).layers@,
                self@ == old(self)@,
                self.same_but_slots((Qwen4ExpGpu { layers: self.layers, ..*old(self) })),
                caches@.len() == len,
                forall|j: int|
                    0 <= j < len && wants_slots(before[j]) ==> #[trigger] caches@[j] is Some,
                self.layers@.len() == len,
                n == wanting(before, i as int),
                n <= i,
                forall|j: int| i <= j < len ==> #[trigger] self.layers@[j] == before[j],
                forall|j: int|
                    0 <= j < i ==> #[trigger] self.layers@[j] == (if wants_slots(before[j]) {
                        seated(before[j], caches@[j]->0)
                    } else {
                        before[j]
                    }),
            decreases len - i,
        {
            let mut l: Qwen4ExpLayer = self.layers[i];
            if let Some(cache) = caches[i] {
                if seat(&mut l, cache) {
                    n = n + 1;
                }
            }
            self.layers.set(i, l);
            i = i + 1;
        }
        assert(self.layers@ =~= Seq::new(
            before.len(),
            |i: int|
                if wants_slots(before[i]) {
                    seated(before[i], caches@[i]->0)
                } else {
                    before[i]
                },
        ));
        n
    }

    /// Host bytes that the experts of every layer hold.
    pub fn expert_host_bytes(&self) -> (n: u64)
        requires
            host_total(self.layers@, self.layers@.len() as int) <= u64::MAX,
        ensures
            n == host_total(self.layers@, self.layers@.len() as int),
    {
        sum_host_bytes(&self.layers)
    }

    /// Cache counters of every layer together, from each layer's own: rows resolved, and misses.
    pub fn moe_cache_stats(&self, stats: &Vec<(u64, u64)>) -> (r: (u64, u64))
        requires
            stats_sum(stats@, stats@.len() as int).0 <= u64::MAX,
            stats_sum(stats@, stats@.len() as int).1 <= u64::MAX,
        ensures
            r.0 == stats_sum(stats@, stats@.len() as int).0,
            r.1 == stats_sum(stats@, stats@.len() as int).1,
    {
        sum_stats(stats)
    }
}

/// What stands in the way of loading the model: no sequence to carry, or a kernel pack without what
/// every walk takes.
pub fn load_checks(slots: usize, gate_ab: bool, family: bool, ring_step: bool) -> (r: Result<
    (),
    String,
>)
    ensures
        match r {
            Ok(_) => slots > 0 && gate_ab && family && ring_step,
            Err(e) => e@ == (if slots == 0 {
                "slots must be >= 1"@
            } else if !gate_ab {
                "pack has no delta_gate_ab - the folded GDN a||b plane needs it"@
            } else if !family {
                "kernel pack has no qwen4exp family (slots 506-516) - rebuild packs/cuda"@
            } else {
                "kernel pack has no q4x_conv_dil_step_ring (slot 533) - rebuild packs/cuda"@
            }) && !(slots > 0 && gate_ab && family && ring_step),
        },
{
    if slots == 0 {
        return Err("slots must be >= 1".to_owned());
    }
    if !gate_ab {
        return Err("pack has no delta_gate_ab - the folded GDN a||b plane needs it".to_owned());
    }
    if !family {
        return Err(
            "kernel pack has no qwen4exp family (slots 506-516) - rebuild packs/cuda".to_owned(),
        );
    }
    if !ring_step {
        return Err(
            "kernel pack has no q4x_conv_dil_step_ring (slot 533) - rebuild packs/cuda".to_owned(),
        );
    }
    Ok(())
}

/// The buffer holds `n` rows of `width` elements exactly when these are no more than `t`.
pub open spec fn holds_just(len: usize, width: int, t: int, n: int) -> bool {
    width > 0 ==> (n * width <= len <==> n <= t)
}

proof fn lemma_holds_just(len: usize, width: int, t: int, n: int)
    requires
        len == t * width,
        0 <= width,
    ensures
        holds_just(len, width, t, n),
{
    assert(width > 0 ==> (n * width <= t * width <==> n <= t)) by (nonlinear_arith);
}

/// Every buffer of the scratch is as long as the rows it was made for: it holds a walk of `n` rows
/// exactly when `n` is no more than those.
pub proof fn law_scratch_is_as_long_as_its_rows(
    s: Scratch,
    d: Dims,
    t: int,
    slots: int,
    kq: bool,
    sk: u32,
    n: int,
)
    requires
        s.is_sized(d, t, slots, kq, sk),
        0 <= n,
        0 <= t,
    ensures
        holds_just(s.tok, 1, t, n),
        holds_just(s.pos, 1, t, n),
        holds_just(s.slots, 1, t, n),
        holds_just(s.mrope, 4, t, n),
        holds_just(s.x, d.hidden as int, t, n),
        holds_just(s.h, d.hc_width as int, t, n),
        holds_just(s.xn, d.hc_width as int, t, n),
        holds_just(s.gate, d.hc_width as int, t, n),
        holds_just(s.bi, d.hidden as int, t, n),
        holds_just(s.inj, d.hc_count as int, t, n),
        holds_just(s.mix, d.hidden as int, t, n),
        holds_just(s.mix_wave, d.hidden as int, t, n),
        holds_just(s.qkv, d.gdn_qkv_rows as int, t, n),
        holds_just(s.zg, d.gdn_z_rows as int, t, n),
        holds_just(s.ab, (2 * d.gdn_v_heads) as int, t, n),
        holds_just(s.g, d.gdn_v_heads as int, t, n),
        holds_just(s.beta, d.gdn_v_heads as int, t, n),
        holds_just(s.conv, d.gdn_qkv_rows as int, t, n),
        holds_just(s.dq, (d.gdn_v_heads * d.gdn_k_dim) as int, t, n),
        holds_just(s.dk, (d.gdn_v_heads * d.gdn_k_dim) as int, t, n),
        holds_just(s.dv, (d.gdn_v_heads * d.gdn_v_dim) as int, t, n),
        holds_just(s.dattn, (d.gdn_v_heads * d.gdn_v_dim) as int, t, n),
        holds_just(s.core, (d.gdn_v_heads * d.gdn_v_dim) as int, t, n),
        holds_just(s.qg, d.attn_q_rows as int, t, n),
        holds_just(s.q, (d.n_heads * d.head_dim) as int, t, n),
        holds_just(s.agate, (d.n_heads * d.head_dim) as int, t, n),
        holds_just(s.k, (d.n_kv_heads * d.head_dim) as int, t, n),
        holds_just(s.v, (d.n_kv_heads * d.head_dim) as int, t, n),
        holds_just(s.qn, (d.n_heads * d.head_dim) as int, t, n),
        holds_just(s.kn, (d.n_kv_heads * d.head_dim) as int, t, n),
        holds_just(s.attn, (d.n_heads * d.head_dim) as int, t, n),
        holds_just(s.logits, (d.n_expert + 1) as int, t, n),
        holds_just(s.dnrn, (2 * d.gdn_v_heads) as int, t, n),
        holds_just(s.idx, d.n_active as int, t, n),
        holds_just(s.topw, d.n_active as int, t, n),
        holds_just(s.act, (d.n_active * d.moe_ff) as int, t, n),
        holds_just(s.shg, d.shared_ff as int, t, n),
        holds_just(s.shu, d.shared_ff as int, t, n),
        holds_just(s.shd, d.hidden as int, t, n),
        holds_just(s.shgate, 1, t, n),
        holds_just(s.emb, d.ple_embed as int, t, n),
        holds_just(s.ple_ids, d.ple_heads as int, t, n),
        holds_just(s.pkey, d.hc_width as int, t, n),
        holds_just(s.pval, d.hidden as int, t, n),
        holds_just(s.pkn, d.hc_width as int, t, n),
        holds_just(s.pqn, d.hc_width as int, t, n),
        holds_just(s.pgv, d.hc_width as int, t, n),
        holds_just(s.pconv, d.hc_width as int, t, n),
        holds_just(s.xq, d.hidden as int, t, n) || !kq,
        holds_just(s.fq, (d.n_active * d.moe_ff) as int, t, n) || !kq,
        holds_just(s.fin, d.hidden as int, slots, n),
        holds_just(s.out, d.vocab as int, slots, n),
        s.m == t * d.hc_lowrank + d.hc_count,
        slots >= 1 ==> s.run_off == slots && s.run_len == slots && s.run_slot == slots,
        t >= 1 ==> holds_just(s.par, 4, t, n) && holds_just(s.tpar, 4, t, n) && s.ids == t,
        s.sinks == d.n_heads && s.zero_bias == d.n_expert,
        s.skc == d.n_expert + 1 && s.skp >= 2 * (d.n_expert + 1),
{
    assert(0 <= d.gdn_v_heads * d.gdn_k_dim && 0 <= d.gdn_v_heads * d.gdn_v_dim && 0 <= d.n_heads
        * d.head_dim && 0 <= d.n_kv_heads * d.head_dim && 0 <= d.n_active * d.moe_ff) by (
    nonlinear_arith);
    assert(t * 2 * d.gdn_v_heads == t * (2 * d.gdn_v_heads)) by (nonlinear_arith);
    assert(t * d.gdn_v_heads * 2 == t * (2 * d.gdn_v_heads)) by (nonlinear_arith);
    assert(t * d.n_active * d.moe_ff == t * (d.n_active * d.moe_ff)) by (nonlinear_arith);
    assert(t * 1 == t && 4 * t == t * 4);
    lemma_holds_just(s.tok, 1, t, n);
    lemma_holds_just(s.pos, 1, t, n);
    lemma_holds_just(s.slots, 1, t, n);
    lemma_holds_just(s.mrope, 4, t, n);
    lemma_holds_just(s.x, d.hidden as int, t, n);
    lemma_holds_just(s.h, d.hc_width as int, t, n);
    lemma_holds_just(s.xn, d.hc_width as int, t, n);
    lemma_holds_just(s.gate, d.hc_width as int, t, n);
    lemma_holds_just(s.bi, d.hidden as int, t, n);
    lemma_holds_just(s.inj, d.hc_count as int, t, n);
    lemma_holds_just(s.mix, d.hidden as int, t, n);
    lemma_holds_just(s.mix_wave, d.hidden as int, t, n);
    lemma_holds_just(s.qkv, d.gdn_qkv_rows as int, t, n);
    lemma_holds_just(s.zg, d.gdn_z_rows as int, t, n);
    lemma_holds_just(s.ab, (2 * d.gdn_v_heads) as int, t, n);
    lemma_holds_just(s.g, d.gdn_v_heads as int, t, n);
    lemma_holds_just(s.beta, d.gdn_v_heads as int, t, n);
    lemma_holds_just(s.conv, d.gdn_qkv_rows as int, t, n);
    lemma_holds_just(s.dq, (d.gdn_v_heads * d.gdn_k_dim) as int, t, n);
    lemma_holds_just(s.dk, (d.gdn_v_heads * d.gdn_k_dim) as int, t, n);
    lemma_holds_just(s.dv, (d.gdn_v_heads * d.gdn_v_dim) as int, t, n);
    lemma_holds_just(s.dattn, (d.gdn_v_heads * d.gdn_v_dim) as int, t, n);
    lemma_holds_just(s.core, (d.gdn_v_heads * d.gdn_v_dim) as int, t, n);
    lemma_holds_just(s.qg, d.attn_q_rows as int, t, n);
    lemma_holds_just(s.q, (d.n_heads * d.head_dim) as int, t, n);
    lemma_holds_just(s.agate, (d.n_heads * d.head_dim) as int, t, n);
    lemma_holds_just(s.k, (d.n_kv_heads * d.head_dim) as int, t, n);
    lemma_holds_just(s.v, (d.n_kv_heads * d.head_dim) as int, t, n);
    lemma_holds_just(s.qn, (d.n_heads * d.head_dim) as int, t, n);
    lemma_holds_just(s.kn, (d.n_kv_heads * d.head_dim) as int, t, n);
    lemma_holds_just(s.attn, (d.n_heads * d.head_dim) as int, t, n);
    lemma_holds_just(s.logits, (d.n_expert + 1) as int, t, n);
    lemma_holds_just(s.dnrn, (2 * d.gdn_v_heads) as int, t, n);
    lemma_holds_just(s.idx, d.n_active as int, t, n);
    lemma_holds_just(s.topw, d.n_active as int, t, n);
    lemma_holds_just(s.act, (d.n_active * d.moe_ff) as int, t, n);
    lemma_holds_just(s.shg, d.shared_ff as int, t, n);
    lemma_holds_just(s.shu, d.shared_ff as int, t, n);
    lemma_holds_just(s.shd, d.hidden as int, t, n);
    lemma_holds_just(s.shgate, 1, t, n);
    lemma_holds_just(s.emb, d.ple_embed as int, t, n);
    lemma_holds_just(s.ple_ids, d.ple_heads as int, t, n);
    lemma_holds_just(s.pkey, d.hc_width as int, t, n);
    lemma_holds_just(s.pval, d.hidden as int, t, n);
    lemma_holds_just(s.pkn, d.hc_width as int, t, n);
    lemma_holds_just(s.pqn, d.hc_width as int, t, n);
    lemma_holds_just(s.pgv, d.hc_width as int, t, n);
    lemma_holds_just(s.pconv, d.hc_width as int, t, n);
    if kq {
        lemma_holds_just(s.xq, d.hidden as int, t, n);
        lemma_holds_just(s.fq, (d.n_active * d.moe_ff) as int, t, n);
    }
    lemma_holds_just(s.fin, d.hidden as int, slots, n);
    lemma_holds_just(s.out, d.vocab as int, slots, n);
    if t >= 1 {
        lemma_holds_just(s.par, 4, t, n);
        lemma_holds_just(s.tpar, 4, t, n);
    }
    assert((d.n_expert + 1) * at_least_two(sk as int) >= 2 * (d.n_expert + 1)) by (nonlinear_arith)
        requires
            at_least_two(sk as int) >= 2,
    ;
}

/// A recurrent layer keeps a state and a window for every slot and no cache, an attention layer a
/// cache for every row of every slot and neither of these; an 8-bit cache takes half the bytes.
pub proof fn law_layers_keep_their_kind_of_state(d: Dims, t: int, slots: int)
    requires
        state_fits(d, t, slots),
        0 <= t,
        0 <= slots,
    ensures
        ({
            let g = layer_state(d, Block::Gdn, t, slots, true);
            let a = layer_state(d, Block::Attention, t, slots, true);
            let b = layer_state(d, Block::Attention, t, slots, false);
            &&& g.kv is None && a.recur is None && a.window is None
            &&& g.recur matches Some(n) && n == slots * slot_state(d)
            &&& g.window matches Some(n) && n == slots * ((d.gdn_conv - 1) * d.gdn_qkv_rows)
            &&& a.kv matches Some(n) && n == slots * t * (d.n_kv_heads * d.head_dim)
            &&& b.kv matches Some(n) && n == 2 * (slots * t * (d.n_kv_heads * d.head_dim))
            &&& layer_state(d, Block::Gdn, t, slots, false) == g
        }),
{
    assert(slots * d.gdn_v_heads * d.gdn_k_dim * d.gdn_v_dim == slots * slot_state(d)) by (
    nonlinear_arith)
        requires
            slot_state(d) == d.gdn_v_heads * d.gdn_k_dim * d.gdn_v_dim,
    ;
    assert(slots * (d.gdn_conv - 1) * d.gdn_qkv_rows == slots * ((d.gdn_conv - 1)
        * d.gdn_qkv_rows)) by (nonlinear_arith);
    assert(slots * t * d.n_kv_heads * d.head_dim == slots * t * (d.n_kv_heads * d.head_dim)) by (
    nonlinear_arith);
    let x = slots * t * d.n_kv_heads * d.head_dim;
    assert(0 <= x && x * 1 == x && x * 2 == 2 * x) by (nonlinear_arith)
        requires
            x == slots * t * d.n_kv_heads * d.head_dim,
            0 <= slots,
            0 <= t,
    ;
    assert(0 <= slots * slot_state(d)) by (nonlinear_arith)
        requires
            0 <= slots,
            slot_state(d) == d.gdn_v_heads * d.gdn_k_dim * d.gdn_v_dim,
    ;
    assert(0 <= slots * ((d.gdn_conv - 1) * d.gdn_qkv_rows)) by (nonlinear_arith)
        requires
            0 <= slots,
            d.gdn_conv >= 1,
    ;
}

/// The slots that are bought are paid for: unless their number is pinned, they cost no more than
/// the budget and the cap both allow, and one more would cost too much or hold no further expert;
/// fewer than eight are not bought, nor any without a price or without the kernels.
pub proof fn law_bought_slots_are_paid_for(
    price: int,
    available: bool,
    budget: u64,
    cap: Option<u64>,
    pin: Option<usize>,
    n_expert: usize,
)
    requires
        price >= 0,
    ensures
        ({
            let r = slots_bought(price, available, budget, cap, pin, n_expert);
            &&& price == 0 || !available ==> r is None
            &&& r matches Some(n) ==> {
                &&& n <= n_expert
                &&& n >= 8 || n == n_expert
                &&& pin is None ==> n * price <= budget
                &&& pin is None ==> (cap matches Some(c) ==> n * price <= c)
                &&& pin is None && n < n_expert ==> (n + 1) * price > budget || (cap matches Some(c)
                    && (n + 1) * price > c)
                &&& pin matches Some(p) ==> n == p || n == n_expert && n_expert < p
            }
            &&& r is None && price > 0 && available ==> match pin {
                Some(p) => p < 8,
                None => 8 * price > budget || (cap matches Some(c) && 8 * price > c),
            }
        }),
{
    let room: int = match cap {
        Some(c) => if c <= budget {
            c as int
        } else {
            budget as int
        },
        None => budget as int,
    };
    if price > 0 {
        let q = room / price;
        assert(q * price <= room && room < (q + 1) * price) by (nonlinear_arith)
            requires
                q == room / price,
                price > 0,
                room >= 0,
        ;
        let e = n_expert as int;
        assert(q >= e ==> e * price <= q * price) by (nonlinear_arith)
            requires
                price > 0,
        ;
        assert(q < 8 ==> (q + 1) * price <= 8 * price) by (nonlinear_arith)
            requires
                price > 0,
        ;
    }
}

/// Only layers whose experts are all held by the host and not cached want slots, and the price of a
/// slot is what those layers ask for it.
pub proof fn law_slots_are_priced_where_they_are_wanted(
    layers: Seq<Qwen4ExpLayer>,
    prices: Seq<u64>,
    n: int,
)
    requires
        0 <= n,
    ensures
        slot_price(layers, prices, n + 1) == slot_price(layers, prices, n) || wants_slots(layers[n]),
        wants_slots(layers[n]) ==> slot_price(layers, prices, n + 1) - slot_price(layers, prices, n)
            == prices[n],
        wanting(layers, n + 1) - wanting(layers, n) == (if wants_slots(layers[n]) {
            1int
        } else {
            0
        }),
        slot_price(layers, prices, 0) == 0 && wanting(layers, 0) == 0,
        layers[n].moe.seats is Nvf4 ==> !wants_slots(layers[n]),
        layers[n].moe.seats matches ExpertSeats::Kq { gate, up, down, cache } ==> (wants_slots(
            layers[n],
        ) <==> gate is Host && up is Host && down is Host && cache is None),
{
}

/// What the host holds is what its planes take there, layer by layer, and the hits and misses of
/// all layers add up.
pub proof fn law_host_bytes_add_up(layers: Seq<Qwen4ExpLayer>, stats: Seq<(u64, u64)>, n: int)
    requires
        0 <= n,
    ensures
        host_total(layers, n + 1) - host_total(layers, n) == host_bytes(layers[n]),
        host_total(layers, 0) == 0,
        layers[n].moe.seats is Nvf4 ==> host_bytes(layers[n]) == 0,
        stats_sum(stats, n + 1).0 - stats_sum(stats, n).0 == stats[n].0,
        stats_sum(stats, n + 1).1 - stats_sum(stats, n).1 == stats[n].1,
        stats_sum(stats, 0) == (0int, 0int),
{
}

/// Seating slots over a layer changes nothing of it but that they are there.
pub proof fn law_seating_slots_changes_nothing_else(l: Qwen4ExpLayer, c: ExpertCache)
    ensures
        seated(l, c) == (Qwen4ExpLayer { moe: seated(l, c).moe, ..l }),
        l.moe.seats is Nvf4 ==> seated(l, c) == l,
        l.moe.seats matches ExpertSeats::Kq { gate, up, down, .. } ==> seated(l, c).moe.seats == (
        ExpertSeats::Kq { gate, up, down, cache: Some(c) }),
        seated(l, c).moe.router16 == l.moe.router16 && seated(l, c).moe.sh_gu == l.moe.sh_gu,
{
}

/// A slot's part of the recurrent state is where the slots before it end, and as long as one state.
pub proof fn law_slot_parts_follow_each_other(d: Dims, slot: int, len: int)
    requires
        0 <= slot,
        0 <= len,
        (slot + 1) * len <= usize::MAX,
    ensures
        nth(slot, len).off + len == (slot + 1) * len,
        nth(slot, len).len == len,
        slot_ring(d) == (d.ple_conv - 1) * 3 * d.hc_width,
        slot_state(d) == d.gdn_v_heads * d.gdn_k_dim * d.gdn_v_dim,
{
    assert((slot + 1) * len == slot * len + len && 0 <= slot * len) by (nonlinear_arith)
        requires
            0 <= slot,
            0 <= len,
    ;
    assert(len <= (slot + 1) * len) by (nonlinear_arith)
        requires
            0 <= slot,
            0 <= len,
    ;
}

} // verus!
