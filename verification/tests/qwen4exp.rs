//! The model: its switches, routes, staging, walks and slots.
use paddock_engine::error::GenError;
use paddock_engine::qwen4exp::attn::{attn_pass, AttnW};
use paddock_engine::qwen4exp::config::{
    capture_wanted, fork_ok, walk_phase, Block, Dims, Pack, Phase, Qwen4ExpConfig, WalkKnobs,
};
use paddock_engine::qwen4exp::dense::{
    bf16_matmul, dense_class_from_env, parse_dense_class, Arm, DenseClass, DenseKnobs, DensePlane, DenseStage,
    RowsArm, SegArm,
};
use paddock_engine::qwen4exp::gdn::{gdn_pass, GdnW, WalkAt};
use paddock_engine::qwen4exp::kq::{
    kq_matmul, Embed, ExpertCache, ExpertSeats, HostMappedKq, KqLaunch, KqPack, KqSeat, KqStage, QuantW, RepackedKq,
};
use paddock_engine::qwen4exp::mix::{combine, final_mix, hc_mix_pass, HcW, Inj};
use paddock_engine::qwen4exp::model::{Prefill, Q4xSendGraph, Qwen4ExpGpu, Tick};
use paddock_engine::qwen4exp::moe::{kq_moe_routed, moe_pass, MoeW};
use paddock_engine::qwen4exp::ngram::ple_pass;
use paddock_engine::qwen4exp::plan::{AttnArm, Buf, Fault, HcId, NormId, Op, PairId, Plan, PlaneId};
use paddock_engine::qwen4exp::ple::{
    ple_device_table, ple_row_bytes, ple_row_dequant, shard_row, shard_tensor, table_span, PleSource, PleW, RowBits,
    shard_dtype, RowType, ShardRead, TableRead,
};
use paddock_engine::qwen4exp::seam::{
    check_positions, forward_prefill_batch, live_plans, sample_rows_from_logits, Greedy, Part,
};
use paddock_engine::qwen4exp::sizes::{
    alloc_state, cache_slots, load_checks, lowm_refused, reset_slot, ring_len, stage_sizes, wants_cache,
    Region, Scratch,
};
use paddock_engine::qwen4exp::stage::{n_qtiles, stage_run, stage_wave, Run};
use paddock_engine::qwen4exp::switches::{
    attn_fmha_sp, attn_tc5_enabled, f16_fork_max_batch, f16_min_batch, fuse_attn_qkv_on, gdn_fork_enabled,
    hc_island_on, kv8_on, lowm_on, mrow_max_out, nk_gemv_max_batch, nk_gemv_max_in, nk_gemv_min_out, sk_split,
};
use paddock_engine::qwen4exp::walk::{device_walk, walk_layer, MixerW, Qwen4ExpLayer};
use paddock_engine::sampling::{DevicePlan, RowSample};

fn dims() -> Dims {
    Dims {
        hidden: 8,
        hc_count: 2,
        hc_width: 16,
        hc_lowrank: 4,
        vocab: 50,
        n_heads: 12,
        n_kv_heads: 1,
        head_dim: 256,
        attn_q_rows: 24,
        gdn_k_heads: 2,
        gdn_v_heads: 4,
        gdn_k_dim: 3,
        gdn_v_dim: 3,
        gdn_conv: 4,
        gdn_qkv_rows: 10,
        gdn_z_rows: 12,
        n_expert: 6,
        n_active: 3,
        moe_ff: 32,
        shared_ff: 5,
        ple_embed: 6,
        ple_heads: 2,
        ple_conv: 4,
    }
}

fn dense_knobs() -> DenseKnobs {
    DenseKnobs {
        exp_lt: false,
        nk_max_in: usize::MAX,
        nk_min_out: 1184,
        nk_max_batch: 1,
        mr_band: true,
        lowm: true,
        f16_min: 64,
        tc5b1: true,
        mrow: false,
        mrow_max_out: 1024,
        fuse_silu: false,
    }
}

fn knobs() -> WalkKnobs {
    WalkKnobs {
        dense: dense_knobs(),
        fork: false,
        fuse_upmix: false,
        fuse_zq: false,
        fuse_qkv: false,
        dn_prenorm: false,
        router_fold: false,
        router_gemv: false,
        sh2: false,
        sk_split: 0,
        attn_tc5: false,
        attn_fmha: false,
        fmha_sp: 0,
        attn_ps: false,
        kv8: false,
        f16_fork_max: 16,
    }
}

fn pack() -> Pack {
    Pack {
        f16_ksplit_set: false,
        f16_mmaf_gate: false,
        qkv_gemm: true,
        tiled_split: false,
        tc5_paged: true,
        fmha_sp: true,
        fmha: true,
        batch_ps: true,
        moe_wave: true,
    }
}

fn stage() -> DenseStage {
    DenseStage { f16_ok: false, lowm_ok: false, f16_max: usize::MAX }
}

fn bf16(in_dim: usize, out_dim: usize) -> DensePlane {
    DensePlane::Bf16 { in_dim, out_dim }
}

fn hc(inject_rows: usize, up_fused: bool) -> HcW {
    HcW { down: bf16(16, 4), up: bf16(4, 16), inject_rows, up_fused }
}

fn moe(seats: ExpertSeats) -> MoeW {
    MoeW { router16: false, seats, sh_gate: bf16(8, 5), sh_up: bf16(8, 5), sh_gu: false }
}

fn layer(block: Block, mixer: MixerW, ple: bool) -> Qwen4ExpLayer {
    Qwen4ExpLayer { block, attn_hc: hc(0, false), mlp_hc: hc(0, false), mixer, moe: moe(ExpertSeats::Nvf4), ple }
}

fn at(n: usize, phase: Phase) -> WalkAt {
    WalkAt { n, phase, slot: 1, fork_ok: false }
}

/// The launches of a plan when every launch that may decline answers `taken`.
fn launches(p: &Plan, taken: bool) -> Vec<Op> {
    match p {
        Plan::Skip => vec![],
        Plan::Do(op) => vec![*op],
        Plan::Try(op, a, b) => {
            let mut v = vec![*op];
            v.extend(launches(if taken { a } else { b }, taken));
            v
        }
        Plan::Both(a, b) => {
            let mut v = launches(a, taken);
            v.extend(launches(b, taken));
            v
        }
        Plan::Fail(f) => panic!("{}", f.to_string()),
    }
}

#[test]
fn switches_read_their_texts() {
    assert!(gdn_fork_enabled(None) && !gdn_fork_enabled(Some("0")) && !gdn_fork_enabled(Some("off")));
    assert!(gdn_fork_enabled(Some("1")));
    assert!(!fuse_attn_qkv_on(None) && fuse_attn_qkv_on(Some("on")) && !fuse_attn_qkv_on(Some("yes")));
    assert!(lowm_on(Some("1")) && !lowm_on(None));
    assert!(!hc_island_on(None) && hc_island_on(Some("1")) && !hc_island_on(Some("on")));
    assert!(!kv8_on(None) && kv8_on(Some("1")) && !kv8_on(Some("true")));
    assert!(attn_tc5_enabled(None) && attn_tc5_enabled(Some("off")) && !attn_tc5_enabled(Some("0")));
    assert_eq!((f16_fork_max_batch(None), f16_fork_max_batch(Some("9"))), (16, 9));
    assert_eq!((f16_min_batch(None), mrow_max_out(None)), (64, 1024));
    assert_eq!((attn_fmha_sp(Some("1")), attn_fmha_sp(Some("8")), attn_fmha_sp(Some("17"))), (0, 8, 0));
    assert_eq!((nk_gemv_max_batch(None), nk_gemv_min_out(None)), (1, 1184));
    assert_eq!((nk_gemv_max_in(None), nk_gemv_max_in(Some("off"))), (Some(usize::MAX), Some(0)));
    assert_eq!((nk_gemv_max_in(Some("12")), nk_gemv_max_in(Some("x"))), (Some(12), None));
    assert_eq!((sk_split(None), sk_split(Some("off")), sk_split(Some("8"))), (0, 0, 8));
}

#[test]
fn dense_classes_have_names_and_sizes() {
    assert_eq!(parse_dense_class(None), Some(DenseClass::Bf16));
    assert_eq!(parse_dense_class(Some("")), Some(DenseClass::Bf16));
    assert_eq!(parse_dense_class(Some("dual")), Some(DenseClass::Dual));
    assert_eq!(parse_dense_class(Some("f16tc")), Some(DenseClass::F16));
    assert_eq!(parse_dense_class(Some("f8r")), Some(DenseClass::F8Row));
    assert_eq!(parse_dense_class(Some("int4")), None);
    assert_eq!(dense_class_from_env(Some("bf16+f16")), DenseClass::Dual);
    assert_eq!(DenseClass::default(), DenseClass::Bf16);
    for (c, label, bytes) in [
        (DenseClass::Bf16, "bf16", 2),
        (DenseClass::F16, "f16", 2),
        (DenseClass::Dual, "bf16+f16", 4),
        (DenseClass::F8Row, "f8row", 1),
    ] {
        assert_eq!((c.label(), c.elem_bytes()), (label, bytes));
    }
    let kq = DensePlane::Kq { w: QuantW::Q8 { bytes: 77 }, in_dim: 3, out_dim: 5 };
    assert_eq!(bf16(3, 5).bytes(), 30);
    assert_eq!(DensePlane::Dual { in_dim: 3, out_dim: 5 }.bytes(), 60);
    assert_eq!(DensePlane::F8Row { in_dim: 3, out_dim: 5 }.bytes(), 35);
    assert_eq!((kq.bytes(), kq.class()), (77, "kq"));
    assert!(bf16(1, 1).raw_bf16() && !kq.raw_bf16());
}

#[test]
fn dense_products_find_their_kernels() {
    let k = dense_knobs();
    assert_eq!(bf16_matmul(&k, 2560, 2048, 1), vec![Arm::GemvNk, Arm::GemmMr]);
    assert_eq!(bf16_matmul(&k, 2560, 512, 1), vec![Arm::GemmMr]);
    assert_eq!(bf16_matmul(&k, 2560, 2048, 2), vec![Arm::GemmMr]);
    let wide = DenseKnobs { exp_lt: true, nk_max_batch: 4, mr_band: false, ..k };
    assert_eq!(bf16_matmul(&wide, 2560, 2048, 4), vec![Arm::VendorLt, Arm::GemvNkMr, Arm::GemmTile]);
    let dual = DensePlane::Dual { in_dim: 2560, out_dim: 2048 };
    let free = DenseStage { f16_ok: true, lowm_ok: true, f16_max: usize::MAX };
    assert_eq!(dual.matmul(&k, &free, 1), vec![Arm::LowmCluster, Arm::F16 { cast: 2560 }]);
    assert_eq!(dual.matmul(&k, &free, 9), vec![Arm::GemmMr]);
    assert_eq!(dual.matmul(&k, &free, 64), vec![Arm::F16 { cast: 64 * 2560 }]);
    assert_eq!(dual.matmul(&k, &DenseStage { f16_max: 16, ..free }, 64), vec![Arm::GemmMr]);
    assert_eq!(dual.matmul(&k, &stage(), 1), vec![Arm::GemvNk, Arm::GemmMr]);
    assert_eq!(DensePlane::F8Row { in_dim: 4, out_dim: 4 }.matmul(&k, &free, 1), vec![Arm::F8Gemv]);
    assert_eq!(DensePlane::F8Row { in_dim: 4, out_dim: 4 }.matmul(&k, &free, 2), vec![Arm::F8Gemm]);
    assert_eq!(DensePlane::F16 { in_dim: 4, out_dim: 4 }.matmul(&k, &free, 2), vec![Arm::F16 { cast: 8 }]);
    assert_eq!(bf16(4, 900).matmul_2seg(&DenseKnobs { mrow: true, ..k }, 2), vec![SegArm::Mrow, SegArm::TwoSeg]);
    assert_eq!(bf16(4, 900).matmul_2seg(&k, 2), vec![SegArm::TwoSeg]);
    assert_eq!(DensePlane::F16 { in_dim: 4, out_dim: 4 }.matmul_2seg(&k, 2), vec![]);
    assert!(bf16(4, 4).matmul_silu(&DenseKnobs { fuse_silu: true, ..k }, 1));
    assert!(!bf16(4, 4).matmul_silu(&DenseKnobs { fuse_silu: true, ..k }, 2));
    assert_eq!(bf16(4, 4).matmul_rows(2), RowsArm::Bf16);
    assert_eq!(DensePlane::F16 { in_dim: 4, out_dim: 4 }.matmul_rows(2), RowsArm::F16 { cast: 8 });
    assert_eq!(DensePlane::F8Row { in_dim: 4, out_dim: 4 }.matmul_rows(2), RowsArm::Unsupported);
}

#[test]
fn quantized_products_are_staged_and_tiled() {
    let w = QuantW::Kq { bytes: 9, needs_sums: true, iq: false };
    let p = KqPack { tile: true, iq_tile: false, gemv_w4a8: true, no_tile: false, exact_gemv: false };
    let tiles = 2 * 512;
    let s = KqStage { q: 1100 * 256, xs: 1100 * 8, ssums: 1100 * 16, yq: tiles * 144, xsums: tiles * 4 };
    assert_eq!(
        kq_matmul(&w, 256, 1, &s, &p).unwrap(),
        vec![KqLaunch::QuantizeRow, KqLaunch::GemvW4A8 { sums: true }]
    );
    let exact = KqPack { exact_gemv: true, ..p };
    assert_eq!(kq_matmul(&w, 256, 1, &s, &exact).unwrap(), vec![KqLaunch::GemvExact]);
    assert_eq!(
        kq_matmul(&w, 256, 64, &s, &p).unwrap(),
        vec![KqLaunch::Quantize { n: 64 * 256 }, KqLaunch::Sums, KqLaunch::GemmDp4a { sums: true }]
    );
    let tiled = kq_matmul(&w, 256, 1100, &s, &p).unwrap();
    let spans: Vec<(usize, usize)> = tiled
        .iter()
        .filter_map(|l| match l {
            KqLaunch::Tile { off, rows, sums: true } => Some((*off, *rows)),
            _ => None,
        })
        .collect();
    assert_eq!(spans, vec![(0, 512), (512, 512), (1024, 76)]);
    assert_eq!(tiled[0], KqLaunch::QuantizeTiles { off: 0, rows: 512 });
    assert_eq!(tiled[1], KqLaunch::TileSums { rows: 512 });
    let iq = QuantW::Kq { bytes: 9, needs_sums: false, iq: true };
    assert_eq!(
        kq_matmul(&iq, 256, 65, &s, &p).unwrap(),
        vec![KqLaunch::Quantize { n: 65 * 256 }, KqLaunch::GemmDp4a { sums: false }]
    );
    assert_eq!(
        kq_matmul(&w, 256, 1101, &s, &p).unwrap_err(),
        "kq_matmul: stage scratch holds 1100 rows of 256, launch wants 1101"
    );
    let q8 = QuantW::Q8 { bytes: 9 };
    let empty = KqStage { q: 0, xs: 0, ssums: 0, yq: 0, xsums: 0 };
    assert_eq!(kq_matmul(&q8, 256, 1, &empty, &p).unwrap(), vec![KqLaunch::Q8Gemv]);
    assert_eq!(kq_matmul(&q8, 256, 12, &empty, &p).unwrap(), vec![KqLaunch::Q8GemmTiled]);
    assert_eq!(kq_matmul(&q8, 256, 13, &empty, &p).unwrap(), vec![KqLaunch::Q8Gemm]);
}

fn hash() -> PleW {
    PleW {
        multipliers: vec![0x9E37_79B9_7F4A_7C15u64 as i64, -77_777_777_777, 31],
        head_vocab: vec![101, 103, 107, 109],
        head_offset: vec![0, 101, 204, 311],
        table_rows: 420,
        heads_per_ngram: 2,
        ngram_size: 3,
        eos: 2,
    }
}

/// The window of a position by segment bookkeeping: what lies before the segment reads as its start.
fn row_ids(h: &PleW, stream: &[i64], first: usize, n: usize) -> Vec<u32> {
    let mut prev: i64 = -1;
    for (j, t) in stream[..first].iter().enumerate() {
        if *t == h.eos {
            prev = j as i64;
        }
    }
    let mut out = Vec::new();
    for i in first..first + n {
        let inside = i as i64 - prev - 1;
        let mut w = [stream[i], h.eos, h.eos];
        for shift in 1..3 {
            if i >= shift && inside >= shift as i64 {
                w[shift] = stream[i - shift];
            }
        }
        for ngram in 2..=h.ngram_size {
            let mut mixed = w[0].wrapping_mul(h.multipliers[0]);
            for j in 1..ngram.min(3) {
                mixed ^= w[j].wrapping_mul(h.multipliers[j]);
            }
            for hh in 0..h.heads_per_ngram {
                let head = (ngram - 2) * h.heads_per_ngram + hh;
                out.push((mixed.rem_euclid(h.head_vocab[head]) + h.head_offset[head]) as u32);
            }
        }
        if stream[i] == h.eos {
            prev = i as i64;
        }
    }
    out
}

#[test]
fn ngrams_hash_within_their_segment() {
    let h = hash();
    let stream = vec![2, 2, 40, 41, 42, 2, 43, 44, 45, 2, 2, 46];
    for first in 0..stream.len() {
        for n in 0..=stream.len() - first {
            assert_eq!(h.ple_row_ids(&stream, first, n).unwrap(), row_ids(&h, &stream, first, n));
        }
    }
    // steps hash as the whole prompt does
    let whole = h.ple_row_ids(&stream, 2, 10).unwrap();
    let steps: Vec<u32> = (2..12).flat_map(|i| h.ple_row_ids(&stream, i, 1).unwrap()).collect();
    assert_eq!(whole, steps);
    // and a segment does not read what came before it
    let other = vec![2, 2, 90, 91, 92, 2, 43, 44, 45];
    assert_eq!(h.ple_row_ids(&stream, 6, 3).unwrap(), h.ple_row_ids(&other, 6, 3).unwrap());
}

#[test]
fn host_rows_are_the_device_rows() {
    let h = hash();
    let stream = vec![2, 2, 40, 41, 42, 2, 43];
    let rows = h.ple_row_ids(&stream, 2, 4).unwrap();
    let ids = h.ple_ngram_ids(&stream, 2, 4);
    assert_eq!(ids.iter().map(|id| *id as u32).collect::<Vec<u32>>(), rows);
    let reads = h.gather_ple_rows(&stream, 2, 4, 100, 5, 20);
    assert_eq!(reads.len(), 16);
    for (k, r) in reads.iter().enumerate() {
        let id = rows[k] as usize;
        let lo = id % 100 * 5;
        assert_eq!(*r, ShardRead { shard: id / 100, lo, hi: lo + 5, dst: k / 4 * 20 + k % 4 * 5 });
    }
    let reads = h.gather_ple_rows_gguf(&stream, 2, 4, "t", 420 * 34, 34, 5, 20).unwrap();
    for (k, r) in reads.iter().enumerate() {
        let lo = rows[k] as usize * 34;
        assert_eq!(*r, TableRead { lo, hi: lo + 34, dst: k / 4 * 20 + k % 4 * 5 });
    }
    // the first row past a shorter table is named
    let most = *rows.iter().max().unwrap() as usize;
    let past = rows.iter().position(|r| *r as usize == most).unwrap();
    assert_eq!(
        h.gather_ple_rows_gguf(&stream, 2, 4, "t", most * 34 + 33, 34, 5, 20).unwrap_err(),
        format!("t: n-gram row {} past the table's {most} rows", rows[past])
    );
    // a table need not be on the device for the host to read it
    let unloaded = PleW { table_rows: 0, ..hash() };
    assert_eq!(unloaded.gather_ple_rows(&stream, 2, 4, 100, 5, 20).len(), 16);
    assert_eq!(h.gather_ple_rows(&stream, 2, 0, 100, 5, 20), vec![]);
}

#[test]
fn bad_ngram_rows_are_reported() {
    let h = hash();
    assert_eq!(
        h.ple_row_ids(&vec![1, 2], 1, 2).unwrap_err(),
        "ple ids: 2 rows at 1 but the stream holds 2"
    );
    let small = PleW { table_rows: 1, head_offset: vec![5, 5, 5, 5], head_vocab: vec![1, 1, 1, 1], ..hash() };
    assert_eq!(small.ple_row_ids(&vec![7], 0, 1).unwrap_err(), "ple row id 5 outside the 1-row table");
    let below = PleW { head_offset: vec![-9, 0, 0, 0], head_vocab: vec![1, 1, 1, 1], ..hash() };
    assert_eq!(below.ple_row_ids(&vec![7], 0, 1).unwrap_err(), "ple row id -9 outside the 420-row table");
}

#[test]
fn table_rows_are_found() {
    assert_eq!(shard_row(0, 7), (0, 0));
    assert_eq!(shard_row(22, 7), (3, 1));
    assert!(shard_tensor(4, 2).contains("4") && shard_tensor(4, 2).contains("2"));
    assert_eq!(table_span("t", 100, 30, 2).unwrap(), (60, 90));
    assert!(table_span("t", 100, 30, 3).unwrap_err().contains("t"));
    assert_eq!(ple_row_bytes(RowType::F32, 5), Some(20));
    assert_eq!(ple_row_bytes(RowType::F16, 5), Some(10));
    assert_eq!(ple_row_bytes(RowType::Bf16, 5), Some(10));
    assert_eq!(ple_row_bytes(RowType::Q8_0, 64), Some(68));
    assert_eq!(ple_row_bytes(RowType::Q4_0, 64), Some(36));
    assert_eq!(ple_row_bytes(RowType::Iq4Nl, 64), Some(36));
    assert_eq!(ple_row_bytes(RowType::Q8_0, 63), None);
    assert_eq!(ple_row_bytes(RowType::Other, 64), None);
    assert!(!PleSource::St.quantized());
    assert!(PleSource::Gguf { ty: RowType::Q8_0, row_bytes: 34 }.quantized());
}

#[test]
fn table_rows_decode() {
    match ple_row_dequant(RowType::F32, &1.5f32.to_le_bytes().to_vec(), 1) {
        RowBits::Single(v) => assert_eq!(v, vec![1.5f32.to_bits()]),
        r => panic!("{r:?}"),
    }
    match ple_row_dequant(RowType::Bf16, &vec![0x80, 0x3f], 1) {
        RowBits::Single(v) => assert_eq!(f32::from_bits(v[0]), 1.0),
        r => panic!("{r:?}"),
    }
    match ple_row_dequant(RowType::F16, &vec![0x00, 0x3c, 0x01, 0x80], 2) {
        RowBits::Half(v) => assert_eq!(v, vec![0x3c00, 0x8001]),
        r => panic!("{r:?}"),
    }
    let mut q8 = vec![0x34, 0x12];
    q8.extend((0..32).map(|j| (j as i8 - 16) as u8));
    match ple_row_dequant(RowType::Q8_0, &q8, 32) {
        RowBits::Blocks(b) => {
            assert_eq!(b.scales, vec![0x1234]);
            assert_eq!(b.codes, (-16..16).collect::<Vec<i32>>());
        }
        r => panic!("{r:?}"),
    }
    let mut q4 = vec![0, 1];
    q4.extend((0..16).map(|j| (j | ((15 - j) << 4)) as u8));
    let nibbles: Vec<i32> = (0..16).chain((0..16).rev()).collect();
    match ple_row_dequant(RowType::Q4_0, &q4, 32) {
        RowBits::Blocks(b) => assert_eq!(b.codes, nibbles.iter().map(|q| q - 8).collect::<Vec<i32>>()),
        r => panic!("{r:?}"),
    }
    let table = [-127, -104, -83, -65, -49, -35, -22, -10, 1, 13, 25, 38, 53, 69, 89, 113];
    match ple_row_dequant(RowType::Iq4Nl, &q4, 32) {
        RowBits::Blocks(b) => {
            assert_eq!(b.codes, nibbles.iter().map(|q| table[*q as usize]).collect::<Vec<i32>>())
        }
        r => panic!("{r:?}"),
    }
}

#[test]
fn the_table_goes_to_the_device_when_it_leaves_slack() {
    let four = 1u64 << 32;
    assert!(ple_device_table(None, true, 10, 2, 5, Some(four + 100)));
    assert!(!ple_device_table(None, true, 10, 2, 5, Some(four + 99)));
    assert!(ple_device_table(Some("0"), true, 10, 2, 5, None));
    assert!(!ple_device_table(Some("1"), true, 10, 2, 5, None));
    assert!(!ple_device_table(None, false, 10, 2, 5, None));
}

#[test]
fn rows_are_staged_by_position() {
    let p = stage_run(&[7, 8, 9], 4, 2);
    assert_eq!(p.tok, vec![7, 8, 9]);
    assert_eq!(p.pos, vec![4, 5, 6]);
    assert_eq!(p.mrope, vec![4, 5, 6, 4, 5, 6, 4, 5, 6, 4, 5, 6]);
    assert_eq!(p.slots, vec![2, 2, 2]);
    let runs = vec![Run { slot: 3, off: 0, len: 17 }, Run { slot: 1, off: 17, len: 16 }];
    assert_eq!(n_qtiles(&runs), 3);
    let w = stage_wave(&runs);
    assert_eq!((w.run_off, w.run_len, w.run_slot), (vec![0, 17], vec![17, 16], vec![3, 1]));
    assert_eq!(w.tile_row0, vec![0, 16, 17]);
    assert_eq!(w.tile_slot, vec![3, 3, 1]);
}

#[test]
fn the_mix_of_one_row_carries_its_injection() {
    let d = dims();
    let (p, inj) = hc_mix_pass(&d, &hc(2, false), HcId::Attn, &dense_knobs(), false, 1, false);
    assert_eq!(inj, Inj::InM(4));
    assert_eq!(
        launches(&p, true),
        vec![
            Op::GroupNorm { norm: NormId::Hc(HcId::Attn), src: Buf::H, dst: Buf::Xn, rows: 1 },
            Op::Matmul { plane: PlaneId::HcDown(HcId::Attn), x: Buf::Xn, y: Buf::M, rows: 1 },
            Op::ScaleSilu { len: 4 },
            Op::Matmul { plane: PlaneId::HcUp(HcId::Attn), x: Buf::M, y: Buf::Gate, rows: 1 },
            Op::HcMix { rows: 1 },
        ]
    );
    let (p, inj) = hc_mix_pass(&d, &hc(0, true), HcId::Mlp, &dense_knobs(), false, 3, true);
    assert_eq!(inj, Inj::Separate);
    let ops = launches(&p, true);
    assert_eq!(ops.last(), Some(&Op::UpMixGemm { id: HcId::Mlp, rows: 3 }));
    assert!(!ops.iter().any(|o| matches!(o, Op::GroupNorm { .. })));
    let fell = launches(&p, false);
    assert_eq!(fell.last(), Some(&Op::HcMix { rows: 3 }));
    assert_eq!(
        combine(Inj::InM(4), None, 1),
        (Op::Combine { inj: Buf::M, off: 4, rows: 1 }, false)
    );
    assert_eq!(
        combine(Inj::Separate, Some(NormId::NextAttn), 2),
        (Op::CombineNorm { inj: Buf::Inj, off: 0, norm: NormId::NextAttn, rows: 2 }, true)
    );
    let last = final_mix(&d, &hc(0, false), &dense_knobs(), false, 1, true);
    assert_eq!(launches(&last, true).len(), 4);
}

/// The ring keeps the last nine rows, each where its position says.
#[test]
fn a_prompt_leaves_its_ring() {
    let d = dims();
    let copies = |n: usize| -> Vec<(usize, usize, usize)> {
        launches(&ple_pass(&d, n, Phase::Prefill, 1, &vec![]), true)
            .iter()
            .filter_map(|o| match o {
                Op::Copy { src: Buf::Pkn, src_off, dst: Buf::PleWin, dst_off, len } => {
                    Some((src_off / 16, dst_off / 16 - 9, len / 16))
                }
                _ => None,
            })
            .collect()
    };
    assert_eq!(copies(4), vec![(0, 0, 4)]);
    assert_eq!(copies(9), vec![(0, 0, 9)]);
    assert_eq!(copies(12), vec![(3, 3, 6), (9, 0, 3)]);
    let step = launches(&ple_pass(&d, 2, Phase::DecodeBatch, 0, &vec![]), true);
    assert!(step.contains(&Op::PleRingStep { rows: 2 }));
    let runs = vec![Run { slot: 0, off: 0, len: 2 }, Run { slot: 1, off: 2, len: 3 }];
    let wave = launches(&ple_pass(&d, 5, Phase::PrefillRuns, 0, &runs), true);
    assert_eq!(wave.iter().filter(|o| matches!(o, Op::PleConv { .. })).count(), 2);
}

#[test]
fn the_recurrence_runs_by_phase() {
    let d = dims();
    let w = GdnW { zqkv: false, tiled_heads: false };
    let one = |n, phase| launches(&gdn_pass(&d, &w, &knobs(), &pack(), &stage(), &at(n, phase), &vec![]), true);
    let prompt = one(5, Phase::Prefill);
    // the window of slot 1 is the last three rows
    assert!(prompt.contains(&Op::Copy {
        src: Buf::Qkv,
        src_off: 20,
        dst: Buf::GdnWin,
        dst_off: 30,
        len: 30
    }));
    assert!(prompt.contains(&Op::RecurAt { state_off: 36, rows: 5 }));
    let step = one(1, Phase::Decode);
    assert!(step.contains(&Op::ConvStep) && step.contains(&Op::SplitWiden { tiled: false, rows: 1 }));
    assert_eq!(step.last(), Some(&Op::Matmul { plane: PlaneId::GdnOut, x: Buf::Core, y: Buf::Mix, rows: 1 }));
    let batch = one(3, Phase::DecodeBatch);
    assert!(batch.contains(&Op::ConvStepSplit { rows: 3 }) && batch.contains(&Op::RecurSlotsNorm { rows: 3 }));
    assert!(!batch.contains(&Op::GatedNorm { rows: 12 }));
    let tiled = GdnW { tiled_heads: true, ..w };
    let p = gdn_pass(&d, &tiled, &knobs(), &pack(), &stage(), &at(1, Phase::Decode), &vec![]);
    assert!(format!("{p:?}").contains("NoTiledSplit"));
    let forked = WalkKnobs { fork: true, ..knobs() };
    let side = WalkAt { fork_ok: true, ..at(1, Phase::Decode) };
    let ops = launches(&gdn_pass(&d, &w, &forked, &pack(), &stage(), &side, &vec![]), true);
    let place = |o: &Op| ops.iter().position(|x| x == o).unwrap();
    assert!(place(&Op::SideFork) < place(&Op::SideEnd) && place(&Op::SideEnd) < place(&Op::SideJoin));
    assert!(place(&Op::SideJoin) < ops.iter().position(|o| matches!(o, Op::RecurAt { .. })).unwrap());
}

#[test]
fn attention_kernels_serve_their_phase() {
    let d = dims();
    let w = AttnW { qkv: false };
    let arm = |k: &WalkKnobs, pk: &Pack, n, phase, ctx, taken| {
        launches(&attn_pass(&d, &w, k, pk, &stage(), &at(n, phase), ctx, &vec![]), taken)
            .iter()
            .filter_map(|o| match o {
                Op::Attention { arm, .. } => Some(*arm),
                _ => None,
            })
            .collect::<Vec<_>>()
    };
    assert_eq!(arm(&knobs(), &pack(), 5, Phase::Prefill, 64, true), vec![AttnArm::Prefill]);
    assert_eq!(arm(&knobs(), &pack(), 1, Phase::Decode, 64, true), vec![AttnArm::Tile]);
    let ps = WalkKnobs { attn_ps: true, ..knobs() };
    assert_eq!(arm(&ps, &pack(), 1, Phase::Decode, 64, true), vec![AttnArm::ParallelScore]);
    let fm = WalkKnobs { attn_fmha: true, ..ps };
    assert_eq!(arm(&fm, &pack(), 1, Phase::Decode, 64, true), vec![AttnArm::Fmha]);
    let sp = WalkKnobs { fmha_sp: 4, ..fm };
    assert_eq!(arm(&sp, &pack(), 64, Phase::DecodeBatch, 64, true), vec![AttnArm::FmhaSplit { splits: 4 }]);
    assert_eq!(arm(&sp, &pack(), 65, Phase::DecodeBatch, 64, true), vec![AttnArm::Fmha]);
    let tc = WalkKnobs { attn_tc5: true, kv8: true, ..knobs() };
    let tc5 = AttnArm::Tc5 { kv_heads: 2, blocks: 4, window: 80 };
    assert_eq!(arm(&tc, &pack(), 1, Phase::Decode, 64, true), vec![tc5]);
    assert_eq!(arm(&tc, &pack(), 1, Phase::Decode, 64, false), vec![tc5, AttnArm::Tile]);
    assert_eq!(arm(&tc, &pack(), 1, Phase::Decode, 65, true), vec![AttnArm::Tile]);
    assert_eq!(arm(&WalkKnobs { kv8: false, ..tc }, &pack(), 1, Phase::Decode, 64, true), vec![AttnArm::Tile]);
    let fused = launches(
        &attn_pass(
            &d,
            &AttnW { qkv: true },
            &WalkKnobs { fuse_qkv: true, ..knobs() },
            &pack(),
            &stage(),
            &at(2, Phase::DecodeBatch),
            64,
            &vec![],
        ),
        true,
    );
    assert_eq!(fused[0], Op::FusedQkv { q_rows: 24, kv_dim: 256, rows: 2 });
    assert!(!fused.iter().any(|o| matches!(o, Op::Matmul { plane: PlaneId::AttnQ, .. })));
}

fn plane(needs_sums: bool) -> RepackedKq {
    RepackedKq { data: 100, scales: 10, needs_sums }
}

fn cache(slots: usize, max_rows: usize, n_waves: usize) -> ExpertCache {
    ExpertCache { slots, max_rows, n_waves, gate: plane(false), up: plane(false), down: plane(false) }
}

#[test]
fn experts_are_served_where_they_are() {
    let d = dims();
    let decode = launches(&moe_pass(&d, &moe(ExpertSeats::Nvf4), &knobs(), &pack(), 1, false, true), true);
    assert!(decode.contains(&Op::Nvf4Down { zsplit: true, rows: 1 }));
    assert!(decode.contains(&Op::Nvf4Combine { parts: 2, rows: 1 }));
    assert_eq!(decode.last(), Some(&Op::AddGatedAt { rows: 1 }));
    let wide = launches(&moe_pass(&d, &moe(ExpertSeats::Nvf4), &knobs(), &pack(), 65, false, false), true);
    assert!(wide.contains(&Op::Nvf4Down { zsplit: false, rows: 65 }));
    let folded = WalkKnobs { router_fold: true, ..knobs() };
    let f = launches(&moe_pass(&d, &moe(ExpertSeats::Nvf4), &folded, &pack(), 2, false, true), true);
    assert!(f.contains(&Op::TopkStrided { stride: 7, rows: 2 }) && f.contains(&Op::AddGatedStrided { stride: 7, rows: 2 }));
    let pair = MoeW { sh_gu: true, ..moe(ExpertSeats::Nvf4) };
    let f = launches(&moe_pass(&d, &pair, &knobs(), &pack(), 2, false, true), true);
    assert!(f.iter().any(|o| matches!(o, Op::Pair { pair: PairId::SharedGateUp, .. })));

    let dev = KqSeat::Dev(plane(true));
    let host = KqSeat::Host(HostMappedKq { plane: plane(false), host_bytes: 900 });
    let here = launches(&kq_moe_routed(&d, &dev, &dev, &dev, &None, &pack(), 2), true);
    assert_eq!(
        here,
        vec![
            Op::QuantizeIn { len: 16 },
            Op::SumsIn { rows: 2 },
            Op::KqGateUp { idx: Buf::Idx, sums: true, rows: 2 },
            Op::QuantizeAct { len: 192 },
            Op::SumsAct { rows: 6 },
            Op::KqDown { idx: Buf::Idx, sums: true, dst: Buf::Mix, rows: 2 },
        ]
    );
    let slots = launches(&kq_moe_routed(&d, &host, &host, &host, &Some(cache(8, 100, 1)), &pack(), 2), true);
    assert_eq!(slots[0], Op::CacheResolve { rows: 6 });
    assert_eq!(slots[1], Op::CacheFill { rows: 6 });
    assert_eq!(slots.last(), Some(&Op::KqDown { idx: Buf::SlotIdx, sums: false, dst: Buf::Mix, rows: 2 }));
    let waves = launches(&kq_moe_routed(&d, &host, &host, &host, &Some(cache(4, 100, 2)), &pack(), 2), true);
    assert_eq!(waves[0], Op::WavePlan { rows: 6 });
    assert_eq!(waves.last(), Some(&Op::Add { dst: Buf::Mix, src: Buf::MixWave, len: 16 }));
    let over = launches(&kq_moe_routed(&d, &host, &host, &host, &Some(cache(4, 5, 2)), &pack(), 2), true);
    assert_eq!(over[0], Op::QuantizeIn { len: 16 });
    assert_eq!(host.bytes(), (0, 900));
    assert_eq!(dev.bytes(), (110, 0));
    assert!(dev.host().is_none() && host.host().is_some() && host.kq() == &plane(false));
}

#[test]
fn a_walk_goes_from_the_embedding_to_the_head() {
    let d = dims();
    let gdn = MixerW::Gdn(GdnW { zqkv: false, tiled_heads: false });
    let attn = MixerW::Attn(AttnW { qkv: false });
    let layers = vec![layer(Block::Gdn, gdn, false), layer(Block::Attention, attn, true)];
    let w = device_walk(
        &d,
        false,
        &layers,
        &hc(0, false),
        &knobs(),
        &pack(),
        &stage(),
        &at(2, Phase::Prefill),
        64,
        &vec![],
    );
    assert_eq!(w.embed, Op::EmbedGather { quantized: false, rows: 2 });
    assert_eq!(w.spread.len(), 4);
    assert_eq!(w.spread[3], Op::Copy { src: Buf::X, src_off: 8, dst: Buf::H, dst_off: 24, len: 8 });
    assert_eq!(w.layers.len(), 2);
    let second = launches(&w.layers[1], true);
    let gate = second.iter().position(|o| matches!(o, Op::PleGate { .. })).unwrap();
    let norm = second
        .iter()
        .position(|o| matches!(o, Op::GroupNorm { norm: NormId::Hc(HcId::Attn), .. }))
        .unwrap();
    assert!(gate < norm, "n-grams enter before the norm");
    assert!(matches!(
        second.last(),
        Some(Op::CombineNorm { norm: NormId::Hc(HcId::Last), .. })
    ));
    assert_eq!(
        w.head,
        vec![
            Op::Copy { src: Buf::Bi, src_off: 8, dst: Buf::Fin, dst_off: 0, len: 8 },
            Op::Matmul { plane: PlaneId::LmHead, x: Buf::Fin, y: Buf::Out, rows: 1 },
        ]
    );
    let crossed = vec![layer(Block::Gdn, attn, false), layer(Block::Attention, gdn, false)];
    let at = at(1, Phase::Decode);
    for (li, fault) in [(0, Fault::GdnHoldsAttn), (1, Fault::AttnHoldsGdn)] {
        let p = walk_layer(&d, &crossed, li, &knobs(), &pack(), &stage(), &at, 64, &vec![]);
        assert!(format!("{p:?}").contains(&format!("{fault:?}")));
    }
    assert_eq!(Fault::GdnHoldsAttn.to_string(), "gdn layer has an attn mixer");
}

#[test]
fn walks_fork_only_where_the_twin_is_bounded() {
    let k = WalkKnobs { fork: true, ..knobs() };
    assert!(fork_ok(Phase::Decode, &k, &Some(bf16(1, 1)), &bf16(1, 1)));
    assert!(!fork_ok(Phase::Prefill, &k, &Some(bf16(1, 1)), &bf16(1, 1)));
    assert!(!fork_ok(Phase::Decode, &knobs(), &Some(bf16(1, 1)), &bf16(1, 1)));
    assert!(!fork_ok(Phase::Decode, &k, &None, &bf16(1, 1)));
    assert!(!fork_ok(Phase::Decode, &k, &Some(DensePlane::Dual { in_dim: 1, out_dim: 1 }), &bf16(1, 1)));
    let full = Pack { f16_ksplit_set: true, f16_mmaf_gate: true, ..pack() };
    assert_eq!(
        walk_phase(Phase::Decode, &k, &full, true, false),
        DenseStage { f16_ok: true, lowm_ok: true, f16_max: 16 }
    );
    assert_eq!(
        walk_phase(Phase::Prefill, &k, &pack(), false, false),
        DenseStage { f16_ok: false, lowm_ok: false, f16_max: usize::MAX }
    );
    assert!(capture_wanted(false, false) && !capture_wanted(true, false) && !capture_wanted(false, true));
    assert!(Phase::DecodeBatch.is_decode() && !Phase::PrefillRuns.is_decode());
}

fn model(layers: Vec<Qwen4ExpLayer>) -> Qwen4ExpGpu {
    let cfg = Qwen4ExpConfig { dims: dims(), blocks: vec![], ple_layers: vec![], bos_id: 2, eos_ids: vec![9, 11] };
    Qwen4ExpGpu::from_parts(cfg, layers, Embed::Bf16 { rows: 50, dim: 8 }, bf16(8, 50), hc(0, false), 8, 3, true)
}

#[test]
fn a_prompt_is_stepped_from_its_end() {
    let mut m = model(vec![]);
    assert_eq!(
        m.decode_step(5).unwrap_err(),
        "decode_step before any prompt - call forward_prompt first"
    );
    let p = m.forward_prompt(&[4, 5, 6]).unwrap();
    assert_eq!((p.tok, p.pos), (vec![4, 5, 6], vec![0, 1, 2]));
    assert_eq!(m.stream[0], vec![2, 2, 4, 5, 6]);
    m.prompt_walked(0, 3);
    assert_eq!(m.position(), 3);
    let p = m.decode_step(7).unwrap();
    assert_eq!((p.tok, p.pos, p.slots), (vec![7], vec![3], vec![0]));
    assert_eq!(m.stream[0], vec![2, 2, 4, 5, 6, 7]);
    m.rows_walked(&vec![(0, 7)]);
    assert_eq!(m.position(), 4);
    assert_eq!(m.forward_prompt(&[]).unwrap_err(), "prompt of 0 tokens; this lane is sized for 1..=8");
    assert_eq!(m.position(), 4);
    for _ in 4..8 {
        m.decode_step(1).unwrap();
        m.rows_walked(&vec![(0, 1)]);
    }
    assert_eq!(
        m.decode_step(1).unwrap_err(),
        "sequence reached 8 tokens, the size this lane was built for"
    );
    m.reset();
    assert_eq!(m.position(), 0);
    assert!(m.stream[0].is_empty());
}

#[test]
fn slots_step_apart() {
    let mut m = model(vec![]);
    assert_eq!(m.prefill_slot(3, &[1]).unwrap_err(), "slot 3 but this instance carries 3");
    m.prefill_slot(1, &[4, 5]).unwrap();
    m.prompt_walked(1, 2);
    m.prefill_slot(2, &[6]).unwrap();
    m.prompt_walked(2, 1);
    let p = m.decode_step_batch(&vec![(2, 20), (1, 10)]).unwrap();
    assert_eq!((p.tok, p.pos, p.slots), (vec![20, 10], vec![1, 2], vec![2, 1]));
    m.rows_walked(&vec![(2, 20), (1, 10)]);
    assert_eq!((m.slot_position(0), m.slot_position(1), m.slot_position(2)), (0, 3, 2));
    assert_eq!(m.decode_step_batch(&vec![(0, 1)]).unwrap_err(), "slot 0 has no prompt - prefill it first");
    assert_eq!(
        m.decode_step_batch(&vec![(1, 1), (1, 2)]).unwrap_err(),
        "slot 1 appears twice in one batched step"
    );
    assert_eq!(m.decode_step_batch(&vec![(5, 1)]).unwrap_err(), "slot 5 but this instance carries 3");
    assert_eq!(m.decode_step_batch(&vec![(1, 1); 9]).unwrap_err(), "9 rows; scratch is sized for 8");
    m.prompt_walked(1, 3);
    m.prefill_slot(1, &[1; 8]).unwrap();
    m.prompt_walked(1, 8);
    assert_eq!(m.decode_step_batch(&vec![(1, 1)]).unwrap_err(), "slot 1 reached 8 tokens");
    assert_eq!((m.slot_count(), m.enable_batch(0), m.enable_batch(2), m.enable_batch(9)), (3, 1, 2, 3));
}

#[test]
fn waves_keep_their_prompts() {
    let mut m = model(vec![]);
    assert!(matches!(m.prefill_slots(&vec![]), Ok(Prefill::Nothing)));
    assert!(matches!(m.prefill_slots(&vec![(0, vec![1, 2])]), Ok(Prefill::One(_))));
    match m.prefill_slots(&vec![(2, vec![4, 5]), (0, vec![6])]).unwrap() {
        Prefill::Wave(w) => {
            assert_eq!(w.runs, vec![Run { slot: 2, off: 0, len: 2 }, Run { slot: 0, off: 2, len: 1 }]);
            assert_eq!(w.planes.tok, vec![4, 5, 6]);
            assert_eq!(w.planes.pos, vec![0, 1, 0]);
            assert_eq!(w.planes.slots, vec![2, 2, 0]);
        }
        _ => panic!("one walk for both"),
    }
    assert_eq!(m.stream[2], vec![2, 2, 4, 5]);
    let refused = |m: &mut Qwen4ExpGpu, items: Vec<(usize, Vec<u32>)>| match m.prefill_slots(&items) {
        Err(e) => e,
        Ok(_) => panic!("taken"),
    };
    assert_eq!(
        refused(&mut m, vec![(0, vec![1; 5]), (1, vec![1; 4])]),
        "prefill wave of 9 rows; the walk is sized for 8"
    );
    assert_eq!(refused(&mut m, vec![(0, vec![1]), (0, vec![1])]), "slot 0 appears twice in one prefill wave");
    assert_eq!(refused(&mut m, vec![(0, vec![1]), (1, vec![])]), "a prefill wave carries an empty prompt");
    assert_eq!(refused(&mut m, vec![(7, vec![1]), (1, vec![1])]), "slot 7 but this instance carries 3");
}

#[test]
fn captures_are_taken_once_per_shape() {
    let mut m = model(vec![]);
    assert_eq!(m.decode_tick(), Tick::Capture);
    assert!(!m.graph_active());
    m.captured(Some(Q4xSendGraph(4)));
    assert_eq!(m.decode_tick(), Tick::Replay(Q4xSendGraph(4)));
    assert!(m.graph_active());
    m.captured_batch(2, Some(Q4xSendGraph(5)));
    assert_eq!(m.batch_tick(2), Tick::Replay(Q4xSendGraph(5)));
    assert_eq!(m.batch_tick(3), Tick::Capture);
    m.set_graph_capture(false);
    assert_eq!(m.decode_tick(), Tick::Eager);
    assert_eq!(m.batch_tick(2), Tick::Replay(Q4xSendGraph(5)));
    assert_eq!(m.dense_class(), "none");
    let gdn = MixerW::Gdn(GdnW { zqkv: false, tiled_heads: false });
    assert_eq!(model(vec![layer(Block::Gdn, gdn, false)]).dense_class(), "bf16");
}

#[test]
fn positions_are_held_against_the_slots() {
    let mut m = model(vec![]);
    m.prefill_slot(1, &[4, 5]).unwrap();
    m.prompt_walked(1, 2);
    assert_eq!(m.forward_batch(&[0, 7, 0], &[0, 2, 0]).unwrap(), vec![(1, 7)]);
    let words = |e: GenError| match e {
        GenError::Backend(m) => m,
        e => panic!("{e:?}"),
    };
    let e = words(m.forward_batch(&[0, 7, 0], &[0, 3, 0]).unwrap_err());
    assert!(e.contains("slot 1") && e.contains('3') && e.contains('2'), "{e}");
    assert!(words(m.forward_batch(&[0], &[0, 1]).unwrap_err()).contains('2'));
    let plans = vec![RowSample::Hole, RowSample::Device(DevicePlan::Greedy), RowSample::Hole];
    let rows = m.forward_batch_sampled(&[0, 7, 0], &[0, 2, 0], &plans).unwrap();
    assert_eq!(rows, vec![(1, 7)]);
    assert!(m.forward_batch_sampled(&[0, 7, 0], &[0, 2, 0], &vec![RowSample::Hole]).is_err());
    assert_eq!(live_plans(&rows, &plans), vec![RowSample::Device(DevicePlan::Greedy)]);
    assert!(check_positions(&vec![0, 2, 0], &rows, &[9, 2, 9]).is_ok());
    let plans = vec![RowSample::Hole, RowSample::Host, RowSample::Device(DevicePlan::Greedy)];
    let s = sample_rows_from_logits(&vec![(1, 7), (2, 8)], &vec![50, 60], &plans);
    assert_eq!(s.ids, vec![0, 50, 60]);
    assert_eq!(s.host_rows, vec![(1, 0)]);
}

#[test]
fn prompts_are_grouped_to_fit_a_walk() {
    let part = |lo, hi, alone| Part { lo, hi, alone };
    assert_eq!(
        forward_prefill_batch(&vec![3, 4, 2, 9, 1, 1], 8, true),
        vec![part(0, 2, false), part(2, 3, false), part(3, 4, true), part(4, 6, false)]
    );
    assert_eq!(forward_prefill_batch(&vec![3, 4], 8, false), vec![part(0, 1, true), part(1, 2, true)]);
    assert_eq!(forward_prefill_batch(&vec![], 8, true), vec![]);
}

#[test]
fn greedy_stops_at_an_ending_token() {
    let m = model(vec![]);
    let mut out = vec![];
    assert_eq!(m.generate_greedy(&mut out, 4, 5), Greedy::Step);
    assert_eq!(m.generate_greedy(&mut out, 11, 5), Greedy::Stop);
    assert_eq!(out, vec![4, 11]);
}

#[test]
fn greedy_takes_as_many_tokens_as_are_asked_for() {
    let m = model(vec![]);
    let mut out = vec![];
    assert_eq!(m.generate_greedy(&mut out, 4, 0), Greedy::Stop);
    assert_eq!(out, vec![]);
    assert_eq!(m.generate_greedy(&mut out, 4, 2), Greedy::Step);
    assert_eq!(m.generate_greedy(&mut out, 5, 2), Greedy::Last);
    assert_eq!(m.generate_greedy(&mut out, 6, 2), Greedy::Stop);
    assert_eq!(out, vec![4, 5]);
    let mut out = vec![];
    assert_eq!(m.generate_greedy(&mut out, 11, 1), Greedy::Stop);
    assert_eq!(out, vec![11]);
}

#[test]
fn shards_are_read_in_one_type_only() {
    assert!(shard_dtype("t", "F8E4m3").is_ok());
    assert_eq!(shard_dtype("t", "Bf16").unwrap_err(), "t: dtype Bf16, want F8E4m3");
}

#[test]
fn buffers_hold_what_a_walk_writes() {
    let d = dims();
    let s = Scratch::new(&d, 32, 2, true, 0);
    assert_eq!((s.blk_tab, s.tok, s.mrope, s.x, s.h), (4, 32, 128, 256, 512));
    assert_eq!((s.m, s.ab, s.dq, s.logits), (32 * 4 + 2, 256, 384, 224));
    assert_eq!((s.moe_part, s.fmha_part, s.skp), (64 * 2 * 8, 64 * 12 * 16 * 258, 14));
    assert_eq!((s.xq, s.xs, s.ssums, s.fq), (256, 8, 192, 32 * 3 * 32));
    assert_eq!((s.tile_row0, s.fin, s.out), (2 + 2 + 1, 16, 100));
    let plain = Scratch::new(&d, 32, 2, false, 8);
    assert_eq!((plain.xq, plain.ssums, plain.skp), (1, 1, 56));
    let state = alloc_state(&d, &vec![Block::Gdn, Block::Attention], 32, 2, false);
    assert_eq!((state[0].recur, state[0].window, state[0].kv), (Some(2 * 36), Some(2 * 30), None));
    assert_eq!((state[1].recur, state[1].kv), (None, Some(2 * 32 * 256 * 2)));
    assert_eq!(alloc_state(&d, &vec![Block::Attention], 32, 2, true)[0].kv, Some(2 * 32 * 256));
    assert_eq!((ring_len(&d, 2, true), ring_len(&d, 2, false)), (Some(2 * 9 * 16), None));
    let r = reset_slot(&d, 1);
    assert_eq!(r.recur, Region { off: 36, len: 36 });
    assert_eq!(r.window, Region { off: 30, len: 30 });
    assert_eq!(r.ring, Region { off: 144, len: 144 });
    let st = stage_sizes(&d, 32, true);
    assert_eq!((st.q, st.xs, st.ssums, st.yq, st.xsums), (512, 16, 32, 512 * 144, 2048));
    assert_eq!(stage_sizes(&d, 32, false).xs, 1);
    assert!(lowm_refused(true, true, true) && lowm_refused(false, false, true) && lowm_refused(false, true, false));
    assert!(!lowm_refused(false, true, true));
}

#[test]
fn slots_are_bought_for_host_held_experts() {
    let host = KqSeat::Host(HostMappedKq { plane: plane(false), host_bytes: 900 });
    let seats = ExpertSeats::Kq { gate: host, up: host, down: host, cache: None };
    let gdn = MixerW::Gdn(GdnW { zqkv: false, tiled_heads: false });
    let held = Qwen4ExpLayer { moe: moe(seats), ..layer(Block::Gdn, gdn, false) };
    let layers = vec![held, layer(Block::Gdn, gdn, false)];
    let prices = vec![10, 1000];
    assert_eq!(cache_slots(&layers, &prices, true, 120, None, None, 64), Some(12));
    assert_eq!(cache_slots(&layers, &prices, true, 120, Some(85), None, 64), Some(8));
    assert_eq!(cache_slots(&layers, &prices, true, 79, None, None, 64), None);
    assert_eq!(cache_slots(&layers, &prices, true, 1, None, Some(100), 64), Some(64));
    assert_eq!(cache_slots(&layers, &prices, false, 120, None, None, 64), None);
    let mut m = model(layers);
    assert_eq!(m.expert_host_bytes(), 2700);
    assert!(wants_cache(&m.layers[0]) && !wants_cache(&m.layers[1]));
    assert_eq!(m.enable_moe_cache(&vec![Some(cache(8, 100, 1)), None]), 1);
    assert!(!wants_cache(&m.layers[0]));
    assert!(matches!(m.layers[0].moe.seats, ExpertSeats::Kq { cache: Some(_), .. }));
    assert!(matches!(m.layers[1].moe.seats, ExpertSeats::Nvf4));
    assert_eq!(m.enable_moe_cache(&vec![Some(cache(9, 100, 1)), None]), 0);
    assert_eq!(m.moe_cache_stats(&vec![(3, 1), (4, 2)]), (7, 3));
}

#[test]
fn loading_asks_for_what_the_walks_need() {
    assert!(load_checks(1, true, true, true).is_ok());
    assert_eq!(load_checks(0, true, true, true).unwrap_err(), "slots must be >= 1");
    assert!(load_checks(1, false, true, true).unwrap_err().contains("delta_gate_ab"));
    assert!(load_checks(1, true, false, true).unwrap_err().contains("slots 506-516"));
    assert!(load_checks(1, true, true, false).unwrap_err().contains("slot 533"));
}
