//! KV admission planning.
use paddock_engine::kv_plan::{
    graph_scratch_override_mib, graph_scratch_reserve_bytes, set_graph_scratch_mib, Demand, Fraction, Reserve,
    WhenShort,
};
use paddock_engine::BLOCK_TOKENS;

const GIB: u64 = 1 << 30;

fn gib(bytes: u64) -> f64 {
    bytes as f64 / (1u64 << 30) as f64
}

/// The parts of a positive double below one.
fn fraction(x: f64) -> Fraction {
    let bits = x.to_bits();
    let exponent = (bits >> 52) as i64 - 1075;
    Fraction { mantissa: (bits & ((1 << 52) - 1)) | (1 << 52), shift: (-exponent) as u32 }
}

/// A family shaped like granite: one pool, no per-slot state.
fn pooled() -> Demand {
    Demand {
        family: "test",
        max_ctx: 8192,
        slots: 4,
        blocks_per_slot: 512,
        block_bytes: 4 << 20,
        floor_blocks_per_slot: 64,
        floor_blocks_min: 256,
        reserves: vec![Reserve::new("slack", GIB), Reserve::new("scratch", GIB)],
        ..Default::default()
    }
}

#[test]
fn the_grant_bounds_the_pool() {
    let d = pooled();
    let p = d.plan(10 * GIB).unwrap();
    assert_eq!(p.pool_blocks, 2048);
    assert_eq!(p.pool_bytes, 8 * GIB);
    assert!(!p.shared);
}

#[test]
fn nothing_above_the_addressable_ceiling_is_taken() {
    let d = pooled();
    let p = d.plan(200 * GIB).unwrap();
    assert_eq!(p.pool_blocks, 2048, "capped at slots x blocks_per_slot");
    assert_eq!(p.token_capacity, 2048 * BLOCK_TOKENS);
}

#[test]
fn a_single_slot_server_is_bounded_by_its_budget() {
    let d = Demand {
        family: "qwen35",
        max_ctx: 131072,
        slots: 1,
        blocks_per_slot: 131072 / BLOCK_TOKENS,
        block_bytes: 2 << 20,
        floor_blocks_per_slot: 128,
        reserves: vec![Reserve::new("graph/scratch", 3 * GIB)],
        ..Default::default()
    };
    let grant = 9 * GIB;
    let p = d.plan(grant).unwrap();
    assert!(p.pool_bytes <= grant, "pool {} exceeded the grant {grant}", p.pool_bytes);
    assert!(p.pool_blocks < d.blocks_per_slot);
    assert!(p.shared, "a shared budget, honestly reported as one");
}

#[test]
fn the_qwen38_27b_overrun_refuses_instead_of_allocating() {
    let mib = |n: f64| (n * (1u64 << 20) as f64) as u64;
    let d = Demand {
        family: "qwen35",
        max_ctx: 131072,
        slots: 1,
        blocks_per_slot: 131072 / BLOCK_TOKENS,
        block_bytes: 1 << 20,
        per_slot_bytes: mib(150.0),
        floor_blocks_per_slot: 128,
        reserves: vec![
            Reserve::new("conv staging", mib(645.0)),
            Reserve::new("prefix state pool", mib(2396.0)),
            Reserve::new("checkpoint staging", mib(297.0)),
            Reserve::new("draft state (spec)", mib(1106.0)),
            Reserve::new("prefill wave buffers", mib(1160.0)),
            Reserve::new("graph pools + headroom", mib(768.0)),
        ],
        when_short: WhenShort::Refuse,
        hedge_fraction: None,
        ..Default::default()
    };
    let grant = mib(11510.0);
    let e = d.plan(grant).unwrap_err();
    assert!(e.message.contains("cannot serve max_ctx 131072"), "{}", e.message);
    assert!(e.message.contains("tokens shared"), "{}", e.message);
    let lower = e.message.to_lowercase();
    assert!(lower.contains("lower max_ctx"), "{}", e.message);
    assert!(lower.contains("vram_budget"), "{}", e.message);
    let head = e.message.split_once(". Budget:").expect("ledger follows the answer").0;
    assert!(head.len() < 200, "headline is {} chars: {head}", head.len());
    assert!(head.to_lowercase().contains("lower max_ctx"), "no fix in the headline: {head}");

    let ok = Demand { max_ctx: 49152, blocks_per_slot: 49152 / BLOCK_TOKENS, ..d.clone() };
    let p = ok.plan(grant).expect("48k must fit where 128k does not");
    assert!(p.pool_bytes + p.slot_bytes + ok.fixed() <= grant);
    assert!(!p.shared, "a full-context plan, not an oversubscribed one");
}

#[test]
fn narrowing_seats_fewer_slots_rather_than_failing() {
    let d = Demand { per_slot_bytes: 2 * GIB, ..pooled() };
    let p = d.plan(9 * GIB).unwrap();
    assert!(p.slots < 4, "seated {} of 4", p.slots);
    assert!(p.slot_bytes + p.pool_bytes <= 9 * GIB);
}

#[test]
fn refuse_does_not_quietly_demote_the_width() {
    let d = Demand { when_short: WhenShort::Refuse, ..pooled() };
    let e = d.plan(3 * GIB).unwrap_err();
    assert!(e.message.contains("max_batch"), "{}", e.message);
    assert!(d.plan(3 * GIB).is_err());
}

#[test]
fn a_refusal_names_the_term_that_ate_the_card() {
    let d = Demand {
        when_short: WhenShort::Refuse,
        reserves: vec![Reserve::new("prefill scratch", 6 * GIB), Reserve::new("prefix checkpoints", GIB)],
        ..pooled()
    };
    let e = d.plan(8 * GIB).unwrap_err();
    assert!(e.message.contains("prefill scratch 6.00"), "{}", e.message);
    assert!(e.message.contains("prefix checkpoints 1.00"), "{}", e.message);
    assert!(e.message.contains("grant 8.00"), "{}", e.message);
}

#[test]
fn a_grant_that_cannot_meet_the_progress_floor_refuses() {
    let d = pooled();
    let e = d.plan(2 * GIB).unwrap_err();
    assert!(e.message.contains("cannot serve"), "{}", e.message);
    assert!(d.plan(2 * GIB).is_err());
}

#[test]
fn the_floor_is_a_requirement_not_a_raise() {
    let d = Demand { floor_blocks_per_slot: 4096, floor_blocks_min: 0, ..pooled() };
    let grant = 3 * GIB;
    if let Ok(p) = d.plan(grant) {
        assert!(
            p.pool_bytes + p.slot_bytes <= grant,
            "floor allocated {} past a {grant} grant",
            p.pool_bytes
        )
    }
}

#[test]
fn retention_is_addressable_and_the_floor_never_exceeds_it() {
    let d = Demand { retention_blocks: 512, ..pooled() };
    let p = d.plan(200 * GIB).unwrap();
    assert_eq!(p.pool_blocks, 2048 + 512);
    let tight = Demand { floor_blocks_min: 1 << 20, ..pooled() };
    assert!(tight.plan(200 * GIB).is_ok());
}

#[test]
fn the_hedge_caps_the_damage_of_an_omitted_reserve() {
    let d = Demand { hedge_fraction: Some(fraction(0.4)), reserves: vec![], ..pooled() };
    let p = d.plan(20 * GIB).unwrap();
    assert!(
        p.pool_bytes <= 8 * GIB,
        "hedge should cap at 40% of the grant, got {}",
        gib(p.pool_bytes)
    );
}

#[test]
fn every_plan_fits_inside_its_grant() {
    for slots in [1usize, 2, 8, 32] {
        for ctx in [4096usize, 32768, 131072] {
            for grant_gib in [1u64, 4, 9, 24, 48] {
                let d = Demand {
                    family: "sweep",
                    max_ctx: ctx,
                    slots,
                    blocks_per_slot: ctx / BLOCK_TOKENS,
                    block_bytes: 1 << 20,
                    per_slot_bytes: 128 << 20,
                    floor_blocks_per_slot: 64,
                    floor_blocks_min: 256,
                    reserves: vec![Reserve::new("slack", GIB)],
                    ..Default::default()
                };
                let grant = grant_gib * GIB;
                if let Ok(p) = d.plan(grant) {
                    assert!(
                        p.pool_bytes + p.slot_bytes + d.fixed() <= grant,
                        "slots {slots} ctx {ctx} grant {grant_gib} GiB: \
                         pool {:.2} + slots {:.2} + reserves {:.2} > grant",
                        gib(p.pool_bytes),
                        gib(p.slot_bytes),
                        gib(d.fixed()),
                    );
                    assert!(p.slots >= 1 && p.slots <= slots);
                }
            }
        }
    }
}

/// A share is the double product, cut: the same bits that the hardware gives.
#[test]
fn shares_are_double_products() {
    for x in [0.4f64, 0.9, 0.5, 0.123456789, 0.999999999, 0.000001] {
        for whole in [
            0u64,
            1,
            7,
            GIB,
            20 * GIB + 3,
            (1 << 53) + 1,
            (1 << 53) + 3,
            (1 << 62) + 12345,
            u64::MAX - 1,
            u64::MAX,
        ] {
            assert_eq!(fraction(x).of(whole), (whole as f64 * x) as u64, "{x} of {whole}");
        }
    }
}

/// The texts of a refusal agree with the formatter, to the last digit.
#[test]
fn a_refusal_prints_what_the_formatter_would() {
    for bytes in [0u64, 5 << 20, 123_456_789, 5_368_709_120, 5_374_077_829, 8 * GIB + 5_368_709] {
        let d = Demand {
            reserves: vec![Reserve::new("scratch", bytes)],
            when_short: WhenShort::Refuse,
            ..pooled()
        };
        let e = d.plan(GIB + 3).unwrap_err();
        let term = format!("scratch {:.2}", gib(bytes));
        assert!(e.message.contains(&term), "{term} in {}", e.message);
        let grant = format!("grant {:.2}", gib(GIB + 3));
        assert!(e.message.contains(&grant), "{grant} in {}", e.message);
        assert_eq!(e.to_string(), e.message);
    }
}

#[test]
fn a_hardened_build_offers_no_switch() {
    let open = Demand { when_short: WhenShort::Refuse, ..pooled() };
    let sealed = Demand { hardened: true, ..open.clone() };
    let a = open.plan(3 * GIB).unwrap_err().message;
    let b = sealed.plan(3 * GIB).unwrap_err().message;
    assert!(a.contains("PADDOCK_"), "{a}");
    assert!(!b.contains("PADDOCK_"), "{b}");
}

/// Where nothing fits, the fallback is one slot at the floor; where something does, it is the plan.
#[test]
fn the_minimum_is_one_slot_at_the_floor() {
    let d = pooled();
    let p = d.plan_or_minimum(2 * GIB);
    assert_eq!(p.slots, 1);
    assert_eq!(p.pool_blocks, 256);
    assert_eq!(p.pool_bytes, 256 * (4 << 20));
    assert_eq!(p.slot_bytes, 0);
    assert_eq!(p.token_capacity, 256 * 16);
    assert!(p.shared);
    assert_eq!(d.plan_or_minimum(10 * GIB), d.plan(10 * GIB).unwrap());
}

/// A larger grant never seats fewer.
#[test]
fn more_grant_never_narrows() {
    let d = Demand { per_slot_bytes: 2 * GIB, ..pooled() };
    let mut last = 0;
    for g in 4..40u64 {
        if let Ok(p) = d.plan(g * GIB) {
            assert!(p.slots >= last);
            last = p.slots;
        }
    }
    assert_eq!(last, 4);
}

#[test]
fn a_plan_reports_where_the_grant_went() {
    let d = pooled();
    let full = d.plan(10 * GIB).unwrap().report(&d, 10 * GIB);
    assert!(!full.narrower);
    assert_eq!(full.message, "KV plan");
    assert_eq!(full.grant, 10 * GIB);
    assert_eq!(full.reserves, "slack 1.00, scratch 1.00");
    assert_eq!(full.full_context_tokens, None);
    let short = d.plan(5 * GIB).unwrap().report(&d, 5 * GIB);
    assert!(short.narrower);
    assert_eq!(short.message, "KV plan is narrower than the configuration asked for");
    assert_eq!(short.full_context_tokens, Some(512 * 16 * 4));
}

#[test]
fn the_graph_reserve_is_armed_once() {
    let mut cell = None;
    assert_eq!(graph_scratch_override_mib(&cell), None);
    assert_eq!(graph_scratch_reserve_bytes(&cell), 3 * GIB);
    set_graph_scratch_mib(&mut cell, 512);
    set_graph_scratch_mib(&mut cell, 9);
    assert_eq!(graph_scratch_override_mib(&cell), Some(512));
    assert_eq!(graph_scratch_reserve_bytes(&cell), 512 << 20);
}

/// The width that a refusal offers, if it offers one.
fn offered(message: &str, what: &str) -> Option<usize> {
    let from = message.find(what)? + what.len();
    let digits: String = message[from..].chars().take_while(|c| c.is_ascii_digit()).collect();
    digits.parse().ok()
}

#[test]
fn an_offered_width_clears_the_refusal() {
    let d = |slots: usize| Demand {
        slots,
        floor_blocks_per_slot: 128,
        when_short: WhenShort::Refuse,
        ..pooled()
    };
    let short = d(4).plan(3 * GIB).unwrap_err().message;
    assert_eq!(offered(&short, "ower max_batch to <="), None, "{short}");
    assert!(d(2).plan(3 * GIB).is_err() && d(1).plan(3 * GIB).is_err());
    let wide = d(4).plan(6 * GIB).unwrap_err().message;
    assert_eq!(offered(&wide, "ower max_batch to <="), Some(2), "{wide}");
    assert!(d(2).plan(6 * GIB).is_ok());
    assert!(d(3).plan(6 * GIB).is_err());
}

#[test]
fn an_offered_window_clears_the_refusal() {
    let d = |blocks: usize| Demand {
        max_ctx: blocks * BLOCK_TOKENS,
        blocks_per_slot: blocks,
        floor_blocks_per_slot: 128,
        when_short: WhenShort::Refuse,
        ..pooled()
    };
    let short = d(512).plan(6 * GIB).unwrap_err().message;
    assert_eq!(offered(&short, "ower max_ctx to <="), Some(256 * BLOCK_TOKENS), "{short}");
    assert!(d(256).plan(6 * GIB).is_ok());
    let tight = |blocks: usize| Demand {
        max_ctx: blocks * BLOCK_TOKENS,
        slots: 1,
        blocks_per_slot: blocks,
        block_bytes: 1,
        retention_blocks: 512,
        floor_blocks_min: 256,
        when_short: WhenShort::Refuse,
        ..Default::default()
    };
    let none = tight(512).plan(100).unwrap_err().message;
    assert_eq!(offered(&none, "ower max_ctx to <="), None, "{none}");
    assert!(tight(100).plan(100).is_err());
}

#[test]
fn only_the_blocks_that_are_taken_are_counted() {
    let d = Demand { retention_blocks: usize::MAX / 2, ..pooled() };
    let p = d.plan(10 * GIB).unwrap();
    assert_eq!(p.pool_blocks, 2048);
    assert_eq!(p.token_capacity, 2048 * BLOCK_TOKENS);
}
