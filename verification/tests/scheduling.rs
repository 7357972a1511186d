//! Gates, pipe segments, speculative rounds, start-up.
use paddock_engine::error::GenError;
use paddock_engine::knobs::{
    adm_resync, admission_settings, max_chunks_inflight, overlap_admit_max, prefill_tick_rows,
    sample_threads, serve_spec_k_floor, serve_spec_max_k, serve_spec_max_rows, serve_spec_mixed_k_cap,
    serve_spec_policy, spec_book_mixed, spec_low_rows_pin, spec_narrow64_on, spec_narrow_rows,
    spec_plans_live_max, spec_settings,
    static_env_u64, PolicySource, PREFILL_TICK_ROWS_DEFAULT,
};
use paddock_engine::request::{FinishReason, GenRequest, SamplingTraits};
use paddock_engine::sampling::{pack_pipe_par, pack_samp_par, DevicePlan, RowSample};
use paddock_engine::service::advance::Outcome;
use paddock_engine::service::batch::{Admission, Batch};
use paddock_engine::service::gates::{
    coalesce_hold, has_headroom, lingers, lingers_on, may_pull, mixed_now, mixed_tick_budget, runs_alone,
    sample_fan_out, AdmissionSettings, BurstWindow, Cooldown, COOLDOWN_TICKS,
};
use paddock_engine::service::pipe::{
    all_ride, choose_fallback, choose_pass, default_quiet, may_overlap, may_pipe_round, pipe_step, pipe_survives,
    planned, round_before_overlap, Draw, Pass, PipePace, PipeStep, Resync, TickFacts, BACKOFF_MAX,
};
use paddock_engine::service::slot::RoundTally;
use paddock_engine::service::speculate::{chunk_of, committed_run, k_after, Chunk, Drafting, SpecSettings};
use paddock_engine::service::startup::{
    batched_turn, first_width, loop_width, next_step, serial_turn, serial_warm_prompt, warm_prompt, Bringup, SerialTurn,
    ShutdownCtl,
};
use paddock_engine::service::warmth::{books_round, fill, fill_drafts, ring_round, unified_now, walk, WalkStep, WarmAsk};

const MAX_CTX: usize = 4096;

fn traits(greedy: bool) -> SamplingTraits {
    SamplingTraits {
        pure_greedy: greedy,
        device_plannable: greedy,
        trunc_plannable: !greedy,
        spec_safe: true,
        greedy_ngram_only: greedy,
    }
}

fn request(id: u64, prompt: Vec<u32>, max_tokens: usize) -> GenRequest {
    GenRequest {
        id,
        prompt,
        max_tokens,
        stop_tokens: vec![99],
        sampling: traits(true),
        multimodal: false,
        constrained: false,
        logprobs: None,
        submitted: None,
    }
}

fn decoding(b: &mut Batch, req: GenRequest, first: u32) -> usize {
    let rows = req.prompt.len() as u32;
    let k = match b.admit_request(req, MAX_CTX, 0) {
        Admission::Seated(k) => k,
        _ => panic!("not seated"),
    };
    b.finish_prefill(k, rows, MAX_CTX, 0);
    assert_eq!(b.first_token(k, first, true, 0), Outcome::Live);
    k
}

fn batch(n: usize, width: usize, max_tokens: usize) -> Batch {
    let mut b = Batch::new(width);
    for i in 0..n {
        decoding(&mut b, request(i as u64, vec![1, 2, 3], max_tokens), 10 + i as u32);
    }
    b
}

#[test]
fn a_refill_is_held_but_not_past_the_cap() {
    let s = AdmissionSettings { predict_k: 0, predict_h: 16, min_free: 2, max_hold_ms: 25 };
    let b = batch(3, 4, 100);
    let mut since = None;
    assert!(!b.admission_open(&s, &mut since, 100));
    assert_eq!(since, Some(100));
    assert!(!b.admission_open(&s, &mut since, 124));
    assert!(b.admission_open(&s, &mut since, 125));
    assert_eq!(since, None);
    // enough free slots, a full batch and a narrow server are not held
    let mut since = Some(7);
    assert!(batch(2, 4, 100).admission_open(&s, &mut since, 8));
    assert_eq!(since, None);
    assert!(batch(4, 4, 100).admission_open(&s, &mut Some(7), 8));
    assert!(batch(2, 3, 100).admission_open(&s, &mut None, 8));
    assert!(b.admission_open(&AdmissionSettings::default(), &mut None, 0));
}

#[test]
fn a_bunch_is_awaited_only_in_sight() {
    let s = AdmissionSettings { predict_k: 2, predict_h: 16, min_free: 0, max_hold_ms: 25 };
    // one free, and three that end within sixteen tokens
    assert!(!batch(3, 4, 10).admission_open(&s, &mut None, 0));
    // nothing ends soon
    assert!(batch(3, 4, 100).admission_open(&s, &mut None, 0));
    // nothing is free
    assert!(batch(4, 4, 10).admission_open(&s, &mut None, 0));
    assert_eq!(batch(3, 4, 10).ending(16), 3);
    assert_eq!(batch(3, 4, 10).free_slots(), 1);
}

#[test]
fn pulls_and_lingers() {
    assert!(may_pull(true, false, true, &Some(33)));
    assert!(!may_pull(true, false, true, &Some(32)));
    assert!(!may_pull(true, true, true, &None));
    assert!(!may_pull(false, false, true, &None));
    assert!(!may_pull(true, false, false, &None));
    assert!(runs_alone(true, false) && !runs_alone(true, true) && !runs_alone(false, false));
    assert!(lingers(true, 0, 2) && !lingers(true, 0, 1) && !lingers(true, 1, 2) && !lingers(false, 0, 2));
    assert!(lingers_on(100, 103, 25, 4, 106));
    assert!(!lingers_on(100, 103, 25, 4, 107));
    assert!(!lingers_on(100, 124, 25, 4, 125));
    assert!(!lingers_on(100, 100, 0, 4, 100));
}

#[test]
fn prompts_wait_for_company() {
    let mut since = None;
    assert!(coalesce_hold(5, false, 1, 16, 8, &mut since, 10));
    assert!(coalesce_hold(5, false, 1, 16, 8, &mut since, 14));
    assert!(!coalesce_hold(5, false, 1, 16, 8, &mut since, 15));
    assert_eq!(since, None);
    assert!(!coalesce_hold(5, false, 1, 15, 8, &mut since, 15));
    assert!(coalesce_hold(5, false, 2, 0, 0, &mut since, 15));
    assert!(!coalesce_hold(5, false, 3, 0, 0, &mut None, 15));
    assert!(!coalesce_hold(5, true, 2, 0, 8, &mut None, 15));
    assert!(!coalesce_hold(0, false, 2, 0, 8, &mut None, 15));
}

#[test]
fn arrivals_in_motion_are_let_settle() {
    let mut w = BurstWindow::new();
    assert!(w.in_motion(4, true, 3, 2, 100));
    assert!(w.in_motion(4, true, 3, 2, 103));
    assert!(!w.in_motion(4, true, 3, 2, 104));
    assert!(w.in_motion(4, true, 5, 2, 104));
    assert_eq!(w, BurstWindow { count: 5, stable_since: 104 });
    assert!(!w.in_motion(4, false, 9, 2, 104));
    assert_eq!(w.count, 5);
    assert!(!w.in_motion(4, true, 1, 2, 105));
}

#[test]
fn mixed_ticks_alternate_fairly() {
    let mut count = 0;
    let ticks: Vec<bool> = (0..8).map(|_| mixed_now(true, 3, true, &mut count)).collect();
    assert_eq!(ticks, vec![false, false, false, true, false, false, false, true]);
    assert!(mixed_now(true, 3, false, &mut count));
    assert!(mixed_now(true, 0, true, &mut count));
    assert!(!mixed_now(false, 0, true, &mut count));
    assert_eq!(mixed_tick_budget(21, true, 8192), 512);
    assert_eq!(mixed_tick_budget(20, true, 8192), 1024);
    assert_eq!(mixed_tick_budget(8, true, 8192), 8184);
    assert_eq!(mixed_tick_budget(21, false, 8192), 8171);
    assert_eq!(mixed_tick_budget(100, false, 64), 1);
}

#[test]
fn headroom_keeps_the_watermark() {
    assert!(has_headroom(None, usize::MAX));
    assert!(has_headroom(Some(37), 4));
    assert!(!has_headroom(Some(36), 4));
    assert!(!has_headroom(Some(5), usize::MAX));
}

#[test]
fn declined_speculation_rests() {
    let mut c = Cooldown::new();
    assert!(c.tick());
    c.decline();
    for _ in 1..COOLDOWN_TICKS {
        assert!(!c.tick());
    }
    assert!(c.tick());
    c.decline();
    assert!(!c.tick());
    c.warmed();
    assert!(c.tick());
    assert_eq!(sample_fan_out(10, 4, 12), Some(3));
    assert_eq!(sample_fan_out(10, 3, 12), None);
    assert_eq!(sample_fan_out(10, 8, 1), None);
    assert_eq!(sample_fan_out(24, 24, 12), Some(2));
}

#[test]
fn segments_that_die_young_cost_quiet() {
    let mut p = PipePace::new(4);
    assert!(p.quiet());
    p.admitted();
    assert!(!p.quiet());
    for _ in 0..4 {
        p.ticked();
    }
    assert!(p.quiet());
    p.piped();
    p.broken();
    assert_eq!((p.backoff, p.segment), (4, 0));
    for _ in 0..9 {
        p.broken();
    }
    assert_eq!(p.backoff, BACKOFF_MAX);
    for _ in 0..12 {
        p.piped();
    }
    p.broken();
    assert_eq!(p.backoff, BACKOFF_MAX / 2);
    assert_eq!(default_quiet(true, false), 512);
    assert_eq!(default_quiet(true, true), 4);
    assert_eq!(default_quiet(false, false), 4);
}

#[test]
fn a_resync_happens_once() {
    let mut r = Resync::new(8);
    // the batch fills up: hold until eight are free
    assert_eq!(r.poll_min(8, 3, 0, 16), 8);
    assert_eq!(r.poll_min(8, 3, 7, 16), 8);
    assert_eq!(r.poll_min(8, 3, 8, 16), 3);
    // full again, but it has had its turn
    assert_eq!(r.poll_min(8, 3, 0, 16), 3);
    // all but empty: armed for the next time
    assert_eq!(r.poll_min(8, 3, 14, 16), 3);
    assert_eq!(r.poll_min(8, 3, 0, 16), 8);
    assert_eq!(Resync::new(0).poll_min(0, 0, 0, 16), 1);
    assert_eq!(Resync::new(0).poll_min(0, 40, 0, 16), 8);
}

#[test]
fn pipes_break_for_arrivals_and_pressure() {
    assert_eq!(pipe_step(false, false, None, 4), PipeStep::Next);
    assert_eq!(pipe_step(true, false, None, 4), PipeStep::Break);
    assert_eq!(pipe_step(false, true, None, 4), PipeStep::Break);
    assert_eq!(pipe_step(false, false, Some(36), 4), PipeStep::Break);
    assert!(pipe_survives(false, false) && pipe_survives(true, true) && !pipe_survives(true, false));
    assert!(may_overlap(false, 64, 64, true));
    assert!(!may_overlap(true, 64, 64, true) && !may_overlap(false, 65, 64, true) && !may_overlap(false, 1, 64, false));
}

#[test]
fn rows_ride_the_pipe_only_when_the_device_draws_them() {
    let cat = DevicePlan::Categorical { inv_t: 7, u: 9 };
    let trunc = DevicePlan::TruncCat { inv_t: 1, u: 2, k: 3, top_p: 4, min_p: 5 };
    assert!(all_ride(&vec![RowSample::Hole, RowSample::Device(DevicePlan::Greedy), RowSample::Device(cat)], false));
    assert!(!all_ride(&vec![RowSample::Device(trunc)], false));
    assert!(all_ride(&vec![RowSample::Device(trunc)], true));
    assert!(!all_ride(&vec![RowSample::Host], true));
    assert_eq!(planned(Some(cat), true, false, true), RowSample::Device(cat));
    assert_eq!(planned(None, true, false, true), RowSample::Device(DevicePlan::Greedy));
    assert_eq!(planned(None, true, true, true), RowSample::Host);
    assert_eq!(planned(None, false, false, true), RowSample::Host);
    assert_eq!(planned(None, true, false, false), RowSample::Host);
}

#[test]
fn rows_without_kv_draw_nothing() {
    let mut b = Batch::new(4);
    decoding(&mut b, request(1, vec![1, 2], 9), 3);
    decoding(&mut b, GenRequest { logprobs: Some(1), ..request(2, vec![1, 2], 9) }, 3);
    b.admit_request(request(3, vec![1], 9), MAX_CTX, 0);
    assert_eq!(
        (0..4).map(|k| b.draw(k)).collect::<Vec<_>>(),
        vec![Draw::Plan, Draw::Host, Draw::Hole, Draw::Hole]
    );
    assert!(b.finisher(2) && !b.finisher(1) && !b.finisher(3));
}

#[test]
fn plans_are_packed_in_words() {
    let trunc = |k| DevicePlan::TruncCat { inv_t: 1, u: 2, k, top_p: 4, min_p: 5 };
    let (par, t) = pack_samp_par(&vec![
        RowSample::Device(DevicePlan::Greedy),
        RowSample::Device(DevicePlan::Categorical { inv_t: 7, u: 9 }),
        RowSample::Host,
    ]);
    assert_eq!(par, vec![0, 0, 1, 0, 7, 9, 2, 0, 0, 0, 0, 0]);
    assert_eq!(t, None);
    let (par, t) = pack_samp_par(&vec![RowSample::Device(trunc(64)), RowSample::Device(trunc(65)), RowSample::Hole]);
    assert_eq!(par, vec![1, 2, 5, 0, 1, 2, 6, 0, 0, 0, 0, 0]);
    assert_eq!(t, Some(vec![64, 4, 5, 0, 65, 4, 5, 0, 0, 0, 0, 0]));
    assert_eq!(
        pack_pipe_par(&vec![trunc(3), DevicePlan::Categorical { inv_t: 7, u: 9 }]),
        vec![0, 0, 1, 0, 7, 9, 2, 0]
    );
}

#[test]
fn a_declined_round_falls_back_to_a_step() {
    let quiet = TickFacts {
        mixed: false,
        device_sampling: false,
        overlap: false,
        mixed_round: false,
        round_due: false,
        greedy: false,
        device: false,
        sampled: false,
        occupied: true,
    };
    assert_eq!(choose_pass(&quiet), Pass::DecodePlain);
    assert_eq!(choose_pass(&TickFacts { occupied: false, ..quiet }), Pass::Idle);
    assert_eq!(choose_pass(&TickFacts { device_sampling: true, ..quiet }), Pass::DecodeSampled);
    let mixed = TickFacts { mixed: true, mixed_round: true, ..quiet };
    assert_eq!(choose_pass(&mixed), Pass::MixedRound);
    assert_eq!(choose_pass(&TickFacts { overlap: true, ..mixed }), Pass::MixedOverlap);
    assert_eq!(choose_fallback(&mixed, &Pass::MixedRound), Pass::MixedPlain);
    let due = TickFacts { round_due: true, sampled: true, device_sampling: true, ..quiet };
    assert_eq!(choose_pass(&due), Pass::RoundSampled);
    assert_eq!(choose_pass(&TickFacts { device: true, ..due }), Pass::RoundDevice);
    assert_eq!(choose_pass(&TickFacts { device: true, greedy: true, ..due }), Pass::RoundGreedy);
    for p in [Pass::RoundGreedy, Pass::RoundDevice, Pass::RoundSampled] {
        assert_eq!(choose_fallback(&due, &p), Pass::DecodeSampled);
    }
    assert!(round_before_overlap(true, true, true, 3, 4, 4, true));
    assert!(!round_before_overlap(true, true, true, 3, 5, 4, true));
    assert!(!round_before_overlap(true, true, true, 0, 4, 4, true));
    assert!(may_pipe_round(false, 2, &vec![3; 16]));
    assert!(!may_pipe_round(false, 2, &vec![3; 15]));
    assert!(!may_pipe_round(false, 1, &vec![2; 16]));
    assert!(!may_pipe_round(true, 2, &vec![3; 16]));
    assert!(!may_pipe_round(false, 3, &vec![3; 16]));
}

#[test]
fn draft_budgets_follow_the_rows() {
    let s = SpecSettings::default();
    assert_eq!(s.serve_spec_k_budget(1, None), 7);
    assert_eq!(s.serve_spec_k_budget(8, None), 3);
    assert_eq!(s.serve_spec_k_budget(16, None), 1);
    assert_eq!(s.serve_spec_k_budget(33, None), 0);
    let wide = SpecSettings { max_rows: 128, ..s };
    assert_eq!(wide.serve_spec_k_budget(8, None), 3);
    assert_eq!(wide.serve_spec_k_budget(8, Some(8)), 7);
    assert_eq!(wide.serve_spec_k_budget(9, None), 6);
    assert_eq!(wide.serve_spec_k_budget(16, None), 3);
    assert_eq!(wide.serve_spec_k_budget(17, None), 6);
    assert_eq!(wide.serve_spec_k_budget(32, None), 3);
    let deep = SpecSettings { deep_live_max: 8, ..wide };
    assert_eq!(deep.serve_spec_k_budget(8, None), 7);
    let pinned = SpecSettings { low_rows: Some(16), ..wide };
    assert_eq!(pinned.serve_spec_k_budget(8, None), 1);
    assert_eq!(pinned.spec_low_rows(Some(9)), 16);
    assert_eq!(wide.spec_low_rows(Some(3)), 32);
    let narrow = SpecSettings { narrow64: false, ..wide };
    assert_eq!(narrow.serve_spec_k_budget(16, None), 1);
    for live in 1..=40 {
        for rows in [8, 32, 64, 128] {
            let s = SpecSettings { max_rows: rows, ..s };
            let k = s.serve_spec_k_budget(live, None);
            assert!(k == 0 || live * (1 + k) <= rows.max(64));
        }
    }
}

#[test]
fn draft_lengths_grow_on_success_and_shrink_on_a_miss() {
    assert_eq!(k_after(2, 2, 3, 1, 7), 4);
    assert_eq!(k_after(4, 4, 5, 1, 7), 7);
    assert_eq!(k_after(7, 7, 3, 1, 7), 3);
    assert_eq!(k_after(7, 7, 0, 2, 7), 2);
    assert_eq!(k_after(1, 1, 0, 4, 7), 1);
    assert_eq!(k_after(5, 0, 1, 1, 7), 5);
}

#[test]
fn chunks_offer_the_pending_token_and_drafts() {
    assert_eq!(chunk_of(5, &vec![6, 7, 8], 2), vec![5, 6, 7]);
    assert_eq!(chunk_of(5, &vec![6], 4), vec![5, 6]);
    assert_eq!(chunk_of(5, &vec![6], 0), vec![5]);
    let b = batch(3, 4, 100);
    let ks = b.live_slots();
    assert_eq!(ks, vec![0, 1, 2]);
    let warm = vec![true, false, true];
    let here = Drafting::Here(vec![vec![20, 21, 22], vec![30]]);
    let chunks = b.round_chunks(&ks, &warm, &here, 2);
    let tokens: Vec<Vec<u32>> = chunks.iter().map(|c| c.tokens.clone()).collect();
    assert_eq!(tokens, vec![vec![10, 20, 21], vec![11], vec![12, 30]]);
    assert!(chunks.iter().all(|c| c.pos == 3));
    let ahead = Drafting::Ahead { depth: 5, kept: vec![false, true] };
    let mut chunks = b.round_chunks(&ks, &warm, &ahead, 4);
    let tokens: Vec<Vec<u32>> = chunks.iter().map(|c| c.tokens.clone()).collect();
    assert_eq!(tokens, vec![vec![10], vec![11], vec![12, 12, 12]]);
    fill_drafts(&mut chunks, &warm, &vec![vec![1], vec![40, 41, 42]]);
    assert_eq!(chunks[2].tokens, vec![12, 40, 41]);
    assert_eq!(chunks[0].tokens, vec![10]);
    let bare = b.round_chunks(&ks, &warm, &Drafting::Bare, 4);
    assert!(bare.iter().all(|c| c.tokens.len() == 1));
    let mut one = Chunk { slot: 0, pos: 0, tokens: vec![9, 9] };
    fill(&mut one.tokens, &vec![5]);
    assert_eq!(one.tokens, vec![9, 5]);
}

#[test]
fn accept_while_match_is_exact() {
    let chunk = vec![5, 6, 7, 8];
    assert_eq!(committed_run(&chunk, &vec![6, 7, 8, 9], 0), vec![6, 7, 8, 9]);
    assert_eq!(committed_run(&chunk, &vec![6, 1, 8, 9], 0), vec![6, 1]);
    assert_eq!(committed_run(&chunk, &vec![0, 0, 1, 7, 8, 9], 2), vec![1]);
}

#[test]
fn a_round_commits_and_books() {
    let mut b = batch(1, 2, 100);
    let mut tick = RoundTally { drafted: 0, accepted: 0 };
    assert_eq!(b.commit_round(0, 2, &vec![20, 21, 22], 3, 1, 7, &mut tick, 0), Outcome::Live);
    {
        let s = b.slots[0].as_ref().unwrap();
        assert_eq!((s.pos, s.pending, s.k_now), (6, 22, 4));
        assert_eq!((s.spec_drafted, s.spec_accepted), (2, 2));
        assert_eq!(s.history, vec![1, 2, 3, 10, 20, 21, 22]);
    }
    assert_eq!(tick, RoundTally { drafted: 2, accepted: 2 });
    assert_eq!(b.commit_round(1, 2, &vec![20], 1, 1, 7, &mut tick, 0), Outcome::Ignored);
    assert!(matches!(
        b.commit_round(0, 2, &vec![30, 99], 1, 1, 7, &mut tick, 0),
        Outcome::Done(FinishReason::Stop, _)
    ));
    assert!(b.slots[0].is_none());
    assert_eq!(tick, RoundTally { drafted: 4, accepted: 3 });
}

#[test]
fn rounds_need_rows_the_device_can_draw() {
    let mut b = batch(2, 4, 100);
    let ks = b.live_slots();
    assert!(b.greedy_round(&ks, 8, 8) && !b.greedy_round(&ks, 1, 8) && !b.greedy_round(&vec![], 8, 8));
    assert!(b.all_device(&ks, false));
    assert!(b.sampled_round(&ks, 2, 8) && !b.sampled_round(&ks, 1, 8));
    decoding(&mut b, GenRequest { sampling: traits(false), ..request(9, vec![1], 50) }, 4);
    let ks = b.live_slots();
    assert!(!b.greedy_round(&ks, 8, 8));
    assert!(!b.all_device(&ks, false) && b.all_device(&ks, true));
    assert_eq!(b.media_cold(&ks, false), vec![false, false, false]);
    b.slots[2].as_mut().unwrap().pos = 900;
    assert_eq!(b.media_cold(&ks, false), vec![false, false, true]);
    assert_eq!(b.media_cold(&ks, true), vec![false, false, false]);
    assert_eq!(b.warm_ask(2, false), None);
    assert_eq!(b.warm_ask(2, true), Some(WarmAsk { slot: 2, want: 899, known: 2 }));
    assert_eq!(b.warm_ask(0, false), Some(WarmAsk { slot: 0, want: 2, known: 3 }));
}

#[test]
fn rings_ride_warm_or_cold() {
    assert_eq!(ring_round(&vec![false, true], &vec![true, false, false]), Some(vec![false, true, true]));
    assert_eq!(ring_round(&vec![false, false], &vec![false, false]), None);
    let chunk = vec![5, 6, 7];
    assert_eq!(walk(&chunk, 0, 6, false, &vec![99]), WalkStep { feed: true, on: true });
    assert_eq!(walk(&chunk, 0, 9, false, &vec![99]), WalkStep { feed: true, on: false });
    assert_eq!(walk(&chunk, 2, 9, false, &vec![99]), WalkStep { feed: true, on: false });
    assert_eq!(walk(&chunk, 0, 6, true, &vec![99]), WalkStep { feed: false, on: false });
    assert_eq!(walk(&chunk, 0, 6, false, &vec![6]), WalkStep { feed: false, on: false });
    assert!(unified_now(true, 4, 4) && !unified_now(true, 5, 4) && !unified_now(false, 1, 4));
    assert!(books_round(false, false) && books_round(true, true) && !books_round(true, false));
}

#[test]
fn a_wide_engine_narrows_until_it_fits() {
    let oom = || Err(GenError::OutOfMemory);
    assert_eq!(first_width(0), 1);
    assert_eq!(first_width(24), 24);
    assert!(matches!(next_step(24, 24, oom()), Bringup::Retry(12)));
    assert!(matches!(next_step(24, 3, oom()), Bringup::Retry(1)));
    assert!(matches!(next_step(24, 2, oom()), Bringup::Serve { cap: 1, batched: false }));
    assert!(matches!(next_step(24, 12, Ok(12)), Bringup::Serve { cap: 12, batched: true }));
    assert!(matches!(next_step(24, 12, Ok(1)), Bringup::Serve { cap: 1, batched: false }));
    assert!(matches!(next_step(1, 1, Ok(0)), Bringup::Serve { cap: 1, batched: true }));
    match next_step(1, 1, oom()) {
        Bringup::Refuse(why) => assert!(why.starts_with("the batched serving lane does not fit on this GPU.")),
        _ => panic!("a single-user engine is refused"),
    }
    match next_step(24, 24, Err(GenError::Config("no".to_owned()))) {
        Bringup::Refuse(why) => assert_eq!(why, "no"),
        _ => panic!("a bad configuration is refused"),
    }
    assert_eq!((loop_width(0), loop_width(7)), (1, 7));
}

#[test]
fn warm_prompts_fit_the_model() {
    assert_eq!(serial_warm_prompt(), vec![1, 2, 3, 4]);
    let p = warm_prompt(0, 1000, 4096);
    assert_eq!(p.len(), 256);
    assert_eq!(p[0], 17 + 32);
    assert_eq!(p[1], ((104_729 + 17) % 936 + 32) as u32);
    assert_eq!(warm_prompt(3, 1000, 4096).len(), 40);
    assert_eq!(warm_prompt(3, 1000, 4096)[0], ((3 * 7919 + 17) % 936 + 32) as u32);
    assert_eq!(warm_prompt(0, 1000, 60).len(), 30);
    assert_eq!(warm_prompt(0, 10, 0).len(), 4);
    assert!(p.iter().all(|t| *t >= 32 && *t < 968));
}

#[test]
fn a_stop_is_heard_and_answered() {
    let mut c = ShutdownCtl::new();
    assert!(!c.stop_requested());
    assert_eq!(serial_turn(false, false, &c), SerialTurn::Wait);
    c.request();
    assert!(c.stop_requested());
    assert_eq!(serial_turn(false, false, &c), SerialTurn::Leave);
    assert_eq!(serial_turn(true, false, &c), SerialTurn::Run);
    assert_eq!(serial_turn(false, true, &ShutdownCtl::new()), SerialTurn::Leave);
    assert!(batched_turn(&c) && !batched_turn(&ShutdownCtl::new()));
    assert_eq!(c.wait_done(0, 10), None);
    assert_eq!(c.wait_done(10, 10), Some(false));
    c.finish();
    assert_eq!(c.wait_done(10, 10), Some(true));
}

#[test]
fn settings_are_read_from_text() {
    assert_eq!(serve_spec_max_rows(None), 32);
    assert_eq!(serve_spec_max_rows(Some("128")), 128);
    assert_eq!(serve_spec_max_rows(Some(" 128")), 32);
    assert_eq!(serve_spec_max_rows(Some("+12")), 12);
    assert_eq!(serve_spec_max_rows(Some("-1")), 32);
    assert_eq!(serve_spec_max_rows(Some("")), 32);
    assert_eq!(serve_spec_max_rows(Some("99999999999999999999")), 32);
    assert_eq!((serve_spec_max_k(None), serve_spec_k_floor(None)), (7, 1));
    assert_eq!(serve_spec_mixed_k_cap(None), usize::MAX);
    assert!(!spec_book_mixed(None) && spec_book_mixed(Some("1")) && !spec_book_mixed(Some("0")));
    assert!(spec_narrow64_on(None) && !spec_narrow64_on(Some("0")));
    assert_eq!((spec_narrow_rows(None), spec_narrow_rows(Some("31")), spec_narrow_rows(Some("48"))), (64, 64, 48));
    assert_eq!((spec_low_rows_pin(None), spec_low_rows_pin(Some("15")), spec_low_rows_pin(Some("16"))), (None, None, Some(16)));
    assert_eq!(spec_settings(None, None, None, None, None, None, None, None), SpecSettings::default());
    assert_eq!(prefill_tick_rows(None), PREFILL_TICK_ROWS_DEFAULT);
    assert_eq!((prefill_tick_rows(Some("31")), prefill_tick_rows(Some("32")), prefill_tick_rows(Some("16385"))), (8192, 32, 8192));
    assert_eq!((max_chunks_inflight(None), max_chunks_inflight(Some("0")), max_chunks_inflight(Some("64"))), (32, 32, 64));
    assert_eq!((overlap_admit_max(None), adm_resync(Some("9"))), (0, 9));
    assert_eq!(admission_settings(None, None, None, None), AdmissionSettings::default());
    assert_eq!((sample_threads(None), sample_threads(Some("0")), sample_threads(Some("3"))), (12, 12, 3));
    assert_eq!(spec_plans_live_max(None), 8);
    assert_eq!(spec_plans_live_max(Some("40")), 40);
    assert_eq!((static_env_u64(Some("18446744073709551615"), 3), static_env_u64(Some("x"), 3)), (u64::MAX, 3));
}

#[test]
fn kill_switches_win() {
    assert_eq!(serve_spec_policy(false, false, None), PolicySource::Ladder);
    assert_eq!(serve_spec_policy(false, false, Some(true)), PolicySource::Given);
    assert_eq!(serve_spec_policy(false, false, Some(false)), PolicySource::LadderWithWarning);
    assert_eq!(serve_spec_policy(true, false, Some(true)), PolicySource::Off);
    assert_eq!(serve_spec_policy(false, true, None), PolicySource::Off);
}
