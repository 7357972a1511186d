//! Rounds in flight, the span beside the pipe, and the settings that steer them.
use paddock_engine::knobs::{
    decode_ticks_per_chunk, draft_live_max, hold_settings, pipe_min_quiet, sampled_live_max, unified_dec_max,
};
use paddock_engine::request::{GenRequest, RunStats, SamplingTraits};
use paddock_engine::service::batch::{Admission, Batch};
use paddock_engine::service::caps::{capabilities, Backend, Caps, Switches};
use paddock_engine::service::pipe::{overlap_now, pipe_opens, pump_step, PipePace, PipeStep};
use paddock_engine::service::pool::{on_failed_pass, OnFail};
use paddock_engine::service::prefill::settles_now;
use paddock_engine::service::segment::{reach, Segment};
use paddock_engine::service::serial::serial_stats;
use paddock_engine::service::speculate::Drafting;
use paddock_engine::service::warmth::{
    after_mixed, asks_model, draft_step, drafts_ahead, drafts_here, drafts_of, resamples, AfterMixed, DraftStep,
    MixedEnd, PutOff,
};

#[test]
fn rounds_are_read_in_the_order_they_were_enqueued() {
    let mut s = Segment::new();
    assert_eq!(s.reads(), None);
    assert!(s.enqueues());
    s.offered(true);
    s.offered(true);
    // two halves hold two rounds
    assert!(!s.enqueues());
    assert_eq!(s.reads(), Some(0));
    s.landed(false);
    assert_eq!((s.rounds, s.inflight, s.reads()), (1, 1, Some(1)));
    assert!(s.enqueues());
    s.offered(true);
    s.landed(false);
    assert_eq!(s.reads(), Some(0));
    s.landed(false);
    assert_eq!((s.rounds, s.reads()), (3, None));
}

#[test]
fn an_ended_segment_is_read_out_and_no_more() {
    let mut s = Segment::new();
    s.offered(true);
    s.offered(true);
    s.landed(true);
    assert!(!s.enqueues());
    assert_eq!(s.reads(), Some(1));
    s.landed(false);
    assert!(!s.enqueues());
    assert_eq!(s.reads(), None);
    // a refused round ends it too, a lost one leaves nothing to read
    let mut s = Segment::new();
    s.offered(true);
    s.offered(false);
    assert!(!s.enqueues());
    assert_eq!(s.reads(), Some(0));
    s.lost();
    assert_eq!((s.alive, s.inflight, s.rounds), (false, 0, 0));
    assert_eq!(reach(100, 8), 116);
}

#[test]
fn a_span_runs_beside_the_pipe_only_when_all_agree() {
    assert!(overlap_now(true, false, true, 3, true, None, 8));
    assert!(!overlap_now(false, false, true, 3, true, None, 8));
    assert!(!overlap_now(true, true, true, 3, true, None, 8));
    assert!(!overlap_now(true, false, false, 3, true, None, 8));
    assert!(!overlap_now(true, false, true, 0, true, None, 8));
    assert!(!overlap_now(true, false, true, 3, false, None, 8));
    assert!(!overlap_now(true, false, true, 3, true, Some(0), 8));
    assert_eq!(pump_step(false, true, false, None, 8), PipeStep::Next);
    assert_eq!(pump_step(true, true, false, None, 8), PipeStep::Break);
    assert_eq!(pump_step(false, false, false, None, 8), PipeStep::Break);
    assert_eq!(pump_step(false, true, true, None, 8), PipeStep::Break);
    assert_eq!(pump_step(false, true, false, Some(0), 8), PipeStep::Break);
}

#[test]
fn the_pipe_opens_in_quiet() {
    let mut pace = PipePace::new(2);
    assert!(pipe_opens(true, &pace, true, None, 4));
    assert!(!pipe_opens(false, &pace, true, None, 4));
    assert!(!pipe_opens(true, &pace, false, None, 4));
    assert!(!pipe_opens(true, &pace, true, Some(3), 4));
    pace.admitted();
    assert!(!pipe_opens(true, &pace, true, None, 4));
    pace.ticked();
    pace.ticked();
    assert!(pipe_opens(true, &pace, true, None, 4));
}

#[test]
fn deferred_prompts_settle_when_nothing_else_chunks() {
    assert!(settles_now(2, 2));
    assert!(!settles_now(1, 2));
    assert!(!settles_now(0, 0));
}

#[test]
fn the_model_drafts_for_warm_rows() {
    assert!(asks_model(3, &vec![true, true], false));
    assert!(!asks_model(3, &vec![true, false], false));
    assert!(asks_model(3, &vec![true, false], true));
    assert!(!asks_model(0, &vec![true], true));
    assert_eq!(drafts_of(Some(vec![5, 6]), vec![7]), vec![5, 6]);
    assert_eq!(drafts_of(Some(vec![]), vec![7]), vec![7]);
    assert_eq!(drafts_of(None, vec![7]), vec![7]);
    assert!(resamples(true, 0, 2));
    assert!(!resamples(true, 1, 2));
    assert!(!resamples(false, 0, 2));
}

#[test]
fn warm_rows_name_their_pending_tokens() {
    let mut b = Batch::new(3);
    for i in 0..3u64 {
        let req = GenRequest {
            id: i,
            prompt: vec![1, 2],
            max_tokens: 10,
            stop_tokens: vec![],
            sampling: SamplingTraits {
                pure_greedy: true,
                device_plannable: true,
                trunc_plannable: false,
                spec_safe: true,
                greedy_ngram_only: true,
            },
            multimodal: false,
            constrained: false,
            logprobs: None,
            submitted: None,
        };
        let k = match b.admit_request(req, 4096, 0) {
            Admission::Seated(k) => k,
            _ => panic!("not seated"),
        };
        b.finish_prefill(k, 2, 4096, 0);
        b.first_token(k, 40 + i as u32, true, 0);
    }
    let ks = b.live_slots();
    assert_eq!(b.pendings(&ks, &vec![true, false, true], 4), vec![(0, 40), (2, 42)]);
    assert_eq!(b.pendings(&ks, &vec![true, false, true], 0), vec![]);
}

#[test]
fn a_serial_run_reports_its_phases() {
    assert_eq!(
        serial_stats(Some(1_000_000), 4_000_000, 9_000_000, 20_000_000),
        RunStats { queued_ms: 3, prefill_ms: 5, decode_ms: 11, spec_drafted: 0, spec_accepted: 0, kv_pages: 0 }
    );
    assert_eq!(serial_stats(None, 4_000_000, 9_000_000, 20_000_000).queued_ms, 0);
}

#[test]
fn steering_is_read_from_text() {
    assert_eq!((unified_dec_max(None), unified_dec_max(Some("3"))), (12, 3));
    assert_eq!((sampled_live_max(None), sampled_live_max(Some("9"))), (4, 9));
    assert_eq!((draft_live_max(None), draft_live_max(Some("2"))), (usize::MAX, 2));
    assert_eq!((decode_ticks_per_chunk(None), decode_ticks_per_chunk(Some("x")), decode_ticks_per_chunk(Some("2"))), (0, 0, 2));
    assert_eq!(pipe_min_quiet(None, true, false), 512);
    assert_eq!(pipe_min_quiet(None, true, true), 4);
    assert_eq!(pipe_min_quiet(None, false, false), 4);
    assert_eq!(pipe_min_quiet(Some("7"), true, false), 7);
    let s = hold_settings(None, None, None, None, None);
    assert_eq!((s.coalesce_ms, s.hold_max, s.window_ms, s.fuse_hard_ms, s.fuse_quiet_ms), (0, 8, 0, 8, 2));
    let s = hold_settings(Some("5"), Some("6"), Some("7"), Some("9"), Some("1"));
    assert_eq!((s.coalesce_ms, s.hold_max, s.window_ms, s.fuse_hard_ms, s.fuse_quiet_ms), (5, 6, 7, 9, 1));
}

#[test]
fn a_failed_pass_is_relieved_only_when_the_pool_ran_out() {
    assert_eq!(on_failed_pass(true, true), OnFail::Relieve);
    assert_eq!(on_failed_pass(true, false), OnFail::Relieve);
    assert_eq!(on_failed_pass(false, true), OnFail::FailAll);
    assert_eq!(on_failed_pass(false, false), OnFail::FailSlots);
}

#[test]
fn capabilities_need_the_backend_and_the_operator() {
    let b = Backend {
        device_sampling: true,
        decode_pipe: true,
        greedy_ngram: true,
        chunked_prefill: true,
        mm_slots: true,
        live_cap: 64,
    };
    let k = Switches {
        device_sampling: true,
        decode_pipe: true,
        chunked_prefill: true,
        unified: true,
        spec_off: false,
        policy_off: false,
        live_max: 40,
        max_rows: 32,
    };
    let all = Caps {
        sampling: true,
        pipe: true,
        guard_ok: false,
        chunked: true,
        unified: true,
        mm_slots: true,
        spec: true,
        live_max: 32,
        live_cap: 64,
    };
    assert_eq!(capabilities(&b, &k), all);
    let no_pipe = Switches { decode_pipe: false, ..k };
    assert_eq!(capabilities(&b, &no_pipe), Caps { pipe: false, guard_ok: true, ..all });
    let host = Switches { device_sampling: false, ..k };
    assert_eq!(capabilities(&b, &host), Caps { sampling: false, pipe: false, ..all });
    let whole = Switches { chunked_prefill: false, ..k };
    assert_eq!(capabilities(&b, &whole), Caps { chunked: false, unified: false, ..all });
    assert!(!capabilities(&b, &Switches { policy_off: true, ..k }).spec);
    assert!(!capabilities(&b, &Switches { spec_off: true, ..k }).spec);
    assert_eq!(capabilities(&Backend { live_cap: 16, ..b }, &k), Caps { live_max: 16, live_cap: 16, ..all });
    assert_eq!(capabilities(&b, &Switches { live_max: 8, ..k }).live_max, 8);
}

#[test]
fn drafts_are_begun_ahead_or_waited_for() {
    assert_eq!(draft_step(0, 7, true, true, true), DraftStep::Bare);
    assert_eq!(draft_step(2, 7, false, true, true), DraftStep::Here);
    assert_eq!(draft_step(2, 7, true, false, true), DraftStep::Ahead { draws: None });
    assert_eq!(draft_step(2, 7, true, true, true), DraftStep::Ahead { draws: Some(7) });
    assert_eq!(draft_step(2, 99, true, true, true), DraftStep::Ahead { draws: Some(16) });
    assert!(drafts_ahead(None).is_none());
    assert!(matches!(drafts_ahead(Some((3, vec![true]))), Some(Drafting::Ahead { depth: 3, .. })));
    assert!(matches!(drafts_here(Some(vec![vec![1], vec![2]]), 2), Drafting::Here(_)));
    assert!(matches!(drafts_here(Some(vec![vec![1]]), 2), Drafting::Bare));
    assert!(matches!(drafts_here(None, 2), Drafting::Bare));
}

#[test]
fn prompts_are_put_off_behind_a_pass_launched_ahead() {
    let picked = AfterMixed { done: true, discard: false, defer: true, earlier: PutOff::Keep, fail: None };
    assert_eq!(after_mixed(MixedEnd::Picked, true), picked);
    assert_eq!(after_mixed(MixedEnd::Picked, false), AfterMixed { defer: false, ..picked });
    let declined = AfterMixed { done: false, discard: true, defer: false, ..picked };
    assert_eq!(after_mixed(MixedEnd::Declined, true), declined);
    assert_eq!(
        after_mixed(MixedEnd::Exhausted, true),
        AfterMixed { done: true, earlier: PutOff::Settle, fail: Some(OnFail::Relieve), ..declined }
    );
    assert_eq!(
        after_mixed(MixedEnd::Failed, false),
        AfterMixed { done: true, earlier: PutOff::Forget, fail: Some(OnFail::FailAll), ..declined }
    );
}
