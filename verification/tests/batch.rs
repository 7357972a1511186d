//! The batch: admission, prefill, decode, pool pressure.
use paddock_engine::error::ErrorClass;
use paddock_engine::request::{FinishReason, GenRequest, SamplingTraits};
use paddock_engine::service::advance::{Finish, Outcome};
use paddock_engine::service::batch::{admits, debit_pool_budget, screen, Admission, Batch, POOL_WATERMARK_BLOCKS};
use paddock_engine::service::pool::{pool_exhausted, Relief};
use paddock_engine::service::prefill::{lcp_len, retain_leaders, shares_inflight, Leader, MmVerdict, PREFIX_LCP_CAP};
use paddock_engine::service::slot::{block_count, RoundTally, RunEnd, Slot};

const MAX_CTX: usize = 64;

fn greedy() -> SamplingTraits {
    SamplingTraits {
        pure_greedy: true,
        device_plannable: true,
        trunc_plannable: false,
        spec_safe: true,
        greedy_ngram_only: true,
    }
}

fn request(id: u64, prompt: Vec<u32>, max_tokens: usize) -> GenRequest {
    GenRequest {
        id,
        prompt,
        max_tokens,
        stop_tokens: vec![99],
        sampling: greedy(),
        multimodal: false,
        constrained: false,
        logprobs: None,
        submitted: Some(1_000_000),
    }
}

fn seated(b: &mut Batch, req: GenRequest) -> usize {
    match b.admit_request(req, MAX_CTX, 5_000_000) {
        Admission::Seated(k) => k,
        Admission::Refused(e) => panic!("refused: {e:?}"),
        Admission::Full => panic!("full"),
    }
}

/// A slot that decodes: its prompt is in and its first token drawn.
fn decoding(b: &mut Batch, req: GenRequest, first: u32) -> usize {
    let rows = req.prompt.len() as u32;
    let k = seated(b, req);
    assert_eq!(b.finish_prefill(k, rows, MAX_CTX, 9_000_000), Finish::Sample);
    assert_eq!(b.first_token(k, first, true, 9_000_000), Outcome::Live);
    k
}

#[test]
fn a_request_runs_from_admission_to_its_limit() {
    let mut b = Batch::new(2);
    let k = decoding(&mut b, request(7, vec![1, 2, 3], 3), 10);
    assert_eq!(k, 0);
    {
        let s = b.slots[0].as_ref().unwrap();
        assert_eq!((s.pos, s.pending, s.generated), (3, 10, 1));
        assert_eq!(s.history, vec![1, 2, 3, 10]);
        assert_eq!(s.prefill_done, Some(9_000_000));
    }
    assert_eq!(b.decode_planes(), (vec![10], vec![3]));
    assert_eq!(b.decode_rows(), vec![(0, 10, 3)]);
    assert_eq!(b.commit_device_token(0, 11, true, 10_000_000), Outcome::Live);
    match b.commit_device_token(0, 12, true, 29_000_000) {
        Outcome::Done(reason, stats) => {
            assert_eq!(reason, FinishReason::Length);
            assert_eq!(stats.queued_ms, 4);
            assert_eq!(stats.prefill_ms, 4);
            assert_eq!(stats.decode_ms, 20);
            assert_eq!(stats.kv_pages, 1);
        }
        o => panic!("{o:?}"),
    }
    assert!(b.slots[0].is_none());
    assert_eq!(b.commit_device_token(0, 12, true, 0), Outcome::Ignored);
}

#[test]
fn a_stop_token_ends_the_run_and_is_not_kept() {
    let mut s = Slot::new(request(1, vec![1], 10), 10, 0);
    assert_eq!(s.emit_count(&vec![4, 5, 99, 6]), 2);
    assert_eq!(s.commit_run(&vec![4, 5, 99, 6], 2), RunEnd::Stop);
    assert_eq!(s.history, vec![1, 4, 5]);
    assert_eq!((s.generated, s.pending), (2, 5));
}

#[test]
fn the_limit_and_a_hang_up_end_a_run() {
    let mut s = Slot::new(request(1, vec![1], 2), 2, 0);
    assert_eq!(s.emit_count(&vec![4, 5, 6]), 2);
    assert_eq!(s.commit_run(&vec![4, 5, 6], 2), RunEnd::Length);
    assert_eq!(s.history, vec![1, 4, 5]);
    assert_eq!((s.generated, s.pending), (2, 4));
    let mut s = Slot::new(request(1, vec![1], 9), 9, 0);
    assert_eq!(s.accept(8, false), RunEnd::HungUp);
    assert_eq!((s.generated, s.pending), (1, 0));
    assert_eq!(s.accept(9, true), RunEnd::Live);
    assert_eq!((s.generated, s.pending), (2, 9));
}

#[test]
fn admission_is_first_free_slot_or_a_refusal() {
    let mut b = Batch::new(2);
    assert_eq!(seated(&mut b, request(1, vec![1], 5)), 0);
    assert_eq!(seated(&mut b, request(2, vec![1], 5)), 1);
    assert!(matches!(b.admit_request(request(3, vec![1], 5), MAX_CTX, 0), Admission::Full));
    match b.admit_request(request(3, vec![], 5), MAX_CTX, 0) {
        Admission::Refused(e) => assert_eq!(e.message, "empty prompt"),
        _ => panic!("an empty prompt is refused before a slot is looked for"),
    }
    assert_eq!(b.retire(0), Some(1));
    assert_eq!(b.retire(0), None);
    assert_eq!(b.free_slot(), Some(0));
    assert_eq!(b.high_water(), 2);
    assert_eq!(b.occupancy(), vec![false, true]);
    assert_eq!((b.active(), b.decoders(), b.waiters(), b.pending_texts()), (1, 0, 1, 1));
}

#[test]
fn screening_cuts_the_limit_to_the_room() {
    assert_eq!(screen(10, 5, 64).unwrap(), 5);
    assert_eq!(screen(60, 50, 64).unwrap(), 4);
    assert_eq!(screen(63, 50, 64).unwrap(), 1);
    for (prompt, code) in [(0, None), (64, None), (65, Some("context_length_exceeded"))] {
        let e = screen(prompt, 5, 64).unwrap_err();
        assert_eq!(e.class, ErrorClass::InvalidRequest);
        assert_eq!(e.code, code);
    }
}

#[test]
fn blocks_are_sixteen_tokens() {
    assert_eq!(block_count(0), 0);
    assert_eq!(block_count(1), 1);
    assert_eq!(block_count(16), 1);
    assert_eq!(block_count(17), 2);
    assert_eq!(block_count(usize::MAX), usize::MAX / 16 + 1);
}

/// The tick's budget counts what pending prompts will claim, and keeps the watermark.
#[test]
fn the_budget_counts_unclaimed_blocks() {
    let mut b = Batch::new(3);
    seated(&mut b, request(1, vec![1; 33], 5));
    decoding(&mut b, request(2, vec![1; 20], 9), 3);
    assert_eq!(b.committed_blocks(), 3);
    assert_eq!(b.admit_budget(Some(40)), Some(37));
    assert_eq!(b.admit_budget(Some(2)), Some(0));
    assert_eq!(b.admit_budget(None), None);
    let mut budget = Some(35);
    debit_pool_budget(&mut budget, &request(3, vec![1; 17], 1));
    assert_eq!(budget, Some(33));
    assert!(admits(&budget));
    assert!(!admits(&Some(POOL_WATERMARK_BLOCKS)));
    assert!(admits(&None));
}

/// A preempted sequence is rebuilt from what was committed and decodes on as if nothing happened.
#[test]
fn a_preempted_sequence_resumes_where_it_stood() {
    let mut b = Batch::new(2);
    decoding(&mut b, request(1, vec![1, 2, 3], 20), 10);
    decoding(&mut b, request(2, vec![4, 5], 20), 20);
    assert_eq!(b.commit_device_token(1, 21, true, 0), Outcome::Live);
    let before = {
        let s = b.slots[1].as_ref().unwrap();
        (s.pos, s.pending, s.generated, s.history.clone())
    };
    assert_eq!(b.preempt_newest(), Some((1, 1)));
    assert!(b.slots[1].is_none());
    assert_eq!(b.preempted.len(), 1);
    assert_eq!(b.preempted[0].prompt, vec![4, 5, 20]);
    assert_eq!(b.readmit(Some(POOL_WATERMARK_BLOCKS)), Some(POOL_WATERMARK_BLOCKS));
    assert_eq!(b.preempted.len(), 1);
    assert_eq!(b.readmit(Some(POOL_WATERMARK_BLOCKS + 1)), Some(POOL_WATERMARK_BLOCKS));
    assert!(b.preempted.is_empty());
    assert_eq!(b.finish_prefill(1, 3, MAX_CTX, 77), Finish::Resumed);
    let s = b.slots[1].as_ref().unwrap();
    assert_eq!((s.pos, s.pending, s.generated, s.history.clone()), before);
    assert!(!s.recompute);
}

#[test]
fn the_queue_is_first_come() {
    let mut b = Batch::new(2);
    decoding(&mut b, request(1, vec![1; 40], 20), 10);
    decoding(&mut b, request(2, vec![4, 5], 20), 20);
    assert_eq!(b.preempt(0), 3);
    assert_eq!(b.preempt(1), 1);
    // the head does not fit, so nobody behind it is let past
    assert_eq!(b.readmit(Some(POOL_WATERMARK_BLOCKS + 2)), Some(POOL_WATERMARK_BLOCKS + 2));
    assert_eq!(b.active(), 0);
    assert_eq!(b.readmit(None), None);
    assert_eq!(b.slots[0].as_ref().unwrap().id, 1);
    assert_eq!(b.slots[1].as_ref().unwrap().id, 2);
}

/// Under pressure a sequence that is mid-prefill is spared; if all are, they fail.
#[test]
fn pressure_spares_prefills_until_there_is_nothing_else() {
    let mut b = Batch::new(3);
    decoding(&mut b, request(1, vec![1, 2, 3], 20), 10);
    let k = seated(&mut b, request(2, vec![4; 20], 5));
    let (prompt, head) = b.hand_over(k);
    assert_eq!((prompt.len(), head.len()), (20, 20));
    let mut inflight = Vec::new();
    b.chunk_started(&mut inflight, k, head, 4, 11);
    assert_eq!(b.chunks(), 1);
    match b.preempt_or_fail_mixed() {
        Relief::Preempted { slot, blocks } => assert_eq!((slot, blocks), (0, 1)),
        r => panic!("{}", matches!(r, Relief::Failed(_))),
    }
    match b.preempt_or_fail_mixed() {
        Relief::Failed(ids) => assert_eq!(ids, vec![2]),
        Relief::Preempted { .. } => panic!("a prefill was preempted"),
    }
    assert_eq!(b.chunks(), 0);
    assert_eq!(b.active(), 0);
    assert_eq!(b.preempted.len(), 1);
    let e = pool_exhausted();
    assert_eq!((e.class, e.code), (ErrorClass::Overloaded, Some("overloaded")));
}

#[test]
fn failing_the_batch_names_every_request() {
    let mut b = Batch::new(3);
    decoding(&mut b, request(1, vec![1, 2, 3], 20), 10);
    let k = seated(&mut b, request(2, vec![4; 20], 5));
    b.chunk_started(&mut Vec::new(), k, vec![], 0, 0);
    assert_eq!(b.fail_slots(), vec![1, 2]);
    assert_eq!(b.chunks(), 1);
    assert_eq!(b.active(), 0);
    seated(&mut b, request(3, vec![1], 5));
    assert_eq!(b.fail_all(), vec![3]);
    assert_eq!(b.chunks(), 0);
}

#[test]
fn prefixes_in_flight_hold_their_followers_back() {
    assert_eq!(lcp_len(&vec![1, 2, 3], &vec![1, 2, 4]), 2);
    assert_eq!(lcp_len(&vec![5; PREFIX_LCP_CAP + 9], &vec![5; PREFIX_LCP_CAP + 5]), PREFIX_LCP_CAP + 5);
    let inflight = || {
        vec![
            Leader { slot: 3, prompt: vec![1, 2, 3, 4], resumed: 4 },
            Leader { slot: 5, prompt: vec![1, 2, 3, 9], resumed: 1 },
        ]
    };
    let p = vec![1, 2, 3, 7];
    // the first leader has already computed past the shared part
    assert_eq!(shares_inflight(&inflight(), Some(2), 0, &p), Some((5, 3)));
    assert_eq!(shares_inflight(&inflight(), Some(4), 0, &p), None);
    assert_eq!(shares_inflight(&inflight(), Some(2), 5, &p), None);
    assert_eq!(shares_inflight(&inflight(), None, 0, &p), None);
    let kept = retain_leaders(inflight(), &vec![false, false, false, true, false, false]);
    assert_eq!(kept.len(), 1);
    assert_eq!(kept[0].slot, 3);
}

#[test]
fn chunked_starts_take_text_prompts_in_order() {
    let mut b = Batch::new(4);
    seated(&mut b, request(1, vec![1, 2, 3, 4], 5));
    seated(&mut b, GenRequest { multimodal: true, ..request(2, vec![1], 5) });
    seated(&mut b, request(3, vec![1, 2, 9], 5));
    assert_eq!(b.chunk_room(8, 0), 8);
    assert_eq!(b.next_startable(0), Some(0));
    assert_eq!(b.hints(0, Some(2)), vec![2]);
    assert_eq!(b.hints(0, Some(3)), Vec::<usize>::new());
    assert_eq!(b.hints(0, None), Vec::<usize>::new());
    let (prompt, head) = b.hand_over(0);
    assert_eq!(prompt, vec![1, 2, 3, 4]);
    assert!(b.slots[0].as_ref().unwrap().prompt.is_empty());
    let mut inflight = Vec::new();
    b.chunk_started(&mut inflight, 0, head, 0, 42);
    assert_eq!(b.slots[0].as_ref().unwrap().chunk_started, Some(42));
    assert_eq!(b.waits_on(&inflight, Some(2), 2), Some((0, 2)));
    assert_eq!(b.next_startable(1), Some(2));
    assert_eq!(b.next_startable(3), None);
    assert_eq!(b.chunk_room(2, 0), 1);
    assert_eq!(b.chunk_room(2, 1), 2);
    assert_eq!(b.chunk_room(0, 0), 0);
}

#[test]
fn handing_over_and_putting_back_is_no_change() {
    let mut b = Batch::new(1);
    seated(&mut b, request(1, vec![1, 2, 3, 4], 5));
    let (prompt, _) = b.hand_over(0);
    b.put_back(0, prompt);
    assert_eq!(b.slots[0].as_ref().unwrap().prompt, vec![1, 2, 3, 4]);
    b.retire(0);
    b.put_back(0, vec![1]);
    assert!(b.slots[0].is_none());
}

#[test]
fn media_prompts_ride_waves() {
    let mm = |id| GenRequest { multimodal: true, ..request(id, vec![1], 5) };
    let mut b = Batch::new(4);
    seated(&mut b, mm(1));
    seated(&mut b, request(2, vec![1, 2], 5));
    seated(&mut b, mm(3));
    seated(&mut b, mm(4));
    assert_eq!(b.take_wave(2), vec![0, 2]);
    assert!(!b.slots[0].as_ref().unwrap().multimodal);
    assert!(b.slots[3].as_ref().unwrap().multimodal);
    assert_eq!(b.wave_verdict(0, MmVerdict::Encoding), None);
    assert!(b.encoding[0] && !b.chunking[0]);
    assert_eq!(b.encode_verdict(0, MmVerdict::Encoding), None);
    assert!(!b.encoding[0]);
    assert_eq!(b.encode_verdict(0, MmVerdict::Queued), None);
    assert!(b.chunking[0]);
    assert_eq!(b.wave_verdict(2, MmVerdict::Failed), Some(3));
    assert!(b.slots[2].is_none());
}

#[test]
fn the_classic_pass_takes_what_nothing_defers() {
    let mut b = Batch::new(3);
    seated(&mut b, request(1, vec![1, 2], 5));
    seated(&mut b, GenRequest { multimodal: true, ..request(2, vec![1], 5) });
    seated(&mut b, request(3, vec![7], 5));
    let (texts, media) = b.take_classic(false, true, &vec![false, false, true]);
    assert_eq!(texts, vec![(0, vec![1, 2])]);
    assert!(media.is_empty());
    let (texts, media) = b.take_classic(true, false, &vec![false; 3]);
    assert!(texts.is_empty());
    assert_eq!(media, vec![1]);
}

#[test]
fn reports_for_a_cleared_slot_are_dropped() {
    let mut b = Batch::new(1);
    assert_eq!(b.finish_prefill(0, 3, MAX_CTX, 0), Finish::Stale);
    assert_eq!(b.first_token(0, 3, true, 0), Outcome::Ignored);
    assert_eq!(b.feed(0, 1, &vec![3], 1, 0), Outcome::Ignored);
    assert_eq!(b.emit_count(0, &vec![3]), 0);
}

/// However many rows a picture took, the first token that leaves its sequence alive is in the window.
#[test]
fn a_picture_cuts_the_limit_to_the_window() {
    let mut b = Batch::new(1);
    seated(&mut b, request(1, vec![1], 50));
    assert_eq!(b.finish_prefill(0, MAX_CTX as u32 - 2, MAX_CTX, 0), Finish::Sample);
    assert_eq!(b.slots[0].as_ref().unwrap().max_tokens, 2);
    assert_eq!(b.first_token(0, 3, true, 0), Outcome::Live);
    assert!(matches!(
        b.commit_device_token(0, 4, true, 0),
        Outcome::Done(FinishReason::Length, _)
    ));
}

#[test]
fn holes_in_the_decode_planes_are_zero() {
    let mut b = Batch::new(4);
    decoding(&mut b, request(1, vec![1, 2, 3], 20), 10);
    seated(&mut b, request(2, vec![4, 5], 20));
    decoding(&mut b, request(3, vec![4, 5, 6, 7], 20), 30);
    assert_eq!(b.decode_planes(), (vec![10, 0, 30], vec![3, 0, 4]));
    assert_eq!(b.decode_rows(), vec![(0, 10, 3), (2, 30, 4)]);
}

#[test]
fn rounds_are_booked_on_the_slot_and_the_tick() {
    let mut s = Slot::new(request(1, vec![1], 10), 10, 0);
    let mut tick = RoundTally { drafted: 5, accepted: 2 };
    s.spec_round(&mut tick, 3, 2);
    assert_eq!((s.spec_drafted, s.spec_accepted), (3, 2));
    assert_eq!(tick, RoundTally { drafted: 8, accepted: 4 });
}

/// Preemption does not shorten an answer: the rows of a rebuilt sequence hold what it has generated.
#[test]
fn a_rebuilt_sequence_keeps_its_limit() {
    let mut b = Batch::new(1);
    assert!(matches!(b.admit_request(request(1, vec![1; 10], 80), 100, 0), Admission::Seated(0)));
    assert_eq!(b.finish_prefill(0, 10, 100, 0), Finish::Sample);
    assert_eq!(b.first_token(0, 3, true, 0), Outcome::Live);
    for _ in 0..49 {
        assert_eq!(b.commit_device_token(0, 3, true, 0), Outcome::Live);
    }
    assert!(b.preempt_newest().is_some());
    assert_eq!(b.readmit(None), None);
    assert_eq!(b.finish_prefill(0, 59, 100, 0), Finish::Resumed);
    let s = b.slots[0].as_ref().unwrap();
    assert_eq!((s.pos, s.generated, s.max_tokens), (59, 50, 80));
    for _ in 0..29 {
        assert_eq!(b.commit_device_token(0, 3, true, 0), Outcome::Live);
    }
    assert!(matches!(b.commit_device_token(0, 3, true, 0), Outcome::Done(FinishReason::Length, _)));
}

/// A sequence preempted before it began is served anew: its usage is reported and its first token
/// drawn.
#[test]
fn a_sequence_preempted_before_it_began_is_sampled() {
    let mut b = Batch::new(1);
    seated(&mut b, request(1, vec![7, 8], 5));
    assert_eq!(b.preempt_newest(), Some((0, 1)));
    assert_eq!(b.preempted[0].prompt, vec![7, 8]);
    assert_eq!(b.readmit(None), None);
    assert!(b.finisher(0));
    assert_eq!(b.finish_prefill(0, 2, MAX_CTX, 0), Finish::Sample);
    assert_eq!(b.first_token(0, 9, true, 0), Outcome::Live);
    let s = b.slots[0].as_ref().unwrap();
    assert_eq!((s.pos, s.pending, s.generated, s.recompute), (2, 9, 1, false));
}

/// A prompt that is preempted on its way in starts over, in a slot that nothing marks.
#[test]
fn a_prompt_preempted_on_its_way_in_starts_over() {
    let mut b = Batch::new(1);
    seated(&mut b, request(1, vec![7, 8], 5));
    let (prompt, head) = b.hand_over(0);
    assert_eq!(prompt, vec![7, 8]);
    let mut leaders = vec![];
    b.chunk_started(&mut leaders, 0, head, 0, 3);
    assert!(b.chunking[0]);
    assert_eq!(b.preempt_newest(), Some((0, 1)));
    assert_eq!(b.preempted[0].prompt, vec![7, 8]);
    assert!(!b.chunking[0]);
    assert_eq!(b.readmit(None), None);
    assert_eq!(b.next_startable(0), Some(0));
    let mut media = request(2, vec![7, 8], 5);
    media.multimodal = true;
    let mut b = Batch::new(1);
    seated(&mut b, media);
    assert_eq!(b.take_wave(1), vec![0]);
    assert_eq!(b.preempt_newest(), Some((0, 0)));
    assert!(b.preempted[0].prompt.is_empty(), "its tokens alone are not its prompt");
}
