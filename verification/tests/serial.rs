//! The serial loop, driven by stand-ins for the model.
use paddock_engine::error::{ErrorClass, GenError};
use paddock_engine::request::{FinishReason, GenRequest, SamplingTraits, TokenEvent};
use paddock_engine::service::serial::{
    deadlocked, no_image_input, prefill_kind, Action, Phase, PrefillKind, Route, Serial,
};
use std::collections::VecDeque;

const MAX_CTX: usize = 4096;

trait Generator {
    fn forward(&mut self, token: u32) -> Result<Vec<f32>, GenError>;
    fn forward_prefill_stream(&mut self, tokens: &[u32]) -> Result<Vec<f32>, GenError>;
    fn forward_multimodal(&mut self) -> Result<Option<(Vec<f32>, usize)>, GenError> {
        Ok(None)
    }
    fn supports_decode_pipe(&self) -> bool {
        false
    }
    fn decode_pipe_begin(&mut self, _token: u32, _position: u32) -> Result<(), GenError> {
        Err(GenError::Backend("no pipe".to_owned()))
    }
    fn decode_pipe_next(&mut self) -> Result<u32, GenError> {
        Err(GenError::Backend("no pipe".to_owned()))
    }
    fn decode_pipe_drain(&mut self) -> Result<u32, GenError> {
        Err(GenError::Backend("no pipe".to_owned()))
    }
}

fn argmax(logits: &[f32]) -> u32 {
    let mut best = 0;
    for (i, x) in logits.iter().enumerate() {
        if *x > logits[best] {
            best = i;
        }
    }
    best as u32
}

fn greedy() -> SamplingTraits {
    SamplingTraits {
        pure_greedy: true,
        device_plannable: true,
        trunc_plannable: false,
        spec_safe: true,
        greedy_ngram_only: true,
    }
}

fn request(prompt: Vec<u32>, max_tokens: usize, stop_tokens: Vec<u32>, multimodal: bool) -> GenRequest {
    GenRequest {
        id: 1,
        prompt,
        max_tokens,
        stop_tokens,
        sampling: greedy(),
        multimodal,
        constrained: false,
        logprobs: None,
        submitted: None,
    }
}

/// Run one request to its end and collect what its client sees. A client that is gone after
/// `patience` tokens stops taking them.
fn run_request<G: Generator>(g: &mut G, req: GenRequest, patience: usize) -> Vec<TokenEvent> {
    let mut events = Vec::new();
    let kind = prefill_kind(req.multimodal, false);
    let prompt = req.prompt.clone();
    let mut s = match Serial::begin(req, MAX_CTX, g.supports_decode_pipe()) {
        Ok(s) => s,
        Err(e) => return vec![TokenEvent::Error(e)],
    };
    let (mut logits, rows) = match kind {
        PrefillKind::Multimodal => match g.forward_multimodal().unwrap() {
            Some(r) => r,
            None => return vec![TokenEvent::Error(no_image_input())],
        },
        _ => (g.forward_prefill_stream(&prompt).unwrap(), prompt.len()),
    };
    let mut action = s.prefilled(rows as u32);
    events.push(TokenEvent::Prefilled { cached: 0, rows: s.rows });
    let mut sent = 0;
    loop {
        action = match action {
            Action::Pick => s.picked(argmax(&logits)),
            Action::Send(id) => {
                let there = sent < patience;
                if there {
                    events.push(TokenEvent::Token { id });
                    sent += 1;
                }
                s.sent(there)
            }
            Action::Forward(id) => {
                logits = g.forward(id).unwrap();
                s.forwarded()
            }
            Action::Begin { token, pos } => {
                let ok = g.decode_pipe_begin(token, pos).is_ok();
                s.begun(ok)
            }
            Action::Next => {
                let id = g.decode_pipe_next().unwrap();
                s.landed(id)
            }
            Action::Drain => {
                let id = g.decode_pipe_drain().unwrap();
                s.landed(id)
            }
            Action::Finish { reason, discard } => {
                if discard {
                    g.decode_pipe_drain().unwrap();
                }
                events.push(TokenEvent::Done(reason, Default::default()));
                break;
            }
            Action::Quit { discard } => {
                if discard {
                    g.decode_pipe_drain().unwrap();
                }
                break;
            }
        }
    }
    assert_eq!(s.phase, Phase::End);
    events
}

/// A generator whose multimodal prefill runs a row count unrelated to the prompt's token count.
struct Stub {
    mm_rows: usize,
}

impl Generator for Stub {
    fn forward(&mut self, _token: u32) -> Result<Vec<f32>, GenError> {
        Ok(vec![0.0, 1.0])
    }
    fn forward_prefill_stream(&mut self, _tokens: &[u32]) -> Result<Vec<f32>, GenError> {
        Ok(vec![0.0, 1.0])
    }
    fn forward_multimodal(&mut self) -> Result<Option<(Vec<f32>, usize)>, GenError> {
        Ok(Some((vec![0.0, 1.0], self.mm_rows)))
    }
}

fn serial_prefilled_rows(mm_rows: usize, prompt: Vec<u32>, mm: bool) -> Option<u32> {
    let mut g = Stub { mm_rows };
    for ev in run_request(&mut g, request(prompt, 1, Vec::new(), mm), usize::MAX) {
        if let TokenEvent::Prefilled { rows, .. } = ev {
            return Some(rows);
        }
    }
    None
}

#[test]
fn a_serial_image_request_bills_the_rows_the_engine_prefilled() {
    assert_eq!(serial_prefilled_rows(1471, vec![7, 8, 9], true), Some(1471));
    assert_eq!(serial_prefilled_rows(283, vec![7, 8, 9], true), Some(283));
}

#[test]
fn a_serial_text_request_bills_its_prompt_tokens() {
    assert_eq!(serial_prefilled_rows(0, vec![1, 2, 3, 4, 5], false), Some(5));
}

/// Pipe-capable stub: scripted tick ids, strict depth accounting. Any `forward` call while the pipe
/// works panics.
struct PipeStub {
    script: Vec<u32>,
    enqueued: usize,
    inflight: VecDeque<u32>,
    begin_positions: Vec<u32>,
    next_calls: usize,
    drain_calls: usize,
    fail_begin: bool,
    forward_calls: usize,
}

impl PipeStub {
    fn new(script: Vec<u32>, fail_begin: bool) -> Self {
        Self {
            script,
            enqueued: 0,
            inflight: VecDeque::new(),
            begin_positions: Vec::new(),
            next_calls: 0,
            drain_calls: 0,
            fail_begin,
            forward_calls: 0,
        }
    }
}

impl Generator for PipeStub {
    fn forward(&mut self, token: u32) -> Result<Vec<f32>, GenError> {
        if !self.fail_begin {
            panic!("host forward during an available pipe");
        }
        self.forward_calls += 1;
        Ok(if token == 1 { vec![1.0, 0.0] } else { vec![0.0, 1.0] })
    }
    fn forward_prefill_stream(&mut self, _tokens: &[u32]) -> Result<Vec<f32>, GenError> {
        Ok(vec![0.0, 1.0])
    }
    fn supports_decode_pipe(&self) -> bool {
        true
    }
    fn decode_pipe_begin(&mut self, _token: u32, position: u32) -> Result<(), GenError> {
        if self.fail_begin {
            return Err(GenError::Backend("no batch state".to_owned()));
        }
        self.begin_positions.push(position);
        self.inflight.push_back(self.script[self.enqueued]);
        self.enqueued += 1;
        Ok(())
    }
    fn decode_pipe_next(&mut self) -> Result<u32, GenError> {
        self.next_calls += 1;
        self.inflight.push_back(self.script[self.enqueued]);
        self.enqueued += 1;
        Ok(self.inflight.pop_front().expect("in-flight tick"))
    }
    fn decode_pipe_drain(&mut self) -> Result<u32, GenError> {
        self.drain_calls += 1;
        assert_eq!(self.inflight.len(), 1, "drain expects exactly one in-flight tick");
        Ok(self.inflight.pop_front().expect("in-flight tick"))
    }
}

fn read(events: Vec<TokenEvent>) -> (Vec<u32>, Option<FinishReason>) {
    let mut toks = Vec::new();
    let mut fin = None;
    for ev in events {
        match ev {
            TokenEvent::Token { id, .. } => toks.push(id),
            TokenEvent::Done(r, _) => fin = Some(r),
            TokenEvent::Error(e) => panic!("engine error: {e:?}"),
            _ => {}
        }
    }
    (toks, fin)
}

fn run(g: &mut PipeStub, max_tokens: usize, stop: Vec<u32>) -> (Vec<u32>, Option<FinishReason>) {
    read(run_request(g, request(vec![7, 8, 9], max_tokens, stop, false), usize::MAX))
}

#[test]
fn pipe_runs_exactly_want_ticks_and_finishes_length() {
    let mut g = PipeStub::new(vec![10, 11, 12, 13, 99], false);
    let (toks, fin) = run(&mut g, 5, vec![]);
    assert_eq!(toks, vec![1, 10, 11, 12, 13]);
    assert_eq!(fin, Some(FinishReason::Length));
    assert_eq!(g.begin_positions, vec![3]);
    assert_eq!(g.enqueued, 4);
    assert_eq!((g.next_calls, g.drain_calls), (3, 1));
    assert!(g.inflight.is_empty(), "nothing left in flight");
}

#[test]
fn pipe_stop_drains_the_overshoot_tick() {
    let mut g = PipeStub::new(vec![10, 11, 12, 13, 99], false);
    let (toks, fin) = run(&mut g, 5, vec![11]);
    assert_eq!(toks, vec![1, 10]);
    assert_eq!(fin, Some(FinishReason::Stop));
    assert_eq!(g.enqueued, 3);
    assert_eq!(g.drain_calls, 1);
    assert!(g.inflight.is_empty());
}

#[test]
fn pipe_begin_failure_falls_back_to_the_host_loop() {
    let mut g = PipeStub::new(vec![], true);
    let (toks, fin) = run(&mut g, 3, vec![]);
    assert_eq!(toks, vec![1, 0, 1]);
    assert_eq!(fin, Some(FinishReason::Length));
    assert_eq!(g.forward_calls, 2);
}

/// A client that leaves takes no more tokens, and nothing stays in flight behind it.
#[test]
fn a_client_that_leaves_drains_the_pipe() {
    let mut g = PipeStub::new(vec![10, 11, 12, 13, 99], false);
    let req = request(vec![7, 8, 9], 5, vec![], false);
    let (toks, fin) = read(run_request(&mut g, req, 2));
    assert_eq!(toks, vec![1, 10]);
    assert_eq!(fin, None);
    assert_eq!(g.drain_calls, 1);
    assert!(g.inflight.is_empty());
}

#[test]
fn one_token_needs_no_pipe() {
    let mut g = PipeStub::new(vec![], false);
    let (toks, fin) = run(&mut g, 1, vec![]);
    assert_eq!((toks, fin), (vec![1], Some(FinishReason::Length)));
    assert_eq!(g.enqueued, 0);
}

#[test]
fn a_first_token_that_stops_is_not_sent() {
    let mut g = PipeStub::new(vec![], false);
    let (toks, fin) = run(&mut g, 5, vec![1]);
    assert_eq!((toks, fin), (vec![], Some(FinishReason::Stop)));
}

/// The limit is cut to the window behind the rows the prompt took.
#[test]
fn the_window_cuts_the_limit() {
    let mut g = Stub { mm_rows: MAX_CTX - 2 };
    let (toks, fin) = read(run_request(&mut g, request(vec![7], 50, vec![], true), usize::MAX));
    assert_eq!((toks, fin), (vec![1, 1], Some(FinishReason::Length)));
    let mut full = Stub { mm_rows: MAX_CTX };
    let (toks, fin) = read(run_request(&mut full, request(vec![7], 50, vec![], true), usize::MAX));
    assert_eq!((toks, fin), (vec![], Some(FinishReason::Length)));
}

#[test]
fn prompts_outside_the_window_are_refused() {
    let refused = |prompt: Vec<u32>| match Serial::begin(request(prompt, 5, vec![], false), 4, false) {
        Ok(_) => panic!("taken up"),
        Err(e) => e,
    };
    let empty = refused(vec![]);
    assert_eq!(empty.class, ErrorClass::InvalidRequest);
    assert_eq!(empty.code, None);
    assert_eq!(empty.message, "empty prompt");
    let filled = refused(vec![1; 4]);
    assert_eq!(filled.class, ErrorClass::InvalidRequest);
    assert_eq!(
        filled.message,
        "the prompt fills the model's entire context window; there is no room to generate"
    );
    let long = refused(vec![1; 5]);
    assert_eq!(long.class, ErrorClass::InvalidRequest);
    assert_eq!(long.code, Some("context_length_exceeded"));
    assert_eq!(
        long.message,
        "the prompt is 5 tokens but the model's context window is 4; \
         reduce the input (or restart with a larger --max-ctx)"
    );
    assert!(Serial::begin(request(vec![1; 3], 5, vec![], false), 4, false).is_ok());
}

#[test]
fn only_plain_device_draws_ride_the_pipe() {
    let route = |req: GenRequest, supported: bool| match Serial::begin(req, MAX_CTX, supported) {
        Ok(s) => s.route,
        Err(e) => panic!("{e:?}"),
    };
    let base = || request(vec![1], 5, vec![], false);
    assert_eq!(route(base(), true), Route::Pipe);
    assert_eq!(route(base(), false), Route::Host);
    assert_eq!(route(GenRequest { constrained: true, ..base() }, true), Route::Host);
    assert_eq!(route(GenRequest { logprobs: Some(3), ..base() }, true), Route::Host);
    let hot = SamplingTraits { device_plannable: false, ..greedy() };
    assert_eq!(route(GenRequest { sampling: hot, ..base() }, true), Route::Host);
}

#[test]
fn images_need_a_model_that_reads_them() {
    struct Blind;
    impl Generator for Blind {
        fn forward(&mut self, _token: u32) -> Result<Vec<f32>, GenError> {
            Ok(vec![0.0])
        }
        fn forward_prefill_stream(&mut self, _tokens: &[u32]) -> Result<Vec<f32>, GenError> {
            Ok(vec![0.0])
        }
    }
    let events = run_request(&mut Blind, request(vec![7], 2, vec![], true), usize::MAX);
    assert_eq!(events.len(), 1);
    assert!(matches!(&events[0], TokenEvent::Error(e)
        if e.class == ErrorClass::InvalidRequest
            && e.message == "this model does not support image input"));
    assert_eq!(deadlocked().class, ErrorClass::Internal);
    assert_eq!(deadlocked().message, "constraint deadlock: no legal next token");
    assert_eq!(prefill_kind(true, true), PrefillKind::Multimodal);
    assert_eq!(prefill_kind(false, true), PrefillKind::Tokens);
}

#[test]
fn a_pipe_with_no_room_ends_at_once() {
    let mut g = PipeStub::new(vec![7, 8, 9], false);
    assert_eq!(run(&mut g, 0, vec![]), (vec![], Some(FinishReason::Length)));
    let mut s = Serial::begin(request(vec![1, 2], 5, vec![], false), MAX_CTX, true).ok().unwrap();
    assert_eq!(s.route, Route::Pipe);
    assert_eq!(
        s.prefilled(MAX_CTX as u32),
        Action::Finish { reason: FinishReason::Length, discard: false }
    );
}
