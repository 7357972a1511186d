//! One request at a time: prefill, then tokens off the host's logits or off a two-deep device pipe,
//! until a stop token, the limit, or the client is gone.
use crate::error::EngineError;
use crate::request;
use crate::request::{dur_ms, has_token, FinishReason, GenRequest, RunStats};
use crate::service::batch::{self, screen};
use vstd::prelude::*;

verus! {

/// How the prompt goes in.
#[derive(Debug, Clone, Copy, PartialEq, Eq, Structural)]
pub enum PrefillKind {
    /// Image and audio chunks, in one pass.
    Multimodal,
    /// One forward pass per token.
    Tokens,
    /// The whole prompt in one batched pass.
    Stream,
}

/// Where a token comes from.
#[derive(Debug, Clone, Copy, PartialEq, Eq, Structural)]
pub enum Route {
    /// The host picks each token and then feeds it.
    Host,
    /// The device picks; the next tick is enqueued before the last one's token lands.
    Pipe,
    /// The pipe could not begin: the host feeds the last token and then picks.
    Fallback,
}

/// What the run is waiting for.
#[derive(Debug, Clone, Copy, PartialEq, Eq, Structural)]
pub enum Phase {
    Prefill,
    Pick,
    Send,
    Begin,
    Tick,
    SendPiped,
    Forward,
    End,
}

/// What to do next.
#[derive(Debug, Clone, Copy, PartialEq, Eq, Structural)]
pub enum Action {
    /// Pick a token off the logits at hand.
    Pick,
    /// Send this token.
    Send(u32),
    /// Feed this token and take the logits.
    Forward(u32),
    /// Begin the pipe with this token at this position.
    Begin { token: u32, pos: u32 },
    /// Enqueue one more tick and take the oldest one's token.
    Next,
    /// Take the last tick's token.
    Drain,
    /// Tell the client that the run is over; first collect and discard a tick still in flight.
    Finish { reason: FinishReason, discard: bool },
    /// The client is gone; collect and discard a tick still in flight.
    Quit { discard: bool },
}

/// One request on the serial loop.
pub struct Serial {
    pub phase: Phase,
    pub route: Route,
    pub history: Vec<u32>,
    pub stop_tokens: Vec<u32>,
    pub max_ctx: usize,
    pub max_tokens: usize,
    /// KV rows the prompt took.
    pub rows: u32,
    /// The token that was picked last.
    pub token: u32,
    /// Tokens sent.
    pub sent: usize,
    /// Ticks handed to the pipe.
    pub enqueued: usize,
    /// Tokens that landed from it.
    pub landed: usize,
}

/// A serial run as mathematics sees it.
#[verifier::ext_equal]
pub struct SerialView {
    pub phase: Phase,
    pub route: Route,
    pub history: Seq<u32>,
    pub stop_tokens: Seq<u32>,
    pub max_ctx: usize,
    pub max_tokens: usize,
    pub rows: u32,
    pub token: u32,
    pub sent: usize,
    pub enqueued: usize,
    pub landed: usize,
}

impl View for Serial {
    type V = SerialView;

    open spec fn view(&self) -> SerialView {
        SerialView {
            phase: self.phase,
            route: self.route,
            history: self.history@,
            stop_tokens: self.stop_tokens@,
            max_ctx: self.max_ctx,
            max_tokens: self.max_tokens,
            rows: self.rows,
            token: self.token,
            sent: self.sent,
            enqueued: self.enqueued,
            landed: self.landed,
        }
    }
}

impl SerialView {
    /// The run with the prompt in, its limit cut to the room behind the rows.
    pub open spec fn limit(self, rows: u32) -> usize {
        let room = if rows <= self.max_ctx {
            self.max_ctx - rows
        } else {
            0
        };
        if self.max_tokens <= room {
            self.max_tokens
        } else {
            room as usize
        }
    }

    pub open spec fn ended(self) -> SerialView {
        SerialView { phase: Phase::End, ..self }
    }

    pub open spec fn at(self, phase: Phase) -> SerialView {
        SerialView { phase, ..self }
    }

    /// A tick is still in flight.
    pub open spec fn in_flight(self) -> bool {
        self.landed < self.enqueued
    }

    /// Ticks the pipe has to run: every token but the first.
    pub open spec fn want(self) -> int {
        self.max_tokens - 1
    }

    /// The prompt is in.
    pub open spec fn on_prefilled(self, rows: u32) -> (SerialView, Action) {
        let s = SerialView { rows, max_tokens: self.limit(rows), ..self };
        if s.max_tokens == 0 {
            (s.ended(), Action::Finish { reason: FinishReason::Length, discard: false })
        } else {
            (s.at(Phase::Pick), Action::Pick)
        }
    }

    /// A token was picked off the host's logits.
    pub open spec fn on_picked(self, t: u32) -> (SerialView, Action) {
        if self.stop_tokens.contains(t) {
            (self.ended(), Action::Finish { reason: FinishReason::Stop, discard: false })
        } else {
            (
                SerialView {
                    phase: Phase::Send,
                    history: self.history.push(t),
                    token: t,
                    ..self
                },
                Action::Send(t),
            )
        }
    }

    /// The next pipe operation: one more tick while any is wanted, else the drain.
    pub open spec fn pump(self) -> (SerialView, Action) {
        if self.enqueued < self.want() {
            (
                SerialView { phase: Phase::Tick, enqueued: (self.enqueued + 1) as usize, ..self },
                Action::Next,
            )
        } else {
            (self.at(Phase::Tick), Action::Drain)
        }
    }

    /// The token was sent, or the client is gone.
    pub open spec fn on_sent(self, delivered: bool) -> (SerialView, Action) {
        let piped = self.phase == Phase::SendPiped;
        if !delivered {
            (self.ended(), Action::Quit { discard: piped && self.in_flight() })
        } else {
            let s = SerialView { sent: (self.sent + 1) as usize, ..self };
            if piped {
                if s.landed == s.want() {
                    (s.ended(), Action::Finish { reason: FinishReason::Length, discard: false })
                } else {
                    s.pump()
                }
            } else {
                match s.route {
                    Route::Host => (s.at(Phase::Forward), Action::Forward(s.token)),
                    Route::Pipe => if s.want() == 0 {
                        (s.ended(), Action::Finish { reason: FinishReason::Length, discard: false })
                    } else {
                        (s.at(Phase::Begin), Action::Begin { token: s.token, pos: s.rows })
                    },
                    Route::Fallback => if s.sent >= s.max_tokens {
                        (s.ended(), Action::Finish { reason: FinishReason::Length, discard: false })
                    } else {
                        (s.at(Phase::Forward), Action::Forward(s.token))
                    },
                }
            }
        }
    }

    /// The pipe began, or could not.
    pub open spec fn on_begun(self, ok: bool) -> (SerialView, Action) {
        if ok {
            (SerialView { enqueued: 1, landed: 0, ..self }).pump()
        } else {
            (
                SerialView { phase: Phase::Forward, route: Route::Fallback, ..self },
                Action::Forward(self.token),
            )
        }
    }

    /// A tick's token landed.
    pub open spec fn on_landed(self, t: u32) -> (SerialView, Action) {
        let s = SerialView { landed: (self.landed + 1) as usize, ..self };
        if self.stop_tokens.contains(t) {
            (s.ended(), Action::Finish { reason: FinishReason::Stop, discard: s.in_flight() })
        } else {
            (
                SerialView {
                    phase: Phase::SendPiped,
                    history: s.history.push(t),
                    token: t,
                    ..s
                },
                Action::Send(t),
            )
        }
    }

    /// The token was fed and its logits are here.
    pub open spec fn on_forwarded(self) -> (SerialView, Action) {
        if self.route == Route::Host && self.sent >= self.max_tokens {
            (self.ended(), Action::Finish { reason: FinishReason::Length, discard: false })
        } else {
            (self.at(Phase::Pick), Action::Pick)
        }
    }

    /// What holds between two steps: no more tokens than the limit, no more ticks than wanted, and
    /// never more than one in flight but for the one just asked for.
    pub open spec fn wf(self) -> bool {
        &&& match self.phase {
            Phase::Prefill => self.sent == 0 && self.route != Route::Fallback,
            Phase::Pick => self.sent < self.max_tokens && (self.route == Route::Pipe ==> self.sent
                == 0),
            Phase::Send => self.sent < self.max_tokens && (self.route == Route::Pipe ==> self.sent
                == 0),
            Phase::Begin => self.route == Route::Pipe && self.sent == 1 < self.max_tokens,
            Phase::Tick => {
                &&& self.route == Route::Pipe
                &&& 1 <= self.enqueued <= self.want()
                &&& self.sent == self.landed + 1
                &&& self.landed + 1 == self.enqueued || (self.landed + 2 == self.enqueued)
                &&& self.landed + 2 == self.enqueued || self.enqueued == self.want()
            },
            Phase::SendPiped => {
                &&& self.route == Route::Pipe
                &&& 1 <= self.landed
                &&& self.sent == self.landed
                &&& self.enqueued <= self.want()
                &&& self.enqueued == self.landed + 1 || (self.enqueued == self.landed
                    && self.landed == self.want())
            },
            Phase::Forward => {
                &&& self.route != Route::Pipe
                &&& self.sent <= self.max_tokens
                &&& self.route == Route::Fallback ==> self.sent < self.max_tokens
                &&& self.sent > 0
            },
            Phase::End => true,
        }
        &&& self.max_tokens <= self.max_ctx
    }
}

/// The reply to a request whose images the model cannot read.
pub fn no_image_input() -> (e: EngineError)
    ensures
        e.is(
            crate::error::ErrorClass::InvalidRequest,
            None,
            "this model does not support image input"@,
        ),
{
    EngineError::invalid("this model does not support image input")
}

/// The reply to a request whose grammar has no way on.
pub fn deadlocked() -> (e: EngineError)
    ensures
        e.is_fault("constraint deadlock: no legal next token"@),
{
    EngineError::internal("constraint deadlock: no legal next token")
}

/// A run goes over the pipe when every token can be drawn on the device and nothing needs host
/// logits.
pub open spec fn pipes(req: GenRequest, supported: bool) -> bool {
    req.logprobs is None && !req.constrained && req.sampling.device_plannable && supported
}

impl Serial {
    /// Take a request up, or refuse it.
    pub fn begin(req: GenRequest, max_ctx: usize, pipe_supported: bool) -> (r: Result<
        Self,
        EngineError,
    >)
        ensures
            match r {
                Ok(s) => {
                    &&& batch::screened(req.prompt@.len(), req.max_tokens, max_ctx) == Some(s.max_tokens)
                    &&& s@.wf()
                    &&& s@ == (SerialView {
                        phase: Phase::Prefill,
                        route: if pipes(req, pipe_supported) {
                            Route::Pipe
                        } else {
                            Route::Host
                        },
                        history: req.prompt@,
                        stop_tokens: req.stop_tokens@,
                        max_ctx,
                        max_tokens: s.max_tokens,
                        rows: 0,
                        token: 0,
                        sent: 0,
                        enqueued: 0,
                        landed: 0,
                    })
                },
                Err(e) => batch::screened(req.prompt@.len(), req.max_tokens, max_ctx) is None
                    && batch::is_refusal(e, req.prompt@.len(), max_ctx),
            },
    {
        match screen(req.prompt.len(), req.max_tokens, max_ctx) {
            Err(e) => Err(e),
            Ok(max_tokens) => {
                let route = if req.logprobs.is_none() && !req.constrained
                    && req.sampling.device_plannable && pipe_supported {
                    Route::Pipe
                } else {
                    Route::Host
                };
                Ok(
                    Serial {
                        phase: Phase::Prefill,
                        route,
                        history: req.prompt,
                        stop_tokens: req.stop_tokens,
                        max_ctx,
                        max_tokens,
                        rows: 0,
                        token: 0,
                        sent: 0,
                        enqueued: 0,
                        landed: 0,
                    },
                )
            },
        }
    }

    /// The prompt is in, as `rows` rows. A picture runs more rows than its prompt has tokens, so
    /// the limit is cut once more; a run that is left no token ends here.
    pub fn prefilled(&mut self, rows: u32) -> (a: Action)
        requires
            old(self)@.wf(),
            old(self).phase == Phase::Prefill,
        ensures
            (final(self)@, a) == old(self)@.on_prefilled(rows),
            final(self)@.wf(),
    {
        self.rows = rows;
        let room: usize = self.max_ctx.saturating_sub(rows as usize);
        if self.max_tokens > room {
            self.max_tokens = room;
        }
        if self.max_tokens == 0 {
            self.phase = Phase::End;
            return Action::Finish { reason: FinishReason::Length, discard: false };
        }
        self.phase = Phase::Pick;
        Action::Pick
    }

    /// A token was picked off the host's logits.
    pub fn picked(&mut self, t: u32) -> (a: Action)
        requires
            old(self)@.wf(),
            old(self).phase == Phase::Pick,
        ensures
            (final(self)@, a) == old(self)@.on_picked(t),
            final(self)@.wf(),
    {
        if has_token(&self.stop_tokens, t) {
            self.phase = Phase::End;
            return Action::Finish { reason: FinishReason::Stop, discard: false };
        }
        self.history.push(t);
        self.token = t;
        self.phase = Phase::Send;
        Action::Send(t)
    }

    fn pump(&mut self) -> (a: Action)
        requires
            old(self).max_tokens >= 1,
            old(self).enqueued < usize::MAX,
        ensures
            (final(self)@, a) == old(self)@.pump(),
    {
        self.phase = Phase::Tick;
        if self.enqueued < self.max_tokens - 1 {
            self.enqueued = self.enqueued + 1;
            Action::Next
        } else {
            Action::Drain
        }
    }

    /// The token was sent, or the client is gone.
    pub fn sent(&mut self, delivered: bool) -> (a: Action)
        requires
            old(self)@.wf(),
            old(self).phase == Phase::Send || old(self).phase == Phase::SendPiped,
        ensures
            (final(self)@, a) == old(self)@.on_sent(delivered),
            final(self)@.wf(),
    {
        let piped: bool = match self.phase {
            Phase::SendPiped => true,
            _ => false,
        };
        if !delivered {
            self.phase = Phase::End;
            return Action::Quit { discard: piped && self.landed < self.enqueued };
        }
        self.sent = self.sent + 1;
        if piped {
            if self.landed == self.max_tokens - 1 {
                self.phase = Phase::End;
                return Action::Finish { reason: FinishReason::Length, discard: false };
            }
            return self.pump();
        }
        match self.route {
            Route::Host => {
                self.phase = Phase::Forward;
                Action::Forward(self.token)
            },
            Route::Pipe => {
                if self.max_tokens == 1 {
                    self.phase = Phase::End;
                    Action::Finish { reason: FinishReason::Length, discard: false }
                } else {
                    self.phase = Phase::Begin;
                    Action::Begin { token: self.token, pos: self.rows }
                }
            },
            Route::Fallback => {
                if self.sent >= self.max_tokens {
                    self.phase = Phase::End;
                    Action::Finish { reason: FinishReason::Length, discard: false }
                } else {
                    self.phase = Phase::Forward;
                    Action::Forward(self.token)
                }
            },
        }
    }

    /// The pipe began, or could not: then the host finishes the run.
    pub fn begun(&mut self, ok: bool) -> (a: Action)
        requires
            old(self)@.wf(),
            old(self).phase == Phase::Begin,
        ensures
            (final(self)@, a) == old(self)@.on_begun(ok),
            final(self)@.wf(),
    {
        if ok {
            self.enqueued = 1;
            self.landed = 0;
            self.pump()
        } else {
            self.route = Route::Fallback;
            self.phase = Phase::Forward;
            Action::Forward(self.token)
        }
    }

    /// A tick's token landed.
    pub fn landed(&mut self, t: u32) -> (a: Action)
        requires
            old(self)@.wf(),
            old(self).phase == Phase::Tick,
        ensures
            (final(self)@, a) == old(self)@.on_landed(t),
            final(self)@.wf(),
    {
        self.landed = self.landed + 1;
        if has_token(&self.stop_tokens, t) {
            self.phase = Phase::End;
            return Action::Finish {
                reason: FinishReason::Stop,
                discard: self.landed < self.enqueued,
            };
        }
        self.history.push(t);
        self.token = t;
        self.phase = Phase::SendPiped;
        Action::Send(t)
    }

    /// The token was fed and its logits are here.
    pub fn forwarded(&mut self) -> (a: Action)
        requires
            old(self)@.wf(),
            old(self).phase == Phase::Forward,
        ensures
            (final(self)@, a) == old(self)@.on_forwarded(),
            final(self)@.wf(),
    {
        match self.route {
            Route::Host => {
                if self.sent >= self.max_tokens {
                    self.phase = Phase::End;
                    return Action::Finish { reason: FinishReason::Length, discard: false };
                }
            },
            _ => {},
        }
        self.phase = Phase::Pick;
        Action::Pick
    }
}

/// The statistics of a serial run: it has no paged pool, and drafts nothing.
pub fn serial_stats(submitted: Option<u64>, admitted: u64, prefilled: u64, now: u64) -> (r: RunStats)
    ensures
        r == (RunStats {
            queued_ms: match submitted {
                Some(t) => request::millis(request::span(t as int, admitted as int)) as u32,
                None => 0,
            },
            prefill_ms: request::millis(request::span(admitted as int, prefilled as int)) as u32,
            decode_ms: request::millis(request::span(prefilled as int, now as int)) as u32,
            spec_drafted: 0,
            spec_accepted: 0,
            kv_pages: 0,
        }),
{
    RunStats {
        queued_ms: match submitted {
            Some(t) => dur_ms(admitted.saturating_sub(t)),
            None => 0,
        },
        prefill_ms: dur_ms(prefilled.saturating_sub(admitted)),
        decode_ms: dur_ms(now.saturating_sub(prefilled)),
        spec_drafted: 0,
        spec_accepted: 0,
        kv_pages: 0,
    }
}

/// How the prompt of a request goes in.
pub fn prefill_kind(multimodal: bool, by_token: bool) -> (k: PrefillKind)
    ensures
        k == (if multimodal {
            PrefillKind::Multimodal
        } else if by_token {
            PrefillKind::Tokens
        } else {
            PrefillKind::Stream
        }),
{
    if multimodal {
        PrefillKind::Multimodal
    } else if by_token {
        PrefillKind::Tokens
    } else {
        PrefillKind::Stream
    }
}

/// One step of a run, whatever happened.
pub open spec fn step(s: SerialView, t: SerialView, a: Action) -> bool {
    match s.phase {
        Phase::Prefill => exists|rows: u32| (t, a) == #[trigger] s.on_prefilled(rows),
        Phase::Pick => exists|x: u32| (t, a) == #[trigger] s.on_picked(x),
        Phase::Send => exists|ok: bool| (t, a) == #[trigger] s.on_sent(ok),
        Phase::SendPiped => exists|ok: bool| (t, a) == #[trigger] s.on_sent(ok),
        Phase::Begin => exists|ok: bool| (t, a) == #[trigger] s.on_begun(ok),
        Phase::Tick => exists|x: u32| (t, a) == #[trigger] s.on_landed(x),
        Phase::Forward => (t, a) == s.on_forwarded(),
        Phase::End => false,
    }
}

/// Every step keeps a run well-formed, so a run never sends more tokens than its limit.
pub proof fn law_steps_keep_the_limit(s: SerialView, t: SerialView, a: Action)
    requires
        s.wf(),
        step(s, t, a),
    ensures
        t.wf(),
        t.sent <= t.max_tokens,
{
}

/// A run that ends at its limit sent exactly that many tokens.
pub proof fn law_length_means_the_limit(s: SerialView, t: SerialView, a: Action)
    requires
        s.wf(),
        step(s, t, a),
        a matches Action::Finish { reason, .. } && reason == FinishReason::Length,
    ensures
        t.sent == t.max_tokens,
{
}

/// Nothing is left in flight: however a run over the pipe ends, every tick that was enqueued has
/// landed, or exactly one is left, which the end collects and discards.
pub proof fn law_nothing_stays_in_flight(s: SerialView, t: SerialView, a: Action)
    requires
        s.wf(),
        step(s, t, a),
        t.phase == Phase::End,
        s.phase == Phase::Tick || s.phase == Phase::SendPiped,
    ensures
        a matches Action::Finish { discard, .. } ==> t.enqueued == t.landed + if discard {
            1int
        } else {
            0int
        },
        a matches Action::Quit { discard } ==> t.enqueued == t.landed + if discard {
            1int
        } else {
            0int
        },
        a is Finish || a is Quit,
{
}

/// The pipe never runs a tick that the limit has no use for.
pub proof fn law_no_wasted_ticks(s: SerialView, t: SerialView, a: Action)
    requires
        s.wf(),
        step(s, t, a),
        a == Action::Next,
    ensures
        t.enqueued <= t.max_tokens - 1,
        t.enqueued == t.landed + 2,
{
}

/// Stop tokens are never sent.
pub proof fn law_stop_tokens_are_never_sent(s: SerialView, t: SerialView, a: Action)
    requires
        s.wf(),
        step(s, t, a),
        a is Send,
    ensures
        !s.stop_tokens.contains(a->Send_0),
        t.history == s.history.push(a->Send_0),
{
}

/// The window is never overrun: rows and tokens together stay inside it, and a prompt that leaves
/// no room, or asks for no token, gets none, whatever the route.
pub proof fn law_serial_stays_in_the_window(s: SerialView, rows: u32)
    requires
        s.wf(),
        s.phase == Phase::Prefill,
    ensures
        ({
            let t = s.on_prefilled(rows).0;
            rows <= s.max_ctx ==> rows + t.max_tokens <= s.max_ctx
        }),
        s.limit(rows) == 0 <==> rows >= s.max_ctx || s.max_tokens == 0,
        s.limit(rows) == 0 ==> s.on_prefilled(rows) == (
            (SerialView { rows, max_tokens: 0, ..s }).ended(),
            Action::Finish { reason: FinishReason::Length, discard: false },
        ),
{
}

/// A sequence stops only at a stop token, drawn or landed, and always there: the token is neither
/// sent nor kept.
pub proof fn law_serial_stops_only_at_a_stop_token(s: SerialView, t: u32)
    ensures
        s.stop_tokens.contains(t) <==> (s.on_picked(t).1 matches Action::Finish { reason, .. }
            && reason == FinishReason::Stop),
        s.stop_tokens.contains(t) <==> (s.on_landed(t).1 matches Action::Finish { reason, .. }
            && reason == FinishReason::Stop),
        !s.stop_tokens.contains(t) ==> s.on_picked(t).1 == Action::Send(t) && s.on_landed(t).1
            == Action::Send(t),
        !s.stop_tokens.contains(t) ==> s.on_picked(t).0.token == t && s.on_landed(t).0.token == t,
        s.stop_tokens.contains(t) ==> s.on_picked(t).0.history == s.history && s.on_landed(
            t,
        ).0.history == s.history,
{
}

/// A sequence ends only for a reason: a stop token, its limit reached, or a client that is gone.
pub proof fn law_serial_ends_for_a_reason(s: SerialView, t: SerialView, a: Action)
    requires
        s.wf(),
        step(s, t, a),
    ensures
        t.phase == Phase::End <==> a is Finish || a is Quit,
        a is Quit ==> s.phase == Phase::Send || s.phase == Phase::SendPiped,
        a matches Action::Finish { reason, .. } ==> reason == FinishReason::Stop || t.sent
            == t.max_tokens,
        t.stop_tokens == s.stop_tokens && t.max_ctx == s.max_ctx,
        t.sent == s.sent || t.sent == s.sent + 1,
        t.sent == s.sent + 1 ==> s.phase == Phase::Send || s.phase == Phase::SendPiped,
        t.history == s.history || a is Send,
{
}

/// A token that was delivered is counted, and what runs next is its successor: it is fed to the
/// model on the host's route, and begins the pipe behind the prompt's rows on the other, unless it
/// was the last. One that was not delivered ends the sequence uncounted.
pub proof fn law_delivered_tokens_are_fed_on(s: SerialView)
    requires
        s.wf(),
        s.phase == Phase::Send,
    ensures
        s.on_sent(false).1 == (Action::Quit { discard: false }),
        s.on_sent(false).0.sent == s.sent,
        s.on_sent(true).0.sent == s.sent + 1,
        s.route == Route::Host ==> s.on_sent(true).1 == Action::Forward(s.token),
        s.route == Route::Pipe && s.max_tokens > 1 ==> s.on_sent(true).1 == (Action::Begin {
            token: s.token,
            pos: s.rows,
        }),
        s.route == Route::Pipe && s.max_tokens == 1 ==> s.on_sent(true).1 == (Action::Finish {
            reason: FinishReason::Length,
            discard: false,
        }),
        s.route == Route::Fallback && s.sent + 1 < s.max_tokens ==> s.on_sent(true).1
            == Action::Forward(s.token),
        s.route == Route::Fallback && s.sent + 1 == s.max_tokens ==> s.on_sent(true).1 == (
        Action::Finish { reason: FinishReason::Length, discard: false }),
{
}

/// A pipe that does not begin falls back to the host and feeds the same token; one that begins
/// keeps a tick ahead of the one that lands, as long as there are tokens to come.
pub proof fn law_pipes_keep_one_tick_ahead(s: SerialView)
    requires
        s.wf(),
        s.phase == Phase::Begin,
    ensures
        s.on_begun(false).1 == Action::Forward(s.token),
        s.on_begun(false).0.route == Route::Fallback,
        s.max_tokens > 2 ==> s.on_begun(true).1 == Action::Next && s.on_begun(true).0.enqueued == 2,
        s.max_tokens == 2 ==> s.on_begun(true).1 == Action::Drain && s.on_begun(true).0.enqueued
            == 1,
        s.on_begun(true).0.landed == 0,
{
}

/// Behind a piped token that was delivered, the next tick is put in while tokens are still to come,
/// those in flight are drained when none is, and the sequence ends when the last has landed.
pub proof fn law_piped_tokens_run_to_the_limit(s: SerialView)
    requires
        s.wf(),
        s.phase == Phase::SendPiped,
    ensures
        s.on_sent(true).1 == Action::Next <==> s.enqueued + 1 < s.max_tokens && s.landed + 1
            < s.max_tokens,
        s.on_sent(true).1 == Action::Drain <==> s.enqueued + 1 == s.max_tokens && s.landed + 1
            < s.max_tokens,
        s.on_sent(true).1 is Finish <==> s.landed + 1 == s.max_tokens,
        s.on_sent(false).1 == (Action::Quit { discard: s.landed < s.enqueued }),
        s.on_sent(true).0.landed == s.landed,
{
}

/// A forwarded token leads to the next draw, except on the host's route behind the last.
pub proof fn law_forwarded_tokens_lead_to_a_draw(s: SerialView)
    requires
        s.wf(),
        s.phase == Phase::Forward,
    ensures
        s.on_forwarded().1 == Action::Pick <==> s.sent < s.max_tokens,
        s.on_forwarded().1 is Finish <==> s.sent == s.max_tokens,
        s.on_forwarded().0.sent == s.sent,
        s.on_forwarded().0.history == s.history,
{
}

/// A prompt that is in leads to the first draw, with as much of the limit as the window leaves.
pub proof fn law_serial_limit_is_what_the_window_leaves(s: SerialView, rows: u32)
    ensures
        s.limit(rows) <= s.max_tokens,
        rows <= s.max_ctx ==> s.limit(rows) + rows <= s.max_ctx,
        rows <= s.max_ctx && s.limit(rows) < s.max_tokens ==> s.limit(rows) + rows == s.max_ctx,
        s.on_prefilled(rows).0.rows == rows,
        s.limit(rows) > 0 ==> s.on_prefilled(rows).1 == Action::Pick && s.on_prefilled(
            rows,
        ).0.max_tokens == s.limit(rows),
        s.on_prefilled(rows).0.history == s.history,
{
}

/// A sequence goes down the pipe only where the device can draw it: no logprobs, no grammar, and a
/// backend and a sampler that can.
pub proof fn law_pipes_need_the_device(req: GenRequest, supported: bool)
    ensures
        pipes(req, supported) ==> supported && req.sampling.device_plannable,
        req.logprobs is Some || req.constrained ==> !pipes(req, supported),
        supported && req.sampling.device_plannable && req.logprobs is None && !req.constrained
            ==> pipes(req, supported),
{
}

} // verus!
