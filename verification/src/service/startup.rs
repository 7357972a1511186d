//! Bringing the engine up and down: how wide it batches, what it warms up with, and the shutdown
//! handshake.
use crate::error::GenError;
use vstd::prelude::*;

verus! {

/// What follows a try at batching.
#[derive(Debug)]
pub enum Bringup {
    /// Serve, `cap` sequences wide, on the batched loop or the serial one.
    Serve { cap: usize, batched: bool },
    /// Try again at this width.
    Retry(usize),
    /// Do not start, and say why.
    Refuse(String),
}

/// Why a single-user engine does not start without its batched lane.
pub open spec fn lane_text() -> Seq<char> {
    "the batched serving lane does not fit on this GPU.\n\nIt would still start without that lane, but with no prefix cache (every turn re-prefills the whole conversation from scratch), no continuous batching, and on k-quant weights the untuned reference GEMV instead of the tuned W4A8 one. Measured on a 27B Q4_K at max_ctx 65536: 5.9 tok/s, and 57,365 prefill tokens for a 20k conversation. That is not a serve worth starting quietly.\n\nMake the lane fit:\n  - lower max_ctx (the lane's prefill scratch and its KV both scale with it)\n  - raise vram_budget, or free VRAM on this card\n  - lower max_batch if it is above 1"@
}

/// The width to try first.
pub open spec fn opening_width(max_batch: usize) -> usize {
    if max_batch > 1 {
        max_batch
    } else {
        1
    }
}

/// The width to try first.
pub fn first_width(max_batch: usize) -> (w: usize)
    ensures
        w == opening_width(max_batch),
{
    if max_batch > 1 {
        max_batch
    } else {
        1
    }
}

/// What follows a try at width `w` that was answered with `reply`. A wide engine halves its width
/// until it fits and falls back to the serial loop; a single-user engine that does not fit is
/// refused, for the serial loop would cost it the prefix cache. A configuration that cannot run is
/// refused as it is worded.
pub open spec fn follows(
    max_batch: usize,
    w: usize,
    reply: Result<usize, GenError>,
    b: Bringup,
) -> bool {
    match reply {
        Ok(c) => if max_batch > 1 {
            b == (Bringup::Serve { cap: c, batched: c > 1 })
        } else {
            b == (Bringup::Serve {
                cap: if c > 1 {
                    c
                } else {
                    1
                },
                batched: true,
            })
        },
        Err(GenError::Config(m)) => b matches Bringup::Refuse(why) && why@ == m@,
        Err(GenError::OutOfMemory) if max_batch <= 1 => b matches Bringup::Refuse(why) && why@
            == lane_text(),
        Err(_) => if max_batch > 1 && w > 2 {
            b == Bringup::Retry((w / 2) as usize)
        } else {
            b == (Bringup::Serve { cap: 1, batched: false })
        },
    }
}

/// What follows a try at width `w` that was answered with `reply`.
pub fn next_step(max_batch: usize, w: usize, reply: Result<usize, GenError>) -> (b: Bringup)
    ensures
        follows(max_batch, w, reply, b),
{
    match reply {
        Ok(c) => {
            if max_batch > 1 {
                Bringup::Serve { cap: c, batched: c > 1 }
            } else if c > 1 {
                Bringup::Serve { cap: c, batched: true }
            } else {
                Bringup::Serve { cap: 1, batched: true }
            }
        },
        Err(e) => {
            match e {
                GenError::Config(m) => return Bringup::Refuse(m),
                GenError::OutOfMemory => {
                    if max_batch <= 1 {
                        return Bringup::Refuse(
                            "the batched serving lane does not fit on this GPU.\n\nIt would still start without that lane, but with no prefix cache (every turn re-prefills the whole conversation from scratch), no continuous batching, and on k-quant weights the untuned reference GEMV instead of the tuned W4A8 one. Measured on a 27B Q4_K at max_ctx 65536: 5.9 tok/s, and 57,365 prefill tokens for a 20k conversation. That is not a serve worth starting quietly.\n\nMake the lane fit:\n  - lower max_ctx (the lane's prefill scratch and its KV both scale with it)\n  - raise vram_budget, or free VRAM on this card\n  - lower max_batch if it is above 1".to_owned(),
                        );
                    }
                },
                _ => {},
            }
            if max_batch > 1 && w > 2 {
                Bringup::Retry(w / 2)
            } else {
                Bringup::Serve { cap: 1, batched: false }
            }
        },
    }
}

/// The search for a width ends: a retry is narrower than what failed, and still at least one wide.
pub proof fn law_backstop_narrows(
    max_batch: usize,
    w: usize,
    reply: Result<usize, GenError>,
    b: Bringup,
)
    requires
        follows(max_batch, w, reply, b),
    ensures
        b matches Bringup::Retry(next) ==> 1 <= next < w,
{
}

/// An engine is refused only for a configuration that cannot run, or for a single-user lane that
/// does not fit; and a configuration that cannot run is never served some other way.
pub proof fn law_refusals_are_named(
    max_batch: usize,
    w: usize,
    reply: Result<usize, GenError>,
    b: Bringup,
)
    requires
        follows(max_batch, w, reply, b),
    ensures
        b is Refuse <==> (reply matches Err(e) && (e is Config || (e is OutOfMemory && max_batch
            <= 1))),
{
}

/// The batched loop never runs zero wide.
pub fn loop_width(cap: usize) -> (w: usize)
    ensures
        w == (if cap >= 1 {
            cap
        } else {
            1
        }),
{
    if cap >= 1 {
        cap
    } else {
        1
    }
}

/// Tokens generated by the serial warm-up, behind a prompt of as many.
pub const SERIAL_WARM_TOKENS: usize = 4;

/// Tokens generated by each sequence of the batched warm wave.
pub const WAVE_WARM_TOKENS: usize = 8;

/// The prompt of the serial warm-up.
pub fn serial_warm_prompt() -> (p: Vec<u32>)
    ensures
        p@ == seq![1u32, 2, 3, 4],
{
    let p: Vec<u32> = vec![1, 2, 3, 4];
    assert(p@ =~= seq![1u32, 2, 3, 4]);
    p
}

/// Tokens in the `i`th prompt of the batched warm wave: the first is long enough for the prefill
/// span arms, and none takes more than half the window, but for the least that a prompt has.
pub open spec fn warm_len(i: int, max_ctx: usize) -> int {
    let want: int = if i == 0 {
        256
    } else {
        40
    };
    let half = (if max_ctx >= 8 {
        max_ctx as int
    } else {
        8
    }) / 2;
    let len = if want <= half {
        want
    } else {
        half
    };
    if len >= 4 {
        len
    } else {
        4
    }
}

/// The `j`th token of the `i`th warm prompt, clear of both ends of the vocabulary.
pub open spec fn warm_token(i: int, j: int, vocab: usize) -> u32 {
    let v = if vocab >= 128 {
        vocab as int
    } else {
        128
    };
    ((i * 7919 + j * 104_729 + 17) % (v - 64) + 32) as u32
}

/// The `i`th prompt of the batched warm wave.
pub fn warm_prompt(i: usize, vocab: usize, max_ctx: usize) -> (p: Vec<u32>)
    requires
        i * 7919 + 255 * 104_729 + 17 <= usize::MAX,
    ensures
        p@ == Seq::new(
            warm_len(i as int, max_ctx) as nat,
            |j: int| warm_token(i as int, j, vocab),
        ),
{
    let v: usize = if vocab >= 128 {
        vocab
    } else {
        128
    };
    let ctx: usize = if max_ctx >= 8 {
        max_ctx
    } else {
        8
    };
    let half: usize = ctx / 2;
    let want: usize = if i == 0 {
        256
    } else {
        40
    };
    let len: usize = if want <= half {
        want
    } else {
        half
    };
    let mut p: Vec<u32> = Vec::new();
    let mut j: usize = 0;
    while j < len
        invariant
            j <= len,
            len == warm_len(i as int, max_ctx),
            len <= 256,
            i * 7919 + 255 * 104_729 + 17 <= usize::MAX,
            v >= 128,
            v == (if vocab >= 128 {
                vocab
            } else {
                128
            }),
            p@ == Seq::new(j as nat, |j: int| warm_token(i as int, j, vocab)),
        decreases len - j,
    {
        assert(j * 104_729 <= 255 * 104_729);
        let x: usize = (i * 7919 + j * 104_729 + 17) % (v - 64) + 32;
        p.push(
            #[verifier::truncate]
            (x as u32),
        );
        j = j + 1;
        assert(p@ =~= Seq::new(j as nat, |j: int| warm_token(i as int, j, vocab)));
    }
    p
}

/// Warm prompts are drawn from the vocabulary, and leave half the window for what they generate.
pub proof fn law_warm_prompts_are_servable(i: int, j: int, vocab: usize, max_ctx: usize)
    requires
        0 <= i,
        0 <= j < warm_len(i, max_ctx),
        128 <= vocab <= u32::MAX,
        8 <= max_ctx,
    ensures
        32 <= warm_token(i, j, vocab) < vocab - 32,
        2 * warm_len(i, max_ctx) <= max_ctx,
{
}

/// The shutdown handshake: a stop is asked for, and the engine thread says when it has let go of
/// the device.
#[derive(Debug, Clone, Copy, PartialEq, Eq, Structural)]
pub struct ShutdownCtl {
    pub stop: bool,
    pub done: bool,
}

impl ShutdownCtl {
    /// A stop was asked for.
    pub open spec fn asked(self) -> ShutdownCtl {
        ShutdownCtl { stop: true, ..self }
    }

    /// The engine thread is through.
    pub open spec fn through(self) -> ShutdownCtl {
        ShutdownCtl { done: true, ..self }
    }

    /// Nobody has asked for a stop, and nothing is done.
    pub fn new() -> (c: Self)
        ensures
            c == (ShutdownCtl { stop: false, done: false }),
    {
        ShutdownCtl { stop: false, done: false }
    }

    /// Ask the engine thread to leave its loop.
    pub fn request(&mut self)
        ensures
            *final(self) == old(self).asked(),
    {
        self.stop = true;
    }

    /// A stop was asked for.
    pub fn stop_requested(&self) -> (b: bool)
        ensures
            b == self.stop,
    {
        self.stop
    }

    /// The engine thread is through, however it got there.
    pub fn finish(&mut self)
        ensures
            *final(self) == old(self).through(),
    {
        self.done = true;
    }

    /// What a wait of at most `timeout_ms` answers after `waited_ms`: the free is confirmed, or
    /// the time is up; otherwise it goes on.
    pub fn wait_done(&self, waited_ms: u64, timeout_ms: u64) -> (r: Option<bool>)
        ensures
            r == (if self.done {
                Some(true)
            } else if waited_ms >= timeout_ms {
                Some(false)
            } else {
                None
            }),
    {
        if self.done {
            Some(true)
        } else if waited_ms >= timeout_ms {
            Some(false)
        } else {
            None
        }
    }
}

/// What an idle loop does next.
#[derive(Debug, Clone, Copy, PartialEq, Eq, Structural)]
pub enum SerialTurn {
    Run,
    Wait,
    Leave,
}

/// What an idle loop does after a wait for a request, the serial one and the batched one with
/// nothing in flight: a request is run even when a stop was
/// asked for; without one the loop leaves on a stop, and whenever no sender is left.
pub fn serial_turn(arrived: bool, senders_gone: bool, ctl: &ShutdownCtl) -> (t: SerialTurn)
    ensures
        t == (if arrived {
            SerialTurn::Run
        } else if senders_gone || ctl.stop {
            SerialTurn::Leave
        } else {
            SerialTurn::Wait
        }),
{
    if arrived {
        SerialTurn::Run
    } else if senders_gone || ctl.stop_requested() {
        SerialTurn::Leave
    } else {
        SerialTurn::Wait
    }
}

/// Whether a turn of the batched loop leaves before it looks at any request.
pub open spec fn leaves(ctl: ShutdownCtl) -> bool {
    ctl.stop
}

/// Whether this turn of the batched loop leaves, before it looks at any request.
pub fn batched_turn(ctl: &ShutdownCtl) -> (leave: bool)
    ensures
        leave == ctl.stop,
        leave == leaves(*ctl),
{
    ctl.stop_requested()
}

/// Once a stop was asked for, no turn of the batched loop takes a request: nothing takes the wish
/// back, so every later turn leaves first.
pub proof fn law_stop_is_final(ctl: ShutdownCtl)
    ensures
        leaves(ctl.asked()),
        leaves(ctl) ==> leaves(ctl.asked()) && leaves(ctl.through()),
{
}

/// A batched server that came up narrower than asked serves at the width it got; one that got a
/// single slot is no batched server; and one that was asked for a single slot serves it through the
/// batched lane.
pub proof fn law_bringup_serves_what_it_got(max_batch: usize, w: usize, c: usize, b: Bringup)
    requires
        follows(max_batch, w, Ok(c), b),
    ensures
        b matches Bringup::Serve { cap, batched } && (max_batch > 1 ==> cap == c && (batched <==> c
            >= 2)) && (max_batch <= 1 ==> batched && cap >= 1 && cap >= c && (cap == c || cap == 1)),
{
}

/// A width that failed for want of memory is halved, as long as two slots and more are left to
/// halve; behind that the server comes up unbatched.
pub proof fn law_failed_widths_are_halved(max_batch: usize, w: usize, e: GenError, b: Bringup)
    requires
        follows(max_batch, w, Err(e), b),
        e !is Config,
        max_batch > 1,
    ensures
        w > 2 ==> (b matches Bringup::Retry(n) && 2 * n <= w < 2 * n + 2),
        w <= 2 ==> (b matches Bringup::Serve { cap, batched } && cap == 1 && !batched),
        opening_width(max_batch) == max_batch,
        opening_width(0) == 1 && opening_width(1) == 1,
{
}

/// The first warm prompt is the longest, and every one is four tokens at least, no longer than its
/// target, and shorter than that only where half the window is.
pub proof fn law_warm_prompts_have_their_length(i: int, max_ctx: usize)
    requires
        i >= 0,
    ensures
        warm_len(i, max_ctx) >= 4,
        i == 0 ==> warm_len(i, max_ctx) <= 256,
        i > 0 ==> warm_len(i, max_ctx) <= 40,
        i == 0 && max_ctx >= 512 ==> warm_len(i, max_ctx) == 256,
        i > 0 && max_ctx >= 80 ==> warm_len(i, max_ctx) == 40,
        i == 0 && 8 <= max_ctx < 512 ==> max_ctx - 1 <= 2 * warm_len(i, max_ctx) <= max_ctx,
        i > 0 && 8 <= max_ctx < 80 ==> max_ctx - 1 <= 2 * warm_len(i, max_ctx) <= max_ctx,
{
}

/// Asking for a stop and being through with it are two things: neither sets the other, and neither
/// is taken back.
pub proof fn law_stop_and_done_are_apart(ctl: ShutdownCtl)
    ensures
        ctl.asked().stop && ctl.asked().done == ctl.done,
        ctl.through().done && ctl.through().stop == ctl.stop,
        leaves(ctl) <==> ctl.stop,
{
}

/// A warm token moves on by a fixed stride from place to place and by another from prompt to prompt,
/// round the vocabulary without its ends.
pub proof fn law_warm_tokens_stride(i: int, j: int, vocab: usize)
    requires
        0 <= i,
        0 <= j,
        128 <= vocab <= u32::MAX,
    ensures
        (warm_token(i, j + 1, vocab) - warm_token(i, j, vocab) - 104_729) % (vocab - 64) == 0,
        (warm_token(i + 1, j, vocab) - warm_token(i, j, vocab) - 7919) % (vocab - 64) == 0,
        warm_token(0, 0, vocab) == 49,
{
    let m = vocab - 64;
    let a = i * 7919 + j * 104_729 + 17;
    lemma_strides(a, 104_729, m);
    lemma_strides(a, 7919, m);
    assert(a + 104_729 == i * 7919 + (j + 1) * 104_729 + 17);
    assert(a + 7919 == (i + 1) * 7919 + j * 104_729 + 17);
    vstd::arithmetic::div_mod::lemma_mod_bound(a, m);
    vstd::arithmetic::div_mod::lemma_mod_bound(a + 104_729, m);
    vstd::arithmetic::div_mod::lemma_mod_bound(a + 7919, m);
    vstd::arithmetic::div_mod::lemma_small_mod(17, m as nat);
}

proof fn lemma_strides(a: int, d: int, m: int)
    requires
        m > 0,
    ensures
        ((a + d) % m - a % m - d) % m == 0,
{
    vstd::arithmetic::div_mod::lemma_fundamental_div_mod(a, m);
    vstd::arithmetic::div_mod::lemma_fundamental_div_mod(a + d, m);
    let q = a / m - (a + d) / m;
    assert((a + d) % m - a % m - d == q * m) by (nonlinear_arith)
        requires
            a == m * (a / m) + a % m,
            a + d == m * ((a + d) / m) + (a + d) % m,
            q == a / m - (a + d) / m,
    ;
    vstd::arithmetic::div_mod::lemma_mod_multiples_basic(q, m);
}

} // verus!
