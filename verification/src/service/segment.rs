//! A one-ahead speculative segment: the next round is enqueued before the last one's tokens are
//! read, so that the device never waits for the host between rounds.
use vstd::prelude::*;

verus! {

/// A segment of rounds at one fixed depth. Rounds leave their tokens in the two halves of one
/// buffer, in turn.
#[derive(Debug, Clone, Copy, PartialEq, Eq, Structural)]
pub struct Segment {
    /// More rounds may be enqueued.
    pub alive: bool,
    /// Rounds that are enqueued and not read.
    pub inflight: usize,
    /// Rounds that were read.
    pub rounds: u64,
    /// The half that the next round to be read left its tokens in.
    pub half: usize,
}

impl Segment {
    /// At most two rounds are in flight, and the next one to be read lies where its number says.
    pub open spec fn wf(self) -> bool {
        &&& self.inflight <= 2
        &&& self.half == self.rounds % 2
    }

    /// The half that the round of this number writes.
    pub open spec fn half_of(round: int) -> int {
        round % 2
    }

    /// The round of this number is in flight.
    pub open spec fn holds(self, round: int) -> bool {
        self.rounds <= round < self.rounds + self.inflight
    }

    /// The segment once its oldest round was read. One that ended a sequence is the last but for
    /// those in flight.
    pub open spec fn read(self, ended: bool) -> Segment {
        Segment {
            alive: self.alive && !ended,
            inflight: (self.inflight - 1) as usize,
            rounds: (self.rounds + 1) as u64,
            half: (1 - self.half) as usize,
        }
    }

    /// The segment after `n` reads that end nothing.
    pub open spec fn drained(self, n: nat) -> Segment
        decreases n,
    {
        if n == 0 {
            self
        } else {
            self.read(false).drained((n - 1) as nat)
        }
    }

    /// Nothing is in flight yet.
    pub fn new() -> (s: Self)
        ensures
            s == (Segment { alive: true, inflight: 0, rounds: 0, half: 0 }),
            s.wf(),
    {
        Segment { alive: true, inflight: 0, rounds: 0, half: 0 }
    }

    /// Whether one more round may be enqueued.
    pub fn enqueues(&self) -> (b: bool)
        ensures
            b == (self.alive && self.inflight < 2),
    {
        self.alive && self.inflight < 2
    }

    /// A round was enqueued; or it could not be, and the segment runs out.
    pub fn offered(&mut self, ok: bool)
        requires
            old(self).wf(),
            old(self).alive,
            old(self).inflight < 2,
        ensures
            *final(self) == (if ok {
                Segment { inflight: (old(self).inflight + 1) as usize, ..*old(self) }
            } else {
                Segment { alive: false, ..*old(self) }
            }),
            final(self).wf(),
    {
        if ok {
            self.inflight = self.inflight + 1;
        } else {
            self.alive = false;
        }
    }

    /// The half to read next; `None` when the segment is over.
    pub fn reads(&self) -> (h: Option<usize>)
        ensures
            h == (if self.inflight == 0 {
                None
            } else {
                Some(self.half)
            }),
    {
        if self.inflight == 0 {
            None
        } else {
            Some(self.half)
        }
    }

    /// The oldest round was read.
    pub fn landed(&mut self, ended: bool)
        requires
            old(self).wf(),
            old(self).inflight > 0,
            old(self).rounds < u64::MAX,
        ensures
            *final(self) == old(self).read(ended),
            final(self).wf(),
    {
        self.inflight = self.inflight - 1;
        self.rounds = self.rounds + 1;
        self.half = 1 - self.half;
        if ended {
            self.alive = false;
        }
    }

    /// The tokens could not be read: the segment is over, whatever is in flight.
    pub fn lost(&mut self)
        requires
            old(self).wf(),
        ensures
            *final(self) == (Segment { alive: false, inflight: 0, ..*old(self) }),
            final(self).wf(),
    {
        self.alive = false;
        self.inflight = 0;
    }
}

/// The position that a slot at `pos` may reach before the host sees its tokens: two rounds of
/// `depth` rows.
pub fn reach(pos: u32, depth: u32) -> (p: u32)
    requires
        pos + 2 * depth <= u32::MAX,
    ensures
        p == pos + 2 * depth,
{
    pos + 2 * depth
}

/// Tokens are read in the order of their rounds, and none is overwritten before it is read: the
/// half to read next is that of the oldest round in flight, and rounds in flight write apart.
pub proof fn law_rounds_are_read_in_order(s: Segment, a: int, b: int)
    requires
        s.wf(),
        s.inflight > 0,
        s.holds(a),
        s.holds(b),
        a != b,
    ensures
        s.half == Segment::half_of(s.rounds as int),
        Segment::half_of(a) != Segment::half_of(b),
{
}

/// A segment that runs out reads every round in flight, and is then over.
pub proof fn law_segments_run_out(s: Segment)
    requires
        s.wf(),
        !s.alive,
        s.rounds + s.inflight <= u64::MAX,
    ensures
        s.drained(s.inflight as nat).inflight == 0,
        !s.drained(s.inflight as nat).alive,
        s.drained(s.inflight as nat).rounds == s.rounds + s.inflight,
    decreases s.inflight,
{
    if s.inflight > 0 {
        law_segments_run_out(s.read(false));
    }
}

/// Reading a round lands the oldest in flight: one fewer is in flight, the next is the one behind
/// it, in the other half; an end is never taken back.
pub proof fn law_reading_lands_the_oldest(s: Segment, ended: bool, r: int)
    requires
        s.wf(),
        s.inflight > 0,
        s.rounds < u64::MAX,
    ensures
        s.read(ended).wf(),
        s.holds(s.rounds as int),
        !s.read(ended).holds(s.rounds as int),
        r != s.rounds ==> (s.read(ended).holds(r) <==> s.holds(r)),
        s.read(ended).half != s.half,
        s.read(ended).alive <==> s.alive && !ended,
        s.read(ended).inflight + 1 == s.inflight,
        s.read(ended).rounds == s.rounds + 1,
{
}

} // verus!
