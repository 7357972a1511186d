//! What the model remembers between walks: each slot's position and token stream, and the captured
//! ticks. A request that does not fit is refused before anything is touched; a cursor moves only once
//! its walk has run.
use crate::qwen4exp::config::Qwen4ExpConfig;
use crate::qwen4exp::dense::DensePlane;
use crate::qwen4exp::kq::Embed;
use crate::qwen4exp::mix::HcW;
use crate::qwen4exp::stage;
use crate::qwen4exp::stage::{fourfold, push_all, push_positions, push_slot, stage_run, stage_wave, Planes, Run, WavePlanes};
use crate::qwen4exp::walk::Qwen4ExpLayer;
use crate::text;
use crate::text::push_decimal;
use vstd::prelude::*;
use vstd::string::StringExecFns;

verus! {

/// A captured tick, by the handle that its owner keeps it under.
#[derive(Debug, Clone, Copy, PartialEq, Eq, Structural)]
pub struct Q4xSendGraph(pub usize);

/// How a tick runs.
#[derive(Debug, Clone, Copy, PartialEq, Eq, Structural)]
pub enum Tick {
    /// capture it first, then replay the capture
    Capture,
    Replay(Q4xSendGraph),
    /// launch by launch
    Eager,
}

/// How a tick runs: a capture is replayed, and taken where there is none and captures are on.
pub open spec fn tick_of(g: Option<Q4xSendGraph>, capture: bool) -> Tick {
    match g {
        Some(g) => Tick::Replay(g),
        None => if capture {
            Tick::Capture
        } else {
            Tick::Eager
        },
    }
}

/// The model: its shape, its planes, and what its slots remember.
pub struct Qwen4ExpGpu {
    pub cfg: Qwen4ExpConfig,
    pub layers: Vec<Qwen4ExpLayer>,
    pub embed: Embed,
    pub lm_head: DensePlane,
    pub final_mix: HcW,
    /// rows that a walk, and tokens that a slot, can hold
    pub max_tokens: usize,
    /// sequences carried at once
    pub slots: usize,
    /// next position of each slot; zero when nothing is started
    pub pos: Vec<usize>,
    /// each slot's tokens, behind two that start a segment
    pub stream: Vec<Vec<i64>>,
    pub decode_graph: Option<Q4xSendGraph>,
    /// one capture per width
    pub batch_graphs: Vec<Option<Q4xSendGraph>>,
    pub graph_capture: bool,
}

/// What the slots remember.
#[verifier::ext_equal]
pub struct SlotsView {
    pub slots: usize,
    pub max_tokens: usize,
    pub bos: i64,
    pub pos: Seq<usize>,
    pub stream: Seq<Seq<i64>>,
}

impl View for Qwen4ExpGpu {
    type V = SlotsView;

    open spec fn view(&self) -> SlotsView {
        SlotsView {
            slots: self.slots,
            max_tokens: self.max_tokens,
            bos: self.cfg.bos_id as i64,
            pos: self.pos@,
            stream: Seq::new(self.stream@.len(), |i: int| self.stream@[i]@),
        }
    }
}

/// A prompt's stream: two tokens that start a segment, then the prompt.
pub open spec fn primed(bos: i64, ids: Seq<u32>) -> Seq<i64> {
    seq![bos, bos] + Seq::new(ids.len(), |i: int| ids[i] as i64)
}

impl SlotsView {
    /// Every slot has a cursor inside the window, and behind it the stream that it hashes.
    pub open spec fn wf(self) -> bool {
        &&& 1 <= self.slots <= u32::MAX
        &&& self.max_tokens + 16 <= u32::MAX
        &&& self.pos.len() == self.slots
        &&& self.stream.len() == self.slots
        &&& forall|s: int|
            0 <= s < self.slots ==> {
                &&& (#[trigger] self.pos[s]) <= self.max_tokens
                &&& self.pos[s] > 0 ==> self.stream[s].len() >= self.pos[s] + 2
            }
    }

    /// Everything dropped.
    pub open spec fn cleared(self) -> SlotsView {
        SlotsView {
            pos: Seq::new(self.slots as nat, |i: int| 0usize),
            stream: Seq::new(self.slots as nat, |i: int| Seq::empty()),
            ..self
        }
    }

    /// One slot holds a fresh prompt that has not run yet.
    pub open spec fn seeded(self, slot: int, ids: Seq<u32>) -> SlotsView {
        SlotsView {
            pos: self.pos.update(slot, 0),
            stream: self.stream.update(slot, primed(self.bos, ids)),
            ..self
        }
    }

    /// One slot's stream has one more token.
    pub open spec fn fed(self, slot: int, id: u32) -> SlotsView {
        SlotsView { stream: self.stream.update(slot, self.stream[slot].push(id as i64)), ..self }
    }

    /// The first `n` rows' tokens are on their streams.
    pub open spec fn fed_rows(self, rows: Seq<(usize, u32)>, n: int) -> SlotsView
        decreases n,
    {
        if n <= 0 {
            self
        } else {
            self.fed_rows(rows, n - 1).fed(rows[n - 1].0 as int, rows[n - 1].1)
        }
    }

    /// The first `n` prompts are in their slots.
    pub open spec fn seeded_items(self, items: Seq<(usize, Vec<u32>)>, n: int) -> SlotsView
        decreases n,
    {
        if n <= 0 {
            self
        } else {
            self.seeded_items(items, n - 1).seeded(items[n - 1].0 as int, items[n - 1].1@)
        }
    }

    /// One slot's cursor stands at `n`.
    pub open spec fn at(self, slot: int, n: usize) -> SlotsView {
        SlotsView { pos: self.pos.update(slot, n), ..self }
    }

    /// The cursors of the first `n` rows have moved on.
    pub open spec fn stepped(self, rows: Seq<(usize, u32)>, n: int) -> SlotsView
        decreases n,
    {
        if n <= 0 {
            self
        } else {
            let s = self.stepped(rows, n - 1);
            s.at(rows[n - 1].0 as int, (s.pos[rows[n - 1].0 as int] + 1) as usize)
        }
    }

    /// A slot outside the model.
    pub open spec fn outside_text(self, slot: nat) -> Seq<char> {
        "slot "@ + text::decimal(slot) + " but this instance carries "@ + text::decimal(
            self.slots as nat,
        )
    }

    pub open spec fn prompt_text(self, n: nat) -> Seq<char> {
        "prompt of "@ + text::decimal(n) + " tokens; this lane is sized for 1..="@ + text::decimal(
            self.max_tokens as nat,
        )
    }

    pub open spec fn full_text(self) -> Seq<char> {
        "sequence reached "@ + text::decimal(self.max_tokens as nat)
            + " tokens, the size this lane was built for"@
    }

    /// What stands in the way of row `i` of a batched step.
    pub open spec fn row_fault(self, rows: Seq<(usize, u32)>, i: int) -> Option<Seq<char>> {
        let s = rows[i].0;
        if s >= self.slots {
            Some(self.outside_text(s as nat))
        } else if exists|j: int| 0 <= j < i && (#[trigger] rows[j]).0 == s {
            Some("slot "@ + text::decimal(s as nat) + " appears twice in one batched step"@)
        } else if self.pos[s as int] == 0 {
            Some("slot "@ + text::decimal(s as nat) + " has no prompt - prefill it first"@)
        } else if self.pos[s as int] >= self.max_tokens {
            Some(
                "slot "@ + text::decimal(s as nat) + " reached "@ + text::decimal(
                    self.max_tokens as nat,
                ) + " tokens"@,
            )
        } else {
            None
        }
    }

    /// What stands in the way of item `i` of a wave of prompts.
    pub open spec fn item_fault(self, items: Seq<(usize, Vec<u32>)>, i: int) -> Option<Seq<char>> {
        let s = items[i].0;
        if s >= self.slots {
            Some(self.outside_text(s as nat))
        } else if exists|j: int| 0 <= j < i && (#[trigger] items[j]).0 == s {
            Some("slot "@ + text::decimal(s as nat) + " appears twice in one prefill wave"@)
        } else if items[i].1@.len() == 0 {
            Some("a prefill wave carries an empty prompt"@)
        } else {
            None
        }
    }

    /// Every row can step.
    pub open spec fn rows_ok(self, rows: Seq<(usize, u32)>) -> bool {
        rows.len() <= self.max_tokens && forall|i: int|
            0 <= i < rows.len() ==> self.row_fault(rows, i) is None && (#[trigger] rows[i]).0
                < self.slots
    }

    /// What a batched step that cannot run is answered: too many rows, or the first row's fault.
    pub open spec fn rows_refusal(self, rows: Seq<(usize, u32)>, e: Seq<char>) -> bool {
        if rows.len() > self.max_tokens {
            e == text::decimal(rows.len()) + " rows; scratch is sized for "@ + text::decimal(
                self.max_tokens as nat,
            )
        } else {
            exists|i: int|
                {
                    &&& 0 <= i < rows.len()
                    &&& #[trigger] self.row_fault(rows, i) == Some(e)
                    &&& forall|j: int| 0 <= j < i ==> self.row_fault(rows, j) is None
                }
        }
    }
}

/// Rows of the first `n` prompts.
pub open spec fn wave_rows(items: Seq<(usize, Vec<u32>)>, n: int) -> int
    decreases n,
{
    if n <= 0 {
        0
    } else {
        wave_rows(items, n - 1) + items[n - 1].1@.len()
    }
}

/// The runs of the first `n` prompts, one behind the other.
pub open spec fn wave_runs(items: Seq<(usize, Vec<u32>)>, n: int) -> Seq<Run>
    decreases n,
{
    if n <= 0 {
        seq![]
    } else {
        wave_runs(items, n - 1).push(
            Run {
                slot: items[n - 1].0,
                off: wave_rows(items, n - 1) as usize,
                len: items[n - 1].1@.len() as usize,
            },
        )
    }
}

/// The tokens, positions and slots of the first `n` prompts.
pub open spec fn wave_toks(items: Seq<(usize, Vec<u32>)>, n: int) -> Seq<u32>
    decreases n,
{
    if n <= 0 {
        seq![]
    } else {
        wave_toks(items, n - 1) + items[n - 1].1@
    }
}

pub open spec fn wave_pos(items: Seq<(usize, Vec<u32>)>, n: int) -> Seq<u32>
    decreases n,
{
    if n <= 0 {
        seq![]
    } else {
        wave_pos(items, n - 1) + stage::positions(0, items[n - 1].1@.len())
    }
}

pub open spec fn wave_slots(items: Seq<(usize, Vec<u32>)>, n: int) -> Seq<u32>
    decreases n,
{
    if n <= 0 {
        seq![]
    } else {
        wave_slots(items, n - 1) + stage::one_slot(items[n - 1].0 as int, items[n - 1].1@.len())
    }
}

/// What a wave of prompts reads from the host.
pub struct Wave {
    pub runs: Vec<Run>,
    pub planes: Planes,
    pub tables: WavePlanes,
}

impl Wave {
    /// The wave of these prompts: each row at its own prompt's position, in its own slot.
    pub open spec fn is_wave(&self, items: Seq<(usize, Vec<u32>)>) -> bool {
        let n = items.len() as int;
        &&& self.runs@ == wave_runs(items, n)
        &&& self.planes.tok@ == wave_toks(items, n)
        &&& self.planes.pos@ == wave_pos(items, n)
        &&& self.planes.mrope@ == stage::four(wave_pos(items, n))
        &&& self.planes.slots@ == wave_slots(items, n)
        &&& self.tables.is_wave(self.runs@)
    }
}

impl Planes {
    /// One token per row, each in its own slot at its own position.
    pub open spec fn is_rows(&self, v: SlotsView, rows: Seq<(usize, u32)>) -> bool {
        let pos = Seq::new(rows.len(), |i: int| v.pos[rows[i].0 as int] as u32);
        &&& self.tok@ == Seq::new(rows.len(), |i: int| rows[i].1)
        &&& self.pos@ == pos
        &&& self.mrope@ == stage::four(pos)
        &&& self.slots@ == Seq::new(rows.len(), |i: int| rows[i].0 as u32)
    }
}

fn slot_text(slot: usize, tail: &str) -> (e: String)
    ensures
        e@ == "slot "@ + text::decimal(slot as nat) + tail@,
{
    let mut e: String = "slot ".to_owned();
    push_decimal(&mut e, slot as u64);
    e.append(tail);
    e
}

fn outside(slot: usize, slots: usize) -> (e: String)
    ensures
        e@ == "slot "@ + text::decimal(slot as nat) + " but this instance carries "@
            + text::decimal(slots as nat),
{
    let mut e: String = slot_text(slot, " but this instance carries ");
    push_decimal(&mut e, slots as u64);
    e
}

impl Qwen4ExpGpu {
    /// The shape and the planes are those of `other`.
    pub open spec fn same_model(&self, other: Qwen4ExpGpu) -> bool {
        &&& self.cfg == other.cfg
        &&& self.layers == other.layers
        &&& self.embed == other.embed
        &&& self.lm_head == other.lm_head
        &&& self.final_mix == other.final_mix
    }

    /// Nothing but what the slots remember differs from `other`.
    pub open spec fn same_but_slots(&self, other: Qwen4ExpGpu) -> bool {
        &&& self.same_model(other)
        &&& self.decode_graph == other.decode_graph
        &&& self.batch_graphs == other.batch_graphs
        &&& self.graph_capture == other.graph_capture
    }
}

impl Qwen4ExpGpu {
    /// The model with nothing started.
    pub fn from_parts(
        cfg: Qwen4ExpConfig,
        layers: Vec<Qwen4ExpLayer>,
        embed: Embed,
        lm_head: DensePlane,
        final_mix: HcW,
        max_tokens: usize,
        slots: usize,
        graph_capture: bool,
    ) -> (m: Self)
        requires
            1 <= slots <= u32::MAX,
            slots < usize::MAX,
            max_tokens + 16 <= u32::MAX,
        ensures
            m@.wf(),
            m.cfg == cfg,
            m.layers == layers,
            m.embed == embed,
            m.lm_head == lm_head,
            m.final_mix == final_mix,
            m.max_tokens == max_tokens,
            m.slots == slots,
            m@ == m@.cleared(),
            m.decode_graph is None,
            m.batch_graphs@ == Seq::new((slots + 1) as nat, |i: int| None::<Q4xSendGraph>),
            m.graph_capture == graph_capture,
    {
        let mut pos: Vec<usize> = Vec::new();
        let mut stream: Vec<Vec<i64>> = Vec::new();
        let mut batch_graphs: Vec<Option<Q4xSendGraph>> = Vec::new();
        batch_graphs.push(None);
        let mut i: usize = 0;
        while i < slots
            invariant
                i <= slots,
                pos@ == Seq::new(i as nat, |j: int| 0usize),
                stream@.len() == i,
                forall|j: int| 0 <= j < i ==> (#[trigger] stream@[j])@ == Seq::<i64>::empty(),
                batch_graphs@ == Seq::new((i + 1) as nat, |j: int| None::<Q4xSendGraph>),
            decreases slots - i,
        {
            pos.push(0);
            let none: Vec<i64> = Vec::new();
            assert(none@ =~= Seq::<i64>::empty());
            stream.push(none);
            batch_graphs.push(None);
            i = i + 1;
            assert(pos@ =~= Seq::new(i as nat, |j: int| 0usize));
            assert(batch_graphs@ =~= Seq::new((i + 1) as nat, |j: int| None::<Q4xSendGraph>));
        }
        let m = Qwen4ExpGpu {
            cfg,
            layers,
            embed,
            lm_head,
            final_mix,
            max_tokens,
            slots,
            pos,
            stream,
            decode_graph: None,
            batch_graphs,
            graph_capture,
        };
        assert(m@.stream =~= m@.cleared().stream);
        assert(m@ =~= m@.cleared());
        m
    }

    pub fn config(&self) -> (c: &Qwen4ExpConfig)
        ensures
            *c == self.cfg,
    {
        &self.cfg
    }

    /// How many tokens the first slot holds.
    pub fn position(&self) -> (n: usize)
        requires
            self@.wf(),
        ensures
            n == self@.pos[0],
    {
        self.pos[0]
    }

    /// Position cursor of one slot.
    pub fn slot_position(&self, slot: usize) -> (n: usize)
        requires
            self@.wf(),
            slot < self.slots,
        ensures
            n == self@.pos[slot as int],
    {
        self.pos[slot]
    }

    /// How many sequences the model carries.
    pub fn slot_count(&self) -> (n: usize)
        ensures
            n == self.slots,
    {
        self.slots
    }

    /// The class of the dense planes, so that it is never implicit in a number.
    pub fn dense_class(&self) -> (s: &'static str)
        ensures
            s@ == (if self.layers@.len() == 0 {
                "none"@
            } else {
                match self.layers@[0].attn_hc.down {
                    DensePlane::Bf16 { .. } => "bf16"@,
                    DensePlane::Dual { .. } => "bf16+f16"@,
                    DensePlane::F16 { .. } => "f16"@,
                    DensePlane::F8Row { .. } => "f8row"@,
                    DensePlane::Kq { .. } => "kq"@,
                }
            }),
    {
        if self.layers.len() == 0 {
            "none"
        } else {
            self.layers[0].attn_hc.down.class()
        }
    }

    /// Sequences that a scheduler may batch: what the model carries, and never none.
    pub fn enable_batch(&self, max_batch: usize) -> (n: usize)
        requires
            self@.wf(),
        ensures
            n >= 1,
            n <= self.slots,
            n == (if max_batch <= 1 {
                1
            } else if max_batch <= self.slots {
                max_batch
            } else {
                self.slots
            }),
    {
        if max_batch <= 1 {
            1
        } else if max_batch <= self.slots {
            max_batch
        } else {
            self.slots
        }
    }

    /// Turn captures on or off. Turning them off drops the single-sequence one.
    pub fn set_graph_capture(&mut self, on: bool)
        ensures
            final(self).graph_capture == on,
            final(self).decode_graph == (if on {
                old(self).decode_graph
            } else {
                None
            }),
            final(self).batch_graphs == old(self).batch_graphs,
            final(self)@ == old(self)@,
            final(self).same_model(*old(self)),
    {
        self.graph_capture = on;
        if !on {
            self.decode_graph = None;
        }
    }

    /// The single-sequence tick runs as a capture.
    pub fn graph_active(&self) -> (b: bool)
        ensures
            b == (self.decode_graph is Some),
    {
        self.decode_graph.is_some()
    }

    /// How the single-sequence tick runs.
    pub fn decode_tick(&self) -> (t: Tick)
        ensures
            t == tick_of(self.decode_graph, self.graph_capture),
    {
        match self.decode_graph {
            Some(g) => Tick::Replay(g),
            None => {
                if self.graph_capture {
                    Tick::Capture
                } else {
                    Tick::Eager
                }
            },
        }
    }

    /// How a batched tick `n` wide runs.
    pub fn batch_tick(&self, n: usize) -> (t: Tick)
        requires
            n < self.batch_graphs@.len(),
        ensures
            t == tick_of(self.batch_graphs@[n as int], self.graph_capture),
    {
        match self.batch_graphs[n] {
            Some(g) => Tick::Replay(g),
            None => {
                if self.graph_capture {
                    Tick::Capture
                } else {
                    Tick::Eager
                }
            },
        }
    }

    /// The single-sequence tick was captured.
    pub fn captured(&mut self, g: Option<Q4xSendGraph>)
        ensures
            final(self).decode_graph == g,
            final(self).batch_graphs == old(self).batch_graphs,
            final(self).graph_capture == old(self).graph_capture,
            final(self)@ == old(self)@,
            final(self).same_model(*old(self)),
    {
        self.decode_graph = g;
    }

    /// A batched tick `n` wide was captured.
    pub fn captured_batch(&mut self, n: usize, g: Option<Q4xSendGraph>)
        requires
            n < old(self).batch_graphs@.len(),
        ensures
            final(self).batch_graphs@ == old(self).batch_graphs@.update(n as int, g),
            final(self).decode_graph == old(self).decode_graph,
            final(self).graph_capture == old(self).graph_capture,
            final(self)@ == old(self)@,
            final(self).same_model(*old(self)),
    {
        self.batch_graphs.set(n, g);
    }

    /// Drop every sequence. The captures stay: they name buffers, not what those hold.
    pub fn reset(&mut self)
        requires
            old(self)@.wf(),
        ensures
            final(self)@ == old(self)@.cleared(),
            final(self)@.wf(),
            final(self).same_but_slots(*old(self)),
    {
        let ghost before = self@;
        let slots: usize = self.slots;
        let mut i: usize = 0;
        while i < slots
            invariant
                i <= slots,
                before.wf(),
                slots == before.slots,
                before == old(self)@,
                self.slots == slots,
                self.max_tokens == before.max_tokens,
                self.cfg == old(self).cfg,
                self.same_but_slots(*old(self)),
                self.pos@.len() == slots,
                self.stream@.len() == slots,
                forall|j: int| 0 <= j < i ==> #[trigger] self.pos@[j] == 0,
                forall|j: int| 0 <= j < i ==> (#[trigger] self.stream@[j])@ == Seq::<i64>::empty(),
            decreases slots - i,
        {
            self.pos.set(i, 0);
            let none: Vec<i64> = Vec::new();
            assert(none@ =~= Seq::<i64>::empty());
            self.stream.set(i, none);
            i = i + 1;
        }
        assert(self@.pos =~= before.cleared().pos);
        assert(self@.stream =~= before.cleared().stream);
        assert(self@ =~= before.cleared());
    }

    fn seed(&mut self, slot: usize, ids: &[u32])
        requires
            old(self)@.wf(),
            slot < old(self).slots,
        ensures
            final(self)@ == old(self)@.seeded(slot as int, ids@),
            final(self)@.wf(),
            final(self).same_but_slots(*old(self)),
            final(self).cfg == old(self).cfg,
    {
        let ghost before = self@;
        let bos: i64 = self.cfg.bos_id as i64;
        let mut s: Vec<i64> = Vec::new();
        s.push(bos);
        s.push(bos);
        let mut i: usize = 0;
        assert(s@ =~= primed(bos, ids@.take(0)));
        while i < ids.len()
            invariant
                i <= ids@.len(),
                s@ == primed(bos, ids@.take(i as int)),
            decreases ids@.len() - i,
        {
            s.push(ids[i] as i64);
            assert(s@ =~= primed(bos, ids@.take(i + 1)));
            i = i + 1;
        }
        assert(ids@.take(i as int) =~= ids@);
        self.pos.set(slot, 0);
        self.stream.set(slot, s);
        assert(self@.stream =~= before.stream.update(slot as int, primed(bos, ids@)));
        assert(self@ =~= before.seeded(slot as int, ids@));
    }

    fn prompt_error(&self, n: usize) -> (e: String)
        ensures
            e@ == self@.prompt_text(n as nat),
    {
        let mut e: String = "prompt of ".to_owned();
        push_decimal(&mut e, n as u64);
        e.append(" tokens; this lane is sized for 1..=");
        push_decimal(&mut e, self.max_tokens as u64);
        e
    }

    /// Start a fresh prompt in the first slot, and drop every other sequence.
    pub fn forward_prompt(&mut self, ids: &[u32]) -> (r: Result<Planes, String>)
        requires
            old(self)@.wf(),
        ensures
            match r {
                Ok(p) => {
                    &&& 1 <= ids@.len() <= old(self).max_tokens
                    &&& final(self)@ == old(self)@.cleared().seeded(0, ids@)
                    &&& p.is_run(ids@, 0, 0)
                },
                Err(e) => {
                    &&& ids@.len() == 0 || ids@.len() > old(self).max_tokens
                    &&& final(self)@ == old(self)@
                    &&& e@ == old(self)@.prompt_text(ids@.len())
                },
            },
            final(self)@.wf(),
            final(self).same_but_slots(*old(self)),
    {
        let n: usize = ids.len();
        if n == 0 || n > self.max_tokens {
            return Err(self.prompt_error(n));
        }
        self.reset();
        self.seed(0, ids);
        Ok(stage_run(ids, 0, 0))
    }

    /// Start a fresh prompt in one slot, and leave every other alone.
    pub fn prefill_slot(&mut self, slot: usize, ids: &[u32]) -> (r: Result<Planes, String>)
        requires
            old(self)@.wf(),
        ensures
            match r {
                Ok(p) => {
                    &&& slot < old(self).slots
                    &&& 1 <= ids@.len() <= old(self).max_tokens
                    &&& final(self)@ == old(self)@.seeded(slot as int, ids@)
                    &&& p.is_run(ids@, 0, slot as int)
                },
                Err(e) => {
                    &&& final(self)@ == old(self)@
                    &&& if slot >= old(self).slots {
                        e@ == old(self)@.outside_text(slot as nat)
                    } else {
                        (ids@.len() == 0 || ids@.len() > old(self).max_tokens) && e@ == old(
                            self,
                        )@.prompt_text(ids@.len())
                    }
                },
            },
            final(self)@.wf(),
            final(self).same_but_slots(*old(self)),
    {
        if slot >= self.slots {
            return Err(outside(slot, self.slots));
        }
        let n: usize = ids.len();
        if n == 0 || n > self.max_tokens {
            return Err(self.prompt_error(n));
        }
        self.seed(slot, ids);
        Ok(stage_run(ids, 0, slot))
    }

    /// The prompt in `slot` has run: its cursor stands behind it.
    pub fn prompt_walked(&mut self, slot: usize, n: usize)
        requires
            old(self)@.wf(),
            slot < old(self).slots,
            n <= old(self).max_tokens,
            old(self)@.stream[slot as int].len() >= n + 2,
        ensures
            final(self)@ == old(self)@.at(slot as int, n),
            final(self)@.wf(),
            final(self).same_but_slots(*old(self)),
    {
        let ghost before = self@;
        self.pos.set(slot, n);
        assert(self@ =~= before.at(slot as int, n));
    }

    fn feed(&mut self, slot: usize, id: u32)
        requires
            old(self)@.wf(),
            slot < old(self).slots,
        ensures
            final(self)@ == old(self)@.fed(slot as int, id),
            final(self)@.wf(),
            final(self).same_but_slots(*old(self)),
    {
        let ghost before = self@;
        let mut s: Vec<i64> = Vec::new();
        std::mem::swap(&mut s, &mut self.stream[slot]);
        s.push(id as i64);
        self.stream.set(slot, s);
        assert(self@.stream =~= before.stream.update(
            slot as int,
            before.stream[slot as int].push(id as i64),
        ));
        assert(self@ =~= before.fed(slot as int, id));
    }

    /// Continue the first slot's sequence by one token.
    pub fn decode_step(&mut self, id: u32) -> (r: Result<Planes, String>)
        requires
            old(self)@.wf(),
        ensures
            match r {
                Ok(p) => {
                    &&& 0 < old(self)@.pos[0] < old(self).max_tokens
                    &&& final(self)@ == old(self)@.fed(0, id)
                    &&& p.is_run(seq![id], old(self)@.pos[0] as int, 0)
                },
                Err(e) => {
                    &&& final(self)@ == old(self)@
                    &&& if old(self)@.pos[0] == 0 {
                        e@ == "decode_step before any prompt - call forward_prompt first"@
                    } else {
                        old(self)@.pos[0] >= old(self).max_tokens && e@ == old(self)@.full_text()
                    }
                },
            },
            final(self)@.wf(),
            final(self).same_but_slots(*old(self)),
    {
        let base: usize = self.pos[0];
        if base == 0 {
            return Err("decode_step before any prompt - call forward_prompt first".to_owned());
        }
        if base >= self.max_tokens {
            let mut e: String = "sequence reached ".to_owned();
            push_decimal(&mut e, self.max_tokens as u64);
            e.append(" tokens, the size this lane was built for");
            return Err(e);
        }
        self.feed(0, id);
        let one: Vec<u32> = vec![id];
        assert(one@ =~= seq![id]);
        Ok(stage_run(one.as_slice(), base, 0))
    }

    fn row_error(&self, rows: &Vec<(usize, u32)>, i: usize) -> (r: Option<String>)
        requires
            self@.wf(),
            i < rows@.len(),
        ensures
            match r {
                Some(e) => self@.row_fault(rows@, i as int) == Some(e@),
                None => self@.row_fault(rows@, i as int) is None && rows@[i as int].0 < self.slots,
            },
    {
        let s: usize = rows[i].0;
        if s >= self.slots {
            return Some(outside(s, self.slots));
        }
        let mut j: usize = 0;
        while j < i
            invariant
                j <= i < rows@.len(),
                s == rows@[i as int].0,
                s < self.slots,
                forall|k: int| 0 <= k < j ==> (#[trigger] rows@[k]).0 != s,
            decreases i - j,
        {
            if rows[j].0 == s {
                assert(rows@[j as int].0 == s);
                return Some(slot_text(s, " appears twice in one batched step"));
            }
            j = j + 1;
        }
        if self.pos[s] == 0 {
            return Some(slot_text(s, " has no prompt - prefill it first"));
        }
        if self.pos[s] >= self.max_tokens {
            let mut e: String = slot_text(s, " reached ");
            push_decimal(&mut e, self.max_tokens as u64);
            e.append(" tokens");
            return Some(e);
        }
        None
    }

    fn check_rows(&self, rows: &Vec<(usize, u32)>) -> (r: Result<(), String>)
        requires
            self@.wf(),
        ensures
            match r {
                Ok(_) => self@.rows_ok(rows@),
                Err(e) => self@.rows_refusal(rows@, e@),
            },
    {
        if rows.len() > self.max_tokens {
            let mut e: String = String::new();
            push_decimal(&mut e, rows.len() as u64);
            e.append(" rows; scratch is sized for ");
            push_decimal(&mut e, self.max_tokens as u64);
            assert(e@ =~= text::decimal(rows@.len()) + " rows; scratch is sized for "@
                + text::decimal(self.max_tokens as nat));
            return Err(e);
        }
        let mut i: usize = 0;
        while i < rows.len()
            invariant
                self@.wf(),
                i <= rows@.len() <= self.max_tokens,
                forall|j: int|
                    0 <= j < i ==> self@.row_fault(rows@, j) is None && (#[trigger] rows@[j]).0
                        < self.slots,
            decreases rows@.len() - i,
        {
            match self.row_error(rows, i) {
                Some(e) => {
                    assert forall|j: int| 0 <= j < i implies self@.row_fault(rows@, j) is None by {
                        assert(rows@[j].0 < self.slots);
                    }
                    return Err(e);
                },
                None => {},
            }
            i = i + 1;
        }
        Ok(())
    }

    fn stage_rows(&self, rows: &Vec<(usize, u32)>) -> (p: Planes)
        requires
            self@.wf(),
            forall|i: int| 0 <= i < rows@.len() ==> (#[trigger] rows@[i]).0 < self.slots,
        ensures
            p.is_rows(self@, rows@),
    {
        let mut tok: Vec<u32> = Vec::new();
        let mut pos: Vec<u32> = Vec::new();
        let mut slots: Vec<u32> = Vec::new();
        let mut i: usize = 0;
        while i < rows.len()
            invariant
                self@.wf(),
                forall|i: int| 0 <= i < rows@.len() ==> (#[trigger] rows@[i]).0 < self.slots,
                i <= rows@.len(),
                tok@ == Seq::new(i as nat, |j: int| rows@[j].1),
                pos@ == Seq::new(i as nat, |j: int| self@.pos[rows@[j].0 as int] as u32),
                slots@ == Seq::new(i as nat, |j: int| rows@[j].0 as u32),
            decreases rows@.len() - i,
        {
            let (s, id): (usize, u32) = rows[i];
            assert(rows@[i as int].0 < self.slots);
            assert(self@.pos[s as int] <= self@.max_tokens);
            tok.push(id);
            pos.push(self.pos[s] as u32);
            slots.push(s as u32);
            i = i + 1;
            assert(tok@ =~= Seq::new(i as nat, |j: int| rows@[j].1));
            assert(pos@ =~= Seq::new(i as nat, |j: int| self@.pos[rows@[j].0 as int] as u32));
            assert(slots@ =~= Seq::new(i as nat, |j: int| rows@[j].0 as u32));
        }
        let mrope: Vec<u32> = fourfold(&pos);
        Planes { tok, pos, mrope, slots }
    }

    /// Continue one sequence per row by one token each.
    pub fn decode_step_batch(&mut self, rows: &Vec<(usize, u32)>) -> (r: Result<Planes, String>)
        requires
            old(self)@.wf(),
        ensures
            match r {
                Ok(p) => {
                    &&& old(self)@.rows_ok(rows@)
                    &&& final(self)@ == old(self)@.fed_rows(rows@, rows@.len() as int)
                    &&& p.is_rows(old(self)@, rows@)
                },
                Err(e) => old(self)@.rows_refusal(rows@, e@) && final(self)@ == old(self)@,
            },
            final(self)@.wf(),
            final(self).same_but_slots(*old(self)),
    {
        match self.check_rows(rows) {
            Err(e) => return Err(e),
            Ok(_) => {},
        }
        let planes: Planes = self.stage_rows(rows);
        let ghost before = self@;
        let mut i: usize = 0;
        while i < rows.len()
            invariant
                i <= rows@.len(),
                before == old(self)@,
                before.rows_ok(rows@),
                self@.wf(),
                self.slots == before.slots,
                self@ == before.fed_rows(rows@, i as int),
                self.same_but_slots(*old(self)),
            decreases rows@.len() - i,
        {
            let (s, id): (usize, u32) = rows[i];
            assert(rows@[i as int].0 < before.slots);
            self.feed(s, id);
            i = i + 1;
        }
        Ok(planes)
    }

    /// The rows' tick has run: each cursor moves on by one.
    pub fn rows_walked(&mut self, rows: &Vec<(usize, u32)>)
        requires
            old(self)@.wf(),
            forall|i: int|
                0 <= i < rows@.len() ==> {
                    &&& (#[trigger] rows@[i]).0 < old(self).slots
                    &&& old(self)@.pos[rows@[i].0 as int] < old(self).max_tokens
                    &&& old(self)@.stream[rows@[i].0 as int].len() >= old(
                        self,
                    )@.pos[rows@[i].0 as int] + 3
                },
            forall|i: int, j: int|
                0 <= i < j < rows@.len() ==> (#[trigger] rows@[i]).0 != (#[trigger] rows@[j]).0,
        ensures
            final(self)@ == old(self)@.stepped(rows@, rows@.len() as int),
            final(self)@.wf(),
            final(self).same_but_slots(*old(self)),
    {
        let ghost before = self@;
        let mut i: usize = 0;
        while i < rows.len()
            invariant
                i <= rows@.len(),
                before == old(self)@,
                before.wf(),
                forall|i: int|
                    0 <= i < rows@.len() ==> {
                        &&& (#[trigger] rows@[i]).0 < before.slots
                        &&& before.pos[rows@[i].0 as int] < before.max_tokens
                        &&& before.stream[rows@[i].0 as int].len() >= before.pos[rows@[i].0 as int]
                            + 3
                    },
                forall|i: int, j: int|
                    0 <= i < j < rows@.len() ==> (#[trigger] rows@[i]).0 != (#[trigger] rows@[j]).0,
                self@.wf(),
                self@ == before.stepped(rows@, i as int),
                self@.slots == before.slots,
                self@.max_tokens == before.max_tokens,
                self@.stream == before.stream,
                forall|s: int|
                    0 <= s < before.slots && (forall|j: int| 0 <= j < i ==> (#[trigger] rows@[j]).0 != s)
                        ==> #[trigger] self@.pos[s] == before.pos[s],
                self.same_but_slots(*old(self)),
            decreases rows@.len() - i,
        {
            let s: usize = rows[i].0;
            assert(rows@[i as int].0 < before.slots);
            assert(self@.pos[s as int] == before.pos[s as int]);
            let ghost prior = self@;
            let n: usize = self.pos[s] + 1;
            self.pos.set(s, n);
            assert(self@ =~= prior.at(s as int, n));
            i = i + 1;
        }
    }

    fn item_error(&self, items: &Vec<(usize, Vec<u32>)>, i: usize) -> (r: Option<String>)
        requires
            self@.wf(),
            i < items@.len(),
        ensures
            match r {
                Some(e) => self@.item_fault(items@, i as int) == Some(e@),
                None => self@.item_fault(items@, i as int) is None && items@[i as int].0
                    < self.slots && items@[i as int].1@.len() > 0,
            },
    {
        let s: usize = items[i].0;
        if s >= self.slots {
            return Some(outside(s, self.slots));
        }
        let mut j: usize = 0;
        while j < i
            invariant
                j <= i < items@.len(),
                s == items@[i as int].0,
                s < self.slots,
                forall|k: int| 0 <= k < j ==> (#[trigger] items@[k]).0 != s,
            decreases i - j,
        {
            if items[j].0 == s {
                assert(items@[j as int].0 == s);
                return Some(slot_text(s, " appears twice in one prefill wave"));
            }
            j = j + 1;
        }
        if items[i].1.len() == 0 {
            return Some("a prefill wave carries an empty prompt".to_owned());
        }
        None
    }
}

proof fn lemma_wave_rows(items: Seq<(usize, Vec<u32>)>, i: int, j: int)
    requires
        0 <= i <= j <= items.len(),
    ensures
        0 <= wave_rows(items, i) <= wave_rows(items, j),
    decreases j,
{
    if i < j {
        lemma_wave_rows(items, i, j - 1);
    } else if i > 0 {
        lemma_wave_rows(items, i - 1, i - 1);
    }
}

/// What a wave of prompts that cannot run is answered: too many rows, or the first prompt's fault.
pub open spec fn wave_refusal(v: SlotsView, items: Seq<(usize, Vec<u32>)>, e: Seq<char>) -> bool {
    let n = wave_rows(items, items.len() as int);
    if n > v.max_tokens {
        e == "prefill wave of "@ + text::decimal(n as nat) + " rows; the walk is sized for "@
            + text::decimal(v.max_tokens as nat)
    } else {
        exists|i: int|
            {
                &&& 0 <= i < items.len()
                &&& #[trigger] v.item_fault(items, i) == Some(e)
                &&& forall|j: int| 0 <= j < i ==> v.item_fault(items, j) is None
            }
    }
}

/// Every prompt of a wave can run.
pub open spec fn wave_ok(v: SlotsView, items: Seq<(usize, Vec<u32>)>) -> bool {
    wave_rows(items, items.len() as int) <= v.max_tokens && forall|i: int|
        0 <= i < items.len() ==> v.item_fault(items, i) is None && (#[trigger] items[i]).0 < v.slots
            && items[i].1@.len() > 0
}

impl Qwen4ExpGpu {
    fn check_wave(&self, items: &Vec<(usize, Vec<u32>)>) -> (r: Result<(), String>)
        requires
            self@.wf(),
            wave_rows(items@, items@.len() as int) <= usize::MAX,
        ensures
            match r {
                Ok(_) => wave_ok(self@, items@),
                Err(e) => wave_refusal(self@, items@, e@),
            },
    {
        let mut n: usize = 0;
        let mut i: usize = 0;
        while i < items.len()
            invariant
                i <= items@.len(),
                wave_rows(items@, items@.len() as int) <= usize::MAX,
                n == wave_rows(items@, i as int),
            decreases items@.len() - i,
        {
            proof {
                lemma_wave_rows(items@, i + 1, items@.len() as int);
            }
            n = n + items[i].1.len();
            i = i + 1;
        }
        if n > self.max_tokens {
            let mut e: String = "prefill wave of ".to_owned();
            push_decimal(&mut e, n as u64);
            e.append(" rows; the walk is sized for ");
            push_decimal(&mut e, self.max_tokens as u64);
            return Err(e);
        }
        let mut j: usize = 0;
        while j < items.len()
            invariant
                self@.wf(),
                n == wave_rows(items@, items@.len() as int),
                n <= self.max_tokens,
                j <= items@.len(),
                forall|k: int|
                    0 <= k < j ==> self@.item_fault(items@, k) is None && (#[trigger] items@[k]).0
                        < self.slots && items@[k].1@.len() > 0,
            decreases items@.len() - j,
        {
            match self.item_error(items, j) {
                Some(e) => {
                    assert forall|k: int| 0 <= k < j implies self@.item_fault(items@, k) is None by {
                        assert(items@[k].0 < self.slots);
                    }
                    return Err(e);
                },
                None => {},
            }
            j = j + 1;
        }
        Ok(())
    }

    fn stage_items(&self, items: &Vec<(usize, Vec<u32>)>) -> (w: Wave)
        requires
            self@.wf(),
            wave_ok(self@, items@),
        ensures
            w.is_wave(items@),
    {
        let mut runs: Vec<Run> = Vec::new();
        let mut tok: Vec<u32> = Vec::new();
        let mut pos: Vec<u32> = Vec::new();
        let mut slots: Vec<u32> = Vec::new();
        let mut off: usize = 0;
        let mut i: usize = 0;
        while i < items.len()
            invariant
                self@.wf(),
                wave_ok(self@, items@),
                i <= items@.len(),
                off == wave_rows(items@, i as int),
                runs@ == wave_runs(items@, i as int),
                runs@.len() == i,
                forall|j: int|
                    0 <= j < i ==> (#[trigger] runs@[j]).off + runs@[j].len <= self.max_tokens
                        && runs@[j].slot < self.slots,
                tok@ == wave_toks(items@, i as int),
                pos@ == wave_pos(items@, i as int),
                slots@ == wave_slots(items@, i as int),
            decreases items@.len() - i,
        {
            let s: usize = items[i].0;
            assert(items@[i as int].0 < self@.slots);
            let n: usize = items[i].1.len();
            proof {
                lemma_wave_rows(items@, i + 1, items@.len() as int);
                assert(wave_rows(items@, i + 1) == off + n);
            }
            runs.push(Run { slot: s, off, len: n });
            push_all(&mut tok, items[i].1.as_slice());
            push_positions(&mut pos, 0, n);
            push_slot(&mut slots, s, n);
            off = off + n;
            i = i + 1;
        }
        let mrope: Vec<u32> = fourfold(&pos);
        let tables: WavePlanes = stage_wave(&runs);
        Wave { runs, planes: Planes { tok, pos, mrope, slots }, tables }
    }

    fn start_wave(&mut self, items: &Vec<(usize, Vec<u32>)>) -> (r: Result<Wave, String>)
        requires
            old(self)@.wf(),
            wave_rows(items@, items@.len() as int) <= usize::MAX,
        ensures
            match r {
                Ok(w) => {
                    &&& wave_ok(old(self)@, items@)
                    &&& final(self)@ == old(self)@.seeded_items(items@, items@.len() as int)
                    &&& w.is_wave(items@)
                },
                Err(e) => wave_refusal(old(self)@, items@, e@) && final(self)@ == old(self)@,
            },
            final(self)@.wf(),
            final(self).same_but_slots(*old(self)),
    {
        match self.check_wave(items) {
            Err(e) => return Err(e),
            Ok(_) => {},
        }
        let wave: Wave = self.stage_items(items);
        let ghost before = self@;
        let mut i: usize = 0;
        while i < items.len()
            invariant
                i <= items@.len(),
                before == old(self)@,
                wave_ok(before, items@),
                self@.wf(),
                self@.slots == before.slots,
                self@ == before.seeded_items(items@, i as int),
                self.same_but_slots(*old(self)),
            decreases items@.len() - i,
        {
            assert(items@[i as int].0 < before.slots);
            self.seed(items[i].0, items[i].1.as_slice());
            i = i + 1;
        }
        Ok(wave)
    }

    /// Start several fresh prompts, each in its own slot: none is nothing to do, one is a walk of
    /// its own, and more share a walk.
    pub fn prefill_slots(&mut self, items: &Vec<(usize, Vec<u32>)>) -> (r: Result<Prefill, String>)
        requires
            old(self)@.wf(),
            wave_rows(items@, items@.len() as int) <= usize::MAX,
        ensures
            if items@.len() == 0 {
                r == Ok::<Prefill, String>(Prefill::Nothing) && final(self)@ == old(self)@
            } else if items@.len() == 1 {
                let (slot, ids) = (items@[0].0, items@[0].1@);
                match r {
                    Ok(p) => {
                        &&& slot < old(self).slots
                        &&& 1 <= ids.len() <= old(self).max_tokens
                        &&& final(self)@ == old(self)@.seeded(slot as int, ids)
                        &&& p matches Prefill::One(p) && p.is_run(ids, 0, slot as int)
                    },
                    Err(e) => {
                        &&& final(self)@ == old(self)@
                        &&& if slot >= old(self).slots {
                            e@ == old(self)@.outside_text(slot as nat)
                        } else {
                            (ids.len() == 0 || ids.len() > old(self).max_tokens) && e@ == old(
                                self,
                            )@.prompt_text(ids.len())
                        }
                    },
                }
            } else {
                match r {
                    Ok(p) => {
                        &&& wave_ok(old(self)@, items@)
                        &&& final(self)@ == old(self)@.seeded_items(items@, items@.len() as int)
                        &&& p matches Prefill::Wave(w) && w.is_wave(items@)
                    },
                    Err(e) => wave_refusal(old(self)@, items@, e@) && final(self)@ == old(self)@,
                }
            },
            final(self)@.wf(),
            final(self).same_but_slots(*old(self)),
    {
        if items.len() == 0 {
            return Ok(Prefill::Nothing);
        }
        if items.len() == 1 {
            return match self.prefill_slot(items[0].0, items[0].1.as_slice()) {
                Ok(p) => Ok(Prefill::One(p)),
                Err(e) => Err(e),
            };
        }
        match self.start_wave(items) {
            Ok(w) => Ok(Prefill::Wave(w)),
            Err(e) => Err(e),
        }
    }
}

/// What starting several prompts takes.
pub enum Prefill {
    Nothing,
    /// one prompt's walk
    One(Planes),
    /// one walk for all of them
    Wave(Wave),
}

/// Starting a prompt in one slot touches no other.
pub proof fn law_slots_are_apart(v: SlotsView, slot: int, ids: Seq<u32>, other: int)
    requires
        v.wf(),
        0 <= slot < v.slots,
        0 <= other < v.slots,
        other != slot,
    ensures
        v.seeded(slot, ids).pos[other] == v.pos[other],
        v.seeded(slot, ids).stream[other] == v.stream[other],
        v.seeded(slot, ids).pos[slot] == 0,
        v.seeded(slot, ids).stream[slot] == primed(v.bos, ids),
{
}

/// A prompt and a step behind it leave what a prompt that ends in the step's token leaves.
pub proof fn law_steps_continue_the_prompt(v: SlotsView, slot: int, ids: Seq<u32>, id: u32)
    requires
        v.wf(),
        0 <= slot < v.slots,
        ids.len() + 1 <= v.max_tokens,
    ensures
        v.seeded(slot, ids).at(slot, ids.len() as usize).fed(slot, id).at(
            slot,
            (ids.len() + 1) as usize,
        ) == v.seeded(slot, ids.push(id)).at(slot, (ids.len() + 1) as usize),
{
    let a = v.seeded(slot, ids).at(slot, ids.len() as usize).fed(slot, id).at(
        slot,
        (ids.len() + 1) as usize,
    );
    let b = v.seeded(slot, ids.push(id)).at(slot, (ids.len() + 1) as usize);
    assert(primed(v.bos, ids).push(id as i64) =~= primed(v.bos, ids.push(id)));
    assert(a.pos =~= b.pos);
    assert(a.stream =~= b.stream);
}

proof fn lemma_fed_rows(v: SlotsView, rows: Seq<(usize, u32)>, n: int)
    requires
        v.wf(),
        v.rows_ok(rows),
        0 <= n <= rows.len(),
    ensures
        v.fed_rows(rows, n).pos == v.pos,
        v.fed_rows(rows, n).slots == v.slots,
        v.fed_rows(rows, n).max_tokens == v.max_tokens,
        v.fed_rows(rows, n).stream.len() == v.stream.len(),
        forall|s: int|
            0 <= s < v.slots ==> (#[trigger] v.fed_rows(rows, n).stream[s]).len()
                >= v.stream[s].len(),
        forall|i: int|
            0 <= i < n ==> v.fed_rows(rows, n).stream[(#[trigger] rows[i]).0 as int].len()
                >= v.stream[rows[i].0 as int].len() + 1,
    decreases n,
{
    if n > 0 {
        lemma_fed_rows(v, rows, n - 1);
        assert(rows[n - 1].0 < v.slots);
        let a = v.fed_rows(rows, n - 1);
        let b = v.fed_rows(rows, n);
        let t = rows[n - 1].0 as int;
        assert(b == a.fed(t, rows[n - 1].1));
        assert forall|s: int| 0 <= s < v.slots implies (#[trigger] b.stream[s]).len()
            >= v.stream[s].len() by {
            assert(a.stream[s].len() >= v.stream[s].len());
        }
        assert forall|i: int| 0 <= i < n implies b.stream[(#[trigger] rows[i]).0 as int].len()
            >= v.stream[rows[i].0 as int].len() + 1 by {
            assert(rows[i].0 < v.slots);
            let s = rows[i].0 as int;
            if s == t {
                assert(a.stream[t].len() >= v.stream[t].len());
            } else {
                assert(i < n - 1);
            }
        }
    }
}

/// A batched step that is allowed finds everything that its hash reads, and can move every cursor:
/// each row is in a slot of its own, inside the window, with its token on its stream.
pub proof fn law_allowed_steps_can_finish(v: SlotsView, rows: Seq<(usize, u32)>)
    requires
        v.wf(),
        v.rows_ok(rows),
    ensures
        ({
            let w = v.fed_rows(rows, rows.len() as int);
            &&& w.pos == v.pos
            &&& forall|i: int|
                0 <= i < rows.len() ==> {
                    &&& 0 < w.pos[(#[trigger] rows[i]).0 as int] < v.max_tokens
                    &&& w.stream[rows[i].0 as int].len() >= w.pos[rows[i].0 as int] + 3
                }
            &&& forall|i: int, j: int|
                0 <= i < j < rows.len() ==> (#[trigger] rows[i]).0 != (#[trigger] rows[j]).0
        }),
{
    lemma_fed_rows(v, rows, rows.len() as int);
    let w = v.fed_rows(rows, rows.len() as int);
    assert forall|i: int| 0 <= i < rows.len() implies {
        &&& 0 < w.pos[(#[trigger] rows[i]).0 as int] < v.max_tokens
        &&& w.stream[rows[i].0 as int].len() >= w.pos[rows[i].0 as int] + 3
    } by {
        assert(v.row_fault(rows, i) is None && rows[i].0 < v.slots);
        assert(v.pos[rows[i].0 as int] <= v.max_tokens);
    }
    assert forall|i: int, j: int| 0 <= i < j < rows.len() implies (#[trigger] rows[i]).0 != (
    #[trigger] rows[j]).0 by {
        assert(v.row_fault(rows, j) is None && rows[j].0 < v.slots);
    }
}

proof fn lemma_distinct_fit(rows: Seq<(usize, u32)>, n: int)
    requires
        0 <= n,
        forall|i: int| 0 <= i < rows.len() ==> (#[trigger] rows[i]).0 < n,
        forall|i: int, j: int|
            0 <= i < j < rows.len() ==> (#[trigger] rows[i]).0 != (#[trigger] rows[j]).0,
    ensures
        rows.len() <= n,
    decreases n,
{
    if rows.len() > 0 {
        assert(rows[0].0 < n);
        let top = n - 1;
        if exists|k: int| 0 <= k < rows.len() && (#[trigger] rows[k]).0 == top {
            let k = choose|k: int| 0 <= k < rows.len() && (#[trigger] rows[k]).0 == top;
            let rest = rows.remove(k);
            assert forall|i: int| 0 <= i < rest.len() implies (#[trigger] rest[i]).0 < top by {
                let o = if i < k {
                    i
                } else {
                    i + 1
                };
                assert(rest[i] == rows[o]);
                assert(rows[o].0 < n);
                if o < k {
                    assert(rows[o].0 != rows[k].0);
                } else {
                    assert(rows[k].0 != rows[o].0);
                }
            }
            assert forall|i: int, j: int| 0 <= i < j < rest.len() implies (#[trigger] rest[i]).0
                != (#[trigger] rest[j]).0 by {
                let a = if i < k {
                    i
                } else {
                    i + 1
                };
                let b = if j < k {
                    j
                } else {
                    j + 1
                };
                assert(rest[i] == rows[a] && rest[j] == rows[b]);
                assert(rows[a].0 != rows[b].0);
            }
            lemma_distinct_fit(rest, top);
        } else {
            assert forall|i: int| 0 <= i < rows.len() implies (#[trigger] rows[i]).0 < top by {
                assert(rows[i].0 < n);
            }
            lemma_distinct_fit(rows, top);
        }
    }
}

/// A batched step is never wider than the model has slots, so its width has a capture of its own.
pub proof fn law_steps_fit_the_slots(v: SlotsView, rows: Seq<(usize, u32)>)
    requires
        v.wf(),
        v.rows_ok(rows),
    ensures
        rows.len() <= v.slots,
{
    law_allowed_steps_can_finish(v, rows);
    assert forall|i: int| 0 <= i < rows.len() implies (#[trigger] rows[i]).0 < v.slots by {
        assert(v.row_fault(rows, i) is None && rows[i].0 < v.slots);
    }
    lemma_distinct_fit(rows, v.slots as int);
}

proof fn lemma_wave_lens(items: Seq<(usize, Vec<u32>)>, n: int)
    requires
        0 <= n <= items.len(),
    ensures
        wave_toks(items, n).len() == wave_rows(items, n),
        wave_pos(items, n).len() == wave_rows(items, n),
        wave_slots(items, n).len() == wave_rows(items, n),
        wave_runs(items, n).len() == n,
    decreases n,
{
    if n > 0 {
        lemma_wave_lens(items, n - 1);
    }
}

/// Inside a wave, a prompt's rows are the rows it would have had alone: the same tokens, at the same
/// positions, in its own slot.
pub proof fn law_waves_keep_their_prompts(items: Seq<(usize, Vec<u32>)>, n: int, i: int)
    requires
        0 <= i < n <= items.len(),
    ensures
        ({
            let (a, b) = (wave_rows(items, i), wave_rows(items, i + 1));
            &&& wave_toks(items, n).subrange(a, b) == items[i].1@
            &&& wave_pos(items, n).subrange(a, b) == stage::positions(0, items[i].1@.len())
            &&& wave_slots(items, n).subrange(a, b) == stage::one_slot(
                items[i].0 as int,
                items[i].1@.len(),
            )
        }),
    decreases n,
{
    let (a, b) = (wave_rows(items, i), wave_rows(items, i + 1));
    lemma_wave_lens(items, n - 1);
    lemma_wave_lens(items, i);
    lemma_wave_rows(items, i, i + 1);
    lemma_wave_rows(items, i + 1, n);
    if i == n - 1 {
        assert(wave_toks(items, n).subrange(a, b) =~= items[i].1@);
        assert(wave_pos(items, n).subrange(a, b) =~= stage::positions(0, items[i].1@.len()));
        assert(wave_slots(items, n).subrange(a, b) =~= stage::one_slot(
            items[i].0 as int,
            items[i].1@.len(),
        ));
    } else {
        law_waves_keep_their_prompts(items, n - 1, i);
        lemma_wave_rows(items, i + 1, n - 1);
        assert(wave_toks(items, n).subrange(a, b) =~= wave_toks(items, n - 1).subrange(a, b));
        assert(wave_pos(items, n).subrange(a, b) =~= wave_pos(items, n - 1).subrange(a, b));
        assert(wave_slots(items, n).subrange(a, b) =~= wave_slots(items, n - 1).subrange(a, b));
    }
}

/// A slot's stream is two marks of a start and then its tokens, each whole.
pub proof fn law_streams_hold_whole_tokens(bos: i64, ids: Seq<u32>, i: int)
    ensures
        primed(bos, ids).len() == ids.len() + 2,
        primed(bos, ids)[0] == bos,
        primed(bos, ids)[1] == bos,
        0 <= i < ids.len() ==> primed(bos, ids)[i + 2] == ids[i],
{
}

/// A token that is fed goes to the end of its slot's stream, whole, and moves nothing else; a
/// position that is set is its slot's alone.
pub proof fn law_fed_tokens_join_their_stream(v: SlotsView, slot: int, id: u32, n: usize, other: int)
    requires
        v.wf(),
        0 <= slot < v.slots,
        0 <= other < v.slots,
    ensures
        v.fed(slot, id).stream[slot].len() == v.stream[slot].len() + 1,
        v.fed(slot, id).stream[slot].last() == id,
        v.fed(slot, id).stream[slot].drop_last() == v.stream[slot],
        v.fed(slot, id).pos == v.pos,
        other != slot ==> v.fed(slot, id).stream[other] == v.stream[other],
        v.at(slot, n).pos[slot] == n,
        other != slot ==> v.at(slot, n).pos[other] == v.pos[other],
        v.at(slot, n).stream == v.stream,
        v.cleared().pos[slot] == 0 && v.cleared().stream[slot].len() == 0,
        v.cleared().slots == v.slots && v.cleared().max_tokens == v.max_tokens,
{
    assert(v.fed(slot, id).stream[slot].drop_last() =~= v.stream[slot]);
}

/// A batched step moves every one of its slots one row on, and no other.
pub proof fn law_steps_move_each_slot_once(
    v: SlotsView,
    rows: Seq<(usize, u32)>,
    n: int,
    slot: int,
)
    requires
        v.wf(),
        v.rows_ok(rows),
        0 <= n <= rows.len(),
        0 <= slot < v.slots,
    ensures
        v.stepped(rows, n).stream == v.stream,
        v.stepped(rows, n).pos.len() == v.pos.len(),
        (exists|i: int| 0 <= i < n && (#[trigger] rows[i]).0 == slot) ==> v.stepped(rows, n).pos[slot]
            == v.pos[slot] + 1,
        (forall|i: int| 0 <= i < n ==> (#[trigger] rows[i]).0 != slot) ==> v.stepped(rows, n).pos[slot]
            == v.pos[slot],
    decreases n,
{
    if n > 0 {
        law_steps_move_each_slot_once(v, rows, n - 1, slot);
        let s = rows[n - 1].0 as int;
        law_steps_move_each_slot_once(v, rows, n - 1, s);
        assert(v.row_fault(rows, n - 1) is None && rows[n - 1].0 < v.slots);
        assert(forall|i: int| 0 <= i < n - 1 ==> (#[trigger] rows[i]).0 != s);
        assert(v.pos[s] < v.max_tokens);
        if slot == s {
            assert(rows[n - 1].0 == slot);
        }
        if exists|i: int| 0 <= i < n && (#[trigger] rows[i]).0 == slot {
            let i = choose|i: int| 0 <= i < n && (#[trigger] rows[i]).0 == slot;
            if slot != s {
                assert(0 <= i < n - 1 && rows[i].0 == slot);
            }
        }
    }
}

/// The runs of a wave are its prompts: each in its slot, as long as its tokens, and starting where
/// those before it end.
pub proof fn law_waves_lay_runs_end_to_end(items: Seq<(usize, Vec<u32>)>, n: int, i: int)
    requires
        0 <= i < n <= items.len(),
        wave_rows(items, items.len() as int) <= usize::MAX,
    ensures
        wave_runs(items, n).len() == n,
        wave_runs(items, n)[i].slot == items[i].0,
        wave_runs(items, n)[i].len == items[i].1@.len(),
        i == 0 ==> wave_runs(items, n)[i].off == 0,
        i > 0 ==> wave_runs(items, n)[i].off == wave_runs(items, n)[i - 1].off + wave_runs(
            items,
            n,
        )[i - 1].len,
    decreases n,
{
    lemma_wave_runs_len(items, n);
    lemma_wave_runs_len(items, n - 1);
    lemma_wave_rows(items, n - 1, items.len() as int);
    lemma_wave_rows(items, n, items.len() as int);
    if i < n - 1 {
        law_waves_lay_runs_end_to_end(items, n - 1, i);
    } else if i > 0 {
        law_waves_lay_runs_end_to_end(items, n - 1, i - 1);
        lemma_wave_rows(items, n - 2, items.len() as int);
        lemma_wave_runs_off(items, n - 1);
    }
}

proof fn lemma_wave_runs_off(items: Seq<(usize, Vec<u32>)>, n: int)
    requires
        0 < n <= items.len(),
        wave_rows(items, items.len() as int) <= usize::MAX,
    ensures
        wave_runs(items, n).last().off == wave_rows(items, n - 1),
        wave_runs(items, n).last().len == items[n - 1].1@.len(),
{
    lemma_wave_rows(items, n - 1, items.len() as int);
    lemma_wave_rows(items, n, items.len() as int);
}

proof fn lemma_wave_runs_len(items: Seq<(usize, Vec<u32>)>, n: int)
    requires
        0 <= n,
    ensures
        wave_runs(items, n).len() == n,
    decreases n,
{
    if n > 0 {
        lemma_wave_runs_len(items, n - 1);
    }
}

/// A row of a step is refused exactly where its slot is not there, comes twice, holds no prompt or
/// is full; a prompt of a wave exactly where its slot is not there or comes twice, or where it is
/// empty.
pub proof fn law_rows_are_refused_for_a_reason(
    v: SlotsView,
    rows: Seq<(usize, u32)>,
    items: Seq<(usize, Vec<u32>)>,
    i: int,
)
    requires
        v.wf(),
    ensures
        v.row_fault(rows, i) is None <==> {
            &&& rows[i].0 < v.slots
            &&& forall|j: int| 0 <= j < i ==> (#[trigger] rows[j]).0 != rows[i].0
            &&& 0 < v.pos[rows[i].0 as int] < v.max_tokens
        },
        v.item_fault(items, i) is None <==> {
            &&& items[i].0 < v.slots
            &&& forall|j: int| 0 <= j < i ==> (#[trigger] items[j]).0 != items[i].0
            &&& items[i].1@.len() > 0
        },
{
}

/// A graph that was captured is replayed; without one a tick captures where it may, and runs as it
/// is where it may not.
pub proof fn law_ticks_replay_what_they_captured(g: Option<Q4xSendGraph>, capture: bool)
    ensures
        g matches Some(x) ==> tick_of(g, capture) == Tick::Replay(x),
        g is None && capture ==> tick_of(g, capture) == Tick::Capture,
        g is None && !capture ==> tick_of(g, capture) == Tick::Eager,
{
}

/// The planes of a step hold its rows: each row's token, the position its slot is at, four times
/// for the rotary planes, and its slot.
pub proof fn law_step_planes_hold_the_rows(
    p: Planes,
    v: SlotsView,
    rows: Seq<(usize, u32)>,
    i: int,
    plane: int,
)
    requires
        v.wf(),
        p.is_rows(v, rows),
        0 <= i < rows.len(),
        0 <= plane < 4,
        rows[i].0 < v.slots,
    ensures
        p.tok@.len() == rows.len() && p.tok@[i] == rows[i].1,
        p.pos@.len() == rows.len() && p.pos@[i] == v.pos[rows[i].0 as int],
        p.slots@.len() == rows.len() && p.slots@[i] == rows[i].0,
        p.mrope@.len() == 4 * rows.len() && p.mrope@[plane * rows.len() + i]
            == v.pos[rows[i].0 as int],
{
    let n = rows.len() as int;
    assert(v.pos[rows[i].0 as int] <= v.max_tokens);
    assert(plane == 0 ==> plane * n == 0);
    assert(plane == 1 ==> plane * n == n);
    assert(plane == 2 ==> plane * n == 2 * n);
    assert(plane == 3 ==> plane * n == 3 * n);
}

/// The planes of a wave hold its prompts: row `j` of prompt `i` is its `j`th token, at position
/// `j`, in its slot, behind the rows of the prompts before it.
pub proof fn law_wave_planes_hold_the_prompts(
    w: Wave,
    items: Seq<(usize, Vec<u32>)>,
    i: int,
    j: int,
)
    requires
        w.is_wave(items),
        0 <= i < items.len(),
        0 <= j < items[i].1@.len(),
        wave_rows(items, items.len() as int) <= u32::MAX,
        items[i].0 <= u32::MAX,
    ensures
        w.runs@.len() == items.len(),
        w.runs@[i].slot == items[i].0 && w.runs@[i].len == items[i].1@.len(),
        w.planes.tok@[w.runs@[i].off + j] == items[i].1@[j],
        w.planes.pos@[w.runs@[i].off + j] == j,
        w.planes.slots@[w.runs@[i].off + j] == items[i].0,
        w.tables.run_off@[i] == w.runs@[i].off as u32,
        w.tables.run_len@[i] == w.runs@[i].len as u32,
        w.tables.run_slot@[i] == w.runs@[i].slot as u32,
{
    let n = items.len() as int;
    law_waves_lay_runs_end_to_end(items, n, i);
    law_waves_keep_their_prompts(items, n, i);
    lemma_wave_rows(items, i, n);
    lemma_wave_rows(items, i + 1, n);
    lemma_wave_run_at(items, n, i);
    let (a, b) = (wave_rows(items, i), wave_rows(items, i + 1));
    lemma_wave_lens(items, n);
    assert(wave_toks(items, n)[a + j] == wave_toks(items, n).subrange(a, b)[j]);
    assert(wave_pos(items, n)[a + j] == wave_pos(items, n).subrange(a, b)[j]);
    assert(wave_slots(items, n)[a + j] == wave_slots(items, n).subrange(a, b)[j]);
}

proof fn lemma_wave_run_at(items: Seq<(usize, Vec<u32>)>, n: int, i: int)
    requires
        0 <= i < n <= items.len(),
        wave_rows(items, items.len() as int) <= usize::MAX,
    ensures
        wave_runs(items, n).len() == n,
        wave_runs(items, n)[i].off == wave_rows(items, i),
    decreases n,
{
    lemma_wave_runs_len(items, n);
    lemma_wave_runs_len(items, n - 1);
    lemma_wave_rows(items, i, items.len() as int);
    if i < n - 1 {
        lemma_wave_run_at(items, n - 1, i);
    }
}

/// Feeding the rows of a step appends each row's token to its slot's stream and moves no position.
pub proof fn law_step_rows_join_their_streams(
    v: SlotsView,
    rows: Seq<(usize, u32)>,
    n: int,
    i: int,
)
    requires
        v.wf(),
        v.rows_ok(rows),
        0 <= i < n <= rows.len(),
    ensures
        v.fed_rows(rows, n).pos == v.pos,
        v.fed_rows(rows, n).stream[rows[i].0 as int] == v.stream[rows[i].0 as int].push(
            rows[i].1 as i64,
        ),
    decreases n,
{
    let s = rows[i].0 as int;
    lemma_stream_untouched(v, rows, i, i);
    lemma_stream_after(v, rows, n, i);
}

proof fn lemma_stream_untouched(v: SlotsView, rows: Seq<(usize, u32)>, n: int, i: int)
    requires
        v.wf(),
        v.rows_ok(rows),
        0 <= n <= i < rows.len(),
    ensures
        v.fed_rows(rows, n).stream.len() == v.stream.len(),
        v.fed_rows(rows, n).stream[rows[i].0 as int] == v.stream[rows[i].0 as int],
        v.fed_rows(rows, n).pos == v.pos,
    decreases n,
{
    assert(v.row_fault(rows, i) is None && rows[i].0 < v.slots);
    if n > 0 {
        lemma_stream_untouched(v, rows, n - 1, i);
        assert(rows[n - 1].0 != rows[i].0);
    }
}

proof fn lemma_stream_after(v: SlotsView, rows: Seq<(usize, u32)>, n: int, i: int)
    requires
        v.wf(),
        v.rows_ok(rows),
        0 <= i < n <= rows.len(),
    ensures
        v.fed_rows(rows, n).stream.len() == v.stream.len(),
        v.fed_rows(rows, n).pos == v.pos,
        v.fed_rows(rows, n).stream[rows[i].0 as int] == v.stream[rows[i].0 as int].push(
            rows[i].1 as i64,
        ),
    decreases n,
{
    assert(v.row_fault(rows, i) is None && rows[i].0 < v.slots);
    if i == n - 1 {
        lemma_stream_untouched(v, rows, n - 1, i);
    } else {
        lemma_stream_after(v, rows, n - 1, i);
        assert(v.row_fault(rows, n - 1) is None && rows[n - 1].0 < v.slots);
        assert(rows[i].0 != rows[n - 1].0);
    }
}

/// Seeding the prompts of a wave leaves each slot with its own prompt's stream, at its start.
pub proof fn law_wave_prompts_seed_their_slots(
    v: SlotsView,
    items: Seq<(usize, Vec<u32>)>,
    n: int,
    i: int,
)
    requires
        v.wf(),
        wave_ok(v, items),
        0 <= i < n <= items.len(),
    ensures
        v.seeded_items(items, n).pos.len() == v.pos.len(),
        v.seeded_items(items, n).stream.len() == v.stream.len(),
        v.seeded_items(items, n).pos[items[i].0 as int] == 0,
        v.seeded_items(items, n).stream[items[i].0 as int].len() == items[i].1@.len() + 2,
        v.seeded_items(items, n).stream[items[i].0 as int] == primed(v.bos, items[i].1@),
    decreases n,
{
    assert(v.item_fault(items, i) is None && items[i].0 < v.slots);
    lemma_seeded_shape(v, items, n);
    lemma_seeded_shape(v, items, n - 1);
    if i < n - 1 {
        law_wave_prompts_seed_their_slots(v, items, n - 1, i);
        assert(v.item_fault(items, n - 1) is None && items[n - 1].0 < v.slots);
        assert(items[i].0 != items[n - 1].0);
    }
}

proof fn lemma_seeded_shape(v: SlotsView, items: Seq<(usize, Vec<u32>)>, n: int)
    requires
        v.wf(),
        wave_ok(v, items),
        n <= items.len(),
    ensures
        v.seeded_items(items, n).pos.len() == v.pos.len(),
        v.seeded_items(items, n).stream.len() == v.stream.len(),
        v.seeded_items(items, n).bos == v.bos,
    decreases n,
{
    if n > 0 {
        lemma_seeded_shape(v, items, n - 1);
        assert(items[n - 1].0 < v.slots);
    }
}

/// What only moves the slots leaves the model as it was: its shape, its planes and its graphs.
pub proof fn law_slots_move_alone(a: Qwen4ExpGpu, b: Qwen4ExpGpu)
    requires
        a.same_but_slots(b),
    ensures
        a.cfg == b.cfg && a.layers == b.layers && a.embed == b.embed && a.lm_head == b.lm_head,
        a.final_mix == b.final_mix && a.decode_graph == b.decode_graph,
        a.batch_graphs == b.batch_graphs && a.graph_capture == b.graph_capture,
{
}

/// What is refused is not allowed: a step or a wave that gets a refusal breaks one of its rules.
pub proof fn law_refused_steps_break_a_rule(
    v: SlotsView,
    rows: Seq<(usize, u32)>,
    items: Seq<(usize, Vec<u32>)>,
    e: Seq<char>,
)
    ensures
        v.rows_refusal(rows, e) ==> !v.rows_ok(rows),
        wave_refusal(v, items, e) ==> !wave_ok(v, items),
        rows.len() > v.max_tokens ==> !v.rows_ok(rows),
        wave_rows(items, items.len() as int) > v.max_tokens ==> !wave_ok(v, items),
{
    if v.rows_refusal(rows, e) && rows.len() <= v.max_tokens {
        let i = choose|i: int|
            {
                &&& 0 <= i < rows.len()
                &&& #[trigger] v.row_fault(rows, i) == Some(e)
                &&& forall|j: int| 0 <= j < i ==> v.row_fault(rows, j) is None
            };
        if v.rows_ok(rows) {
            assert(rows[i].0 < v.slots);
        }
    }
    if wave_refusal(v, items, e) && wave_rows(items, items.len() as int) <= v.max_tokens {
        let i = choose|i: int|
            {
                &&& 0 <= i < items.len()
                &&& #[trigger] v.item_fault(items, i) == Some(e)
                &&& forall|j: int| 0 <= j < i ==> v.item_fault(items, j) is None
            };
        if wave_ok(v, items) {
            assert(items[i].0 < v.slots);
        }
    }
}

} // verus!
