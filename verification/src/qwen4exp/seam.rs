//! Between the scheduler and the model: which rows of a tick are live, whether both agree on where
//! they stand, where results go back to, and how a wave of prompts is cut to what a walk holds.
use crate::error::GenError;
use crate::qwen4exp::model::Qwen4ExpGpu;
use crate::request::has_token;
use crate::sampling::RowSample;
use crate::text;
use crate::text::push_decimal;
use vstd::prelude::*;
use vstd::string::StringExecFns;

verus! {

/// The rows before `n` that are live, with their tokens.
pub open spec fn live_rows(tokens: Seq<u32>, live: spec_fn(int) -> bool, n: int) -> Seq<(usize, u32)>
    decreases n,
{
    if n <= 0 {
        seq![]
    } else if live(n - 1) {
        live_rows(tokens, live, n - 1).push(((n - 1) as usize, tokens[n - 1]))
    } else {
        live_rows(tokens, live, n - 1)
    }
}

proof fn lemma_live_rows(tokens: Seq<u32>, live: spec_fn(int) -> bool, n: int)
    requires
        0 <= n <= tokens.len() <= usize::MAX,
    ensures
        live_rows(tokens, live, n).len() <= n,
        forall|i: int|
            0 <= i < live_rows(tokens, live, n).len() ==> {
                let r = #[trigger] live_rows(tokens, live, n)[i];
                r.0 < n && live(r.0 as int) && r.1 == tokens[r.0 as int]
            },
        forall|i: int, j: int|
            0 <= i < j < live_rows(tokens, live, n).len() ==> (#[trigger] live_rows(
                tokens,
                live,
                n,
            )[i]).0 < (#[trigger] live_rows(tokens, live, n)[j]).0,
    decreases n,
{
    if n > 0 {
        lemma_live_rows(tokens, live, n - 1);
    }
}

/// The first `n` rows stand where the scheduler says.
pub open spec fn agrees(pos: Seq<usize>, rows: Seq<(usize, u32)>, positions: Seq<u32>, n: int) -> bool {
    forall|i: int|
        0 <= i < n ==> pos[(#[trigger] rows[i]).0 as int] == positions[rows[i].0 as int] as usize
}

/// What a row that does not is answered.
pub open spec fn desync_text(slot: nat, said: nat, at: nat) -> Seq<char> {
    "slot "@ + text::decimal(slot) + ": scheduler says position "@ + text::decimal(said)
        + ", model is at "@ + text::decimal(at)
}

/// The error is the first row's that does not agree.
pub open spec fn is_desync(
    e: GenError,
    pos: Seq<usize>,
    rows: Seq<(usize, u32)>,
    positions: Seq<u32>,
) -> bool {
    exists|i: int|
        {
            &&& 0 <= i < rows.len()
            &&& #[trigger] agrees(pos, rows, positions, i)
            &&& pos[rows[i].0 as int] != positions[rows[i].0 as int] as usize
            &&& e matches GenError::Backend(m) && m@ == desync_text(
                rows[i].0 as nat,
                positions[rows[i].0 as int] as nat,
                pos[rows[i].0 as int] as nat,
            )
        }
}

/// The rows stand where the scheduler says. A row at the wrong position would read the cache as if
/// nothing were wrong, so this is checked and not trusted.
pub fn check_positions(pos: &Vec<usize>, rows: &Vec<(usize, u32)>, positions: &[u32]) -> (r: Result<
    (),
    GenError,
>)
    requires
        forall|i: int|
            0 <= i < rows@.len() ==> (#[trigger] rows@[i]).0 < pos@.len() && rows@[i].0
                < positions@.len(),
    ensures
        match r {
            Ok(_) => agrees(pos@, rows@, positions@, rows@.len() as int),
            Err(e) => is_desync(e, pos@, rows@, positions@),
        },
{
    let mut i: usize = 0;
    while i < rows.len()
        invariant
            forall|i: int|
                0 <= i < rows@.len() ==> (#[trigger] rows@[i]).0 < pos@.len() && rows@[i].0
                    < positions@.len(),
            i <= rows@.len(),
            agrees(pos@, rows@, positions@, i as int),
        decreases rows@.len() - i,
    {
        let s: usize = rows[i].0;
        assert(rows@[i as int].0 < pos@.len());
        if pos[s] != positions[s] as usize {
            let mut m: String = "slot ".to_owned();
            push_decimal(&mut m, s as u64);
            m.append(": scheduler says position ");
            push_decimal(&mut m, positions[s] as u64);
            m.append(", model is at ");
            push_decimal(&mut m, pos[s] as u64);
            return Err(GenError::Backend(m));
        }
        i = i + 1;
    }
    Ok(())
}

/// A row at position zero is a hole: a decode row follows a prompt.
pub open spec fn moved(positions: Seq<u32>) -> spec_fn(int) -> bool {
    |i: int| positions[i] != 0
}

/// A row whose plan is not a hole.
pub open spec fn planned(plans: Seq<RowSample>) -> spec_fn(int) -> bool {
    |i: int| !(plans[i] is Hole)
}

pub open spec fn lengths_text(tokens: nat, positions: nat) -> Seq<char> {
    "forward_batch: "@ + text::decimal(tokens) + " tokens vs "@ + text::decimal(positions)
        + " positions"@
}

pub open spec fn sampled_text(tokens: nat, positions: nat, plans: nat) -> Seq<char> {
    "forward_batch_sampled: "@ + text::decimal(tokens) + " tokens, "@ + text::decimal(positions)
        + " positions, "@ + text::decimal(plans) + " plans"@
}

impl Qwen4ExpGpu {
    /// The rows that a tick decodes, of a tick that says no more than where they stand.
    pub fn forward_batch(&self, tokens: &[u32], positions: &[u32]) -> (r: Result<
        Vec<(usize, u32)>,
        GenError,
    >)
        requires
            self@.wf(),
            tokens@.len() == positions@.len() ==> forall|i: int|
                0 <= i < tokens@.len() && #[trigger] positions@[i] != 0 ==> i < self.slots,
        ensures
            match r {
                Ok(rows) => {
                    &&& tokens@.len() == positions@.len()
                    &&& rows@ == live_rows(tokens@, moved(positions@), tokens@.len() as int)
                    &&& agrees(self@.pos, rows@, positions@, rows@.len() as int)
                },
                Err(e) => if tokens@.len() != positions@.len() {
                    e matches GenError::Backend(m) && m@ == lengths_text(
                        tokens@.len(),
                        positions@.len(),
                    )
                } else {
                    is_desync(
                        e,
                        self@.pos,
                        live_rows(tokens@, moved(positions@), tokens@.len() as int),
                        positions@,
                    )
                },
            },
    {
        let n: usize = tokens.len();
        if n != positions.len() {
            let mut m: String = "forward_batch: ".to_owned();
            push_decimal(&mut m, n as u64);
            m.append(" tokens vs ");
            push_decimal(&mut m, positions.len() as u64);
            m.append(" positions");
            return Err(GenError::Backend(m));
        }
        let ghost live = moved(positions@);
        let mut rows: Vec<(usize, u32)> = Vec::new();
        let mut i: usize = 0;
        while i < n
            invariant
                i <= n,
                n == tokens@.len(),
                n == positions@.len(),
                live == moved(positions@),
                rows@ == live_rows(tokens@, live, i as int),
            decreases n - i,
        {
            if positions[i] != 0 {
                assert(live(i as int));
                rows.push((i, tokens[i]));
            } else {
                assert(!live(i as int));
            }
            i = i + 1;
        }
        proof {
            lemma_live_rows(tokens@, live, n as int);
            assert forall|i: int| 0 <= i < rows@.len() implies (#[trigger] rows@[i]).0
                < self.pos@.len() && rows@[i].0 < positions@.len() by {
                let r = live_rows(tokens@, live, n as int)[i];
                assert(positions@[r.0 as int] != 0);
            }
        }
        match check_positions(&self.pos, &rows, positions) {
            Ok(_) => Ok(rows),
            Err(e) => Err(e),
        }
    }

    /// The rows that a tick decodes, of a tick that says how each is sampled.
    pub fn forward_batch_sampled(
        &self,
        tokens: &[u32],
        positions: &[u32],
        plans: &Vec<RowSample>,
    ) -> (r: Result<Vec<(usize, u32)>, GenError>)
        requires
            self@.wf(),
            tokens@.len() == positions@.len() && plans@.len() == tokens@.len() ==> forall|i: int|
                0 <= i < tokens@.len() && !((#[trigger] plans@[i]) is Hole) ==> i < self.slots,
        ensures
            match r {
                Ok(rows) => {
                    &&& tokens@.len() == positions@.len()
                    &&& plans@.len() == tokens@.len()
                    &&& rows@ == live_rows(tokens@, planned(plans@), tokens@.len() as int)
                    &&& agrees(self@.pos, rows@, positions@, rows@.len() as int)
                },
                Err(e) => if tokens@.len() != positions@.len() || plans@.len() != tokens@.len() {
                    e matches GenError::Backend(m) && m@ == sampled_text(
                        tokens@.len(),
                        positions@.len(),
                        plans@.len(),
                    )
                } else {
                    is_desync(
                        e,
                        self@.pos,
                        live_rows(tokens@, planned(plans@), tokens@.len() as int),
                        positions@,
                    )
                },
            },
    {
        let n: usize = tokens.len();
        if n != positions.len() || plans.len() != n {
            let mut m: String = "forward_batch_sampled: ".to_owned();
            push_decimal(&mut m, n as u64);
            m.append(" tokens, ");
            push_decimal(&mut m, positions.len() as u64);
            m.append(" positions, ");
            push_decimal(&mut m, plans.len() as u64);
            m.append(" plans");
            return Err(GenError::Backend(m));
        }
        let ghost live = planned(plans@);
        let mut rows: Vec<(usize, u32)> = Vec::new();
        let mut i: usize = 0;
        while i < n
            invariant
                i <= n,
                n == tokens@.len(),
                n == plans@.len(),
                live == planned(plans@),
                rows@ == live_rows(tokens@, live, i as int),
            decreases n - i,
        {
            let hole: bool = match plans[i] {
                RowSample::Hole => true,
                _ => false,
            };
            assert(live(i as int) == !hole);
            if !hole {
                rows.push((i, tokens[i]));
            }
            i = i + 1;
        }
        proof {
            lemma_live_rows(tokens@, live, n as int);
            assert forall|i: int| 0 <= i < rows@.len() implies (#[trigger] rows@[i]).0
                < self.pos@.len() && rows@[i].0 < positions@.len() by {
                let r = live_rows(tokens@, live, n as int)[i];
                assert(!(plans@[r.0 as int] is Hole));
            }
        }
        match check_positions(&self.pos, &rows, positions) {
            Ok(_) => Ok(rows),
            Err(e) => Err(e),
        }
    }
}

/// Live rows are in slots of their own, in order, and carry their own tokens.
pub proof fn law_live_rows_are_apart(tokens: Seq<u32>, live: spec_fn(int) -> bool, i: int, j: int)
    requires
        tokens.len() <= usize::MAX,
        0 <= i < j < live_rows(tokens, live, tokens.len() as int).len(),
    ensures
        ({
            let r = live_rows(tokens, live, tokens.len() as int);
            r[i].0 < r[j].0 < tokens.len() && live(r[i].0 as int) && r[i].1 == tokens[r[i].0 as int]
        }),
{
    lemma_live_rows(tokens, live, tokens.len() as int);
}

/// The live rows' plans, in their order.
pub fn live_plans(rows: &Vec<(usize, u32)>, plans: &Vec<RowSample>) -> (v: Vec<RowSample>)
    requires
        forall|i: int| 0 <= i < rows@.len() ==> (#[trigger] rows@[i]).0 < plans@.len(),
    ensures
        v@ == Seq::new(rows@.len(), |i: int| plans@[rows@[i].0 as int]),
{
    let mut v: Vec<RowSample> = Vec::new();
    let mut i: usize = 0;
    while i < rows.len()
        invariant
            forall|i: int| 0 <= i < rows@.len() ==> (#[trigger] rows@[i]).0 < plans@.len(),
            i <= rows@.len(),
            v@ == Seq::new(i as nat, |j: int| plans@[rows@[j].0 as int]),
        decreases rows@.len() - i,
    {
        assert(rows@[i as int].0 < plans@.len());
        v.push(plans[rows[i].0]);
        i = i + 1;
        assert(v@ =~= Seq::new(i as nat, |j: int| plans@[rows@[j].0 as int]));
    }
    v
}

/// The sampled ids, back in the scheduler's rows: zero where nothing was decoded.
pub open spec fn scattered(rows: Seq<(usize, u32)>, packed: Seq<u32>, width: nat, n: int) -> Seq<u32>
    decreases n,
{
    if n <= 0 {
        Seq::new(width, |i: int| 0u32)
    } else {
        scattered(rows, packed, width, n - 1).update(rows[n - 1].0 as int, packed[n - 1])
    }
}

/// What a sampled tick hands back: an id per row, and which logits rows the host still samples, by
/// the scheduler's row and by the walk's.
pub struct SampledStep {
    pub ids: Vec<u32>,
    pub host_rows: Vec<(usize, usize)>,
}

/// The rows before `n` that the host samples.
pub open spec fn host_rows(rows: Seq<(usize, u32)>, plans: Seq<RowSample>, n: int) -> Seq<(usize, usize)>
    decreases n,
{
    if n <= 0 {
        seq![]
    } else if plans[rows[n - 1].0 as int] is Host {
        host_rows(rows, plans, n - 1).push((rows[n - 1].0, (n - 1) as usize))
    } else {
        host_rows(rows, plans, n - 1)
    }
}

/// Put the ids of the live rows back where the scheduler looks for them.
pub fn sample_rows_from_logits(
    rows: &Vec<(usize, u32)>,
    packed: &Vec<u32>,
    plans: &Vec<RowSample>,
) -> (s: SampledStep)
    requires
        packed@.len() >= rows@.len(),
        forall|i: int| 0 <= i < rows@.len() ==> (#[trigger] rows@[i]).0 < plans@.len(),
    ensures
        s.ids@ == scattered(rows@, packed@, plans@.len(), rows@.len() as int),
        s.host_rows@ == host_rows(rows@, plans@, rows@.len() as int),
{
    let mut ids: Vec<u32> = Vec::new();
    let mut k: usize = 0;
    while k < plans.len()
        invariant
            k <= plans@.len(),
            ids@ == Seq::new(k as nat, |i: int| 0u32),
        decreases plans@.len() - k,
    {
        ids.push(0);
        k = k + 1;
        assert(ids@ =~= Seq::new(k as nat, |i: int| 0u32));
    }
    let mut hosts: Vec<(usize, usize)> = Vec::new();
    let mut j: usize = 0;
    while j < rows.len()
        invariant
            j <= rows@.len(),
            packed@.len() >= rows@.len(),
            ids@.len() == plans@.len(),
            forall|i: int| 0 <= i < rows@.len() ==> (#[trigger] rows@[i]).0 < plans@.len(),
            ids@ == scattered(rows@, packed@, plans@.len(), j as int),
            hosts@ == host_rows(rows@, plans@, j as int),
        decreases rows@.len() - j,
    {
        let i: usize = rows[j].0;
        assert(rows@[j as int].0 < plans@.len());
        ids.set(i, packed[j]);
        match plans[i] {
            RowSample::Host => {
                hosts.push((i, j));
            },
            _ => {},
        }
        j = j + 1;
    }
    SampledStep { ids, host_rows: hosts }
}

/// Every live row gets its own id back, and every other row a zero.
pub proof fn law_ids_come_back(rows: Seq<(usize, u32)>, packed: Seq<u32>, width: nat, n: int, k: int)
    requires
        0 <= n <= rows.len(),
        forall|i: int| 0 <= i < rows.len() ==> (#[trigger] rows[i]).0 < width,
        forall|i: int, j: int|
            0 <= i < j < rows.len() ==> (#[trigger] rows[i]).0 != (#[trigger] rows[j]).0,
        0 <= k < width,
    ensures
        scattered(rows, packed, width, n).len() == width,
        forall|i: int|
            0 <= i < n && (#[trigger] rows[i]).0 == k ==> scattered(rows, packed, width, n)[k]
                == packed[i],
        (forall|i: int| 0 <= i < n ==> (#[trigger] rows[i]).0 != k) ==> scattered(
            rows,
            packed,
            width,
            n,
        )[k] == 0,
    decreases n,
{
    if n > 0 {
        law_ids_come_back(rows, packed, width, n - 1, k);
        assert(rows[n - 1].0 < width);
    }
}

/// Tokens of the prompts from `lo` up to `hi`.
pub open spec fn span(lens: Seq<usize>, lo: int, hi: int) -> int
    decreases hi - lo,
{
    if hi <= lo {
        0
    } else {
        span(lens, lo, hi - 1) + lens[hi - 1]
    }
}

proof fn lemma_span(lens: Seq<usize>, lo: int, mid: int, hi: int)
    requires
        0 <= lo <= mid <= hi <= lens.len(),
    ensures
        span(lens, lo, hi) == span(lens, lo, mid) + span(lens, mid, hi),
        0 <= span(lens, lo, mid),
        0 <= span(lens, mid, hi),
    decreases hi - lo,
{
    if mid < hi {
        lemma_span(lens, lo, mid, hi - 1);
    } else if lo < mid {
        lemma_span(lens, lo, mid - 1, mid - 1);
    }
}

/// Prompts that one walk takes.
#[derive(Debug, Clone, Copy, PartialEq, Eq, Structural)]
pub struct Part {
    pub lo: usize,
    pub hi: usize,
    /// a prompt of its own
    pub alone: bool,
}

/// A part that starts at `lo`: as many prompts as the walk holds, and at least one; a prompt that
/// the walk does not hold is on its own.
pub open spec fn is_part(lens: Seq<usize>, max: int, p: Part) -> bool {
    &&& p.lo < p.hi <= lens.len()
    &&& p.alone <==> span(lens, p.lo as int, p.hi as int) > max
    &&& p.alone ==> p.hi == p.lo + 1
    &&& p.hi < lens.len() ==> span(lens, p.lo as int, p.hi + 1) > max
}

/// Parts that take the prompts from `lo` up to `hi` in order.
pub open spec fn joined(parts: Seq<Part>, lo: int, hi: int) -> bool {
    &&& parts.len() == 0 ==> lo == hi
    &&& parts.len() > 0 ==> parts[0].lo == lo && parts.last().hi == hi
    &&& forall|i: int| 0 <= i < parts.len() - 1 ==> (#[trigger] parts[i]).hi == parts[i + 1].lo
}

fn cut_wave(lens: &Vec<usize>, max: usize) -> (parts: Vec<Part>)
    requires
        span(lens@, 0, lens@.len() as int) <= usize::MAX,
    ensures
        joined(parts@, 0, lens@.len() as int),
        forall|i: int| 0 <= i < parts@.len() ==> is_part(lens@, max as int, #[trigger] parts@[i]),
{
    let mut parts: Vec<Part> = Vec::new();
    let mut lo: usize = 0;
    let n: usize = lens.len();
    while lo < n
        invariant
            lo <= n,
            n == lens@.len(),
            span(lens@, 0, lens@.len() as int) <= usize::MAX,
            joined(parts@, 0, lo as int),
            forall|i: int| 0 <= i < parts@.len() ==> is_part(lens@, max as int, #[trigger] parts@[i]),
        decreases n - lo,
    {
        let mut rows: usize = lens[lo];
        let mut hi: usize = lo + 1;
        proof {
            lemma_span(lens@, lo as int, lo as int, lo + 1);
            assert(span(lens@, lo as int, lo + 1) == lens@[lo as int]) by {
                reveal_with_fuel(span, 2);
            }
            lemma_span(lens@, 0, lo as int, n as int);
        }
        let mut fits: bool = true;
        while hi < n && fits
            invariant
                lo < hi <= n,
                n == lens@.len(),
                span(lens@, lo as int, n as int) <= usize::MAX,
                rows == span(lens@, lo as int, hi as int),
                rows > max ==> hi == lo + 1,
                !fits ==> hi < n && span(lens@, lo as int, hi + 1) > max,
            decreases n - hi,
                (if fits {
                    1int
                } else {
                    0int
                }),
        {
            proof {
                lemma_span(lens@, lo as int, hi + 1, n as int);
            }
            let next: usize = rows + lens[hi];
            if next <= max {
                rows = next;
                hi = hi + 1;
            } else {
                fits = false;
            }
        }
        let p: Part = Part { lo, hi, alone: rows > max };
        let ghost before = parts@;
        parts.push(p);
        assert forall|i: int| 0 <= i < parts@.len() - 1 implies (#[trigger] parts@[i]).hi
            == parts@[i + 1].lo by {
            if i + 1 < before.len() {
                assert(before[i].hi == before[i + 1].lo);
            } else {
                assert(before.last() == before[i]);
            }
        }
        lo = hi;
    }
    parts
}

/// Cut a wave of prompts to what a walk of `max` rows holds: a wave that is too wide is split, not
/// given up. Without waves, each prompt is on its own.
pub fn forward_prefill_batch(lens: &Vec<usize>, max: usize, waves: bool) -> (parts: Vec<Part>)
    requires
        span(lens@, 0, lens@.len() as int) <= usize::MAX,
    ensures
        joined(parts@, 0, lens@.len() as int),
        if waves {
            forall|i: int| 0 <= i < parts@.len() ==> is_part(lens@, max as int, #[trigger] parts@[i])
        } else {
            parts@ == Seq::new(
                lens@.len(),
                |i: int| Part { lo: i as usize, hi: (i + 1) as usize, alone: true },
            )
        },
{
    if waves {
        return cut_wave(lens, max);
    }
    let mut parts: Vec<Part> = Vec::new();
    let mut i: usize = 0;
    let n: usize = lens.len();
    while i < n
        invariant
            i <= n,
            n == lens@.len(),
            parts@ == Seq::new(
                i as nat,
                |i: int| Part { lo: i as usize, hi: (i + 1) as usize, alone: true },
            ),
        decreases n - i,
    {
        parts.push(Part { lo: i, hi: i + 1, alone: true });
        i = i + 1;
        assert(parts@ =~= Seq::new(
            i as nat,
            |i: int| Part { lo: i as usize, hi: (i + 1) as usize, alone: true },
        ));
    }
    parts
}

/// What a greedy continuation does after a token.
#[derive(Debug, Clone, Copy, PartialEq, Eq, Structural)]
pub enum Greedy {
    /// feed the token, and pick again
    Step,
    /// feed the token; as many are generated as were asked for
    Last,
    /// the sequence is over
    Stop,
}

/// What a greedy continuation by at most `n_new` tokens makes of the next pick: it is kept, as long
/// as tokens are asked for, and one that ends a sequence is the last.
pub open spec fn greedy_step(eos: Seq<u32>, n_new: int, out: Seq<u32>, id: u32) -> (
    Seq<u32>,
    Greedy,
) {
    if out.len() >= n_new {
        (out, Greedy::Stop)
    } else if eos.contains(id) {
        (out.push(id), Greedy::Stop)
    } else if out.len() + 1 == n_new {
        (out.push(id), Greedy::Last)
    } else {
        (out.push(id), Greedy::Step)
    }
}

/// What a greedy continuation keeps of a stream of picks.
pub open spec fn greedy_run(eos: Seq<u32>, n_new: int, out: Seq<u32>, picks: Seq<u32>) -> Seq<u32>
    decreases picks.len(),
{
    if picks.len() == 0 {
        out
    } else {
        let (next, g) = greedy_step(eos, n_new, out, picks[0]);
        if g == Greedy::Step {
            greedy_run(eos, n_new, next, picks.skip(1))
        } else {
            next
        }
    }
}

impl Qwen4ExpGpu {
    /// A greedy continuation by at most `n_new` tokens takes its next pick.
    pub fn generate_greedy(&self, out: &mut Vec<u32>, id: u32, n_new: usize) -> (g: Greedy)
        ensures
            (final(out)@, g) == greedy_step(self.cfg.eos_ids@, n_new as int, old(out)@, id),
    {
        if out.len() >= n_new {
            return Greedy::Stop;
        }
        out.push(id);
        if has_token(&self.cfg.eos_ids, id) {
            Greedy::Stop
        } else if out.len() == n_new {
            Greedy::Last
        } else {
            Greedy::Step
        }
    }
}

/// A greedy continuation is a prefix of the picks, of at most as many tokens as were asked for, in
/// which only the last can end a sequence; it is shorter only when that one does, or the picks run
/// out.
pub proof fn law_greedy_stops_in_time(eos: Seq<u32>, n_new: nat, picks: Seq<u32>)
    ensures
        ({
            let r = greedy_run(eos, n_new as int, Seq::empty(), picks);
            &&& r.len() <= n_new
            &&& r.len() <= picks.len()
            &&& r == picks.take(r.len() as int)
            &&& forall|i: int| 0 <= i < r.len() - 1 ==> !eos.contains(#[trigger] r[i])
            &&& r.len() < n_new && r.len() < picks.len() ==> r.len() > 0 && eos.contains(r.last())
        }),
{
    assert(picks.skip(0) =~= picks);
    assert(picks.take(0) =~= Seq::<u32>::empty());
    lemma_greedy_run(eos, n_new, Seq::empty(), picks, 0);
}

proof fn lemma_greedy_run(eos: Seq<u32>, n_new: nat, out: Seq<u32>, picks: Seq<u32>, at: int)
    requires
        0 <= at <= picks.len(),
        at <= n_new,
        at == n_new ==> at == 0,
        out == picks.take(at),
        forall|i: int| 0 <= i < at ==> !eos.contains(#[trigger] out[i]),
    ensures
        ({
            let r = greedy_run(eos, n_new as int, out, picks.skip(at));
            &&& at <= r.len() <= n_new
            &&& r.len() <= picks.len()
            &&& r == picks.take(r.len() as int)
            &&& forall|i: int| 0 <= i < r.len() - 1 ==> !eos.contains(#[trigger] r[i])
            &&& r.len() < n_new && r.len() < picks.len() ==> r.len() > 0 && eos.contains(r.last())
        }),
    decreases picks.len() - at,
{
    if at < picks.len() && at < n_new {
        let id = picks[at];
        let next = out.push(id);
        assert(picks.skip(at)[0] == id);
        assert(next =~= picks.take(at + 1));
        if greedy_step(eos, n_new as int, out, id).1 == Greedy::Step {
            assert(picks.skip(at).skip(1) =~= picks.skip(at + 1));
            lemma_greedy_run(eos, n_new, next, picks, at + 1);
        }
    }
}

/// Every live row is there: a slot that is live has its row, with its own token.
pub proof fn law_live_rows_are_all_there(
    tokens: Seq<u32>,
    live: spec_fn(int) -> bool,
    n: int,
    k: int,
)
    requires
        0 <= k < n <= tokens.len() <= usize::MAX,
        live(k),
    ensures
        live_rows(tokens, live, n).contains((k as usize, tokens[k])),
    decreases n,
{
    let all = live_rows(tokens, live, n);
    let prev = live_rows(tokens, live, n - 1);
    if k == n - 1 {
        assert(all[all.len() - 1] == (k as usize, tokens[k]));
    } else {
        law_live_rows_are_all_there(tokens, live, n - 1, k);
        let i = choose|i: int| 0 <= i < prev.len() && prev[i] == (k as usize, tokens[k]);
        assert(all[i] == prev[i]);
    }
}

/// A row is live where its position is past the start, or where its plan is no hole.
pub proof fn law_holes_are_not_live(positions: Seq<u32>, plans: Seq<RowSample>, k: int)
    ensures
        (moved(positions))(k) <==> positions[k] > 0,
        (planned(plans))(k) <==> plans[k] is Host || plans[k] is Device,
{
}

/// The rows whose logits come back are those that the host draws, each by its slot and its place in
/// the batch, in order.
pub proof fn law_host_rows_come_back(rows: Seq<(usize, u32)>, plans: Seq<RowSample>, n: int)
    requires
        0 <= n <= rows.len() <= usize::MAX,
    ensures
        forall|i: int|
            0 <= i < host_rows(rows, plans, n).len() ==> {
                let h = #[trigger] host_rows(rows, plans, n)[i];
                h.1 < n && h.0 == rows[h.1 as int].0 && plans[h.0 as int] is Host
            },
        forall|i: int, j: int|
            0 <= i < j < host_rows(rows, plans, n).len() ==> (#[trigger] host_rows(
                rows,
                plans,
                n,
            )[i]).1 < (#[trigger] host_rows(rows, plans, n)[j]).1,
        forall|k: int|
            0 <= k < n && plans[(#[trigger] rows[k]).0 as int] is Host ==> host_rows(
                rows,
                plans,
                n,
            ).contains((rows[k].0, k as usize)),
    decreases n,
{
    if n > 0 {
        law_host_rows_come_back(rows, plans, n - 1);
        let all = host_rows(rows, plans, n);
        let prev = host_rows(rows, plans, n - 1);
        assert forall|k: int| 0 <= k < n && plans[(#[trigger] rows[k]).0 as int] is Host implies
            all.contains((rows[k].0, k as usize)) by {
            if k == n - 1 {
                assert(all[all.len() - 1] == (rows[k].0, k as usize));
            } else {
                let i = choose|i: int| 0 <= i < prev.len() && prev[i] == (rows[k].0, k as usize);
                assert(all[i] == prev[i]);
            }
        }
    }
}

/// The rows of neighbouring prompts add up, and those of one are its length.
pub proof fn law_spans_add_up(lens: Seq<usize>, lo: int, mid: int, hi: int)
    requires
        0 <= lo <= mid <= hi <= lens.len(),
    ensures
        span(lens, lo, hi) == span(lens, lo, mid) + span(lens, mid, hi),
        lo < lens.len() ==> span(lens, lo, lo + 1) == lens[lo],
        span(lens, lo, lo) == 0,
{
    lemma_span(lens, lo, mid, hi);
    if lo < lens.len() {
        assert(span(lens, lo, lo) == 0);
    }
}

/// A part that is not alone fits, one that is alone is a single prompt that does not, and no part
/// could have taken the prompt behind it.
pub proof fn law_parts_are_as_long_as_they_fit(lens: Seq<usize>, max: int, p: Part)
    requires
        is_part(lens, max, p),
    ensures
        p.lo < p.hi,
        !p.alone ==> span(lens, p.lo as int, p.hi as int) <= max,
        p.alone ==> p.hi == p.lo + 1 && lens[p.lo as int] > max,
        p.hi < lens.len() ==> span(lens, p.lo as int, p.hi as int) + lens[p.hi as int] > max,
{
    if p.alone {
        assert(span(lens, p.lo as int, p.lo as int) == 0);
    }
}

/// A greedy step keeps its token, unless as many as were asked for are there; it stops at an end
/// token and at that count, and feeds on only before both.
pub proof fn law_greedy_steps_feed_on(eos: Seq<u32>, n_new: int, out: Seq<u32>, id: u32)
    ensures
        out.len() >= n_new ==> greedy_step(eos, n_new, out, id) == (out, Greedy::Stop),
        out.len() < n_new ==> greedy_step(eos, n_new, out, id).0 == out.push(id),
        greedy_step(eos, n_new, out, id).1 == Greedy::Step <==> out.len() + 1 < n_new
            && !eos.contains(id),
        greedy_step(eos, n_new, out, id).1 == Greedy::Last <==> out.len() + 1 == n_new
            && !eos.contains(id),
        greedy_step(eos, n_new, out, id).1 == Greedy::Stop <==> out.len() >= n_new || eos.contains(id),
{
}

/// The model and the scheduler agree on the rows of a step exactly when each row's slot is at the
/// position that the scheduler says.
pub proof fn law_agreement_is_row_by_row(
    pos: Seq<usize>,
    rows: Seq<(usize, u32)>,
    positions: Seq<u32>,
    n: int,
)
    requires
        0 <= n < rows.len(),
    ensures
        agrees(pos, rows, positions, n + 1) <==> agrees(pos, rows, positions, n) && pos[rows[n].0 as int]
            == positions[rows[n].0 as int],
        agrees(pos, rows, positions, 0),
{
    if agrees(pos, rows, positions, n + 1) {
        assert(pos[rows[n].0 as int] == positions[rows[n].0 as int] as usize);
    }
}

/// Parts that join leave no prompt out and take none twice.
pub proof fn law_parts_take_every_prompt_once(
    lens: Seq<usize>,
    max: int,
    parts: Seq<Part>,
    hi: int,
    k: int,
)
    requires
        joined(parts, 0, hi),
        forall|i: int| 0 <= i < parts.len() ==> is_part(lens, max, #[trigger] parts[i]),
        0 <= k < hi,
    ensures
        exists|i: int| 0 <= i < parts.len() && (#[trigger] parts[i]).lo <= k < parts[i].hi,
        forall|i: int, j: int|
            0 <= i < j < parts.len() ==> (#[trigger] parts[i]).hi <= (#[trigger] parts[j]).lo,
{
    lemma_parts_in_order(lens, max, parts, hi);
    lemma_some_part_holds(lens, max, parts, parts.len() as int, hi, k);
}

proof fn lemma_parts_in_order(lens: Seq<usize>, max: int, parts: Seq<Part>, hi: int)
    requires
        joined(parts, 0, hi),
        forall|i: int| 0 <= i < parts.len() ==> is_part(lens, max, #[trigger] parts[i]),
    ensures
        forall|i: int, j: int|
            0 <= i < j < parts.len() ==> (#[trigger] parts[i]).hi <= (#[trigger] parts[j]).lo,
{
    assert forall|i: int, j: int| 0 <= i < j < parts.len() implies (#[trigger] parts[i]).hi <= (
    #[trigger] parts[j]).lo by {
        lemma_part_before(lens, max, parts, hi, i, j);
    }
}

proof fn lemma_part_before(lens: Seq<usize>, max: int, parts: Seq<Part>, hi: int, i: int, j: int)
    requires
        joined(parts, 0, hi),
        forall|i: int| 0 <= i < parts.len() ==> is_part(lens, max, #[trigger] parts[i]),
        0 <= i < j < parts.len(),
    ensures
        parts[i].hi <= parts[j].lo,
    decreases j - i,
{
    assert(parts[j - 1].hi == parts[j - 1 + 1].lo);
    if i < j - 1 {
        lemma_part_before(lens, max, parts, hi, i, j - 1);
        assert(is_part(lens, max, parts[j - 1]));
    }
}

proof fn lemma_some_part_holds(
    lens: Seq<usize>,
    max: int,
    parts: Seq<Part>,
    n: int,
    hi: int,
    k: int,
)
    requires
        joined(parts, 0, hi),
        forall|i: int| 0 <= i < parts.len() ==> is_part(lens, max, #[trigger] parts[i]),
        0 <= n <= parts.len(),
        0 <= k,
        parts.len() > 0,
        n > 0 ==> k < parts[n - 1].hi,
        n > 0,
    ensures
        exists|i: int| 0 <= i < parts.len() && (#[trigger] parts[i]).lo <= k < parts[i].hi,
    decreases n,
{
    assert(is_part(lens, max, parts[n - 1]));
    if parts[n - 1].lo > k {
        if n == 1 {
            assert(parts[0].lo == 0);
        } else {
            assert(parts[n - 2].hi == parts[n - 2 + 1].lo);
            lemma_some_part_holds(lens, max, parts, n - 1, hi, k);
        }
    }
}

/// A step that lost its place is answered with the first row on which the scheduler and the model
/// disagree.
pub proof fn law_lost_steps_name_their_row(
    e: GenError,
    pos: Seq<usize>,
    rows: Seq<(usize, u32)>,
    positions: Seq<u32>,
)
    requires
        is_desync(e, pos, rows, positions),
    ensures
        !agrees(pos, rows, positions, rows.len() as int),
        exists|i: int|
            {
                &&& 0 <= i < rows.len()
                &&& pos[(#[trigger] rows[i]).0 as int] != positions[rows[i].0 as int]
                &&& e matches GenError::Backend(m) && m@ == "slot "@ + text::decimal(
                    rows[i].0 as nat,
                ) + ": scheduler says position "@ + text::decimal(
                    positions[rows[i].0 as int] as nat,
                ) + ", model is at "@ + text::decimal(pos[rows[i].0 as int] as nat)
                &&& forall|j: int|
                    0 <= j < i ==> pos[(#[trigger] rows[j]).0 as int] == positions[rows[j].0 as int]
            },
{
    let i = choose|i: int|
        {
            &&& 0 <= i < rows.len()
            &&& #[trigger] agrees(pos, rows, positions, i)
            &&& pos[rows[i].0 as int] != positions[rows[i].0 as int] as usize
            &&& e matches GenError::Backend(m) && m@ == desync_text(
                rows[i].0 as nat,
                positions[rows[i].0 as int] as nat,
                pos[rows[i].0 as int] as nat,
            )
        };
    assert(pos[rows[i].0 as int] != positions[rows[i].0 as int]);
    if agrees(pos, rows, positions, rows.len() as int) {
        assert(pos[rows[i].0 as int] == positions[rows[i].0 as int] as usize);
    }
}

} // verus!
