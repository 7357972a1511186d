//! The n-gram layer's pass, and the ring of rows that its convolution remembers. The row of position
//! `q` lies at ring row `q % rows`, whether a prompt left it there or a decode step did.
use crate::qwen4exp::config::{Dims, Phase};
use crate::qwen4exp::meaning;
use crate::qwen4exp::meaning::{Fun, Scene, State, Val};
use crate::qwen4exp::plan;
use crate::qwen4exp::plan::{chain, Buf, NormId, Op, Plan, PlaneId};
use crate::qwen4exp::stage::Run;
use vstd::prelude::*;

verus! {

/// Distance between two taps of the convolution.
pub const PLE_DILATION: usize = 3;

/// Rows that the ring of one slot holds.
pub open spec fn ring_rows(d: Dims) -> int {
    (d.ple_conv - 1) * PLE_DILATION
}

/// Rows that move from the pass into the ring.
#[derive(Debug, Clone, Copy, PartialEq, Eq, Structural)]
pub struct RowMove {
    pub src: usize,
    pub dst: usize,
    pub rows: usize,
}

/// The moves that leave the ring behind a prompt of `n` rows, whose first row is `off`: the last
/// rows, rotated to where their positions belong; all of them when they do not fill the ring.
pub open spec fn ring_moves(off: int, n: int, w: int) -> Seq<RowMove> {
    if n >= w {
        let r0 = n % w;
        let head = RowMove {
            src: (off + n - w) as usize,
            dst: r0 as usize,
            rows: (w - r0) as usize,
        };
        if r0 > 0 {
            seq![head, RowMove { src: (off + n - r0) as usize, dst: 0, rows: r0 as usize }]
        } else {
            seq![head]
        }
    } else {
        seq![RowMove { src: off as usize, dst: 0, rows: n as usize }]
    }
}

/// A move puts source row `s` at ring row `r`.
pub open spec fn lands(m: RowMove, s: int, r: int) -> bool {
    m.src <= s < m.src + m.rows && r == m.dst + (s - m.src)
}

/// The ring holds the tail of the prompt: each of the last positions is where its number says, and
/// nothing else was put anywhere.
pub proof fn law_ring_holds_the_tail(off: int, n: int, w: int, q: int)
    requires
        0 <= off,
        0 < w,
        0 <= n,
        off + n <= usize::MAX,
        w <= usize::MAX,
        0 <= q < n,
    ensures
        n - w <= q ==> exists|i: int|
            0 <= i < ring_moves(off, n, w).len() && #[trigger] lands(
                ring_moves(off, n, w)[i],
                off + q,
                q % w,
            ),
        forall|i: int, s: int, r: int|
            0 <= i < ring_moves(off, n, w).len() && #[trigger] lands(
                ring_moves(off, n, w)[i],
                s,
                r,
            ) ==> 0 <= s - off < n && n - w <= s - off && r == (s - off) % w && 0 <= r < w,
{
    let mv = ring_moves(off, n, w);
    if n >= w {
        let r0 = n % w;
        let k = n / w;
        vstd::arithmetic::div_mod::lemma_fundamental_div_mod(n, w);
        assert(n == w * k + r0);
        assert forall|p: int| n - w <= p < n implies #[trigger] (p % w) == (if p < n - r0 {
            p - (n - w) + r0
        } else {
            p - (n - r0)
        }) by {
            if p < n - r0 {
                assert(w * (k - 1) == w * k - w) by (nonlinear_arith);
                lemma_residue(p, k - 1, w, p - (n - w) + r0);
            } else {
                lemma_residue(p, k, w, p - (n - r0));
            }
        }
        if n - w <= q {
            if q < n - r0 {
                assert(lands(mv[0], off + q, q % w));
            } else {
                assert(lands(mv[1], off + q, q % w));
            }
        }
        assert forall|i: int, s: int, r: int|
            0 <= i < mv.len() && #[trigger] lands(mv[i], s, r) implies 0 <= s - off < n && n - w
            <= s - off && r == (s - off) % w && 0 <= r < w by {
            let p = s - off;
            assert(n - w <= p < n);
            assert(p % w == (if p < n - r0 {
                p - (n - w) + r0
            } else {
                p - (n - r0)
            }));
        }
    } else {
        assert forall|p: int| 0 <= p < n implies #[trigger] (p % w) == p by {
            vstd::arithmetic::div_mod::lemma_small_mod(p as nat, w as nat);
        }
        assert(lands(mv[0], off + q, q % w));
        assert forall|i: int, s: int, r: int|
            0 <= i < mv.len() && #[trigger] lands(mv[i], s, r) implies 0 <= s - off < n && n - w
            <= s - off && r == (s - off) % w && 0 <= r < w by {
            assert((s - off) % w == s - off);
        }
    }
}

proof fn lemma_residue(p: int, k: int, w: int, r: int)
    requires
        w > 0,
        p == w * k + r || p == k * w + r,
        0 <= r < w,
    ensures
        p % w == r,
{
    assert(w * k == k * w) by (nonlinear_arith);
    vstd::arithmetic::div_mod::lemma_fundamental_div_mod_converse(p, w, k, r);
}

/// A move of rows `hw` wide into the ring whose first element is `base`.
pub open spec fn ring_copy(m: RowMove, hw: int, base: int) -> Plan {
    Plan::Do(
        Op::Copy {
            src: Buf::Pkn,
            src_off: (m.src * hw) as usize,
            dst: Buf::PleWin,
            dst_off: (base + m.dst * hw) as usize,
            len: (m.rows * hw) as usize,
        },
    )
}

/// The copies that leave the ring of `slot` behind a prompt.
pub open spec fn ring_plan(d: Dims, slot: int, off: int, n: int) -> Plan {
    let mv = ring_moves(off, n, ring_rows(d));
    let base = slot * ring_rows(d) * d.hc_width;
    if mv.len() == 2 {
        plan::then_(
            ring_copy(mv[0], d.hc_width as int, base),
            ring_copy(mv[1], d.hc_width as int, base),
        )
    } else {
        ring_copy(mv[0], d.hc_width as int, base)
    }
}

/// The ring of `slot` lies inside what can be addressed, and so do the pass's rows.
pub open spec fn ring_fits(d: Dims, slot: int, rows: int) -> bool {
    &&& d.ple_conv >= 2
    &&& ring_rows(d) <= usize::MAX
    &&& slot * ring_rows(d) <= usize::MAX
    &&& (slot + 1) * ring_rows(d) * d.hc_width <= usize::MAX
    &&& rows * d.hc_width <= usize::MAX
}

fn ring(d: &Dims, slot: usize, off: usize, n: usize) -> (p: Plan)
    requires
        ring_fits(*d, slot as int, off + n),
        off + n <= usize::MAX,
    ensures
        p == ring_plan(*d, slot as int, off as int, n as int),
{
    let w: usize = (d.ple_conv - 1) * PLE_DILATION;
    let hw: usize = d.hc_width;
    let ghost g = w as int;
    proof {
        assert((slot + 1) * g * hw == slot * g * hw + g * hw) by (nonlinear_arith);
        assert(0 <= slot * g * hw) by (nonlinear_arith)
            requires
                g >= 0,
        ;
        assert(0 <= slot * g) by (nonlinear_arith)
            requires
                g >= 0,
        ;
    }
    let base: usize = slot * w * hw;
    if n >= w {
        let r0: usize = n % w;
        proof {
            assert(0 <= r0 < w);
            let a = (off + n - w) as int;
            assert(a * hw <= (off + n) * hw) by (nonlinear_arith)
                requires
                    a <= off + n,
            ;
            assert(0 <= a * hw) by (nonlinear_arith)
                requires
                    a >= 0,
            ;
            let b = (off + n - r0) as int;
            assert(b * hw <= (off + n) * hw) by (nonlinear_arith)
                requires
                    b <= off + n,
            ;
            assert(0 <= b * hw) by (nonlinear_arith)
                requires
                    b >= 0,
            ;
            assert(0 <= r0 * hw && r0 * hw <= w * hw) by (nonlinear_arith)
                requires
                    0 <= r0 <= w,
            ;
            let c = (w - r0) as int;
            assert(0 <= c * hw && c * hw <= w * hw) by (nonlinear_arith)
                requires
                    0 <= c <= w,
            ;
        }
        let head: Plan = Plan::Do(
            Op::Copy {
                src: Buf::Pkn,
                src_off: (off + n - w) * hw,
                dst: Buf::PleWin,
                dst_off: base + r0 * hw,
                len: (w - r0) * hw,
            },
        );
        if r0 > 0 {
            assert(0 * hw == 0);
            chain(
                head,
                Plan::Do(
                    Op::Copy {
                        src: Buf::Pkn,
                        src_off: (off + n - r0) * hw,
                        dst: Buf::PleWin,
                        dst_off: base,
                        len: r0 * hw,
                    },
                ),
            )
        } else {
            head
        }
    } else {
        proof {
            assert(off * hw <= (off + n) * hw) by (nonlinear_arith);
            assert(n * hw <= (off + n) * hw) by (nonlinear_arith);
            assert(0 * hw == 0);
        }
        Plan::Do(
            Op::Copy {
                src: Buf::Pkn,
                src_off: off * hw,
                dst: Buf::PleWin,
                dst_off: base,
                len: n * hw,
            },
        )
    }
}

/// The convolution and ring of every run from the `i`th on.
pub open spec fn runs_plan(d: Dims, runs: Seq<Run>, i: int) -> Plan
    decreases runs.len() - i,
{
    if i >= runs.len() {
        Plan::Skip
    } else {
        plan::then_(
            plan::then_(
                Plan::Do(Op::PleConv { off: runs[i].off, rows: runs[i].len }),
                ring_plan(d, runs[i].slot as int, runs[i].off as int, runs[i].len as int),
            ),
            runs_plan(d, runs, i + 1),
        )
    }
}

fn each_run(d: &Dims, runs: &Vec<Run>) -> (p: Plan)
    requires
        forall|i: int|
            0 <= i < runs@.len() ==> {
                let r = #[trigger] runs@[i];
                r.off + r.len <= usize::MAX && ring_fits(*d, r.slot as int, r.off + r.len)
            },
    ensures
        p == runs_plan(*d, runs@, 0),
{
    let mut p: Plan = Plan::Skip;
    let mut i: usize = runs.len();
    while i > 0
        invariant
            i <= runs@.len(),
            forall|i: int|
                0 <= i < runs@.len() ==> {
                    let r = #[trigger] runs@[i];
                    r.off + r.len <= usize::MAX && ring_fits(*d, r.slot as int, r.off + r.len)
                },
            p == runs_plan(*d, runs@, i as int),
        decreases i,
    {
        i = i - 1;
        let r: Run = runs[i];
        assert(ring_fits(*d, runs@[i as int].slot as int, runs@[i as int].off + runs@[i as int].len));
        let one: Plan = chain(
            Plan::Do(Op::PleConv { off: r.off, rows: r.len }),
            ring(d, r.slot, r.off, r.len),
        );
        p = chain(one, p);
    }
    p
}

/// The projections, norms and gate of the n-gram pass, up to the rows that the convolution reads.
pub open spec fn gate_plan(n: usize) -> Plan {
    plan::then_(
        plan::then_(
            plan::then_(
                Plan::Do(Op::Matmul { plane: PlaneId::PleKey, x: Buf::Emb, y: Buf::Pkey, rows: n }),
                Plan::Do(
                    Op::Matmul { plane: PlaneId::PleValue, x: Buf::Emb, y: Buf::Pval, rows: n },
                ),
            ),
            plan::then_(
                Plan::Do(
                    Op::GroupNorm { norm: NormId::PleKey, src: Buf::Pkey, dst: Buf::Pkn, rows: n },
                ),
                Plan::Do(
                    Op::GroupNorm { norm: NormId::PleQuery, src: Buf::H, dst: Buf::Pqn, rows: n },
                ),
            ),
        ),
        plan::then_(
            Plan::Do(Op::PleGate { rows: n }),
            Plan::Do(
                Op::GroupNorm { norm: NormId::PleConv, src: Buf::Pgv, dst: Buf::Pkn, rows: n },
            ),
        ),
    )
}

/// The n-gram pass: `H += gv + conv(gv)`.
pub open spec fn ple_plan(d: Dims, n: usize, phase: Phase, slot: usize, runs: Seq<Run>) -> Plan {
    let len = (n * d.hc_width) as usize;
    plan::then_(
        plan::then_(
            gate_plan(n),
            match phase {
                Phase::Prefill => plan::then_(
                    Plan::Do(Op::PleConv { off: 0, rows: n }),
                    ring_plan(d, slot as int, 0, n as int),
                ),
                Phase::PrefillRuns => runs_plan(d, runs, 0),
                _ => Plan::Do(Op::PleRingStep { rows: n }),
            },
        ),
        plan::then_(
            Plan::Do(Op::Add { dst: Buf::H, src: Buf::Pgv, len }),
            Plan::Do(Op::Add { dst: Buf::H, src: Buf::Pconv, len }),
        ),
    )
}

fn gate(n: usize) -> (p: Plan)
    ensures
        p == gate_plan(n),
{
    let project: Plan = chain(
        Plan::Do(Op::Matmul { plane: PlaneId::PleKey, x: Buf::Emb, y: Buf::Pkey, rows: n }),
        Plan::Do(Op::Matmul { plane: PlaneId::PleValue, x: Buf::Emb, y: Buf::Pval, rows: n }),
    );
    let norms: Plan = chain(
        Plan::Do(Op::GroupNorm { norm: NormId::PleKey, src: Buf::Pkey, dst: Buf::Pkn, rows: n }),
        Plan::Do(Op::GroupNorm { norm: NormId::PleQuery, src: Buf::H, dst: Buf::Pqn, rows: n }),
    );
    let gated: Plan = chain(
        Plan::Do(Op::PleGate { rows: n }),
        Plan::Do(Op::GroupNorm { norm: NormId::PleConv, src: Buf::Pgv, dst: Buf::Pkn, rows: n }),
    );
    chain(chain(project, norms), gated)
}

/// The n-gram pass over `n` rows. `slot` is the prompt's, `runs` are the wave's.
pub fn ple_pass(d: &Dims, n: usize, phase: Phase, slot: usize, runs: &Vec<Run>) -> (p: Plan)
    requires
        n * d.hc_width <= usize::MAX,
        phase == Phase::Prefill ==> ring_fits(*d, slot as int, n as int),
        phase == Phase::PrefillRuns ==> forall|i: int|
            0 <= i < runs@.len() ==> {
                let r = #[trigger] runs@[i];
                r.off + r.len <= usize::MAX && ring_fits(*d, r.slot as int, r.off + r.len)
            },
    ensures
        p == ple_plan(*d, n, phase, slot, runs@),
{
    let len: usize = n * d.hc_width;
    let conv: Plan = match phase {
        Phase::Prefill => chain(Plan::Do(Op::PleConv { off: 0, rows: n }), ring(d, slot, 0, n)),
        Phase::PrefillRuns => each_run(d, runs),
        _ => Plan::Do(Op::PleRingStep { rows: n }),
    };
    chain(
        chain(gate(n), conv),
        chain(
            Plan::Do(Op::Add { dst: Buf::H, src: Buf::Pgv, len }),
            Plan::Do(Op::Add { dst: Buf::H, src: Buf::Pconv, len }),
        ),
    )
}

/// What the n-gram pass needs before it.
pub open spec fn ple_live() -> Set<Buf> {
    set![Buf::H, Buf::Emb, Buf::PleWin, Buf::Slots, Buf::Pos]
}

proof fn lemma_ring_fed(d: Dims, slot: int, off: int, n: int, live: Set<Buf>)
    requires
        live.contains(Buf::Pkn),
    ensures
        plan::fed(ring_plan(d, slot, off, n), live),
{
    reveal_with_fuel(plan::fed, 3);
}

proof fn lemma_runs_fed(d: Dims, runs: Seq<Run>, i: int, live: Set<Buf>)
    requires
        live.contains(Buf::Pkn),
        0 <= i <= runs.len(),
    ensures
        plan::fed(runs_plan(d, runs, i), live),
        i < runs.len() ==> plan::written(runs_plan(d, runs, i)).contains(Buf::Pconv),
    decreases runs.len() - i,
{
    reveal_with_fuel(plan::fed, 3);
    reveal_with_fuel(plan::written, 3);
    if i < runs.len() {
        let a = plan::then_(
            Plan::Do(Op::PleConv { off: runs[i].off, rows: runs[i].len }),
            ring_plan(d, runs[i].slot as int, runs[i].off as int, runs[i].len as int),
        );
        lemma_ring_fed(
            d,
            runs[i].slot as int,
            runs[i].off as int,
            runs[i].len as int,
            live.union(
                plan::written(Plan::Do(Op::PleConv { off: runs[i].off, rows: runs[i].len })),
            ),
        );
        lemma_runs_fed(d, runs, i + 1, live.union(plan::written(a)));
    }
}

/// The n-gram pass reads nothing that is not there, and adds to the state. A wave has at least one
/// run.
pub proof fn law_ngrams_feed_the_state(
    d: Dims,
    n: usize,
    phase: Phase,
    slot: usize,
    runs: Seq<Run>,
)
    requires
        phase == Phase::PrefillRuns ==> runs.len() > 0,
    ensures
        plan::fed(ple_plan(d, n, phase, slot, runs), ple_live()),
        plan::written(ple_plan(d, n, phase, slot, runs)).contains(Buf::H),
{
    reveal_with_fuel(plan::fed, 5);
    reveal_with_fuel(plan::written, 5);
    let g = gate_plan(n);
    assert(plan::fed(g, ple_live()));
    assert(plan::written(g).contains(Buf::Pkn));
    assert(plan::written(g).contains(Buf::Pgv));
    let live = ple_live().union(plan::written(g));
    let c = Plan::Do(Op::PleConv { off: 0, rows: n });
    lemma_ring_fed(d, slot as int, 0, n as int, live.union(plan::written(c)));
    lemma_runs_fed(d, runs, 0, live);
}

/// A slot's ring behind a prompt whose rows are `off .. off + n` of `x`: each of the last rows at
/// its position's place, a ring being `w` rows of `hw` elements.
pub open spec fn ring_kept(d: Dims, slot: int, off: int, n: int, ring: Val, x: Val) -> Val {
    let w = (d.ple_conv - 1) * 3;
    let hw = d.hc_width as int;
    let base = slot * w * hw;
    if n < w {
        meaning::of2(Fun::Moved((off * hw) as usize, base as usize, (n * hw) as usize), ring, x)
    } else {
        let turn = n % w;
        let upper = meaning::of2(
            Fun::Moved(
                ((off + n - w) * hw) as usize,
                (base + turn * hw) as usize,
                ((w - turn) * hw) as usize,
            ),
            ring,
            x,
        );
        if turn == 0 {
            upper
        } else {
            meaning::of2(
                Fun::Moved(((off + n - turn) * hw) as usize, base as usize, (turn * hw) as usize),
                upper,
                x,
            )
        }
    }
}

/// The convolution of the runs from the `i`th on, each for itself, and the rings behind them.
pub open spec fn runs_ringed(d: Dims, runs: Seq<Run>, i: int, conv: Val, ring: Val, x: Val) -> (
    Val,
    Val,
)
    decreases runs.len() - i,
{
    if i >= runs.len() {
        (conv, ring)
    } else {
        let r = runs[i];
        runs_ringed(
            d,
            runs,
            i + 1,
            meaning::of2(Fun::Put(r.off, r.len), conv, meaning::of1(Fun::PleConv(r.off, r.len), x)),
            ring_kept(d, r.slot as int, r.off as int, r.len as int, ring, x),
            x,
        )
    }
}

/// The convolution over the rows of a pass, and the ring that it leaves.
pub open spec fn ringed(c: Scene, s: State, x: Val) -> (Val, Val) {
    let (conv, ring) = (s.get(Buf::Pconv), s.get(Buf::PleWin));
    match c.at.phase {
        Phase::Prefill => (
            meaning::of2(Fun::Put(0, c.at.n), conv, meaning::of1(Fun::PleConv(0, c.at.n), x)),
            ring_kept(c.d, c.at.slot as int, 0, c.at.n as int, ring, x),
        ),
        Phase::PrefillRuns => runs_ringed(c.d, c.runs, 0, conv, ring, x),
        _ => {
            let args = seq![x, ring, s.get(Buf::Slots), s.get(Buf::Pos)];
            (Val::Of(Fun::RingConv, args), Val::Of(Fun::RingStore, args))
        },
    }
}

/// The gated values of the rows' n-grams: keys normed against the normed state.
pub open spec fn gated_values(s: State) -> Val {
    meaning::of3(
        Fun::PleGate,
        meaning::of1(
            Fun::Norm(NormId::PleKey),
            meaning::of1(Fun::Product(PlaneId::PleKey), s.get(Buf::Emb)),
        ),
        meaning::of1(Fun::Norm(NormId::PleQuery), s.get(Buf::H)),
        meaning::of1(Fun::Product(PlaneId::PleValue), s.get(Buf::Emb)),
    )
}

proof fn lemma_ring_computes(
    c: Scene,
    slot: int,
    off: int,
    n: int,
    s: State,
    taken: spec_fn(Op) -> bool,
)
    requires
        0 <= slot,
        0 <= off,
        0 <= n,
        off + n <= usize::MAX,
        c.d.ple_conv >= 2,
        ring_rows(c.d) <= usize::MAX,
    ensures
        meaning::run(c, ring_plan(c.d, slot, off, n), s, taken).at =~= s.set(
            Buf::PleWin,
            ring_kept(c.d, slot, off, n, s.get(Buf::PleWin), s.get(Buf::Pkn)),
        ).at,
        !meaning::fails(ring_plan(c.d, slot, off, n), taken),
{
    reveal_with_fuel(meaning::run, 2);
    reveal_with_fuel(meaning::fails, 2);
    let w = ring_rows(c.d);
    let hw = c.d.hc_width as int;
    assert(w >= 3);
    assert(0 * hw == 0);
    if n >= w {
        vstd::arithmetic::div_mod::lemma_mod_bound(n, w);
    }
}

proof fn lemma_runs_ring(c: Scene, i: int, s: State, taken: spec_fn(Op) -> bool)
    requires
        0 <= i <= c.runs.len(),
        c.d.ple_conv >= 2,
        ring_rows(c.d) <= usize::MAX,
        forall|j: int| 0 <= j < c.runs.len() ==> (#[trigger] c.runs[j]).off + c.runs[j].len <= usize::MAX,
    ensures
        ({
            let p = runs_plan(c.d, c.runs, i);
            let t = meaning::run(c, p, s, taken);
            let v = runs_ringed(
                c.d,
                c.runs,
                i,
                s.get(Buf::Pconv),
                s.get(Buf::PleWin),
                s.get(Buf::Pkn),
            );
            &&& t.get(Buf::Pconv) == v.0
            &&& t.get(Buf::PleWin) == v.1
            &&& t.get(Buf::Pgv) == s.get(Buf::Pgv)
            &&& t.get(Buf::H) == s.get(Buf::H)
            &&& !meaning::fails(p, taken)
        }),
    decreases c.runs.len() - i,
{
    if i < c.runs.len() {
        let r = c.runs[i];
        let one = Plan::Do(Op::PleConv { off: r.off, rows: r.len });
        let ring = ring_plan(c.d, r.slot as int, r.off as int, r.len as int);
        let s1 = meaning::run(c, one, s, taken);
        lemma_ring_computes(c, r.slot as int, r.off as int, r.len as int, s1, taken);
        let s2 = meaning::run(c, ring, s1, taken);
        assert(s2.get(Buf::Pkn) == s.get(Buf::Pkn));
        assert(s2 == meaning::run(c, plan::then_(one, ring), s, taken));
        assert(!meaning::fails(one, taken));
        assert(!meaning::fails(plan::then_(one, ring), taken));
        lemma_runs_ring(c, i + 1, s2, taken);
    }
}

proof fn lemma_gate_computes(c: Scene, s: State, taken: spec_fn(Op) -> bool)
    ensures
        ({
            let t = meaning::run(c, gate_plan(c.at.n), s, taken);
            &&& t.get(Buf::Pgv) == gated_values(s)
            &&& t.get(Buf::Pkn) == meaning::of1(Fun::Norm(NormId::PleConv), gated_values(s))
            &&& t.get(Buf::Pconv) == s.get(Buf::Pconv)
            &&& t.get(Buf::PleWin) == s.get(Buf::PleWin)
            &&& t.get(Buf::Slots) == s.get(Buf::Slots)
            &&& t.get(Buf::Pos) == s.get(Buf::Pos)
            &&& t.get(Buf::H) == s.get(Buf::H)
            &&& !meaning::fails(gate_plan(c.at.n), taken)
        }),
{
    reveal_with_fuel(meaning::run, 5);
    reveal_with_fuel(meaning::fails, 5);
}

/// The n-gram pass adds to the state the gated values of the rows' n-grams and their normed
/// convolution, each once, and leaves the ring with the rows that the next convolution reads.
pub proof fn law_ngrams_add_their_values_and_convolution(
    c: Scene,
    s: State,
    taken: spec_fn(Op) -> bool,
)
    requires
        c.at.n * c.d.hc_width <= usize::MAX,
        c.d.ple_conv >= 2,
        ring_rows(c.d) <= usize::MAX,
        c.at.phase == Phase::PrefillRuns ==> forall|j: int|
            0 <= j < c.runs.len() ==> (#[trigger] c.runs[j]).off + c.runs[j].len <= usize::MAX,
    ensures
        ({
            let p = ple_plan(c.d, c.at.n, c.at.phase, c.at.slot, c.runs);
            let t = meaning::run(c, p, s, taken);
            let gv = gated_values(s);
            let (conv, ring) = ringed(c, s, meaning::of1(Fun::Norm(NormId::PleConv), gv));
            let len = (c.at.n * c.d.hc_width) as usize;
            &&& t.get(Buf::H) == meaning::of2(
                Fun::Sum(len),
                meaning::of2(Fun::Sum(len), s.get(Buf::H), gv),
                conv,
            )
            &&& t.get(Buf::PleWin) == ring
            &&& !meaning::fails(p, taken)
        }),
{
    let n = c.at.n;
    let len = (n * c.d.hc_width) as usize;
    let gate = gate_plan(n);
    lemma_gate_computes(c, s, taken);
    let s1 = meaning::run(c, gate, s, taken);
    let x = s1.get(Buf::Pkn);
    assert(ringed(c, s1, x) == ringed(c, s, x));
    let one = Plan::Do(Op::PleConv { off: 0, rows: n });
    let ring = ring_plan(c.d, c.at.slot as int, 0, n as int);
    let mid = match c.at.phase {
        Phase::Prefill => plan::then_(one, ring),
        Phase::PrefillRuns => runs_plan(c.d, c.runs, 0),
        _ => Plan::Do(Op::PleRingStep { rows: n }),
    };
    let s2 = meaning::run(c, mid, s1, taken);
    match c.at.phase {
        Phase::Prefill => {
            let a = meaning::run(c, one, s1, taken);
            lemma_ring_computes(c, c.at.slot as int, 0, n as int, a, taken);
            assert(s2 == meaning::run(c, ring, a, taken));
            assert(!meaning::fails(one, taken));
        },
        Phase::PrefillRuns => {
            lemma_runs_ring(c, 0, s1, taken);
        },
        _ => {},
    }
    assert(s2.get(Buf::Pconv) == ringed(c, s, x).0);
    assert(s2.get(Buf::PleWin) == ringed(c, s, x).1);
    assert(s2.get(Buf::H) == s.get(Buf::H) && s2.get(Buf::Pgv) == gated_values(s));
    assert(!meaning::fails(mid, taken));
    let a = Plan::Do(Op::Add { dst: Buf::H, src: Buf::Pgv, len });
    let b = Plan::Do(Op::Add { dst: Buf::H, src: Buf::Pconv, len });
    let s3 = meaning::run(c, a, s2, taken);
    let s4 = meaning::run(c, b, s3, taken);
    assert(s4 == meaning::run(c, plan::then_(a, b), s2, taken));
    assert(s2 == meaning::run(c, plan::then_(gate, mid), s, taken));
    assert(!meaning::fails(a, taken) && !meaning::fails(b, taken));
    assert(!meaning::fails(plan::then_(a, b), taken));
    assert(!meaning::fails(plan::then_(gate, mid), taken));
}

} // verus!
