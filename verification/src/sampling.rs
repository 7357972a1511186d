//! How a row is sampled, and how the plans travel to the device. Real numbers travel as the bits of
//! their single-precision form.
use vstd::prelude::*;

verus! {

/// A draw that the device makes on its own.
#[derive(Debug, Clone, Copy, PartialEq, Eq, Structural)]
pub enum DevicePlan {
    Greedy,
    /// temperature only: the inverse temperature and one uniform
    Categorical { inv_t: u32, u: u32 },
    /// truncation: top-k, top-p, min-p
    TruncCat { inv_t: u32, u: u32, k: u32, top_p: u32, min_p: u32 },
    /// accept or recover a drafted token
    RsVerify { inv_t: u32, u: u32, v: u32 },
    /// the same against a truncated distribution
    RsTrunc { inv_t: u32, u: u32, v: u32, k: u32, top_p: u32, min_p: u32 },
}

/// What a row of a tick is.
#[derive(Debug, Clone, Copy, PartialEq, Eq, Structural)]
pub enum RowSample {
    /// No sequence decodes here.
    Hole,
    /// The row's logits come back and the host draws.
    Host,
    Device(DevicePlan),
}

/// Words per row of a plan plane.
pub const PLAN_WORDS: usize = 4;

/// The draw words of a row: inverse temperature, uniform, mode.
pub open spec fn draw_words(p: RowSample) -> Seq<u32> {
    match p {
        RowSample::Device(DevicePlan::Greedy) => seq![0, 0, 1, 0],
        RowSample::Device(DevicePlan::Categorical { inv_t, u }) => seq![inv_t, u, 2, 0],
        RowSample::Device(DevicePlan::TruncCat { inv_t, u, k, top_p, min_p }) => seq![
            inv_t,
            u,
            if 1 <= k <= 64 {
                5
            } else {
                6
            },
            0,
        ],
        _ => seq![0, 0, 0, 0],
    }
}

/// The truncation words of a row: top-k, top-p, min-p.
pub open spec fn trunc_words(p: RowSample) -> Seq<u32> {
    match p {
        RowSample::Device(DevicePlan::TruncCat { inv_t, u, k, top_p, min_p }) => seq![
            k,
            top_p,
            min_p,
            0,
        ],
        _ => seq![0, 0, 0, 0],
    }
}

/// A truncation row.
pub open spec fn is_trunc(p: RowSample) -> bool {
    p matches RowSample::Device(d) && d is TruncCat
}

/// `plane` holds `words` of each plan, row after row.
pub open spec fn holds_words(
    plane: Seq<u32>,
    plans: Seq<RowSample>,
    words: spec_fn(RowSample) -> Seq<u32>,
) -> bool {
    &&& plane.len() == plans.len() * PLAN_WORDS
    &&& forall|i: int, j: int|
        0 <= i < plans.len() && 0 <= j < 4 ==> #[trigger] plane[i * 4 + j] == words(plans[i])[j]
}

fn push_words(plane: &mut Vec<u32>, w: [u32; 4])
    ensures
        final(plane)@ == old(plane)@ + w@,
{
    let mut j: usize = 0;
    let ghost base = plane@;
    while j < 4
        invariant
            j <= 4,
            plane@ == base + w@.take(j as int),
        decreases 4 - j,
    {
        plane.push(w[j]);
        assert(plane@ =~= base + w@.take(j + 1));
        j = j + 1;
    }
    assert(w@.take(4) =~= w@);
}

fn draw_of(p: &RowSample) -> (w: [u32; 4])
    ensures
        w@ == draw_words(*p),
{
    let w: [u32; 4] = match p {
        RowSample::Device(DevicePlan::Greedy) => [0, 0, 1, 0],
        RowSample::Device(DevicePlan::Categorical { inv_t, u }) => [*inv_t, *u, 2, 0],
        RowSample::Device(DevicePlan::TruncCat { inv_t, u, k, .. }) => [
            *inv_t,
            *u,
            if *k >= 1 && *k <= 64 {
                5
            } else {
                6
            },
            0,
        ],
        _ => [0, 0, 0, 0],
    };
    assert(w@ =~= draw_words(*p));
    w
}

fn trunc_of(p: &RowSample) -> (w: [u32; 4])
    ensures
        w@ == trunc_words(*p),
{
    let w: [u32; 4] = match p {
        RowSample::Device(DevicePlan::TruncCat { k, top_p, min_p, .. }) => [*k, *top_p, *min_p, 0],
        _ => [0, 0, 0, 0],
    };
    assert(w@ =~= trunc_words(*p));
    w
}

proof fn lemma_holds_push(
    plane: Seq<u32>,
    plans: Seq<RowSample>,
    words: spec_fn(RowSample) -> Seq<u32>,
    p: RowSample,
)
    requires
        holds_words(plane, plans, words),
        words(p).len() == 4,
    ensures
        holds_words(plane + words(p), plans.push(p), words),
{
    let next = plane + words(p);
    let all = plans.push(p);
    assert forall|i: int, j: int| 0 <= i < all.len() && 0 <= j < 4 implies #[trigger] next[i * 4 + j]
        == words(all[i])[j] by {
        if i < plans.len() {
            assert(next[i * 4 + j] == plane[i * 4 + j]);
        } else {
            assert(next[i * 4 + j] == words(p)[j]);
        }
    }
}

/// Pack the rows' plans into the device's parameter words; the truncation plane only when some row
/// truncates. A row that the device does not draw has all zeros.
pub fn pack_samp_par(plans: &Vec<RowSample>) -> (r: (Vec<u32>, Option<Vec<u32>>))
    requires
        plans@.len() * PLAN_WORDS <= usize::MAX,
    ensures
        holds_words(r.0@, plans@, |p: RowSample| draw_words(p)),
        r.1 is Some <==> exists|i: int| 0 <= i < plans@.len() && #[trigger] is_trunc(plans@[i]),
        r.1 matches Some(t) ==> holds_words(t@, plans@, |p: RowSample| trunc_words(p)),
{
    let ghost dw = |p: RowSample| draw_words(p);
    let ghost tw = |p: RowSample| trunc_words(p);
    let mut par: Vec<u32> = Vec::new();
    let mut tpar: Vec<u32> = Vec::new();
    let mut any: bool = false;
    let mut i: usize = 0;
    while i < plans.len()
        invariant
            i <= plans@.len(),
            dw == (|p: RowSample| draw_words(p)),
            tw == (|p: RowSample| trunc_words(p)),
            holds_words(par@, plans@.take(i as int), dw),
            holds_words(tpar@, plans@.take(i as int), tw),
            any <==> exists|k: int| 0 <= k < i && #[trigger] is_trunc(plans@[k]),
        decreases plans@.len() - i,
    {
        let p = plans[i];
        proof {
            lemma_holds_push(par@, plans@.take(i as int), dw, p);
            lemma_holds_push(tpar@, plans@.take(i as int), tw, p);
            assert(plans@.take(i as int).push(p) =~= plans@.take(i + 1));
        }
        push_words(&mut par, draw_of(&p));
        push_words(&mut tpar, trunc_of(&p));
        let truncates: bool = match p {
            RowSample::Device(DevicePlan::TruncCat { .. }) => true,
            _ => false,
        };
        assert(truncates == is_trunc(plans@[i as int]));
        if truncates {
            any = true;
        }
        i = i + 1;
    }
    assert(plans@.take(i as int) =~= plans@);
    (
        par,
        if any {
            Some(tpar)
        } else {
            None
        },
    )
}

/// The draw words of a pipelined speculative row: what cannot ride the pipe goes greedy.
pub open spec fn pipe_words(p: DevicePlan) -> Seq<u32> {
    match p {
        DevicePlan::Categorical { inv_t, u } => seq![inv_t, u, 2, 0],
        _ => seq![0, 0, 1, 0],
    }
}

/// Pack the plans of a pipelined speculative round.
pub fn pack_pipe_par(plans: &Vec<DevicePlan>) -> (par: Vec<u32>)
    requires
        plans@.len() * PLAN_WORDS <= usize::MAX,
    ensures
        par@.len() == plans@.len() * PLAN_WORDS,
        forall|i: int, j: int|
            0 <= i < plans@.len() && 0 <= j < 4 ==> #[trigger] par@[i * 4 + j] == pipe_words(
                plans@[i],
            )[j],
{
    let mut par: Vec<u32> = Vec::new();
    let mut i: usize = 0;
    while i < plans.len()
        invariant
            i <= plans@.len(),
            par@.len() == i * 4,
            forall|k: int, j: int|
                0 <= k < i && 0 <= j < 4 ==> #[trigger] par@[k * 4 + j] == pipe_words(plans@[k])[j],
        decreases plans@.len() - i,
    {
        let w: [u32; 4] = match plans[i] {
            DevicePlan::Categorical { inv_t, u } => [inv_t, u, 2, 0],
            _ => [0, 0, 1, 0],
        };
        let ghost before = par@;
        push_words(&mut par, w);
        assert(w@ =~= pipe_words(plans@[i as int]));
        assert forall|k: int, j: int| 0 <= k < i + 1 && 0 <= j < 4 implies #[trigger] par@[k * 4 + j]
            == pipe_words(plans@[k])[j] by {
            if k < i {
                assert(par@[k * 4 + j] == before[k * 4 + j]);
            } else {
                assert(par@[k * 4 + j] == w@[j]);
            }
        }
        i = i + 1;
    }
    par
}

/// A row that the device draws names how in its third word: one for the largest, two by temperature
/// alone, five and six by truncation to at most sixty-four candidates and to more; it carries its
/// inverse temperature and its uniform before it. Holes and host rows are all zeros.
pub proof fn law_plan_words_name_the_draw(p: RowSample, inv_t: u32, u: u32, k: u32, top_p: u32, min_p: u32)
    ensures
        draw_words(p).len() == 4 && trunc_words(p).len() == 4,
        p is Hole || p is Host <==> draw_words(p)[2] == 0 && !(p matches RowSample::Device(
            DevicePlan::RsVerify { .. },
        )) && !(p matches RowSample::Device(DevicePlan::RsTrunc { .. })),
        p is Hole || p is Host ==> draw_words(p) == seq![0u32, 0u32, 0u32, 0u32],
        p == RowSample::Device(DevicePlan::Greedy) <==> draw_words(p)[2] == 1,
        p == RowSample::Device(DevicePlan::Categorical { inv_t, u }) ==> draw_words(p)[0] == inv_t
            && draw_words(p)[1] == u && draw_words(p)[2] == 2,
        p == RowSample::Device(DevicePlan::TruncCat { inv_t, u, k, top_p, min_p }) ==> {
            &&& draw_words(p)[0] == inv_t && draw_words(p)[1] == u
            &&& draw_words(p)[2] == 5 <==> 1 <= k <= 64
            &&& draw_words(p)[2] == 6 <==> k == 0 || k > 64
            &&& trunc_words(p)[0] == k && trunc_words(p)[1] == top_p && trunc_words(p)[2] == min_p
        },
        !is_trunc(p) ==> trunc_words(p) == seq![0u32, 0u32, 0u32, 0u32],
        is_trunc(p) <==> draw_words(p)[2] == 5 || draw_words(p)[2] == 6,
        pipe_words(DevicePlan::Categorical { inv_t, u })[0] == inv_t && pipe_words(
            DevicePlan::Categorical { inv_t, u },
        )[1] == u,
        pipe_words(DevicePlan::Categorical { inv_t, u }) == draw_words(
            RowSample::Device(DevicePlan::Categorical { inv_t, u }),
        ),
        pipe_words(DevicePlan::Greedy) == draw_words(RowSample::Device(DevicePlan::Greedy)),
{
}

/// A plane of plans holds four words a row, row by row.
pub proof fn law_plan_planes_hold_four_words_a_row(
    plane: Seq<u32>,
    plans: Seq<RowSample>,
    i: int,
    j: int,
)
    requires
        holds_words(plane, plans, |p: RowSample| draw_words(p)),
        0 <= i < plans.len(),
        0 <= j < 4,
    ensures
        plane.len() == 4 * plans.len(),
        plane[4 * i + j] == draw_words(plans[i])[j],
        plans[i] is Host ==> plane[4 * i + 2] == 0,
        plans[i] == RowSample::Device(DevicePlan::Greedy) ==> plane[4 * i + 2] == 1,
{
    assert(plane[i * 4 + j] == draw_words(plans[i])[j]);
    assert(plane[i * 4 + 2] == draw_words(plans[i])[2]);
}

} // verus!
