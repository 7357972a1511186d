//! What a walk reads from the host: one token, position and slot per row, and for a wave of prompts
//! the runs and query tiles that its rows fall into.
use vstd::prelude::*;

verus! {

/// Rows of a query tile.
pub const TILE_ROWS: usize = 16;

/// The rows of one prompt inside a wave.
#[derive(Debug, Clone, Copy, PartialEq, Eq, Structural)]
pub struct Run {
    pub slot: usize,
    pub off: usize,
    pub len: usize,
}

/// The per-row inputs of a walk.
#[derive(Debug)]
pub struct Planes {
    pub tok: Vec<u32>,
    pub pos: Vec<u32>,
    /// the positions once per rotary axis
    pub mrope: Vec<u32>,
    pub slots: Vec<u32>,
}

/// The per-run and per-tile inputs of a wave.
#[derive(Debug)]
pub struct WavePlanes {
    pub run_off: Vec<u32>,
    pub run_len: Vec<u32>,
    pub run_slot: Vec<u32>,
    pub tile_row0: Vec<u32>,
    pub tile_slot: Vec<u32>,
}

/// A sequence four times over.
pub open spec fn four(s: Seq<u32>) -> Seq<u32> {
    s + s + s + s
}

/// `n` positions from `base` on.
pub open spec fn positions(base: int, n: nat) -> Seq<u32> {
    Seq::new(n, |i: int| (base + i) as u32)
}

/// The same slot for `n` rows.
pub open spec fn one_slot(slot: int, n: nat) -> Seq<u32> {
    Seq::new(n, |i: int| slot as u32)
}

impl Planes {
    /// The planes of `ids`, one sequence in `slot` from position `base` on.
    pub open spec fn is_run(&self, ids: Seq<u32>, base: int, slot: int) -> bool {
        &&& self.tok@ == ids
        &&& self.pos@ == positions(base, ids.len())
        &&& self.mrope@ == four(positions(base, ids.len()))
        &&& self.slots@ == one_slot(slot, ids.len())
    }
}

pub(crate) fn copied(s: &[u32]) -> (v: Vec<u32>)
    ensures
        v@ == s@,
{
    let mut v: Vec<u32> = Vec::new();
    push_all(&mut v, s);
    assert(v@ =~= s@);
    v
}

pub(crate) fn push_all(v: &mut Vec<u32>, s: &[u32])
    ensures
        final(v)@ == old(v)@ + s@,
{
    let ghost before = v@;
    let mut i: usize = 0;
    assert(v@ =~= before + s@.take(0));
    while i < s.len()
        invariant
            i <= s@.len(),
            v@ == before + s@.take(i as int),
        decreases s@.len() - i,
    {
        v.push(s[i]);
        assert(v@ =~= before + s@.take(i + 1));
        i = i + 1;
    }
    assert(s@.take(i as int) =~= s@);
}

pub(crate) fn push_positions(v: &mut Vec<u32>, base: usize, n: usize)
    requires
        base + n <= u32::MAX,
    ensures
        final(v)@ == old(v)@ + positions(base as int, n as nat),
{
    let ghost before = v@;
    let mut i: usize = 0;
    assert(v@ =~= before + positions(base as int, 0));
    while i < n
        invariant
            i <= n,
            base + n <= u32::MAX,
            v@ == before + positions(base as int, i as nat),
        decreases n - i,
    {
        v.push((base + i) as u32);
        assert(v@ =~= before + positions(base as int, (i + 1) as nat));
        i = i + 1;
    }
}

pub(crate) fn push_slot(v: &mut Vec<u32>, slot: usize, n: usize)
    requires
        slot <= u32::MAX,
    ensures
        final(v)@ == old(v)@ + one_slot(slot as int, n as nat),
{
    let ghost before = v@;
    let mut i: usize = 0;
    assert(v@ =~= before + one_slot(slot as int, 0));
    while i < n
        invariant
            i <= n,
            slot <= u32::MAX,
            v@ == before + one_slot(slot as int, i as nat),
        decreases n - i,
    {
        v.push(slot as u32);
        assert(v@ =~= before + one_slot(slot as int, (i + 1) as nat));
        i = i + 1;
    }
}

pub(crate) fn fourfold(s: &Vec<u32>) -> (v: Vec<u32>)
    ensures
        v@ == four(s@),
{
    let mut v: Vec<u32> = Vec::new();
    push_all(&mut v, s.as_slice());
    push_all(&mut v, s.as_slice());
    push_all(&mut v, s.as_slice());
    push_all(&mut v, s.as_slice());
    assert(v@ =~= four(s@));
    v
}

/// The planes of one sequence in `slot`, from position `base` on.
pub fn stage_run(ids: &[u32], base: usize, slot: usize) -> (p: Planes)
    requires
        base + ids@.len() <= u32::MAX,
        slot <= u32::MAX,
    ensures
        p.is_run(ids@, base as int, slot as int),
{
    let n: usize = ids.len();
    let tok: Vec<u32> = copied(ids);
    let mut pos: Vec<u32> = Vec::new();
    push_positions(&mut pos, base, n);
    assert(pos@ =~= positions(base as int, n as nat));
    let mrope: Vec<u32> = fourfold(&pos);
    let mut slots: Vec<u32> = Vec::new();
    push_slot(&mut slots, slot, n);
    assert(slots@ =~= one_slot(slot as int, n as nat));
    Planes { tok, pos, mrope, slots }
}

/// Tiles of a run of `len` rows.
pub open spec fn run_tiles(len: int) -> int {
    (len + TILE_ROWS - 1) / TILE_ROWS as int
}

/// Tiles of the first `n` runs.
pub open spec fn tile_count(runs: Seq<Run>, n: int) -> int
    decreases n,
{
    if n <= 0 {
        0
    } else {
        tile_count(runs, n - 1) + run_tiles(runs[n - 1].len as int)
    }
}

/// Rows of the first `n` runs.
pub open spec fn row_count(runs: Seq<Run>, n: int) -> int
    decreases n,
{
    if n <= 0 {
        0
    } else {
        row_count(runs, n - 1) + runs[n - 1].len
    }
}

/// Runs laid out one after another.
pub open spec fn packed(runs: Seq<Run>) -> bool {
    forall|i: int| 0 <= i < runs.len() ==> (#[trigger] runs[i]).off == row_count(runs, i)
}

/// The first rows of a run's tiles.
pub open spec fn run_tile_rows(r: Run) -> Seq<u32> {
    Seq::new(run_tiles(r.len as int) as nat, |i: int| (r.off + TILE_ROWS * i) as u32)
}

/// The first rows of the tiles of the first `n` runs.
pub open spec fn tile_rows(runs: Seq<Run>, n: int) -> Seq<u32>
    decreases n,
{
    if n <= 0 {
        seq![]
    } else {
        tile_rows(runs, n - 1) + run_tile_rows(runs[n - 1])
    }
}

/// The slots of the tiles of the first `n` runs.
pub open spec fn tile_slots(runs: Seq<Run>, n: int) -> Seq<u32>
    decreases n,
{
    if n <= 0 {
        seq![]
    } else {
        tile_slots(runs, n - 1) + one_slot(
            runs[n - 1].slot as int,
            run_tiles(runs[n - 1].len as int) as nat,
        )
    }
}

proof fn lemma_row_count_mono(runs: Seq<Run>, i: int, j: int)
    requires
        0 <= i <= j <= runs.len(),
    ensures
        0 <= row_count(runs, i) <= row_count(runs, j),
    decreases j,
{
    if i < j {
        lemma_row_count_mono(runs, i, j - 1);
    } else if i > 0 {
        lemma_row_count_mono(runs, i - 1, i - 1);
    }
}

pub proof fn lemma_tiles_bound(runs: Seq<Run>, n: int)
    requires
        0 <= n <= runs.len(),
    ensures
        0 <= tile_count(runs, n),
        16 * tile_count(runs, n) <= row_count(runs, n) + 15 * n,
    decreases n,
{
    if n > 0 {
        lemma_tiles_bound(runs, n - 1);
    }
}

/// Query tiles that a wave of runs takes. Each run is tiled from its own first row, so that no tile
/// serves two slots.
pub fn n_qtiles(runs: &Vec<Run>) -> (n: usize)
    requires
        row_count(runs@, runs@.len() as int) + 15 * runs@.len() <= usize::MAX,
    ensures
        n == tile_count(runs@, runs@.len() as int),
{
    let mut n: usize = 0;
    let mut i: usize = 0;
    while i < runs.len()
        invariant
            i <= runs@.len(),
            row_count(runs@, runs@.len() as int) + 15 * runs@.len() <= usize::MAX,
            n == tile_count(runs@, i as int),
        decreases runs@.len() - i,
    {
        proof {
            lemma_row_count_mono(runs@, i + 1, runs@.len() as int);
            lemma_row_count_mono(runs@, i as int, i + 1);
            lemma_tiles_bound(runs@, i as int);
            lemma_tiles_bound(runs@, i + 1);
            assert(row_count(runs@, i + 1) == row_count(runs@, i as int) + runs@[i as int].len);
            assert(tile_count(runs@, i + 1) == tile_count(runs@, i as int) + run_tiles(
                runs@[i as int].len as int,
            ));
        }
        n = n + (runs[i].len + (TILE_ROWS - 1)) / TILE_ROWS;
        i = i + 1;
    }
    n
}

fn push_run_tiles(rows: &mut Vec<u32>, slots: &mut Vec<u32>, r: &Run)
    requires
        r.off + r.len + TILE_ROWS <= u32::MAX,
        r.slot <= u32::MAX,
    ensures
        final(rows)@ == old(rows)@ + run_tile_rows(*r),
        final(slots)@ == old(slots)@ + one_slot(r.slot as int, run_tiles(r.len as int) as nat),
{
    let ghost rows0 = rows@;
    let ghost slots0 = slots@;
    let n: usize = (r.len + (TILE_ROWS - 1)) / TILE_ROWS;
    let mut i: usize = 0;
    assert(rows@ =~= rows0 + run_tile_rows(*r).take(0));
    assert(slots@ =~= slots0 + one_slot(r.slot as int, 0));
    while i < n
        invariant
            i <= n,
            n == run_tiles(r.len as int),
            r.off + r.len + TILE_ROWS <= u32::MAX,
            r.slot <= u32::MAX,
            rows@ == rows0 + run_tile_rows(*r).take(i as int),
            slots@ == slots0 + one_slot(r.slot as int, i as nat),
        decreases n - i,
    {
        rows.push((r.off + TILE_ROWS * i) as u32);
        slots.push(r.slot as u32);
        assert(rows@ =~= rows0 + run_tile_rows(*r).take(i + 1));
        assert(slots@ =~= slots0 + one_slot(r.slot as int, (i + 1) as nat));
        i = i + 1;
    }
    assert(run_tile_rows(*r).take(n as int) =~= run_tile_rows(*r));
}

impl WavePlanes {
    /// The run and tile tables of `runs`.
    pub open spec fn is_wave(&self, runs: Seq<Run>) -> bool {
        &&& self.run_off@ == Seq::new(runs.len(), |i: int| runs[i].off as u32)
        &&& self.run_len@ == Seq::new(runs.len(), |i: int| runs[i].len as u32)
        &&& self.run_slot@ == Seq::new(runs.len(), |i: int| runs[i].slot as u32)
        &&& self.tile_row0@ == tile_rows(runs, runs.len() as int)
        &&& self.tile_slot@ == tile_slots(runs, runs.len() as int)
    }
}

/// The run and tile tables of a wave.
pub fn stage_wave(runs: &Vec<Run>) -> (w: WavePlanes)
    requires
        forall|i: int|
            0 <= i < runs@.len() ==> (#[trigger] runs@[i]).off + runs@[i].len + TILE_ROWS
                <= u32::MAX && runs@[i].slot <= u32::MAX,
    ensures
        w.is_wave(runs@),
{
    let mut run_off: Vec<u32> = Vec::new();
    let mut run_len: Vec<u32> = Vec::new();
    let mut run_slot: Vec<u32> = Vec::new();
    let mut tile_row0: Vec<u32> = Vec::new();
    let mut tile_slot: Vec<u32> = Vec::new();
    let mut i: usize = 0;
    while i < runs.len()
        invariant
            i <= runs@.len(),
            forall|i: int|
                0 <= i < runs@.len() ==> (#[trigger] runs@[i]).off + runs@[i].len + TILE_ROWS
                    <= u32::MAX && runs@[i].slot <= u32::MAX,
            run_off@ == Seq::new(i as nat, |j: int| runs@[j].off as u32),
            run_len@ == Seq::new(i as nat, |j: int| runs@[j].len as u32),
            run_slot@ == Seq::new(i as nat, |j: int| runs@[j].slot as u32),
            tile_row0@ == tile_rows(runs@, i as int),
            tile_slot@ == tile_slots(runs@, i as int),
        decreases runs@.len() - i,
    {
        let r: Run = runs[i];
        assert(runs@[i as int].off + runs@[i as int].len + TILE_ROWS <= u32::MAX);
        run_off.push(r.off as u32);
        run_len.push(r.len as u32);
        run_slot.push(r.slot as u32);
        push_run_tiles(&mut tile_row0, &mut tile_slot, &r);
        i = i + 1;
        assert(run_off@ =~= Seq::new(i as nat, |j: int| runs@[j].off as u32));
        assert(run_len@ =~= Seq::new(i as nat, |j: int| runs@[j].len as u32));
        assert(run_slot@ =~= Seq::new(i as nat, |j: int| runs@[j].slot as u32));
    }
    WavePlanes { run_off, run_len, run_slot, tile_row0, tile_slot }
}

/// A run's row lies in exactly one of its tiles.
pub proof fn law_tiles_partition_a_run(r: Run, row: int)
    requires
        r.off <= row < r.off + r.len,
    ensures
        exists|i: int|
            0 <= i < run_tiles(r.len as int) && #[trigger] tile_holds(r, i, row),
        forall|i: int, j: int|
            #[trigger] tile_holds(r, i, row) && #[trigger] tile_holds(r, j, row) ==> i == j,
{
    let i = (row - r.off) / TILE_ROWS as int;
    assert(tile_holds(r, i, row));
}

/// The `i`th tile of a run reads its row `row`.
pub open spec fn tile_holds(r: Run, i: int, row: int) -> bool {
    r.off + TILE_ROWS * i <= row < r.off + TILE_ROWS * (i + 1)
}

/// The tile tables fit the buffers that are sized for `t` rows and `slots` runs.
pub proof fn law_tiles_fit_their_buffer(runs: Seq<Run>, t: int, slots: int)
    requires
        row_count(runs, runs.len() as int) <= t,
        runs.len() <= slots,
    ensures
        tile_rows(runs, runs.len() as int).len() == tile_count(runs, runs.len() as int),
        tile_slots(runs, runs.len() as int).len() == tile_count(runs, runs.len() as int),
        tile_count(runs, runs.len() as int) <= t / TILE_ROWS as int + slots + 1,
{
    lemma_tiles_bound(runs, runs.len() as int);
    lemma_tile_lens(runs, runs.len() as int);
}

proof fn lemma_tile_lens(runs: Seq<Run>, n: int)
    requires
        0 <= n <= runs.len(),
    ensures
        tile_rows(runs, n).len() == tile_count(runs, n),
        tile_slots(runs, n).len() == tile_count(runs, n),
    decreases n,
{
    if n > 0 {
        lemma_tile_lens(runs, n - 1);
    }
}

/// The rows of a prompt stand at consecutive positions, all in its slot, and each of the four
/// planes of rotary positions holds the same.
pub proof fn law_prompt_rows_stand_in_order(base: int, slot: int, n: nat, i: int, plane: int)
    requires
        0 <= i < n,
        0 <= plane < 4,
        0 <= base,
        base + n <= u32::MAX,
        0 <= slot <= u32::MAX,
    ensures
        positions(base, n).len() == n,
        positions(base, n)[i] == base + i,
        one_slot(slot, n).len() == n,
        one_slot(slot, n)[i] == slot,
        four(positions(base, n)).len() == 4 * n,
        four(positions(base, n))[plane * n + i] == base + i,
{
    let s = positions(base, n);
    assert(plane * n == 0 || plane * n == n || plane * n == 2 * n || plane * n == 3 * n) by (
    nonlinear_arith)
        requires
            0 <= plane < 4,
    ;
    assert(0 * n == 0 && 1 * n == n);
    assert(plane == 0 ==> plane * n == 0);
    assert(plane == 1 ==> plane * n == n);
    assert(plane == 2 ==> plane * n == 2 * n);
    assert(plane == 3 ==> plane * n == 3 * n);
}

/// Every tile of a wave starts where its run and its number in it say, sixteen rows from the one
/// before, and serves its run's slot.
pub proof fn law_wave_tiles_serve_their_run(runs: Seq<Run>, n: int, j: int, i: int)
    requires
        0 <= j < n <= runs.len(),
        0 <= i,
        16 * i < runs[j].len,
        runs[j].off + runs[j].len <= u32::MAX,
        runs[j].slot <= u32::MAX,
    ensures
        ({
            let at = tile_count(runs, j) + i;
            &&& 0 <= at < tile_rows(runs, n).len()
            &&& at < tile_slots(runs, n).len()
            &&& tile_rows(runs, n)[at] == runs[j].off + 16 * i
            &&& tile_slots(runs, n)[at] == runs[j].slot
        }),
    decreases n,
{
    lemma_tile_lens(runs, n);
    lemma_tile_lens(runs, n - 1);
    lemma_tiles_bound(runs, j);
    if j < n - 1 {
        law_wave_tiles_serve_their_run(runs, n - 1, j, i);
    } else {
        let at = tile_count(runs, j) + i;
        assert(tile_rows(runs, n)[at] == run_tile_rows(runs[j])[i]);
    }
}

/// A run takes as few tiles as hold its rows.
pub proof fn law_runs_take_the_fewest_tiles(len: int)
    requires
        len >= 0,
    ensures
        len <= 16 * run_tiles(len) < len + 16,
{
}

/// The planes of a prompt hold its tokens, its positions from the base on, four times for the
/// rotary planes, and its slot, row by row.
pub proof fn law_prompt_planes_hold_the_prompt(
    p: Planes,
    ids: Seq<u32>,
    base: int,
    slot: int,
    i: int,
    plane: int,
)
    requires
        p.is_run(ids, base, slot),
        0 <= i < ids.len(),
        0 <= plane < 4,
        0 <= base,
        base + ids.len() <= u32::MAX,
        0 <= slot <= u32::MAX,
    ensures
        p.tok@.len() == ids.len() && p.tok@[i] == ids[i],
        p.pos@.len() == ids.len() && p.pos@[i] == base + i,
        p.mrope@.len() == 4 * ids.len() && p.mrope@[plane * ids.len() + i] == base + i,
        p.slots@.len() == ids.len() && p.slots@[i] == slot,
{
    law_prompt_rows_stand_in_order(base, slot, ids.len(), i, plane);
}

} // verus!
