//! The n-gram embedding: which rows of its table a position reads, where they lie, and how their
//! bytes decode.
use crate::text;
use crate::text::{push_decimal, same};
use vstd::prelude::*;
use vstd::string::StringExecFns;

verus! {

/// The hash of one n-gram layer.
pub struct PleW {
    /// one factor per window token
    pub multipliers: Vec<i64>,
    /// table rows and first row of each head
    pub head_vocab: Vec<i64>,
    pub head_offset: Vec<i64>,
    /// rows of the whole table
    pub table_rows: usize,
    pub heads_per_ngram: usize,
    /// the longest n-gram; the shortest is two tokens
    pub ngram_size: usize,
    /// the token that starts a segment
    pub eos: i64,
}

/// The hash as mathematics sees it.
#[verifier::ext_equal]
pub struct PleWView {
    pub multipliers: Seq<i64>,
    pub head_vocab: Seq<i64>,
    pub head_offset: Seq<i64>,
    pub table_rows: usize,
    pub heads_per_ngram: usize,
    pub ngram_size: usize,
    pub eos: i64,
}

impl View for PleW {
    type V = PleWView;

    open spec fn view(&self) -> PleWView {
        PleWView {
            multipliers: self.multipliers@,
            head_vocab: self.head_vocab@,
            head_offset: self.head_offset@,
            table_rows: self.table_rows,
            heads_per_ngram: self.heads_per_ngram,
            ngram_size: self.ngram_size,
            eos: self.eos,
        }
    }
}

/// The three tokens that a position hashes, newest first. A token before the segment's start reads
/// as the token that starts it.
pub open spec fn window(stream: Seq<i64>, i: int, eos: i64) -> Seq<i64> {
    seq![
        stream[i],
        if i >= 1 {
            stream[i - 1]
        } else {
            eos
        },
        if i >= 2 && stream[i - 1] != eos {
            stream[i - 2]
        } else {
            eos
        },
    ]
}

/// The first `n` tokens of a window, each times its factor, mixed.
pub open spec fn mixed(w: Seq<i64>, m: Seq<i64>, n: int) -> i64
    decreases n,
{
    if n <= 1 {
        w[0].wrapping_mul(m[0])
    } else {
        mixed(w, m, n - 1) ^ w[n - 1].wrapping_mul(m[n - 1])
    }
}

/// The smaller of two numbers.
pub open spec fn lesser(a: int, b: int) -> int {
    if a <= b {
        a
    } else {
        b
    }
}

impl PleWView {
    /// Heads of every n-gram length together.
    pub open spec fn heads(self) -> int {
        (self.ngram_size - 1) * self.heads_per_ngram
    }

    /// Every head has its rows, and their numbers can be counted.
    pub open spec fn wf(self) -> bool {
        &&& self.ngram_size >= 1
        &&& self.multipliers.len() >= 1
        &&& self.heads() <= self.head_vocab.len()
        &&& self.heads() <= self.head_offset.len()
        &&& forall|h: int|
            0 <= h < self.heads() ==> {
                &&& #[trigger] self.head_vocab[h] > 0
                &&& self.head_vocab[h] + self.head_offset[h] <= i64::MAX
            }
    }

    /// The row that head `hh` of the n-grams of length `ngram` reads at stream index `i`.
    pub open spec fn row_id(self, stream: Seq<i64>, i: int, ngram: int, hh: int) -> int {
        let h = (ngram - 2) * self.heads_per_ngram + hh;
        let n = lesser(lesser(ngram, 3), self.multipliers.len() as int);
        mixed(window(stream, i, self.eos), self.multipliers, n) as int % self.head_vocab[h] as int
            + self.head_offset[h]
    }

    /// The row lies in the table.
    pub open spec fn inside(self, rid: int) -> bool {
        0 <= rid < (if self.table_rows >= 1 {
            self.table_rows as int
        } else {
            1
        })
    }

    /// The rows that the n-grams shorter than `ngram`, and the first `hh` heads of those of length
    /// `ngram`, read at stream index `i`.
    pub open spec fn rows_to(self, stream: Seq<i64>, i: int, ngram: int, hh: int) -> Seq<u32>
        decreases ngram, hh,
    {
        if hh > 0 {
            self.rows_to(stream, i, ngram, hh - 1).push(
                self.row_id(stream, i, ngram, hh - 1) as u32,
            )
        } else if ngram > 2 {
            self.rows_to(stream, i, ngram - 1, self.heads_per_ngram as int)
        } else {
            seq![]
        }
    }

    /// The rows of every head at stream index `i`.
    pub open spec fn row(self, stream: Seq<i64>, i: int) -> Seq<u32> {
        self.rows_to(stream, i, self.ngram_size + 1, 0)
    }

    /// All those rows lie in the table.
    pub open spec fn inside_to(self, stream: Seq<i64>, i: int, ngram: int, hh: int) -> bool {
        forall|g: int, k: int|
            2 <= g <= ngram && 0 <= k < self.heads_per_ngram && (g < ngram || k < hh)
                ==> self.inside(#[trigger] self.row_id(stream, i, g, k))
    }

    /// All rows read at stream index `i` lie in the table.
    pub open spec fn inside_at(self, stream: Seq<i64>, i: int) -> bool {
        self.inside_to(stream, i, self.ngram_size + 1, 0)
    }

    /// The rows of `n` consecutive positions from stream index `first`.
    pub open spec fn rows(self, stream: Seq<i64>, first: int, n: int) -> Seq<u32>
        decreases n,
    {
        if n <= 0 {
            seq![]
        } else {
            self.rows(stream, first, n - 1) + self.row(stream, first + n - 1)
        }
    }

    /// The first row outside the table, read in order of positions, n-grams and heads.
    pub open spec fn first_outside(
        self,
        stream: Seq<i64>,
        first: int,
        n: int,
        tk: int,
        ngram: int,
        hh: int,
    ) -> bool {
        &&& 0 <= tk < n
        &&& 2 <= ngram <= self.ngram_size
        &&& 0 <= hh < self.heads_per_ngram
        &&& forall|j: int| 0 <= j < tk ==> self.inside_at(stream, #[trigger] (first + j))
        &&& self.inside_to(stream, first + tk, ngram, hh)
        &&& !self.inside(self.row_id(stream, first + tk, ngram, hh))
    }
}

/// What a stream that is too short is answered.
pub open spec fn short_text(n: nat, first: nat, len: nat) -> Seq<char> {
    "ple ids: "@ + text::decimal(n) + " rows at "@ + text::decimal(first)
        + " but the stream holds "@ + text::decimal(len)
}

/// A number with its sign.
pub open spec fn signed(n: int) -> Seq<char> {
    if n < 0 {
        "-"@ + text::decimal((-n) as nat)
    } else {
        text::decimal(n as nat)
    }
}

/// What a row outside the table is answered.
pub open spec fn outside_text(rid: int, rows: nat) -> Seq<char> {
    "ple row id "@ + signed(rid) + " outside the "@ + text::decimal(rows) + "-row table"@
}

fn short_error(n: usize, first: usize, len: usize) -> (e: String)
    ensures
        e@ == short_text(n as nat, first as nat, len as nat),
{
    let mut e: String = "ple ids: ".to_owned();
    push_decimal(&mut e, n as u64);
    e.append(" rows at ");
    push_decimal(&mut e, first as u64);
    e.append(" but the stream holds ");
    push_decimal(&mut e, len as u64);
    e
}

fn outside_error(rid: i64, rows: usize) -> (e: String)
    ensures
        e@ == outside_text(rid as int, rows as nat),
{
    let mut e: String = "ple row id ".to_owned();
    if rid < 0 {
        e.append("-");
        let size: u64 = (0 - (rid as i128)) as u64;
        push_decimal(&mut e, size);
    } else {
        push_decimal(&mut e, rid as u64);
    }
    e.append(" outside the ");
    push_decimal(&mut e, rows as u64);
    e.append("-row table");
    proof {
        let a = "ple row id "@;
        let b = " outside the "@;
        let c = text::decimal(rows as nat);
        let d = "-row table"@;
        if rid < 0 {
            let s = text::decimal((-rid) as nat);
            assert(a + "-"@ + s + b + c + d =~= a + ("-"@ + s) + b + c + d);
        }
    }
    e
}

impl PleW {
    fn mix(&self, w: &Vec<i64>, n: usize) -> (x: i64)
        requires
            1 <= n <= w@.len(),
            n <= self.multipliers@.len(),
        ensures
            x == mixed(w@, self.multipliers@, n as int),
    {
        let mut x: i64 = w[0].wrapping_mul(self.multipliers[0]);
        let mut k: usize = 1;
        while k < n
            invariant
                1 <= k <= n <= w@.len(),
                n <= self.multipliers@.len(),
                x == mixed(w@, self.multipliers@, k as int),
            decreases n - k,
        {
            x = x ^ w[k].wrapping_mul(self.multipliers[k]);
            k = k + 1;
        }
        x
    }

    fn window_at(&self, stream: &Vec<i64>, i: usize) -> (w: Vec<i64>)
        requires
            i < stream@.len(),
        ensures
            w@ == window(stream@, i as int, self.eos),
    {
        let mut w: Vec<i64> = Vec::new();
        w.push(stream[i]);
        if i >= 1 {
            w.push(stream[i - 1]);
        } else {
            w.push(self.eos);
        }
        if i >= 2 && stream[i - 1] != self.eos {
            w.push(stream[i - 2]);
        } else {
            w.push(self.eos);
        }
        assert(w@ =~= window(stream@, i as int, self.eos));
        w
    }

    /// The table rows that `n` consecutive positions of a stream read, from stream index `first`,
    /// position by position and head by head. A row outside the table is an error, never a read.
    pub fn ple_row_ids(&self, stream: &Vec<i64>, first: usize, n: usize) -> (r: Result<
        Vec<u32>,
        String,
    >)
        requires
            self@.wf(),
            first + n <= usize::MAX,
        ensures
            match r {
                Ok(ids) => {
                    &&& first + n <= stream@.len()
                    &&& forall|j: int|
                        0 <= j < n ==> self@.inside_at(stream@, #[trigger] (first + j))
                    &&& ids@ == self@.rows(stream@, first as int, n as int)
                },
                Err(e) => {
                    ||| first + n > stream@.len() && e@ == short_text(
                        n as nat,
                        first as nat,
                        stream@.len(),
                    )
                    ||| first + n <= stream@.len() && exists|tk: int, ngram: int, hh: int|
                        {
                            &&& #[trigger] self@.first_outside(
                                stream@,
                                first as int,
                                n as int,
                                tk,
                                ngram,
                                hh,
                            )
                            &&& e@ == outside_text(
                                self@.row_id(stream@, first + tk, ngram, hh),
                                self.table_rows as nat,
                            )
                        }
                },
            },
    {
        if first + n > stream.len() {
            return Err(short_error(n, first, stream.len()));
        }
        let limit: usize = if self.table_rows >= 1 {
            self.table_rows
        } else {
            1
        };
        let hpn: usize = self.heads_per_ngram;
        let grams: usize = self.ngram_size - 1;
        let heads: usize = self.head_vocab.len();
        let ghost s = stream@;
        let ghost p = self@;
        let mut ids: Vec<u32> = Vec::new();
        let mut tk: usize = 0;
        while tk < n
            invariant
                tk <= n,
                first + n <= stream@.len() <= usize::MAX,
                s == stream@,
                p == self@,
                p.wf(),
                hpn == p.heads_per_ngram,
                grams == p.ngram_size - 1,
                p.heads() <= heads,
                limit == (if p.table_rows >= 1 {
                    p.table_rows
                } else {
                    1
                }),
                forall|j: int| 0 <= j < tk ==> p.inside_at(s, #[trigger] (first + j)),
                ids@ == p.rows(s, first as int, tk as int),
            decreases n - tk,
        {
            let i: usize = first + tk;
            let w: Vec<i64> = self.window_at(stream, i);
            let ghost before = ids@;
            let mut g: usize = 0;
            let mut start: usize = 0;
            assert(ids@ =~= before + p.rows_to(s, i as int, 2, 0));
            while g < grams
                invariant
                    g <= grams,
                    grams == p.ngram_size - 1,
                    start == g * hpn,
                    p.heads() <= heads,
                    i == first + tk,
                    tk < n,
                    first + n <= stream@.len() <= usize::MAX,
                    s == stream@,
                    p == self@,
                    p.wf(),
                    w@ == window(s, i as int, p.eos),
                    hpn == p.heads_per_ngram,
                    limit == (if p.table_rows >= 1 {
                        p.table_rows
                    } else {
                        1
                    }),
                    forall|j: int| 0 <= j < tk ==> p.inside_at(s, #[trigger] (first + j)),
                    p.inside_to(s, i as int, g + 2, 0),
                    ids@ == before + p.rows_to(s, i as int, g + 2, 0),
                decreases grams - g,
            {
                let three: usize = if g < 1 {
                    2
                } else {
                    3
                };
                let depth: usize = if three <= self.multipliers.len() {
                    three
                } else {
                    self.multipliers.len()
                };
                let m: i64 = self.mix(&w, depth);
                proof {
                    assert(g * hpn + hpn <= (p.ngram_size - 1) * hpn) by (nonlinear_arith)
                        requires
                            g + 1 <= p.ngram_size - 1,
                            hpn >= 0,
                    ;
                    assert((g + 2 - 2) * hpn == g * hpn);
                }
                let mut hh: usize = 0;
                while hh < hpn
                    invariant
                        hh <= hpn,
                        g < grams,
                        grams == p.ngram_size - 1,
                        start == (g + 2 - 2) * hpn,
                        start + hpn <= p.heads(),
                        p.heads() <= heads,
                        i == first + tk,
                        tk < n,
                        first + n <= stream@.len() <= usize::MAX,
                        s == stream@,
                        p == self@,
                        p.wf(),
                        hpn == p.heads_per_ngram,
                        depth == lesser(lesser(g + 2, 3), p.multipliers.len() as int),
                        m == mixed(window(s, i as int, p.eos), p.multipliers, depth as int),
                        limit == (if p.table_rows >= 1 {
                            p.table_rows
                        } else {
                            1
                        }),
                        forall|j: int| 0 <= j < tk ==> p.inside_at(s, #[trigger] (first + j)),
                        p.inside_to(s, i as int, g + 2, hh as int),
                        ids@ == before + p.rows_to(s, i as int, g + 2, hh as int),
                    decreases hpn - hh,
                {
                    let h: usize = start + hh;
                    let v: i64 = self.head_vocab[h];
                    assert(p.head_vocab[h as int] > 0);
                    assert(0 <= m as int % v as int && (m as int % v as int) < v) by (nonlinear_arith)
                        requires
                            v > 0,
                    ;
                    let rem: i64 = match m.checked_rem_euclid(v) {
                        Some(x) => x,
                        None => 0,
                    };
                    let rid: i64 = rem + self.head_offset[h];
                    assert(rid == p.row_id(s, i as int, g + 2, hh as int));
                    if rid < 0 || rid as u64 >= limit as u64 {
                        assert(p.first_outside(
                            s,
                            first as int,
                            n as int,
                            tk as int,
                            g + 2,
                            hh as int,
                        ));
                        return Err(outside_error(rid, self.table_rows));
                    }
                    ids.push(
                        #[verifier::truncate]
                        (rid as u32),
                    );
                    assert(ids@ =~= before + p.rows_to(s, i as int, g + 2, hh + 1));
                    hh = hh + 1;
                }
                proof {
                    assert(start + hpn == (g + 1) * hpn) by (nonlinear_arith)
                        requires
                            start == (g + 2 - 2) * hpn,
                    ;
                    assert(p.rows_to(s, i as int, g + 3, 0) == p.rows_to(
                        s,
                        i as int,
                        g + 2,
                        hpn as int,
                    ));
                    assert(p.inside_to(s, i as int, g + 3, 0));
                }
                start = start + hpn;
                g = g + 1;
            }
            assert(p.inside_at(s, first + tk));
            tk = tk + 1;
        }
        Ok(ids)
    }
}

proof fn lemma_rows_to_local(p: PleWView, s: Seq<i64>, i: int, t: Seq<i64>, j: int, ngram: int, hh: int)
    requires
        window(s, i, p.eos) == window(t, j, p.eos),
    ensures
        p.rows_to(s, i, ngram, hh) == p.rows_to(t, j, ngram, hh),
    decreases ngram, hh,
{
    if hh > 0 {
        lemma_rows_to_local(p, s, i, t, j, ngram, hh - 1);
    } else if ngram > 2 {
        lemma_rows_to_local(p, s, i, t, j, ngram - 1, p.heads_per_ngram as int);
    }
}

/// A position's rows are a function of the stream up to it: what comes later does not move them.
pub proof fn law_hash_reads_no_future(p: PleWView, s: Seq<i64>, t: Seq<i64>, i: int)
    requires
        0 <= i < s.len(),
        i < t.len(),
        s.take(i + 1) == t.take(i + 1),
    ensures
        p.row(s, i) == p.row(t, i),
{
    assert(s[i] == s.take(i + 1)[i] && t[i] == t.take(i + 1)[i]);
    if i >= 1 {
        assert(s[i - 1] == s.take(i + 1)[i - 1] && t[i - 1] == t.take(i + 1)[i - 1]);
    }
    if i >= 2 {
        assert(s[i - 2] == s.take(i + 1)[i - 2] && t[i - 2] == t.take(i + 1)[i - 2]);
    }
    lemma_rows_to_local(p, s, i, t, i, p.ngram_size + 1, 0);
}

/// A prompt and the steps behind it hash as the whole sequence would have in one prefill.
pub proof fn law_steps_hash_like_a_prefill(p: PleWView, s: Seq<i64>, first: int, n: int, k: int)
    requires
        0 <= n,
        0 <= k,
    ensures
        p.rows(s, first, n + k) == p.rows(s, first, n) + p.rows(s, first + n, k),
    decreases k,
{
    if k == 0 {
        assert(p.rows(s, first, n) + p.rows(s, first + n, 0) =~= p.rows(s, first, n));
    } else {
        law_steps_hash_like_a_prefill(p, s, first, n, k - 1);
        let a = p.rows(s, first, n);
        let b = p.rows(s, first + n, k - 1);
        let c = p.row(s, first + n + k - 1);
        assert(a + (b + c) =~= (a + b) + c);
    }
}

/// N-grams do not reach over the start of a segment: behind the token that starts one, a position
/// hashes as the first of a fresh stream.
pub proof fn law_segments_hash_apart(p: PleWView, s: Seq<i64>, i: int)
    requires
        1 <= i < s.len(),
        s[i - 1] == p.eos,
    ensures
        p.row(s, i) == p.row(seq![p.eos, p.eos, s[i]], 2),
{
    let t = seq![p.eos, p.eos, s[i]];
    assert(window(s, i, p.eos) =~= window(t, 2, p.eos));
    lemma_rows_to_local(p, s, i, t, 2, p.ngram_size + 1, 0);
}

impl PleWView {
    /// The row numbers behind `rows_to`, before they are cut to the width of a table index.
    pub open spec fn ids_to(self, stream: Seq<i64>, i: int, ngram: int, hh: int) -> Seq<i64>
        decreases ngram, hh,
    {
        if hh > 0 {
            self.ids_to(stream, i, ngram, hh - 1).push(
                self.row_id(stream, i, ngram, hh - 1) as i64,
            )
        } else if ngram > 2 {
            self.ids_to(stream, i, ngram - 1, self.heads_per_ngram as int)
        } else {
            seq![]
        }
    }

    /// The row numbers of `n` consecutive positions from stream index `first`.
    pub open spec fn ids(self, stream: Seq<i64>, first: int, n: int) -> Seq<i64>
        decreases n,
    {
        if n <= 0 {
            seq![]
        } else {
            self.ids(stream, first, n - 1) + self.ids_to(
                stream,
                first + n - 1,
                self.ngram_size + 1,
                0,
            )
        }
    }
}

proof fn lemma_same_ids(p: PleWView, s: Seq<i64>, i: int, ngram: int, hh: int)
    requires
        p.wf(),
        2 <= ngram,
        0 <= hh <= p.heads_per_ngram,
        hh > 0 ==> ngram <= p.ngram_size,
        ngram <= p.ngram_size + 1,
    ensures
        p.ids_to(s, i, ngram, hh).len() == p.rows_to(s, i, ngram, hh).len(),
        p.ids_to(s, i, ngram, hh).len() == (ngram - 2) * p.heads_per_ngram + hh,
        forall|k: int|
            0 <= k < p.ids_to(s, i, ngram, hh).len() ==> #[trigger] p.rows_to(s, i, ngram, hh)[k]
                == p.ids_to(s, i, ngram, hh)[k] as u32,
    decreases ngram, hh,
{
    if hh > 0 {
        lemma_same_ids(p, s, i, ngram, hh - 1);
        let h = (ngram - 2) * p.heads_per_ngram + (hh - 1);
        let v = p.head_vocab[h];
        assert(0 <= h < p.heads()) by (nonlinear_arith)
            requires
                h == (ngram - 2) * p.heads_per_ngram + (hh - 1),
                2 <= ngram <= p.ngram_size,
                1 <= hh <= p.heads_per_ngram,
                p.heads() == (p.ngram_size - 1) * p.heads_per_ngram,
        ;
        assert(p.head_vocab[h] > 0);
        let n = lesser(lesser(ngram, 3), p.multipliers.len() as int);
        let m = mixed(window(s, i, p.eos), p.multipliers, n) as int;
        assert(0 <= m % v as int && (m % v as int) < v) by (nonlinear_arith)
            requires
                v > 0,
        ;
        assert(p.row_id(s, i, ngram, hh - 1) as i64 == p.row_id(s, i, ngram, hh - 1));
    } else if ngram > 2 {
        lemma_same_ids(p, s, i, ngram - 1, p.heads_per_ngram as int);
        assert((ngram - 3) * p.heads_per_ngram + p.heads_per_ngram == (ngram - 2)
            * p.heads_per_ngram) by (nonlinear_arith);
    } else {
        assert((ngram - 2) * p.heads_per_ngram == 0) by (nonlinear_arith)
            requires
                ngram == 2,
        ;
    }
}

/// The host lane gives the same answer as the device lane: both read the rows of the same numbers.
pub proof fn law_lanes_read_the_same_rows(p: PleWView, s: Seq<i64>, first: int, n: int)
    requires
        p.wf(),
        0 <= n,
    ensures
        p.ids(s, first, n).len() == n * p.heads(),
        p.rows(s, first, n).len() == n * p.heads(),
        forall|k: int|
            0 <= k < n * p.heads() ==> #[trigger] p.rows(s, first, n)[k] == p.ids(
                s,
                first,
                n,
            )[k] as u32,
    decreases n,
{
    if n > 0 {
        law_lanes_read_the_same_rows(p, s, first, n - 1);
        lemma_same_ids(p, s, first + n - 1, p.ngram_size + 1, 0);
        assert((n - 1) * p.heads() + p.heads() == n * p.heads()) by (nonlinear_arith);
    } else {
        assert(0 * p.heads() == 0) by (nonlinear_arith);
    }
}

impl PleW {
    /// The row numbers that `n` consecutive positions of a stream hash to, from stream index
    /// `first`, position by position and head by head.
    pub fn ple_ngram_ids(&self, stream: &Vec<i64>, first: usize, n: usize) -> (ids: Vec<i64>)
        requires
            self@.wf(),
            first + n <= stream@.len(),
        ensures
            ids@ == self@.ids(stream@, first as int, n as int),
    {
        let hpn: usize = self.heads_per_ngram;
        let grams: usize = self.ngram_size - 1;
        let heads: usize = self.head_vocab.len();
        let len: usize = stream.len();
        let ghost s = stream@;
        let ghost p = self@;
        let mut ids: Vec<i64> = Vec::new();
        let mut tk: usize = 0;
        while tk < n
            invariant
                tk <= n,
                first + n <= len == stream@.len(),
                s == stream@,
                p == self@,
                p.wf(),
                hpn == p.heads_per_ngram,
                grams == p.ngram_size - 1,
                p.heads() <= heads == self.head_vocab@.len(),
                ids@ == p.ids(s, first as int, tk as int),
            decreases n - tk,
        {
            let i: usize = first + tk;
            let w: Vec<i64> = self.window_at(stream, i);
            let ghost before = ids@;
            let mut g: usize = 0;
            let mut start: usize = 0;
            assert(ids@ =~= before + p.ids_to(s, i as int, 2, 0));
            while g < grams
                invariant
                    g <= grams,
                    grams == p.ngram_size - 1,
                    start == g * hpn,
                    p.heads() <= heads == self.head_vocab@.len(),
                    i < stream@.len(),
                    s == stream@,
                    p == self@,
                    p.wf(),
                    w@ == window(s, i as int, p.eos),
                    hpn == p.heads_per_ngram,
                    ids@ == before + p.ids_to(s, i as int, g + 2, 0),
                decreases grams - g,
            {
                let three: usize = if g < 1 {
                    2
                } else {
                    3
                };
                let depth: usize = if three <= self.multipliers.len() {
                    three
                } else {
                    self.multipliers.len()
                };
                let m: i64 = self.mix(&w, depth);
                proof {
                    assert(g * hpn + hpn <= (p.ngram_size - 1) * hpn) by (nonlinear_arith)
                        requires
                            g + 1 <= p.ngram_size - 1,
                            hpn >= 0,
                    ;
                    assert((g + 2 - 2) * hpn == g * hpn);
                }
                let mut hh: usize = 0;
                while hh < hpn
                    invariant
                        hh <= hpn,
                        start == (g + 2 - 2) * hpn,
                        start + hpn <= p.heads(),
                        p.heads() <= heads,
                            s == stream@,
                        p == self@,
                        p.wf(),
                        hpn == p.heads_per_ngram,
                        depth == lesser(lesser(g + 2, 3), p.multipliers.len() as int),
                        m == mixed(window(s, i as int, p.eos), p.multipliers, depth as int),
                        ids@ == before + p.ids_to(s, i as int, g + 2, hh as int),
                    decreases hpn - hh,
                {
                    let h: usize = start + hh;
                    let v: i64 = self.head_vocab[h];
                    assert(p.head_vocab[h as int] > 0);
                    assert(0 <= m as int % v as int && (m as int % v as int) < v) by (nonlinear_arith)
                        requires
                            v > 0,
                    ;
                    let rem: i64 = match m.checked_rem_euclid(v) {
                        Some(x) => x,
                        None => 0,
                    };
                    let rid: i64 = rem + self.head_offset[h];
                    assert(rid == p.row_id(s, i as int, g + 2, hh as int));
                    ids.push(rid);
                    assert(ids@ =~= before + p.ids_to(s, i as int, g + 2, hh + 1));
                    hh = hh + 1;
                }
                proof {
                    assert(start + hpn == (g + 1) * hpn) by (nonlinear_arith)
                        requires
                            start == (g + 2 - 2) * hpn,
                    ;
                    assert(p.ids_to(s, i as int, g + 3, 0) == p.ids_to(
                        s,
                        i as int,
                        g + 2,
                        hpn as int,
                    ));
                }
                start = start + hpn;
                g = g + 1;
            }
            tk = tk + 1;
        }
        ids
    }
}

/// Where a row of the table lies when it is split into shards: which shard, and which of its rows.
pub fn shard_row(rid: usize, rows_per_shard: usize) -> (r: (usize, usize))
    requires
        rows_per_shard > 0,
    ensures
        r.0 == rid as int / rows_per_shard as int,
        r.1 == rid as int % rows_per_shard as int,
        r.1 < rows_per_shard,
        r.0 * rows_per_shard + r.1 == rid,
{
    proof {
        vstd::arithmetic::div_mod::lemma_fundamental_div_mod(rid as int, rows_per_shard as int);
        assert(rows_per_shard * (rid as int / rows_per_shard as int) == (rid as int
            / rows_per_shard as int) * rows_per_shard) by (nonlinear_arith);
    }
    (rid / rows_per_shard, rid % rows_per_shard)
}

/// The name of a shard's tensor.
pub open spec fn shard_name(li: nat, shard: nat) -> Seq<char> {
    "model.language_model.layers."@ + text::decimal(li)
        + ".ple.ple_embedding.ngram_embedding.shard_"@ + text::decimal(shard) + ".weight"@
}

/// The name of a shard's tensor.
pub fn shard_tensor(li: usize, shard: usize) -> (s: String)
    ensures
        s@ == shard_name(li as nat, shard as nat),
{
    let mut s: String = "model.language_model.layers.".to_owned();
    push_decimal(&mut s, li as u64);
    s.append(".ple.ple_embedding.ngram_embedding.shard_");
    push_decimal(&mut s, shard as u64);
    s.append(".weight");
    s
}

/// Shards hold one byte per number.
pub fn shard_dtype(name: &str, dtype: &str) -> (r: Result<(), String>)
    ensures
        match r {
            Ok(_) => dtype@ == "F8E4m3"@,
            Err(e) => dtype@ != "F8E4m3"@ && e@ == name@ + ": dtype "@ + dtype@
                + ", want F8E4m3"@,
        },
{
    if same(dtype, "F8E4m3") {
        return Ok(());
    }
    let mut e: String = name.to_owned();
    e.append(": dtype ");
    e.append(dtype);
    e.append(", want F8E4m3");
    Err(e)
}

/// What a row past a table is answered.
pub open spec fn past_text(name: Seq<char>, rid: nat, rows: nat) -> Seq<char> {
    name + ": n-gram row "@ + text::decimal(rid) + " past the table's "@ + text::decimal(rows)
        + " rows"@
}

/// The bytes of a table row in one tensor: where they start, and where they end.
pub fn table_span(name: &str, table_len: usize, row_bytes: usize, rid: usize) -> (r: Result<
    (usize, usize),
    String,
>)
    requires
        row_bytes > 0,
    ensures
        match r {
            Ok((a, b)) => {
                &&& rid < table_len as int / row_bytes as int
                &&& a == rid * row_bytes
                &&& b == a + row_bytes
                &&& b <= table_len
            },
            Err(e) => rid >= table_len as int / row_bytes as int && e@ == past_text(
                name@,
                rid as nat,
                (table_len as int / row_bytes as int) as nat,
            ),
        },
{
    let rows: usize = table_len / row_bytes;
    if rid >= rows {
        let mut e: String = name.to_owned();
        e.append(": n-gram row ");
        push_decimal(&mut e, rid as u64);
        e.append(" past the table's ");
        push_decimal(&mut e, rows as u64);
        e.append(" rows");
        return Err(e);
    }
    proof {
        vstd::arithmetic::div_mod::lemma_fundamental_div_mod(table_len as int, row_bytes as int);
        assert((rid + 1) * row_bytes <= rows * row_bytes) by (nonlinear_arith)
            requires
                rid + 1 <= rows,
                row_bytes > 0,
        ;
        assert((rid + 1) * row_bytes == rid * row_bytes + row_bytes) by (nonlinear_arith);
        assert(rows * row_bytes == row_bytes * rows) by (nonlinear_arith);
        assert(0 <= rid * row_bytes) by (nonlinear_arith);
    }
    let a: usize = rid * row_bytes;
    Ok((a, a + row_bytes))
}

/// A row to gather from a shard: its first byte, the byte behind its last, and the first output
/// element that it fills.
#[derive(Debug, Clone, Copy, PartialEq, Eq, Structural)]
pub struct ShardRead {
    pub shard: usize,
    pub lo: usize,
    pub hi: usize,
    pub dst: usize,
}

/// A row to gather from a table in one tensor.
#[derive(Debug, Clone, Copy, PartialEq, Eq, Structural)]
pub struct TableRead {
    pub lo: usize,
    pub hi: usize,
    pub dst: usize,
}

/// The output element at which the `k`th gathered row starts.
pub open spec fn row_dst(k: int, heads: int, embed: int, width: int) -> int {
    (k / heads) * embed + (k % heads) * width
}

/// The read of row `id`, the `k`th that is gathered, from shards of `per_shard` rows.
pub open spec fn is_shard_read(
    r: ShardRead,
    id: usize,
    per_shard: int,
    width: int,
    dst: int,
) -> bool {
    &&& r.shard == id as int / per_shard
    &&& r.lo == (id as int % per_shard) * width
    &&& r.hi == r.lo + width
    &&& r.dst == dst
}

/// The read of row `id` from one tensor.
pub open spec fn is_table_read(r: TableRead, id: usize, row_bytes: int, dst: int) -> bool {
    &&& r.lo == id * row_bytes
    &&& r.hi == r.lo + row_bytes
    &&& r.dst == dst
}

/// A counter that walks positions and heads together.
struct Cursor {
    t: usize,
    h: usize,
}

impl Cursor {
    spec fn at(self, k: int, heads: int) -> bool {
        &&& k == self.t * heads + self.h
        &&& 0 <= self.h < heads
    }

    fn next(self, heads: usize, Ghost(k): Ghost<int>) -> (c: Self)
        requires
            self.at(k, heads as int),
            self.t < usize::MAX,
        ensures
            c.at(k + 1, heads as int),
    {
        if self.h + 1 == heads {
            assert((self.t + 1) * heads == self.t * heads + heads) by (nonlinear_arith);
            Cursor { t: self.t + 1, h: 0 }
        } else {
            Cursor { t: self.t, h: self.h + 1 }
        }
    }
}

proof fn lemma_row_dst(c: Cursor, k: int, heads: int, n: int, embed: int, width: int)
    requires
        c.at(k, heads),
        0 <= k < n * heads,
        0 <= width,
        heads * width <= embed,
    ensures
        c.t < n,
        row_dst(k, heads, embed, width) == c.t * embed + c.h * width,
        c.t * embed + c.h * width + width <= n * embed,
        0 <= c.t * embed,
        0 <= c.h * width,
{
    vstd::arithmetic::div_mod::lemma_fundamental_div_mod_converse(
        k,
        heads,
        c.t as int,
        c.h as int,
    );
    assert(c.t < n) by (nonlinear_arith)
        requires
            c.t * heads + c.h < n * heads,
            0 <= c.h < heads,
            0 <= c.t,
    ;
    assert(c.h * width + width <= heads * width) by (nonlinear_arith)
        requires
            c.h + 1 <= heads,
            0 <= width,
    ;
    assert((c.t + 1) * embed <= n * embed) by (nonlinear_arith)
        requires
            c.t + 1 <= n,
            0 <= embed,
    ;
    assert((c.t + 1) * embed == c.t * embed + embed) by (nonlinear_arith);
    assert(0 <= c.t * embed) by (nonlinear_arith)
        requires
            0 <= c.t,
            0 <= embed,
    ;
    assert(0 <= c.h * width) by (nonlinear_arith)
        requires
            0 <= c.h,
            0 <= width,
    ;
}

impl PleW {
    /// Heads of every n-gram length together.
    fn heads(&self) -> (n: usize)
        requires
            self@.wf(),
        ensures
            n == self@.heads(),
    {
        let most: usize = self.head_vocab.len();
        assert(self@.heads() <= most);
        (self.ngram_size - 1) * self.heads_per_ngram
    }

    /// The rows that `n` consecutive positions of a stream gather from the shards, from stream
    /// index `first`. A position's rows fill `embed` elements, `width` each.
    pub fn gather_ple_rows(
        &self,
        stream: &Vec<i64>,
        first: usize,
        n: usize,
        rows_per_shard: usize,
        width: usize,
        embed: usize,
    ) -> (v: Vec<ShardRead>)
        requires
            self@.wf(),
            first + n <= stream@.len(),
            rows_per_shard > 0,
            rows_per_shard * width <= usize::MAX,
            self@.heads() * width <= embed,
            n * embed <= usize::MAX,
        ensures
            v@.len() == n * self@.heads(),
            forall|k: int|
                0 <= k < v@.len() ==> is_shard_read(
                    #[trigger] v@[k],
                    self@.ids(stream@, first as int, n as int)[k] as usize,
                    rows_per_shard as int,
                    width as int,
                    row_dst(k, self@.heads(), embed as int, width as int),
                ),
    {
        let ids: Vec<i64> = self.ple_ngram_ids(stream, first, n);
        proof {
            law_lanes_read_the_same_rows(self@, stream@, first as int, n as int);
        }
        let mut v: Vec<ShardRead> = Vec::new();
        if ids.len() == 0 {
            return v;
        }
        proof {
            assert(self@.heads() > 0) by (nonlinear_arith)
                requires
                    n * self@.heads() > 0,
                    n >= 0,
            ;
        }
        let heads: usize = self.heads();
        assert(0 * heads == 0) by (nonlinear_arith);
        let mut c: Cursor = Cursor { t: 0, h: 0 };
        let mut k: usize = 0;
        while k < ids.len()
            invariant
                k <= ids@.len(),
                heads == self@.heads(),
                heads > 0,
                ids@ == self@.ids(stream@, first as int, n as int),
                ids@.len() == n * heads,
                c.at(k as int, heads as int),
                rows_per_shard > 0,
                rows_per_shard * width <= usize::MAX,
                heads * width <= embed,
                n * embed <= usize::MAX,
                v@.len() == k,
                forall|j: int|
                    0 <= j < k ==> is_shard_read(
                        #[trigger] v@[j],
                        ids@[j] as usize,
                        rows_per_shard as int,
                        width as int,
                        row_dst(j, heads as int, embed as int, width as int),
                    ),
            decreases ids@.len() - k,
        {
            proof {
                lemma_row_dst(c, k as int, heads as int, n as int, embed as int, width as int);
            }
            let id: usize = #[verifier::truncate]
            (ids[k] as usize);
            let (shard, row): (usize, usize) = shard_row(id, rows_per_shard);
            assert((row + 1) * width <= rows_per_shard * width) by (nonlinear_arith)
                requires
                    row + 1 <= rows_per_shard,
                    width >= 0,
            ;
            assert((row + 1) * width == row * width + width) by (nonlinear_arith);
            assert(0 <= row * width) by (nonlinear_arith);
            let lo: usize = row * width;
            let dst: usize = c.t * embed + c.h * width;
            v.push(ShardRead { shard, lo, hi: lo + width, dst });
            c = c.next(heads, Ghost(k as int));
            k = k + 1;
        }
        v
    }

    /// The rows that `n` consecutive positions of a stream gather from a table in one tensor, or
    /// the error for the first that lies past it.
    pub fn gather_ple_rows_gguf(
        &self,
        stream: &Vec<i64>,
        first: usize,
        n: usize,
        name: &str,
        table_len: usize,
        row_bytes: usize,
        width: usize,
        embed: usize,
    ) -> (r: Result<Vec<TableRead>, String>)
        requires
            self@.wf(),
            first + n <= stream@.len(),
            row_bytes > 0,
            self@.heads() * width <= embed,
            n * embed <= usize::MAX,
        ensures
            ({
                let ids = self@.ids(stream@, first as int, n as int);
                let rows = table_len as int / row_bytes as int;
                match r {
                    Ok(v) => {
                        &&& v@.len() == n * self@.heads()
                        &&& forall|k: int|
                            0 <= k < v@.len() ==> (#[trigger] ids[k] as usize) < rows
                                && is_table_read(
                                v@[k],
                                ids[k] as usize,
                                row_bytes as int,
                                row_dst(k, self@.heads(), embed as int, width as int),
                            )
                        &&& forall|k: int|
                            0 <= k < v@.len() ==> (#[trigger] v@[k]).hi <= table_len
                    },
                    Err(e) => exists|k: int|
                        {
                            &&& 0 <= k < n * self@.heads()
                            &&& #[trigger] ids[k] as usize >= rows
                            &&& e@ == past_text(name@, ids[k] as usize as nat, rows as nat)
                            &&& forall|j: int| 0 <= j < k ==> (#[trigger] ids[j] as usize) < rows
                        },
                }
            }),
    {
        let ids: Vec<i64> = self.ple_ngram_ids(stream, first, n);
        let ghost rows = table_len as int / row_bytes as int;
        proof {
            law_lanes_read_the_same_rows(self@, stream@, first as int, n as int);
        }
        let mut v: Vec<TableRead> = Vec::new();
        if ids.len() == 0 {
            return Ok(v);
        }
        proof {
            assert(self@.heads() > 0) by (nonlinear_arith)
                requires
                    n * self@.heads() > 0,
                    n >= 0,
            ;
        }
        let heads: usize = self.heads();
        assert(0 * heads == 0) by (nonlinear_arith);
        let mut c: Cursor = Cursor { t: 0, h: 0 };
        let mut k: usize = 0;
        while k < ids.len()
            invariant
                k <= ids@.len(),
                heads == self@.heads(),
                heads > 0,
                ids@ == self@.ids(stream@, first as int, n as int),
                ids@.len() == n * heads,
                c.at(k as int, heads as int),
                row_bytes > 0,
                rows == table_len as int / row_bytes as int,
                heads * width <= embed,
                n * embed <= usize::MAX,
                v@.len() == k,
                forall|j: int|
                    0 <= j < k ==> (#[trigger] ids@[j] as usize) < rows && is_table_read(
                        v@[j],
                        ids@[j] as usize,
                        row_bytes as int,
                        row_dst(j, heads as int, embed as int, width as int),
                    ),
                forall|j: int| 0 <= j < k ==> (#[trigger] v@[j]).hi <= table_len,
            decreases ids@.len() - k,
        {
            proof {
                lemma_row_dst(c, k as int, heads as int, n as int, embed as int, width as int);
            }
            let id: usize = #[verifier::truncate]
            (ids[k] as usize);
            assert(id == ids@[k as int] as usize);
            match table_span(name, table_len, row_bytes, id) {
                Ok((lo, hi)) => {
                    let dst: usize = c.t * embed + c.h * width;
                    v.push(TableRead { lo, hi, dst });
                },
                Err(e) => {
                    return Err(e);
                },
            }
            c = c.next(heads, Ghost(k as int));
            k = k + 1;
        }
        Ok(v)
    }
}

/// The formats that a table row can be held in.
#[derive(Debug, Clone, Copy, PartialEq, Eq, Structural)]
pub enum RowType {
    F32,
    F16,
    Bf16,
    Q8_0,
    Q4_0,
    Iq4Nl,
    /// a format that rows are not decoded from
    Other,
}

/// Bytes of a row `width` wide, in a format that rows are decoded from.
pub open spec fn row_size(ty: RowType, width: int) -> Option<int> {
    match ty {
        RowType::F32 => Some(4 * width),
        RowType::F16 => Some(2 * width),
        RowType::Bf16 => Some(2 * width),
        RowType::Q8_0 => if width % 32 == 0 {
            Some(width / 32 * 34)
        } else {
            None
        },
        RowType::Q4_0 => if width % 32 == 0 {
            Some(width / 32 * 18)
        } else {
            None
        },
        RowType::Iq4Nl => if width % 32 == 0 {
            Some(width / 32 * 18)
        } else {
            None
        },
        RowType::Other => None,
    }
}

/// Bytes of a row `width` wide. `None` for a format that rows are not decoded from, and for a width
/// that does not fill its blocks.
pub fn ple_row_bytes(ty: RowType, width: usize) -> (n: Option<usize>)
    requires
        4 * width <= usize::MAX,
    ensures
        match n {
            Some(n) => row_size(ty, width as int) == Some(n as int),
            None => row_size(ty, width as int) is None,
        },
{
    match ty {
        RowType::F32 => Some(width * 4),
        RowType::F16 => Some(width * 2),
        RowType::Bf16 => Some(width * 2),
        RowType::Q8_0 => {
            if width % 32 == 0 {
                Some(width / 32 * 34)
            } else {
                None
            }
        },
        RowType::Q4_0 => {
            if width % 32 == 0 {
                Some(width / 32 * 18)
            } else {
                None
            }
        },
        RowType::Iq4Nl => {
            if width % 32 == 0 {
                Some(width / 32 * 18)
            } else {
                None
            }
        },
        RowType::Other => None,
    }
}

/// Where rows of the table are gathered from on the host.
#[derive(Debug, Clone, Copy, PartialEq, Eq, Structural)]
pub enum PleSource {
    /// the checkpoint's shards
    St,
    /// one tensor of a quantized file, whose rows take so many bytes
    Gguf { ty: RowType, row_bytes: usize },
}

impl PleSource {
    /// The model's planes are quantized: it came from a quantized file.
    pub fn quantized(&self) -> (b: bool)
        ensures
            b == (self is Gguf),
    {
        match self {
            PleSource::St => false,
            PleSource::Gguf { .. } => true,
        }
    }
}

/// The values of the four-bit codes of the non-linear format.
pub open spec fn iq4nl_value(q: int) -> int {
    seq![-127, -104, -83, -65, -49, -35, -22, -10, 1, 13, 25, 38, 53, 69, 89, 113int][q]
}

fn iq4nl(q: u8) -> (v: i32)
    requires
        q < 16,
    ensures
        v == iq4nl_value(q as int),
{
    let t: [i32; 16] = [-127, -104, -83, -65, -49, -35, -22, -10, 1, 13, 25, 38, 53, 69, 89, 113];
    t[q as usize]
}

/// The value of a code byte, before its block's scale.
pub open spec fn byte_value(b: u8) -> int {
    if b < 128 {
        b as int
    } else {
        b - 256
    }
}

/// The codes of one block of 32 at byte `at`: bytes in order, or low nibbles and then high ones.
pub open spec fn block_code(ty: RowType, row: Seq<u8>, at: int, j: int) -> int {
    let nibble = if j < 16 {
        row[at + 2 + j] as int % 16
    } else {
        row[at + 2 + j - 16] as int / 16
    };
    match ty {
        RowType::Q8_0 => byte_value(row[at + 2 + j]),
        RowType::Q4_0 => nibble - 8,
        _ => iq4nl_value(nibble),
    }
}

/// Bytes of a block of 32.
pub open spec fn block_bytes(ty: RowType) -> int {
    if ty == RowType::Q8_0 {
        34
    } else {
        18
    }
}

/// The number at byte `at`, low byte first.
pub open spec fn le16(row: Seq<u8>, at: int) -> int {
    row[at] + 256 * row[at + 1]
}

/// The blocks of a row: the half-precision bits of their scales, and whole codes.
#[derive(Debug)]
pub struct Blocks {
    pub scales: Vec<u16>,
    /// 32 codes to a scale
    pub codes: Vec<i32>,
}

/// A table row, down to where floating point starts.
#[derive(Debug)]
pub enum RowBits {
    /// single-precision bits
    Single(Vec<u32>),
    /// half-precision bits
    Half(Vec<u16>),
    Blocks(Blocks),
}

/// The decoded row is what the bytes hold.
pub open spec fn decoded(ty: RowType, row: Seq<u8>, width: int, r: RowBits) -> bool {
    match ty {
        RowType::F32 => r matches RowBits::Single(v) && v@.len() == width && forall|i: int|
            0 <= i < width ==> #[trigger] v@[i] == le16(row, 4 * i) + 65536 * le16(row, 4 * i + 2),
        RowType::Bf16 => r matches RowBits::Single(v) && v@.len() == width && forall|i: int|
            0 <= i < width ==> #[trigger] v@[i] == 65536 * le16(row, 2 * i),
        RowType::F16 => r matches RowBits::Half(v) && v@.len() == width && forall|i: int|
            0 <= i < width ==> #[trigger] v@[i] == le16(row, 2 * i),
        _ => {
            &&& r matches RowBits::Blocks(b)
            &&& b.scales@.len() == width / 32
            &&& b.codes@.len() == width
            &&& forall|k: int|
                0 <= k < width / 32 ==> #[trigger] b.scales@[k] == le16(row, block_bytes(ty) * k)
            &&& forall|k: int, j: int|
                0 <= k < width / 32 && 0 <= j < 32 ==> #[trigger] b.codes@[32 * k + j]
                    == block_code(ty, row, block_bytes(ty) * k, j)
        },
    }
}

fn read16(row: &Vec<u8>, at: usize) -> (n: u16)
    requires
        at + 1 < row@.len(),
    ensures
        n == le16(row@, at as int),
{
    let _len: usize = row.len();
    row[at] as u16 + 256 * (row[at + 1] as u16)
}

fn code_at(ty: RowType, row: &Vec<u8>, at: usize, j: usize) -> (c: i32)
    requires
        j < 32,
        ty == RowType::Q8_0 || ty == RowType::Q4_0 || ty == RowType::Iq4Nl,
        at + block_bytes(ty) <= row@.len(),
    ensures
        c == block_code(ty, row@, at as int, j as int),
{
    let _len: usize = row.len();
    match ty {
        RowType::Q8_0 => {
            let b: u8 = row[at + 2 + j];
            if b < 128 {
                b as i32
            } else {
                b as i32 - 256
            }
        },
        _ => {
            let q: u8 = if j < 16 {
                row[at + 2 + j] % 16
            } else {
                row[at + 2 + (j - 16)] / 16
            };
            match ty {
                RowType::Q4_0 => q as i32 - 8,
                _ => iq4nl(q),
            }
        },
    }
}

fn decode_blocks(ty: RowType, row: &Vec<u8>, n: usize) -> (b: Blocks)
    requires
        ty == RowType::Q8_0 || ty == RowType::Q4_0 || ty == RowType::Iq4Nl,
        row@.len() == n * block_bytes(ty),
    ensures
        b.scales@.len() == n,
        b.codes@.len() == 32 * n,
        forall|k: int| 0 <= k < n ==> #[trigger] b.scales@[k] == le16(row@, block_bytes(ty) * k),
        forall|k: int, j: int|
            0 <= k < n && 0 <= j < 32 ==> #[trigger] b.codes@[32 * k + j] == block_code(
                ty,
                row@,
                block_bytes(ty) * k,
                j,
            ),
{
    let size: usize = match ty {
        RowType::Q8_0 => 34,
        _ => 18,
    };
    let mut scales: Vec<u16> = Vec::new();
    let mut codes: Vec<i32> = Vec::new();
    let mut k: usize = 0;
    let len: usize = row.len();
    while k < n
        invariant
            k <= n,
            len == row@.len(),
            size == block_bytes(ty),
            size == 34 || size == 18,
            ty == RowType::Q8_0 || ty == RowType::Q4_0 || ty == RowType::Iq4Nl,
            len == n * size,
            scales@.len() == k,
            codes@.len() == 32 * k,
            forall|i: int| 0 <= i < k ==> #[trigger] scales@[i] == le16(row@, size * i),
            forall|q: int|
                0 <= q < 32 * k ==> #[trigger] codes@[q] == block_code(
                    ty,
                    row@,
                    size * (q / 32),
                    q % 32,
                ),
        decreases n - k,
    {
        let at: usize = size * k;
        scales.push(read16(row, at));
        let mut j: usize = 0;
        while j < 32
            invariant
                j <= 32,
                k < n,
                at == size * k,
                len == row@.len(),
                size == block_bytes(ty),
                size == 34 || size == 18,
                ty == RowType::Q8_0 || ty == RowType::Q4_0 || ty == RowType::Iq4Nl,
                len == n * size,
                codes@.len() == 32 * k + j,
                forall|q: int|
                    0 <= q < 32 * k + j ==> #[trigger] codes@[q] == block_code(
                        ty,
                        row@,
                        size * (q / 32),
                        q % 32,
                    ),
            decreases 32 - j,
        {
            let c: i32 = code_at(ty, row, at, j);
            codes.push(c);
            j = j + 1;
        }
        k = k + 1;
    }
    assert forall|k: int, j: int| 0 <= k < n && 0 <= j < 32 implies #[trigger] codes@[32 * k + j]
        == block_code(ty, row@, block_bytes(ty) * k, j) by {
        assert((32 * k + j) / 32 == k && (32 * k + j) % 32 == j);
    }
    Blocks { scales, codes }
}

/// Decode one table row, down to where floating point starts.
pub fn ple_row_dequant(ty: RowType, row: &Vec<u8>, width: usize) -> (r: RowBits)
    requires
        row_size(ty, width as int) == Some(row@.len() as int),
    ensures
        decoded(ty, row@, width as int, r),
{
    let len: usize = row.len();
    match ty {
        RowType::F32 => {
            let mut v: Vec<u32> = Vec::new();
            let mut i: usize = 0;
            while i < width
                invariant
                    i <= width,
                    len == row@.len(),
                    len == 4 * width,
                    v@.len() == i,
                    forall|j: int|
                        0 <= j < i ==> #[trigger] v@[j] == le16(row@, 4 * j) + 65536 * le16(
                            row@,
                            4 * j + 2,
                        ),
                decreases width - i,
            {
                let low: u16 = read16(row, 4 * i);
                let high: u16 = read16(row, 4 * i + 2);
                v.push(low as u32 + 65536 * (high as u32));
                i = i + 1;
            }
            RowBits::Single(v)
        },
        RowType::Bf16 => {
            let mut v: Vec<u32> = Vec::new();
            let mut i: usize = 0;
            while i < width
                invariant
                    i <= width,
                    len == row@.len(),
                    len == 2 * width,
                    v@.len() == i,
                    forall|j: int| 0 <= j < i ==> #[trigger] v@[j] == 65536 * le16(row@, 2 * j),
                decreases width - i,
            {
                let high: u16 = read16(row, 2 * i);
                v.push(65536 * (high as u32));
                i = i + 1;
            }
            RowBits::Single(v)
        },
        RowType::F16 => {
            let mut v: Vec<u16> = Vec::new();
            let mut i: usize = 0;
            while i < width
                invariant
                    i <= width,
                    len == row@.len(),
                    len == 2 * width,
                    v@.len() == i,
                    forall|j: int| 0 <= j < i ==> #[trigger] v@[j] == le16(row@, 2 * j),
                decreases width - i,
            {
                v.push(read16(row, 2 * i));
                i = i + 1;
            }
            RowBits::Half(v)
        },
        _ => RowBits::Blocks(decode_blocks(ty, row, width / 32)),
    }
}

/// Device bytes that have to stay free beside the n-gram table.
pub const TABLE_SLACK: u64 = 0x1_0000_0000;

/// The n-gram table goes to the device: unless it is kept on the host by hand, the kernel pack
/// cannot gather from it, or it would not leave the slack. Where the free memory is unknown, the
/// allocation decides.
pub fn ple_device_table(
    host_setting: Option<&str>,
    can_gather: bool,
    rows_per_head: u64,
    heads: u64,
    width: u64,
    free: Option<u64>,
) -> (b: bool)
    requires
        rows_per_head * heads <= u64::MAX,
        rows_per_head * heads * width + TABLE_SLACK <= u64::MAX,
    ensures
        b == ({
            &&& !(host_setting matches Some(s) && s@ != "0"@)
            &&& can_gather
            &&& free matches Some(f) ==> rows_per_head * heads * width + TABLE_SLACK <= f
        }),
{
    if let Some(s) = host_setting {
        if !same(s, "0") {
            return false;
        }
    }
    if !can_gather {
        return false;
    }
    match free {
        None => true,
        Some(f) => {
            let want: u64 = rows_per_head * heads * width;
            want + TABLE_SLACK <= f
        },
    }
}

/// `p` is the product of `a` and `b`, cut to 64 bits.
pub open spec fn cut_product(p: i64, a: i64, b: i64) -> bool {
    (p - a * b) % 0x1_0000_0000_0000_0000 == 0
}

proof fn lemma_cut_product(p: i64, a: i64, b: i64)
    requires
        cut_product(p, a, b),
    ensures
        a.wrapping_mul(b) == p,
{
    let q = a.wrapping_mul(b);
    let x = a * b;
    let m: int = 0x1_0000_0000_0000_0000;
    assert((q - x) % m == 0);
    assert((q - p) % m == 0) by {
        vstd::arithmetic::div_mod::lemma_sub_mod_noop(q - x, p - x, m);
        assert((q - x) - (p - x) == q - p);
    }
    vstd::arithmetic::div_mod::lemma_fundamental_div_mod(q - p, m);
}

/// The mixed number of an n-gram is the exclusive or, over its tokens, of each whole token times
/// its factor, cut to 64 bits: of the newest for one, of the two newest for two, of all three for
/// three.
pub proof fn law_mix_is_the_xor_of_the_products(w: Seq<i64>, m: Seq<i64>, p: Seq<i64>)
    requires
        w.len() == 3,
        p.len() == 3,
        forall|k: int| 0 <= k < 3 ==> cut_product(#[trigger] p[k], w[k], m[k]),
    ensures
        mixed(w, m, 1) == p[0],
        mixed(w, m, 2) == p[0] ^ p[1],
        mixed(w, m, 3) == p[0] ^ p[1] ^ p[2],
{
    reveal_with_fuel(mixed, 4);
    assert forall|k: int| 0 <= k < 3 implies w[k].wrapping_mul(m[k]) == #[trigger] p[k] by {
        lemma_cut_product(p[k], w[k], m[k]);
    }
    assert(p[0] == w[0].wrapping_mul(m[0]));
    assert(p[1] == w[1].wrapping_mul(m[1]));
    assert(p[2] == w[2].wrapping_mul(m[2]));
}

/// With one factor of one, the mix is the token itself, whatever its number, so two different
/// tokens that a head has rows for never read the same row.
pub proof fn law_tokens_keep_their_rows(
    p: PleWView,
    s: Seq<i64>,
    i: int,
    t: Seq<i64>,
    j: int,
    ngram: int,
    hh: int,
)
    requires
        p.multipliers == seq![1i64],
        2 <= ngram,
        0 <= s[i] < p.head_vocab[(ngram - 2) * p.heads_per_ngram + hh],
        0 <= t[j] < p.head_vocab[(ngram - 2) * p.heads_per_ngram + hh],
    ensures
        mixed(window(s, i, p.eos), p.multipliers, 1) == s[i],
        p.row_id(s, i, ngram, hh) == s[i] + p.head_offset[(ngram - 2) * p.heads_per_ngram + hh],
        s[i] != t[j] ==> p.row_id(s, i, ngram, hh) != p.row_id(t, j, ngram, hh),
{
    lemma_cut_product(s[i], s[i], 1);
    lemma_cut_product(t[j], t[j], 1);
    let v = p.head_vocab[(ngram - 2) * p.heads_per_ngram + hh] as int;
    vstd::arithmetic::div_mod::lemma_small_mod(s[i] as nat, v as nat);
    vstd::arithmetic::div_mod::lemma_small_mod(t[j] as nat, v as nat);
}

/// The row of an n-gram is its mix, folded into the rows of its head: those from the head's first
/// row on, as many as it has. An n-gram of two hashes two tokens and a longer one three, as far as
/// there are factors.
pub proof fn law_rows_lie_with_their_head(p: PleWView, s: Seq<i64>, i: int, ngram: int, hh: int)
    requires
        p.wf(),
        2 <= ngram <= p.ngram_size,
        0 <= hh < p.heads_per_ngram,
    ensures
        ({
            let h = (ngram - 2) * p.heads_per_ngram + hh;
            let x = mixed(
                window(s, i, p.eos),
                p.multipliers,
                if p.multipliers.len() == 1 {
                    1
                } else if p.multipliers.len() == 2 || ngram == 2 {
                    2
                } else {
                    3
                },
            );
            &&& 0 <= h < p.heads()
            &&& p.head_offset[h] <= p.row_id(s, i, ngram, hh) < p.head_offset[h] + p.head_vocab[h]
            &&& (x - (p.row_id(s, i, ngram, hh) - p.head_offset[h])) % p.head_vocab[h] as int == 0
        }),
{
    let h = (ngram - 2) * p.heads_per_ngram + hh;
    assert(0 <= h < p.heads()) by (nonlinear_arith)
        requires
            h == (ngram - 2) * p.heads_per_ngram + hh,
            2 <= ngram <= p.ngram_size,
            0 <= hh < p.heads_per_ngram,
            p.heads() == (p.ngram_size - 1) * p.heads_per_ngram,
    ;
    let v = p.head_vocab[h] as int;
    assert(p.head_vocab[h] > 0);
    let n = lesser(lesser(ngram, 3), p.multipliers.len() as int);
    let x = mixed(window(s, i, p.eos), p.multipliers, n) as int;
    assert(0 <= x % v < v) by (nonlinear_arith)
        requires
            v > 0,
    ;
    vstd::arithmetic::div_mod::lemma_fundamental_div_mod(x, v);
    vstd::arithmetic::div_mod::lemma_mod_multiples_basic(x / v, v);
    assert((x / v) * v == v * (x / v)) by (nonlinear_arith);
}

/// A position hashes its own token and the two before it, newest first. Before the stream's start,
/// and behind a segment's, the token that starts a segment stands for what is not there.
pub proof fn law_windows_hold_the_last_three(s: Seq<i64>, i: int, eos: i64)
    requires
        0 <= i < s.len(),
    ensures
        window(s, i, eos).len() == 3,
        window(s, i, eos)[0] == s[i],
        i >= 1 ==> window(s, i, eos)[1] == s[i - 1],
        i >= 2 && s[i - 1] != eos ==> window(s, i, eos)[2] == s[i - 2],
        i == 0 ==> window(s, i, eos)[1] == eos,
        i < 2 || s[i - 1] == eos ==> window(s, i, eos)[2] == eos,
{
}

proof fn lemma_rows_to_place(p: PleWView, s: Seq<i64>, i: int, ngram: int, hh: int, g: int, k: int)
    requires
        2 <= g <= ngram,
        0 <= k < p.heads_per_ngram,
        g < ngram || k < hh,
        0 <= hh <= p.heads_per_ngram,
    ensures
        p.rows_to(s, i, ngram, hh).len() == (ngram - 2) * p.heads_per_ngram + hh,
        0 <= (g - 2) * p.heads_per_ngram + k < p.rows_to(s, i, ngram, hh).len(),
        p.rows_to(s, i, ngram, hh)[(g - 2) * p.heads_per_ngram + k] == p.row_id(s, i, g, k) as u32,
    decreases ngram, hh,
{
    let w = p.heads_per_ngram as int;
    lemma_rows_to_len(p, s, i, ngram, hh);
    assert(0 <= (g - 2) * w) by (nonlinear_arith)
        requires
            2 <= g,
            w >= 0,
    ;
    if hh > 0 {
        lemma_rows_to_len(p, s, i, ngram, hh - 1);
        if g < ngram || k < hh - 1 {
            lemma_rows_to_place(p, s, i, ngram, hh - 1, g, k);
        }
    } else {
        lemma_rows_to_place(p, s, i, ngram - 1, w, g, k);
        assert((ngram - 3) * w + w == (ngram - 2) * w) by (nonlinear_arith);
    }
}

proof fn lemma_rows_to_len(p: PleWView, s: Seq<i64>, i: int, ngram: int, hh: int)
    requires
        2 <= ngram,
        0 <= hh,
    ensures
        p.rows_to(s, i, ngram, hh).len() == (ngram - 2) * p.heads_per_ngram + hh,
    decreases ngram, hh,
{
    let w = p.heads_per_ngram as int;
    if hh > 0 {
        lemma_rows_to_len(p, s, i, ngram, hh - 1);
    } else if ngram > 2 {
        lemma_rows_to_len(p, s, i, ngram - 1, w);
        assert((ngram - 3) * w + w == (ngram - 2) * w) by (nonlinear_arith);
    } else {
        assert((ngram - 2) * w == 0) by (nonlinear_arith)
            requires
                ngram == 2,
        ;
    }
}

/// Every row is where its position, its n-gram and its head say: positions in order, in each the
/// n-grams from the shortest, in each the heads in order.
pub proof fn law_rows_stand_in_order(
    p: PleWView,
    s: Seq<i64>,
    first: int,
    n: int,
    j: int,
    g: int,
    k: int,
)
    requires
        p.wf(),
        0 <= j < n,
        2 <= g <= p.ngram_size,
        0 <= k < p.heads_per_ngram,
    ensures
        ({
            let at = j * p.heads() + (g - 2) * p.heads_per_ngram + k;
            &&& 0 <= at < p.rows(s, first, n).len()
            &&& p.rows(s, first, n)[at] == p.row_id(s, first + j, g, k) as u32
        }),
    decreases n,
{
    law_lanes_read_the_same_rows(p, s, first, n);
    law_lanes_read_the_same_rows(p, s, first, n - 1);
    let w = p.heads();
    let at = (g - 2) * p.heads_per_ngram + k;
    lemma_rows_to_place(p, s, first + j, p.ngram_size + 1, 0, g, k);
    assert((p.ngram_size + 1 - 2) * p.heads_per_ngram == w);
    assert(0 <= at < w);
    if j == n - 1 {
        assert(p.rows(s, first, n)[(n - 1) * w + at] == p.row(s, first + n - 1)[at]);
        assert((n - 1) * w + w == n * w) by (nonlinear_arith);
        assert(0 <= (n - 1) * w) by (nonlinear_arith)
            requires
                n >= 1,
                w >= 0,
        ;
    } else {
        law_rows_stand_in_order(p, s, first, n - 1, j, g, k);
        assert(p.rows(s, first, n)[j * w + at] == p.rows(s, first, n - 1)[j * w + at]);
    }
}

proof fn lemma_ids_to_place(p: PleWView, s: Seq<i64>, i: int, ngram: int, hh: int, g: int, k: int)
    requires
        p.wf(),
        2 <= g <= ngram <= p.ngram_size + 1,
        0 <= k < p.heads_per_ngram,
        g < ngram || k < hh,
        0 <= hh <= p.heads_per_ngram,
        hh > 0 ==> ngram <= p.ngram_size,
    ensures
        0 <= (g - 2) * p.heads_per_ngram + k < p.ids_to(s, i, ngram, hh).len(),
        p.ids_to(s, i, ngram, hh)[(g - 2) * p.heads_per_ngram + k] == p.row_id(s, i, g, k) as i64,
    decreases ngram, hh,
{
    let w = p.heads_per_ngram as int;
    lemma_same_ids(p, s, i, ngram, hh);
    assert(0 <= (g - 2) * w) by (nonlinear_arith)
        requires
            2 <= g,
            w >= 0,
    ;
    if hh > 0 {
        lemma_same_ids(p, s, i, ngram, hh - 1);
        if g < ngram || k < hh - 1 {
            lemma_ids_to_place(p, s, i, ngram, hh - 1, g, k);
        }
    } else {
        lemma_ids_to_place(p, s, i, ngram - 1, w, g, k);
    }
}

/// Every row number is where its position, its n-gram and its head say, and is the row itself, not
/// cut to a table index.
pub proof fn law_row_numbers_stand_in_order(
    p: PleWView,
    s: Seq<i64>,
    first: int,
    n: int,
    j: int,
    g: int,
    k: int,
)
    requires
        p.wf(),
        0 <= j < n,
        2 <= g <= p.ngram_size,
        0 <= k < p.heads_per_ngram,
    ensures
        ({
            let at = j * p.heads() + (g - 2) * p.heads_per_ngram + k;
            &&& 0 <= at < p.ids(s, first, n).len()
            &&& p.ids(s, first, n)[at] == p.row_id(s, first + j, g, k)
        }),
    decreases n,
{
    law_lanes_read_the_same_rows(p, s, first, n);
    law_lanes_read_the_same_rows(p, s, first, n - 1);
    law_rows_lie_with_their_head(p, s, first + j, g, k);
    let w = p.heads();
    let at = (g - 2) * p.heads_per_ngram + k;
    lemma_ids_to_place(p, s, first + j, p.ngram_size + 1, 0, g, k);
    lemma_same_ids(p, s, first + j, p.ngram_size + 1, 0);
    assert((p.ngram_size + 1 - 2) * p.heads_per_ngram + 0 == w);
    assert(0 <= at < w);
    let h = (g - 2) * p.heads_per_ngram + k;
    assert(p.head_vocab[h] > 0);
    assert(p.row_id(s, first + j, g, k) as i64 == p.row_id(s, first + j, g, k));
    if j == n - 1 {
        assert(p.ids(s, first, n)[(n - 1) * w + at] == p.ids_to(
            s,
            first + n - 1,
            p.ngram_size + 1,
            0,
        )[at]);
        assert((n - 1) * w + w == n * w) by (nonlinear_arith);
        assert(0 <= (n - 1) * w) by (nonlinear_arith)
            requires
                n >= 1,
                w >= 0,
        ;
    } else {
        law_row_numbers_stand_in_order(p, s, first, n - 1, j, g, k);
        assert(p.ids(s, first, n)[j * w + at] == p.ids(s, first, n - 1)[j * w + at]);
    }
}

/// The rows of a position lie one behind the other in its embedding, by their heads, and those of
/// the next position behind its own.
pub proof fn law_rows_fill_the_embedding(t: int, h: int, heads: int, embed: int, width: int)
    requires
        0 <= t,
        0 <= h < heads,
    ensures
        row_dst(t * heads + h, heads, embed, width) == t * embed + h * width,
        row_dst(t * heads, heads, embed, width) == t * embed,
{
    vstd::arithmetic::div_mod::lemma_fundamental_div_mod_converse(t * heads + h, heads, t, h);
    vstd::arithmetic::div_mod::lemma_fundamental_div_mod_converse(t * heads, heads, t, 0);
    assert(0 * width == 0);
}

/// A read of a sharded table finds its row: the shards before it and the row inside its own make up
/// the row's number, and it is one row long. So does a read of a whole table.
pub proof fn law_reads_find_their_row(
    r: ShardRead,
    q: TableRead,
    id: usize,
    per_shard: int,
    width: int,
    row_bytes: int,
    dst: int,
)
    requires
        per_shard > 0,
        width > 0,
        is_shard_read(r, id, per_shard, width, dst),
        is_table_read(q, id, row_bytes, dst),
    ensures
        (r.shard * per_shard) * width + r.lo == id * width,
        r.lo < per_shard * width,
        r.hi - r.lo == width,
        r.dst == dst,
        q.lo == id * row_bytes && q.hi - q.lo == row_bytes && q.dst == dst,
{
    vstd::arithmetic::div_mod::lemma_fundamental_div_mod(id as int, per_shard);
    let a = id as int / per_shard;
    let b = id as int % per_shard;
    assert((a * per_shard) * width + b * width == id * width) by (nonlinear_arith)
        requires
            id == per_shard * a + b,
    ;
    assert(b * width < per_shard * width) by (nonlinear_arith)
        requires
            b < per_shard,
            width > 0,
    ;
}

/// A row of plain numbers takes their bytes; one of blocks takes, for every thirty-two numbers, a
/// scale and a byte or half a byte each, and must be whole blocks.
pub proof fn law_rows_take_their_bytes(ty: RowType, width: int)
    requires
        width >= 0,
    ensures
        row_size(RowType::F32, width) == Some(4 * width),
        row_size(RowType::F16, width) == row_size(RowType::Bf16, width),
        row_size(RowType::F16, width) == Some(width + width),
        width % 32 != 0 ==> row_size(RowType::Q8_0, width) is None && row_size(RowType::Q4_0, width)
            is None && row_size(RowType::Iq4Nl, width) is None,
        width % 32 == 0 ==> {
            &&& row_size(RowType::Q8_0, width) matches Some(n) && 32 * n == 32 * width + 2 * width
            &&& row_size(RowType::Q4_0, width) matches Some(n) && 32 * n == 16 * width + 2 * width
            &&& row_size(RowType::Iq4Nl, width) == row_size(RowType::Q4_0, width)
        },
        row_size(RowType::Other, width) is None,
        width % 32 == 0 && (ty == RowType::Q8_0 || ty == RowType::Q4_0 || ty == RowType::Iq4Nl)
            ==> row_size(ty, width) == Some(width / 32 * block_bytes(ty)),
{
}

/// The two numbers of a nibble byte make it up: the low half is the first sixteen's, the high half
/// the second sixteen's, each eight above its number; an 8-bit number is its byte with its sign.
pub proof fn law_codes_make_up_their_bytes(row: Seq<u8>, at: int, j: int)
    requires
        0 <= j < 16,
    ensures
        (block_code(RowType::Q4_0, row, at, j) + 8) + 16 * (block_code(RowType::Q4_0, row, at, j + 16)
            + 8) == row[at + 2 + j],
        -8 <= block_code(RowType::Q4_0, row, at, j) < 8,
        -8 <= block_code(RowType::Q4_0, row, at, j + 16) < 8,
        block_code(RowType::Iq4Nl, row, at, j) == iq4nl_value(
            block_code(RowType::Q4_0, row, at, j) + 8,
        ),
        block_code(RowType::Iq4Nl, row, at, j + 16) == iq4nl_value(
            block_code(RowType::Q4_0, row, at, j + 16) + 8,
        ),
        -128 <= block_code(RowType::Q8_0, row, at, j) < 128,
        block_code(RowType::Q8_0, row, at, j) == row[at + 2 + j] || block_code(
            RowType::Q8_0,
            row,
            at,
            j,
        ) + 256 == row[at + 2 + j],
        le16(row, at) % 256 == row[at] && le16(row, at) / 256 == row[at + 1],
{
}

/// The non-linear code rises from its least to its largest value.
pub proof fn law_codes_rise(a: int, b: int)
    requires
        0 <= a < b < 16,
    ensures
        iq4nl_value(a) < iq4nl_value(b),
        -127 <= iq4nl_value(a) && iq4nl_value(b) <= 113,
        iq4nl_value(0) == -127 && iq4nl_value(15) == 113 && iq4nl_value(8) == 1 && iq4nl_value(7)
            == -10,
{
    let t = seq![-127, -104, -83, -65, -49, -35, -22, -10, 1, 13, 25, 38, 53, 69, 89, 113int];
    assert(t.len() == 16);
    assert(forall|q: int| 0 <= q < 16 ==> #[trigger] iq4nl_value(q) == t[q]);
    assert(t[0] < t[1] < t[2] < t[3] < t[4] < t[5] < t[6] < t[7] < t[8] < t[9] < t[10] < t[11]
        < t[12] < t[13] < t[14] < t[15]);
}

/// A number with its sign reads back.
pub proof fn law_signed_numbers_read_back(n: int)
    ensures
        n >= 0 ==> text::unsigned(signed(n), n as nat) == Some(n as nat),
        n < 0 ==> signed(n)[0] == '-' && text::unsigned(signed(n).skip(1), (-n) as nat) == Some(
            (-n) as nat,
        ),
{
    if n >= 0 {
        text::law_numbers_read_back(n as nat, n as nat);
    } else {
        reveal_strlit("-");
        text::law_numbers_read_back((-n) as nat, (-n) as nat);
        assert(signed(n).skip(1) =~= text::decimal((-n) as nat));
    }
}

/// A row is in the table exactly when it is not negative and below the table's rows; an empty table
/// counts as one row. The first outside is outside, and all before it are in.
pub proof fn law_outside_rows_are_found_first(
    p: PleWView,
    stream: Seq<i64>,
    first: int,
    n: int,
    tk: int,
    ngram: int,
    hh: int,
)
    requires
        p.first_outside(stream, first, n, tk, ngram, hh),
    ensures
        0 <= tk < n,
        ({
            let rid = p.row_id(stream, first + tk, ngram, hh);
            rid < 0 || rid >= p.table_rows && (p.table_rows > 0 || rid >= 1)
        }),
        forall|k: int|
            0 <= k < hh ==> 0 <= #[trigger] p.row_id(stream, first + tk, ngram, k) && p.row_id(
                stream,
                first + tk,
                ngram,
                k,
            ) < (if p.table_rows > 0 {
                p.table_rows as int
            } else {
                1
            }),
{
    assert forall|k: int| 0 <= k < hh implies 0 <= #[trigger] p.row_id(
        stream,
        first + tk,
        ngram,
        k,
    ) && p.row_id(stream, first + tk, ngram, k) < (if p.table_rows > 0 {
        p.table_rows as int
    } else {
        1
    }) by {
        assert(p.inside(p.row_id(stream, first + tk, ngram, k)));
    }
}

/// A decoded row of single-precision numbers is its bytes, four to a number, the lowest first; one
/// of shorter numbers is their two bytes, as the upper half of a single or as they are.
pub proof fn law_rows_decode_byte_by_byte(row: Seq<u8>, width: int, r: RowBits, i: int)
    requires
        0 <= i < width,
    ensures
        decoded(RowType::F32, row, width, r) ==> (r matches RowBits::Single(v) && v@[i] == row[4 * i]
            + 0x100 * row[4 * i + 1] + 0x1_0000 * row[4 * i + 2] + 0x100_0000 * row[4 * i + 3]),
        decoded(RowType::Bf16, row, width, r) ==> (r matches RowBits::Single(v) && v@[i] == 0x1_0000
            * row[2 * i] + 0x100_0000 * row[2 * i + 1]),
        decoded(RowType::F16, row, width, r) ==> (r matches RowBits::Half(v) && v@[i] == row[2 * i]
            + 0x100 * row[2 * i + 1]),
        decoded(RowType::Q8_0, row, width, r) && width % 32 == 0 ==> (r matches RowBits::Blocks(b)
            && b.scales@[i / 32] == row[34 * (i / 32)] + 0x100 * row[34 * (i / 32) + 1]
            && b.codes@[i] == byte_value(row[34 * (i / 32) + 2 + i % 32])),
        decoded(RowType::Q4_0, row, width, r) && width % 32 == 0 ==> (r matches RowBits::Blocks(b)
            && b.scales@[i / 32] == row[18 * (i / 32)] + 0x100 * row[18 * (i / 32) + 1]),
{
    let k = i / 32;
    let j = i % 32;
    assert(0 <= k && 0 <= j < 32 && 32 * k + j == i);
    if width % 32 == 0 {
        assert(k < width / 32);
        if decoded(RowType::Q8_0, row, width, r) {
            if let RowBits::Blocks(b) = r {
                assert(b.codes@[32 * k + j] == block_code(RowType::Q8_0, row, 34 * k, j));
                assert(b.scales@[k] == le16(row, 34 * k));
            }
        }
        if decoded(RowType::Q4_0, row, width, r) {
            if let RowBits::Blocks(b) = r {
                assert(b.scales@[k] == le16(row, 18 * k));
            }
        }
    }
}

/// Where every row of a position lies in the table, none of its heads reads outside; where one does
/// not, the position is not inside.
pub proof fn law_positions_are_inside_head_by_head(
    p: PleWView,
    stream: Seq<i64>,
    i: int,
    g: int,
    k: int,
)
    requires
        2 <= g <= p.ngram_size,
        0 <= k < p.heads_per_ngram,
    ensures
        p.inside_at(stream, i) && p.table_rows > 0 ==> 0 <= p.row_id(stream, i, g, k) < p.table_rows,
        p.row_id(stream, i, g, k) < 0 ==> !p.inside_at(stream, i),
        p.row_id(stream, i, g, k) >= p.table_rows && p.table_rows > 0 ==> !p.inside_at(stream, i),
{
    if p.inside_at(stream, i) {
        assert(p.inside(p.row_id(stream, i, g, k)));
    }
}

} // verus!
