//! Counting, summing and searching over slot indices.
use vstd::prelude::*;

verus! {

/// How many of the indices below `n` satisfy `p`.
pub open spec fn tally(n: nat, p: spec_fn(int) -> bool) -> nat
    decreases n,
{
    if n == 0 {
        0
    } else {
        tally((n - 1) as nat, p) + if p(n - 1) {
            1nat
        } else {
            0
        }
    }
}

/// The sum of `f` over the indices below `n`.
pub open spec fn sum_below(n: nat, f: spec_fn(int) -> nat) -> nat
    decreases n,
{
    if n == 0 {
        0
    } else {
        sum_below((n - 1) as nat, f) + f(n - 1)
    }
}

/// The lowest index in `from..n` that satisfies `p`.
pub open spec fn first_from(from: int, n: int, p: spec_fn(int) -> bool) -> Option<int>
    decreases n - from,
{
    if from >= n {
        None
    } else if p(from) {
        Some(from)
    } else {
        first_from(from + 1, n, p)
    }
}

/// The highest index below `n` that satisfies `p`.
pub open spec fn last_below(n: int, p: spec_fn(int) -> bool) -> Option<int>
    decreases n,
{
    if n <= 0 {
        None
    } else if p(n - 1) {
        Some(n - 1)
    } else {
        last_below(n - 1, p)
    }
}

pub proof fn lemma_tally_bound(n: nat, p: spec_fn(int) -> bool)
    ensures
        tally(n, p) <= n,
    decreases n,
{
    if n > 0 {
        lemma_tally_bound((n - 1) as nat, p);
    }
}

pub proof fn lemma_tally_mono(n: nat, m: nat, p: spec_fn(int) -> bool)
    requires
        n <= m,
    ensures
        tally(n, p) <= tally(m, p),
    decreases m,
{
    if n < m {
        lemma_tally_mono(n, (m - 1) as nat, p);
    }
}

pub proof fn lemma_sum_mono(n: nat, m: nat, f: spec_fn(int) -> nat)
    requires
        n <= m,
    ensures
        sum_below(n, f) <= sum_below(m, f),
    decreases m,
{
    if n < m {
        lemma_sum_mono(n, (m - 1) as nat, f);
    }
}

/// What a search from below finds: in range, satisfying, and nothing before it does.
pub proof fn lemma_first_from(from: int, n: int, p: spec_fn(int) -> bool)
    ensures
        first_from(from, n, p) matches Some(k) ==> from <= k < n && p(k) && (forall|j: int|
            from <= j < k ==> !#[trigger] p(j)),
        first_from(from, n, p) is None ==> (forall|j: int| from <= j < n ==> !#[trigger] p(j)),
    decreases n - from,
{
    if from < n {
        lemma_first_from(from + 1, n, p);
    }
}

/// What a search from above finds: in range, satisfying, and nothing above it does.
pub proof fn lemma_last_below(n: int, p: spec_fn(int) -> bool)
    ensures
        last_below(n, p) matches Some(k) ==> 0 <= k < n && p(k) && (forall|j: int|
            k < j < n ==> !#[trigger] p(j)),
        last_below(n, p) is None ==> (forall|j: int| 0 <= j < n ==> !#[trigger] p(j)),
    decreases n,
{
    if n > 0 {
        lemma_last_below(n - 1, p);
    }
}

/// The first is the first: it is one, and none before it is; and there is none only where none is.
pub proof fn law_first_is_the_first(from: int, n: int, p: spec_fn(int) -> bool)
    ensures
        match first_from(from, n, p) {
            Some(k) => from <= k < n && p(k) && forall|j: int| from <= j < k ==> !#[trigger] p(j),
            None => forall|j: int| from <= j < n ==> !#[trigger] p(j),
        },
    decreases n - from,
{
    if from < n && !p(from) {
        law_first_is_the_first(from + 1, n, p);
    }
}

/// The last is the last: it is one, and none behind it is; and there is none only where none is.
pub proof fn law_last_is_the_last(n: int, p: spec_fn(int) -> bool)
    ensures
        match last_below(n, p) {
            Some(k) => 0 <= k < n && p(k) && forall|j: int| k < j < n ==> !#[trigger] p(j),
            None => forall|j: int| 0 <= j < n ==> !#[trigger] p(j),
        },
    decreases n,
{
    if n > 0 && !p(n - 1) {
        law_last_is_the_last(n - 1, p);
    }
}

/// A tally is the number of those that are.
pub proof fn law_tally_counts(n: nat, p: spec_fn(int) -> bool)
    ensures
        tally(n, p) == Set::new(|k: int| 0 <= k < n && p(k)).len(),
        Set::new(|k: int| 0 <= k < n && p(k)).finite(),
    decreases n,
{
    let s = Set::new(|k: int| 0 <= k < n && p(k));
    if n == 0 {
        assert(s =~= Set::<int>::empty());
    } else {
        law_tally_counts((n - 1) as nat, p);
        let t = Set::new(|k: int| 0 <= k < n - 1 && p(k));
        if p(n - 1) {
            assert(s =~= t.insert(n - 1));
        } else {
            assert(s =~= t);
        }
    }
}

/// A sum moves by what one of its terms moves by, and is nothing where every term is.
pub proof fn law_sums_move_with_their_terms(
    n: nat,
    f: spec_fn(int) -> nat,
    g: spec_fn(int) -> nat,
    k: int,
)
    requires
        0 <= k < n,
        forall|j: int| 0 <= j < n && j != k ==> #[trigger] f(j) == #[trigger] g(j),
    ensures
        sum_below(n, g) + f(k) == sum_below(n, f) + g(k),
    decreases n,
{
    if k == n - 1 {
        lemma_sum_same((n - 1) as nat, f, g);
    } else {
        law_sums_move_with_their_terms((n - 1) as nat, f, g, k);
        assert(f(n - 1) == g(n - 1));
    }
}

pub proof fn lemma_sum_same(n: nat, f: spec_fn(int) -> nat, g: spec_fn(int) -> nat)
    requires
        forall|j: int| 0 <= j < n ==> #[trigger] f(j) == #[trigger] g(j),
    ensures
        sum_below(n, f) == sum_below(n, g),
    decreases n,
{
    if n > 0 {
        lemma_sum_same((n - 1) as nat, f, g);
        assert(f(n - 1) == g(n - 1));
    }
}

/// A sum of nothings is nothing.
pub proof fn law_sum_of_nothing(n: nat, f: spec_fn(int) -> nat)
    requires
        forall|j: int| 0 <= j < n ==> #[trigger] f(j) == 0,
    ensures
        sum_below(n, f) == 0,
    decreases n,
{
    if n > 0 {
        law_sum_of_nothing((n - 1) as nat, f);
    }
}

} // verus!
