//! The pairwise distance kernel and the laws it obeys.
use vstd::prelude::*;

verus! {

/// Number of leading positions that both sequences have.
pub open spec fn common_len<T>(left: Seq<T>, right: Seq<T>) -> nat {
    if left.len() <= right.len() {
        left.len()
    } else {
        right.len()
    }
}

/// `sum` is a possible outcome of adding up, in index order and starting
/// from `zero`, the terms of the first `n` positions of `left` and `right`.
pub open spec fn is_sum_of_terms<T>(
    term: spec_fn(T, T, T) -> bool,
    plus: spec_fn(T, T, T) -> bool,
    zero: T,
    left: Seq<T>,
    right: Seq<T>,
    n: nat,
    sum: T,
) -> bool
    decreases n,
{
    if n == 0 {
        sum == zero
    } else {
        exists|prev: T, t: T|
            {
                &&& is_sum_of_terms(term, plus, zero, left, right, (n - 1) as nat, prev)
                &&& term(left[n - 1], right[n - 1], t)
                &&& #[trigger] plus(prev, t, sum)
            }
    }
}

/// `d` is a possible distance between `left` and `right`: the root of the
/// sum of the terms over the positions that both sequences have.
pub open spec fn is_distance<T>(
    term: spec_fn(T, T, T) -> bool,
    plus: spec_fn(T, T, T) -> bool,
    root: spec_fn(T, T) -> bool,
    zero: T,
    left: Seq<T>,
    right: Seq<T>,
    d: T,
) -> bool {
    exists|sum: T|
        {
            &&& is_sum_of_terms(term, plus, zero, left, right, common_len(left, right), sum)
            &&& #[trigger] root(sum, d)
        }
}

/// What a binary operation may return, as a relation: `(a, b, r)` holds
/// where `r` is a possible result of `f(a, b)`.
pub open spec fn binary_outcomes<T, F: Fn(T, T) -> T>(f: F) -> spec_fn(T, T, T) -> bool {
    |a: T, b: T, r: T| f.ensures((a, b), r)
}

/// What a unary operation may return, as a relation: `(a, r)` holds where
/// `r` is a possible result of `f(a)`.
pub open spec fn unary_outcomes<T, F: Fn(T) -> T>(f: F) -> spec_fn(T, T) -> bool {
    |a: T, r: T| f.ensures((a,), r)
}

/// Each operation accepts what the computation of the distance between
/// `left` and `right` hands to it: `term` the two values of each common
/// position, `plus` each sum so far together with the next term, and `root`
/// the sum of all terms.
pub open spec fn accepts_samples<T, D: Fn(T, T) -> T, A: Fn(T, T) -> T, R: Fn(T) -> T>(
    term: D,
    plus: A,
    root: R,
    zero: T,
    left: Seq<T>,
    right: Seq<T>,
) -> bool {
    &&& forall|k: int|
        0 <= k < common_len(left, right) ==> #[trigger] term.requires((left[k], right[k]))
    &&& forall|k: int, sum: T, t: T|
        0 <= k < common_len(left, right) && is_sum_of_terms(
            binary_outcomes(term),
            binary_outcomes(plus),
            zero,
            left,
            right,
            k as nat,
            sum,
        ) && #[trigger] term.ensures((left[k], right[k]), t) ==> #[trigger] plus.requires((sum, t))
    &&& forall|sum: T|
        is_sum_of_terms(
            binary_outcomes(term),
            binary_outcomes(plus),
            zero,
            left,
            right,
            common_len(left, right),
            sum,
        ) ==> #[trigger] root.requires((sum,))
}

/// Distance between two samples.
///
/// `term(a, b)` is the contribution of one position (the squared difference
/// for the Euclidean metric), `plus` accumulates the contributions in index
/// order starting from `zero`, and `root` is applied once to the total.
/// Positions that only the longer sample has are ignored.
pub fn pairwise_distance<T: Copy, D: Fn(T, T) -> T, A: Fn(T, T) -> T, R: Fn(T) -> T>(
    left: &Vec<T>,
    right: &Vec<T>,
    zero: T,
    term: &D,
    plus: &A,
    root: &R,
) -> (d: T)
    requires
        accepts_samples(*term, *plus, *root, zero, left@, right@),
    ensures
        is_distance(
            binary_outcomes(*term),
            binary_outcomes(*plus),
            unary_outcomes(*root),
            zero,
            left@,
            right@,
            d,
        ),
{
    let n: usize = if left.len() <= right.len() {
        left.len()
    } else {
        right.len()
    };
    let mut sum: T = zero;
    let mut k: usize = 0;
    while k < n
        invariant
            k <= n,
            n == common_len(left@, right@),
            accepts_samples(*term, *plus, *root, zero, left@, right@),
            is_sum_of_terms(
                binary_outcomes(*term),
                binary_outcomes(*plus),
                zero,
                left@,
                right@,
                k as nat,
                sum,
            ),
        decreases n - k,
    {
        let t: T = term(left[k], right[k]);
        let next: T = plus(sum, t);
        assert(binary_outcomes(*plus)(sum, t, next));
        sum = next;
        k = k + 1;
    }
    let d: T = root(sum);
    assert(unary_outcomes(*root)(sum, d));
    d
}

proof fn lemma_sum_to_self<T>(
    term: spec_fn(T, T, T) -> bool,
    plus: spec_fn(T, T, T) -> bool,
    zero: T,
    x: Seq<T>,
    n: nat,
    sum: T,
)
    requires
        n <= x.len(),
        forall|k: int, t: T| 0 <= k < x.len() && #[trigger] term(x[k], x[k], t) ==> t == zero,
        forall|s: T| #[trigger] plus(zero, zero, s) ==> s == zero,
        is_sum_of_terms(term, plus, zero, x, x, n, sum),
    ensures
        sum == zero,
    decreases n,
{
    if n > 0 {
        let (prev, t) = choose|prev: T, t: T|
            {
                &&& is_sum_of_terms(term, plus, zero, x, x, (n - 1) as nat, prev)
                &&& term(x[n - 1], x[n - 1], t)
                &&& #[trigger] plus(prev, t, sum)
            };
        lemma_sum_to_self(term, plus, zero, x, (n - 1) as nat, prev);
    }
}

/// The distance from a sample to itself is `zero`, provided that the term of
/// each of its values with itself is `zero`, that `zero` plus `zero` is
/// `zero`, and that the root of `zero` is `zero`.
pub proof fn lemma_distance_to_self<T>(
    term: spec_fn(T, T, T) -> bool,
    plus: spec_fn(T, T, T) -> bool,
    root: spec_fn(T, T) -> bool,
    zero: T,
    x: Seq<T>,
    d: T,
)
    requires
        forall|k: int, t: T| 0 <= k < x.len() && #[trigger] term(x[k], x[k], t) ==> t == zero,
        forall|s: T| #[trigger] plus(zero, zero, s) ==> s == zero,
        forall|r: T| #[trigger] root(zero, r) ==> r == zero,
        is_distance(term, plus, root, zero, x, x, d),
    ensures
        d == zero,
{
    let sum = choose|sum: T|
        {
            &&& is_sum_of_terms(term, plus, zero, x, x, common_len(x, x), sum)
            &&& #[trigger] root(sum, d)
        };
    lemma_sum_to_self(term, plus, zero, x, common_len(x, x), sum);
}

proof fn lemma_sum_swapped<T>(
    term: spec_fn(T, T, T) -> bool,
    plus: spec_fn(T, T, T) -> bool,
    zero: T,
    left: Seq<T>,
    right: Seq<T>,
    n: nat,
    sum: T,
)
    requires
        n <= common_len(left, right),
        forall|k: int, t: T|
            0 <= k < common_len(left, right) && #[trigger] term(left[k], right[k], t) ==> term(
                right[k],
                left[k],
                t,
            ),
        is_sum_of_terms(term, plus, zero, left, right, n, sum),
    ensures
        is_sum_of_terms(term, plus, zero, right, left, n, sum),
    decreases n,
{
    if n > 0 {
        let (prev, t) = choose|prev: T, t: T|
            {
                &&& is_sum_of_terms(term, plus, zero, left, right, (n - 1) as nat, prev)
                &&& term(left[n - 1], right[n - 1], t)
                &&& #[trigger] plus(prev, t, sum)
            };
        lemma_sum_swapped(term, plus, zero, left, right, (n - 1) as nat, prev);
        assert(term(right[n - 1], left[n - 1], t));
    }
}

/// Swapping the two samples leaves the distance unchanged, provided that the
/// term of two values does not depend on their order. The samples need not
/// have the same length.
pub proof fn lemma_distance_symmetric<T>(
    term: spec_fn(T, T, T) -> bool,
    plus: spec_fn(T, T, T) -> bool,
    root: spec_fn(T, T) -> bool,
    zero: T,
    left: Seq<T>,
    right: Seq<T>,
    d: T,
)
    requires
        forall|k: int, t: T|
            0 <= k < common_len(left, right) ==> (#[trigger] term(left[k], right[k], t) <==> term(
                right[k],
                left[k],
                t,
            )),
    ensures
        is_distance(term, plus, root, zero, left, right, d) <==> is_distance(
            term,
            plus,
            root,
            zero,
            right,
            left,
            d,
        ),
{
    let n = common_len(left, right);
    assert(common_len(right, left) == n);
    if is_distance(term, plus, root, zero, left, right, d) {
        let sum = choose|sum: T|
            {
                &&& is_sum_of_terms(term, plus, zero, left, right, n, sum)
                &&& #[trigger] root(sum, d)
            };
        lemma_sum_swapped(term, plus, zero, left, right, n, sum);
    }
    if is_distance(term, plus, root, zero, right, left, d) {
        let sum = choose|sum: T|
            {
                &&& is_sum_of_terms(term, plus, zero, right, left, n, sum)
                &&& #[trigger] root(sum, d)
            };
        lemma_sum_swapped(term, plus, zero, right, left, n, sum);
    }
}

proof fn lemma_sum_of_prefixes<T>(
    term: spec_fn(T, T, T) -> bool,
    plus: spec_fn(T, T, T) -> bool,
    zero: T,
    left: Seq<T>,
    right: Seq<T>,
    left_cut: Seq<T>,
    right_cut: Seq<T>,
    n: nat,
    sum: T,
)
    requires
        n <= common_len(left, right),
        n <= common_len(left_cut, right_cut),
        forall|k: int| 0 <= k < n ==> left[k] == left_cut[k] && right[k] == right_cut[k],
        is_sum_of_terms(term, plus, zero, left, right, n, sum),
    ensures
        is_sum_of_terms(term, plus, zero, left_cut, right_cut, n, sum),
    decreases n,
{
    if n > 0 {
        let (prev, t) = choose|prev: T, t: T|
            {
                &&& is_sum_of_terms(term, plus, zero, left, right, (n - 1) as nat, prev)
                &&& term(left[n - 1], right[n - 1], t)
                &&& #[trigger] plus(prev, t, sum)
            };
        lemma_sum_of_prefixes(
            term,
            plus,
            zero,
            left,
            right,
            left_cut,
            right_cut,
            (n - 1) as nat,
            prev,
        );
        assert(term(left_cut[n - 1], right_cut[n - 1], t));
    }
}

/// What the longer sample holds beyond the length of the shorter one is
/// ignored: the distance is that between the two samples cut to their
/// common length.
pub proof fn lemma_distance_ignores_tail<T>(
    term: spec_fn(T, T, T) -> bool,
    plus: spec_fn(T, T, T) -> bool,
    root: spec_fn(T, T) -> bool,
    zero: T,
    left: Seq<T>,
    right: Seq<T>,
    d: T,
)
    ensures
        is_distance(term, plus, root, zero, left, right, d) <==> is_distance(
            term,
            plus,
            root,
            zero,
            left.take(common_len(left, right) as int),
            right.take(common_len(left, right) as int),
            d,
        ),
{
    let n = common_len(left, right);
    let left_cut = left.take(n as int);
    let right_cut = right.take(n as int);
    assert(common_len(left_cut, right_cut) == n);
    if is_distance(term, plus, root, zero, left, right, d) {
        let sum = choose|sum: T|
            {
                &&& is_sum_of_terms(term, plus, zero, left, right, n, sum)
                &&& #[trigger] root(sum, d)
            };
        lemma_sum_of_prefixes(term, plus, zero, left, right, left_cut, right_cut, n, sum);
    }
    if is_distance(term, plus, root, zero, left_cut, right_cut, d) {
        let sum = choose|sum: T|
            {
                &&& is_sum_of_terms(term, plus, zero, left_cut, right_cut, n, sum)
                &&& #[trigger] root(sum, d)
            };
        lemma_sum_of_prefixes(term, plus, zero, left_cut, right_cut, left, right, n, sum);
    }
}

proof fn lemma_sum_unique<T>(
    term: spec_fn(T, T, T) -> bool,
    plus: spec_fn(T, T, T) -> bool,
    zero: T,
    left: Seq<T>,
    right: Seq<T>,
    n: nat,
    s1: T,
    s2: T,
)
    requires
        forall|a: T, b: T, t1: T, t2: T|
            #[trigger] term(a, b, t1) && #[trigger] term(a, b, t2) ==> t1 == t2,
        forall|a: T, b: T, t1: T, t2: T|
            #[trigger] plus(a, b, t1) && #[trigger] plus(a, b, t2) ==> t1 == t2,
        is_sum_of_terms(term, plus, zero, left, right, n, s1),
        is_sum_of_terms(term, plus, zero, left, right, n, s2),
    ensures
        s1 == s2,
    decreases n,
{
    if n > 0 {
        let (p1, t1) = choose|prev: T, t: T|
            {
                &&& is_sum_of_terms(term, plus, zero, left, right, (n - 1) as nat, prev)
                &&& term(left[n - 1], right[n - 1], t)
                &&& #[trigger] plus(prev, t, s1)
            };
        let (p2, t2) = choose|prev: T, t: T|
            {
                &&& is_sum_of_terms(term, plus, zero, left, right, (n - 1) as nat, prev)
                &&& term(left[n - 1], right[n - 1], t)
                &&& #[trigger] plus(prev, t, s2)
            };
        lemma_sum_unique(term, plus, zero, left, right, (n - 1) as nat, p1, p2);
    }
}

/// Two samples have one distance only, provided that each of the three
/// operations gives one result only on the same arguments.
pub proof fn lemma_distance_unique<T>(
    term: spec_fn(T, T, T) -> bool,
    plus: spec_fn(T, T, T) -> bool,
    root: spec_fn(T, T) -> bool,
    zero: T,
    left: Seq<T>,
    right: Seq<T>,
    d1: T,
    d2: T,
)
    requires
        forall|a: T, b: T, t1: T, t2: T|
            #[trigger] term(a, b, t1) && #[trigger] term(a, b, t2) ==> t1 == t2,
        forall|a: T, b: T, t1: T, t2: T|
            #[trigger] plus(a, b, t1) && #[trigger] plus(a, b, t2) ==> t1 == t2,
        forall|a: T, r1: T, r2: T| #[trigger] root(a, r1) && #[trigger] root(a, r2) ==> r1 == r2,
        is_distance(term, plus, root, zero, left, right, d1),
        is_distance(term, plus, root, zero, left, right, d2),
    ensures
        d1 == d2,
{
    let n = common_len(left, right);
    let s1 = choose|sum: T|
        {
            &&& is_sum_of_terms(term, plus, zero, left, right, n, sum)
            &&& #[trigger] root(sum, d1)
        };
    let s2 = choose|sum: T|
        {
            &&& is_sum_of_terms(term, plus, zero, left, right, n, sum)
            &&& #[trigger] root(sum, d2)
        };
    lemma_sum_unique(term, plus, zero, left, right, n, s1, s2);
}

} // verus!
