use vstd::prelude::*;

verus! {

/// `f(0) + f(1) + ... + f(n - 1)`.
pub open spec fn sum_over(f: spec_fn(int) -> int, n: int) -> int
    decreases n,
{
    if n <= 0 {
        0
    } else {
        sum_over(f, n - 1) + f(n - 1)
    }
}

/// `p` maps `0..n` onto itself, with inverse `q`.
pub open spec fn is_permutation(p: spec_fn(int) -> int, q: spec_fn(int) -> int, n: int) -> bool {
    &&& forall|k: int| 0 <= k < n ==> 0 <= #[trigger] p(k) < n && q(p(k)) == k
    &&& forall|k: int| 0 <= k < n ==> 0 <= #[trigger] q(k) < n && p(q(k)) == k
}

pub open spec fn compose(f: spec_fn(int) -> int, p: spec_fn(int) -> int) -> spec_fn(int) -> int {
    |k: int| f(p(k))
}

/// Sums of functions that agree below `n` are equal.
pub proof fn lemma_sum_ext(f: spec_fn(int) -> int, g: spec_fn(int) -> int, n: int)
    requires
        forall|k: int| 0 <= k < n ==> #[trigger] f(k) == g(k),
    ensures
        sum_over(f, n) == sum_over(g, n),
    decreases n,
{
    if n > 0 {
        lemma_sum_ext(f, g, n - 1);
    }
}

/// Changing one term changes the sum by the difference.
pub proof fn lemma_sum_point(f: spec_fn(int) -> int, g: spec_fn(int) -> int, m: int, n: int)
    requires
        0 <= m < n,
        forall|k: int| 0 <= k < n && k != m ==> #[trigger] f(k) == g(k),
    ensures
        sum_over(g, n) == sum_over(f, n) - f(m) + g(m),
    decreases n,
{
    if n - 1 == m {
        lemma_sum_ext(f, g, n - 1);
    } else {
        lemma_sum_point(f, g, m, n - 1);
    }
}

/// A sum does not depend on the order of its terms.
pub proof fn lemma_sum_permuted(f: spec_fn(int) -> int, p: spec_fn(int) -> int, q: spec_fn(int) -> int, n: int)
    requires
        is_permutation(p, q, n),
    ensures
        sum_over(compose(f, p), n) == sum_over(f, n),
    decreases n,
{
    if n > 0 {
        let m = q(n - 1);
        let last = p(n - 1);
        let p2 = |k: int| if k == m { last } else { p(k) };
        let q2 = |k: int| if k == last { m } else { q(k) };
        assert(p(m) == n - 1);
        if m == n - 1 {
            assert forall|k: int| 0 <= k < n - 1 implies 0 <= #[trigger] p2(k) < n - 1 && q2(p2(k))
                == k by {
                assert(p(k) != n - 1);
            }
            assert forall|k: int| 0 <= k < n - 1 implies 0 <= #[trigger] q2(k) < n - 1 && p2(q2(k))
                == k by {
                assert(q(k) != n - 1);
            }
            lemma_sum_permuted(f, p2, q2, n - 1);
            lemma_sum_ext(compose(f, p2), compose(f, p), n - 1);
        } else {
            assert forall|k: int| 0 <= k < n - 1 implies 0 <= #[trigger] p2(k) < n - 1 && q2(p2(k))
                == k by {
                if k != m {
                    assert(p(k) != n - 1);
                    assert(p(k) != last) by {
                        assert(q(p(k)) == k);
                        assert(q(last) == n - 1);
                    }
                }
            }
            assert forall|k: int| 0 <= k < n - 1 implies 0 <= #[trigger] q2(k) < n - 1 && p2(q2(k))
                == k by {
                if k != last {
                    assert(q(k) != n - 1);
                    assert(q(k) != m) by {
                        assert(p(q(k)) == k);
                    }
                } else {
                    assert(m < n - 1);
                }
            }
            lemma_sum_permuted(f, p2, q2, n - 1);
            lemma_sum_point(compose(f, p), compose(f, p2), m, n - 1);
        }
    }
}

} // verus!
