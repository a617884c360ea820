use vstd::prelude::*;
use crate::record::{
    Record, is_unclear, sense_at, slot_valid, slot_matches, valid_count, matched_count,
};
use crate::sums::{sum_over, is_permutation, compose, lemma_sum_ext, lemma_sum_permuted};
use crate::pairs::{
    Key, PairClass, PairCounters, WeightSide, pair_amount, row_amount, grid_amount, group_amount,
    included, lemma_pair_bounds,
};

verus! {

/// The counters of a group are fixed by the group: any two counters that
/// both hold the group's accumulators are equal, field by field.
pub proof fn law_counters_determined(g: Seq<Record>, width: int, c1: PairCounters, c2: PairCounters)
    requires
        c1.wf(width),
        c2.wf(width),
        forall|key: Key| #[trigger] c1.amount(key) == group_amount(g, width, key),
        forall|key: Key| #[trigger] c2.amount(key) == group_amount(g, width, key),
    ensures
        c1.true_pos == c2.true_pos,
        c1.false_pos == c2.false_pos,
        c1.true_neg == c2.true_neg,
        c1.false_neg == c2.false_neg,
        c1.unsure_pos == c2.unsure_pos,
        c1.unsure_neg == c2.unsure_neg,
        c1.true_pos_w@ == c2.true_pos_w@,
        c1.false_pos_w@ == c2.false_pos_w@,
        c1.true_neg_w@ == c2.true_neg_w@,
        c1.false_neg_w@ == c2.false_neg_w@,
{
    assert(c1.amount(Key::Count(PairClass::TruePos)) == c2.amount(Key::Count(PairClass::TruePos)));
    assert(c1.amount(Key::Count(PairClass::FalsePos)) == c2.amount(Key::Count(PairClass::FalsePos)));
    assert(c1.amount(Key::Count(PairClass::UnsurePos)) == c2.amount(Key::Count(PairClass::UnsurePos)));
    assert(c1.amount(Key::Count(PairClass::TrueNeg)) == c2.amount(Key::Count(PairClass::TrueNeg)));
    assert(c1.amount(Key::Count(PairClass::FalseNeg)) == c2.amount(Key::Count(PairClass::FalseNeg)));
    assert(c1.amount(Key::Count(PairClass::UnsureNeg)) == c2.amount(Key::Count(PairClass::UnsureNeg)));
    assert forall|s: WeightSide| #[trigger] c1.weights(s) =~= c2.weights(s) by {
        assert forall|v: int| 0 <= v < c1.weights(s).len() implies c1.weights(s)[v] == c2.weights(s)[v] by {
            assert(c1.amount(Key::Weight(s, v)) == c2.amount(Key::Weight(s, v)));
        }
    }
    assert(c1.weights(WeightSide::TruePos) =~= c2.weights(WeightSide::TruePos));
    assert(c1.weights(WeightSide::FalsePos) =~= c2.weights(WeightSide::FalsePos));
    assert(c1.weights(WeightSide::TrueNeg) =~= c2.weights(WeightSide::TrueNeg));
    assert(c1.weights(WeightSide::FalseNeg) =~= c2.weights(WeightSide::FalseNeg));
    assert(c1.true_pos_w@ =~= c2.true_pos_w@);
    assert(c1.false_pos_w@ =~= c2.false_pos_w@);
    assert(c1.true_neg_w@ =~= c2.true_neg_w@);
    assert(c1.false_neg_w@ =~= c2.false_neg_w@);
}

/// A pair with at most half of its slots usable adds nothing to any
/// accumulator.
pub proof fn law_inclusion_gate(a: Record, b: Record, width: int, key: Key)
    requires
        2 * valid_count(a, b, width) <= width,
    ensures
        pair_amount(a, b, width, key) == 0,
{
}

/// An unclear slot is never usable and never matches, whatever the other
/// record holds there, the same record included.
pub proof fn law_unclear_excluded(a: Record, b: Record, k: int)
    requires
        is_unclear(sense_at(a, k)) || is_unclear(sense_at(b, k)),
    ensures
        !slot_valid(a, b, k),
        !slot_matches(a, b, k),
        !slot_valid(b, a, k),
        !slot_matches(b, a, k),
{
}

/// A record holds no unclear marker in its first `width` slots.
pub open spec fn all_clear(r: Record, width: int) -> bool {
    forall|k: int| 0 <= k < width ==> !is_unclear(#[trigger] sense_at(r, k))
}

proof fn lemma_self_counts(a: Record, k: int)
    requires
        0 <= k,
        all_clear(a, k),
    ensures
        valid_count(a, a, k) == k,
        matched_count(a, a, k) == k,
    decreases k,
{
    if k > 0 {
        lemma_self_counts(a, k - 1);
    }
}

/// A fully annotated record paired with itself is a true positive.
pub proof fn law_self_pair(a: Record, width: int)
    requires
        width > 0,
        all_clear(a, width),
    ensures
        pair_amount(a, a, width, Key::Count(PairClass::TruePos)) == 1,
{
    lemma_self_counts(a, width);
    assert(included(width, width));
}

proof fn lemma_row_diagonal(g: Seq<Record>, width: int, i: int, j: int)
    requires
        width > 0,
        0 <= i < g.len(),
        0 <= j <= g.len(),
        all_clear(g[i], width),
    ensures
        row_amount(g, width, Key::Count(PairClass::TruePos), i, j) >= if j > i { 1int } else { 0 },
    decreases j,
{
    if j > 0 {
        lemma_row_diagonal(g, width, i, j - 1);
        lemma_pair_bounds(g[i], g[j - 1], width, Key::Count(PairClass::TruePos));
        if j - 1 == i {
            law_self_pair(g[i], width);
        }
    }
}

proof fn lemma_grid_diagonal(g: Seq<Record>, width: int, i: int)
    requires
        width > 0,
        0 <= i <= g.len(),
        forall|t: int| 0 <= t < g.len() ==> all_clear(#[trigger] g[t], width),
    ensures
        grid_amount(g, width, Key::Count(PairClass::TruePos), i) >= i,
    decreases i,
{
    if i > 0 {
        lemma_grid_diagonal(g, width, i - 1);
        lemma_row_diagonal(g, width, i - 1, g.len() as int);
    }
}

/// In a group with no unclear marker, the `n` self-pairs alone give `n`
/// true positives.
pub proof fn law_self_pairs_true_positive(g: Seq<Record>, width: int)
    requires
        width > 0,
        forall|t: int| 0 <= t < g.len() ==> all_clear(#[trigger] g[t], width),
    ensures
        group_amount(g, width, Key::Count(PairClass::TruePos)) >= g.len(),
{
    lemma_grid_diagonal(g, width, g.len() as int);
}

pub open spec fn row_terms(g: Seq<Record>, width: int, key: Key, i: int) -> spec_fn(int) -> int {
    |j: int| pair_amount(g[i], g[j], width, key)
}

pub open spec fn grid_terms(g: Seq<Record>, width: int, key: Key) -> spec_fn(int) -> int {
    |i: int| row_amount(g, width, key, i, g.len() as int)
}

proof fn lemma_row_as_sum(g: Seq<Record>, width: int, key: Key, i: int, j: int)
    ensures
        row_amount(g, width, key, i, j) == sum_over(row_terms(g, width, key, i), j),
    decreases j,
{
    if j > 0 {
        lemma_row_as_sum(g, width, key, i, j - 1);
    }
}

proof fn lemma_grid_as_sum(g: Seq<Record>, width: int, key: Key, i: int)
    ensures
        grid_amount(g, width, key, i) == sum_over(grid_terms(g, width, key), i),
    decreases i,
{
    if i > 0 {
        lemma_grid_as_sum(g, width, key, i - 1);
    }
}

/// Reordering the records of a group leaves every accumulator unchanged.
pub proof fn law_rows_permuted(
    g: Seq<Record>,
    h: Seq<Record>,
    p: spec_fn(int) -> int,
    q: spec_fn(int) -> int,
    width: int,
    key: Key,
)
    requires
        h.len() == g.len(),
        is_permutation(p, q, g.len() as int),
        forall|i: int| 0 <= i < h.len() ==> #[trigger] h[i] == g[p(i)],
    ensures
        group_amount(h, width, key) == group_amount(g, width, key),
{
    let n = g.len() as int;
    assert forall|i: int| 0 <= i < n implies #[trigger] grid_terms(h, width, key)(i) == compose(
        grid_terms(g, width, key),
        p,
    )(i) by {
        lemma_row_as_sum(h, width, key, i, n);
        lemma_row_as_sum(g, width, key, p(i), n);
        assert forall|j: int| 0 <= j < n implies #[trigger] row_terms(h, width, key, i)(j) == compose(
            row_terms(g, width, key, p(i)),
            p,
        )(j) by {
            assert(h[j] == g[p(j)]);
        }
        lemma_sum_ext(row_terms(h, width, key, i), compose(row_terms(g, width, key, p(i)), p), n);
        lemma_sum_permuted(row_terms(g, width, key, p(i)), p, q, n);
    }
    lemma_grid_as_sum(h, width, key, n);
    lemma_grid_as_sum(g, width, key, n);
    lemma_sum_ext(grid_terms(h, width, key), compose(grid_terms(g, width, key), p), n);
    lemma_sum_permuted(grid_terms(g, width, key), p, q, n);
}

pub open spec fn valid_terms(a: Record, b: Record) -> spec_fn(int) -> int {
    |k: int| if slot_valid(a, b, k) { 1int } else { 0 }
}

pub open spec fn matched_terms(a: Record, b: Record) -> spec_fn(int) -> int {
    |k: int| if slot_matches(a, b, k) { 1int } else { 0 }
}

proof fn lemma_slots_as_sums(a: Record, b: Record, k: int)
    ensures
        valid_count(a, b, k) == sum_over(valid_terms(a, b), k),
        matched_count(a, b, k) == sum_over(matched_terms(a, b), k),
    decreases k,
{
    if k > 0 {
        lemma_slots_as_sums(a, b, k - 1);
    }
}

/// `a2` holds the slots of `a` reordered by `p`, with the same cluster.
pub open spec fn slots_permuted(a: Record, a2: Record, p: spec_fn(int) -> int, width: int) -> bool {
    &&& a2.cluster@ == a.cluster@
    &&& forall|k: int| 0 <= k < width ==> #[trigger] sense_at(a2, k) == sense_at(a, p(k))
}

/// Reordering the sense slots of two records in the same way leaves what
/// their pair adds to every accumulator unchanged.
pub proof fn law_pair_slots_permuted(
    a: Record,
    b: Record,
    a2: Record,
    b2: Record,
    p: spec_fn(int) -> int,
    q: spec_fn(int) -> int,
    width: int,
    key: Key,
)
    requires
        is_permutation(p, q, width),
        slots_permuted(a, a2, p, width),
        slots_permuted(b, b2, p, width),
    ensures
        pair_amount(a2, b2, width, key) == pair_amount(a, b, width, key),
{
    lemma_slots_as_sums(a, b, width);
    lemma_slots_as_sums(a2, b2, width);
    assert forall|k: int| 0 <= k < width implies #[trigger] valid_terms(a2, b2)(k) == compose(
        valid_terms(a, b),
        p,
    )(k) && matched_terms(a2, b2)(k) == compose(matched_terms(a, b), p)(k) by {
        assert(sense_at(a2, k) == sense_at(a, p(k)));
        assert(sense_at(b2, k) == sense_at(b, p(k)));
    }
    lemma_sum_ext(valid_terms(a2, b2), compose(valid_terms(a, b), p), width);
    lemma_sum_ext(matched_terms(a2, b2), compose(matched_terms(a, b), p), width);
    lemma_sum_permuted(valid_terms(a, b), p, q, width);
    lemma_sum_permuted(matched_terms(a, b), p, q, width);
}

/// Reordering the sense slots of every record of a group in the same way
/// leaves every accumulator unchanged.
pub proof fn law_slots_permuted(
    g: Seq<Record>,
    h: Seq<Record>,
    p: spec_fn(int) -> int,
    q: spec_fn(int) -> int,
    width: int,
    key: Key,
)
    requires
        h.len() == g.len(),
        is_permutation(p, q, width),
        forall|t: int| 0 <= t < g.len() ==> slots_permuted(g[t], #[trigger] h[t], p, width),
    ensures
        group_amount(h, width, key) == group_amount(g, width, key),
{
    let n = g.len() as int;
    assert forall|i: int| 0 <= i < n implies #[trigger] grid_terms(h, width, key)(i) == grid_terms(
        g,
        width,
        key,
    )(i) by {
        lemma_row_as_sum(h, width, key, i, n);
        lemma_row_as_sum(g, width, key, i, n);
        assert forall|j: int| 0 <= j < n implies #[trigger] row_terms(h, width, key, i)(j) == row_terms(
            g,
            width,
            key,
            i,
        )(j) by {
            assert(slots_permuted(g[i], h[i], p, width));
            assert(slots_permuted(g[j], h[j], p, width));
            law_pair_slots_permuted(g[i], g[j], h[i], h[j], p, q, width, key);
        }
        lemma_sum_ext(row_terms(h, width, key, i), row_terms(g, width, key, i), n);
    }
    lemma_grid_as_sum(h, width, key, n);
    lemma_grid_as_sum(g, width, key, n);
    lemma_sum_ext(grid_terms(h, width, key), grid_terms(g, width, key), n);
}

} // verus!
