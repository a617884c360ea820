use vstd::prelude::*;
use crate::record::{Record, valid_count, matched_count, same_width, lemma_counts_bounded, slot_agreement};

verus! {

/// How a counted pair is classified by its sense agreement and its clusters.
#[derive(PartialEq, Eq, Structural, Clone, Copy, Debug)]
pub enum PairClass {
    TruePos,
    FalsePos,
    UnsurePos,
    TrueNeg,
    FalseNeg,
    UnsureNeg,
}

/// The weighted accumulator that a counted pair feeds.
#[derive(PartialEq, Eq, Structural, Clone, Copy, Debug)]
pub enum WeightSide {
    TruePos,
    FalsePos,
    TrueNeg,
    FalseNeg,
}

/// Names one accumulator of a group's counters: an unweighted count, or the
/// numerator of a weighted sum restricted to pairs with `valid` usable slots
/// (the weight of such a pair is that numerator divided by `valid`).
pub enum Key {
    Count(PairClass),
    Weight(WeightSide, int),
}

/// The pair is counted only when more than half of the slots are usable.
pub open spec fn included(valid: int, width: int) -> bool {
    2 * valid > width
}

/// With `ratio = matched / valid`: at least 3/4 agrees, at most 1/4 disagrees,
/// anything between is uncertain.
pub open spec fn class_of(valid: int, matched: int, same: bool) -> PairClass {
    if same {
        if 4 * matched >= 3 * valid {
            PairClass::TruePos
        } else if 4 * matched <= valid {
            PairClass::FalsePos
        } else {
            PairClass::UnsurePos
        }
    } else {
        if 4 * matched >= 3 * valid {
            PairClass::FalseNeg
        } else if 4 * matched <= valid {
            PairClass::TrueNeg
        } else {
            PairClass::UnsureNeg
        }
    }
}

/// Weighted side: `ratio > 1/2` counts towards agreement.
pub open spec fn side_of(valid: int, matched: int, same: bool) -> WeightSide {
    if 2 * matched > valid {
        if same { WeightSide::TruePos } else { WeightSide::FalseNeg }
    } else {
        if same { WeightSide::FalsePos } else { WeightSide::TrueNeg }
    }
}

/// `2 * |1/2 - matched/valid|` is `weight_num / valid`.
pub open spec fn weight_num(valid: int, matched: int) -> int {
    if 2 * matched >= valid { 2 * matched - valid } else { valid - 2 * matched }
}

/// What one pair with the given slot statistics adds to accumulator `key`.
pub open spec fn stat_amount(valid: int, matched: int, same: bool, width: int, key: Key) -> int {
    if !included(valid, width) {
        0
    } else {
        match key {
            Key::Count(c) => if class_of(valid, matched, same) == c { 1 } else { 0 },
            Key::Weight(s, v) => if side_of(valid, matched, same) == s && v == valid {
                weight_num(valid, matched)
            } else {
                0
            },
        }
    }
}

/// What the ordered pair `(a, b)` adds to accumulator `key`.
pub open spec fn pair_amount(a: Record, b: Record, width: int, key: Key) -> int {
    stat_amount(
        valid_count(a, b, width),
        matched_count(a, b, width),
        a.cluster@ == b.cluster@,
        width,
        key,
    )
}

/// Sum of `pair_amount(g[i], g[j'])` over `j' < j`.
pub open spec fn row_amount(g: Seq<Record>, width: int, key: Key, i: int, j: int) -> int
    decreases j,
{
    if j <= 0 {
        0
    } else {
        row_amount(g, width, key, i, j - 1) + pair_amount(g[i], g[j - 1], width, key)
    }
}

/// Sum over all pairs whose first index is below `i`.
pub open spec fn grid_amount(g: Seq<Record>, width: int, key: Key, i: int) -> int
    decreases i,
{
    if i <= 0 {
        0
    } else {
        grid_amount(g, width, key, i - 1) + row_amount(g, width, key, i - 1, g.len() as int)
    }
}

/// Accumulator `key` of the group `g`, over all `n * n` ordered pairs.
pub open spec fn group_amount(g: Seq<Record>, width: int, key: Key) -> int {
    grid_amount(g, width, key, g.len() as int)
}

/// The records of `records` at the positions in `members`, in that order.
pub open spec fn members_of(records: Seq<Record>, members: Seq<usize>) -> Seq<Record> {
    Seq::new(members.len(), |t: int| records[members[t] as int])
}

/// Largest amount one pair adds to accumulator `key`.
pub open spec fn key_bound(width: int, key: Key) -> int {
    match key {
        Key::Count(_) => 1,
        Key::Weight(_, _) => width,
    }
}

/// Counters of one group: six unweighted counts and four weighted sums. A
/// weighted sum is held exactly, as numerators indexed by the denominator
/// `valid`: its value is the sum over `v` of `numerators[v] / v`.
pub struct PairCounters {
    pub true_pos: u64,
    pub false_pos: u64,
    pub true_neg: u64,
    pub false_neg: u64,
    pub unsure_pos: u64,
    pub unsure_neg: u64,
    pub true_pos_w: Vec<u128>,
    pub false_pos_w: Vec<u128>,
    pub true_neg_w: Vec<u128>,
    pub false_neg_w: Vec<u128>,
}

impl PairCounters {
    pub open spec fn weights(&self, s: WeightSide) -> Seq<u128> {
        match s {
            WeightSide::TruePos => self.true_pos_w@,
            WeightSide::FalsePos => self.false_pos_w@,
            WeightSide::TrueNeg => self.true_neg_w@,
            WeightSide::FalseNeg => self.false_neg_w@,
        }
    }

    /// Current value of accumulator `key`.
    pub open spec fn amount(&self, key: Key) -> int {
        match key {
            Key::Count(c) => match c {
                PairClass::TruePos => self.true_pos as int,
                PairClass::FalsePos => self.false_pos as int,
                PairClass::UnsurePos => self.unsure_pos as int,
                PairClass::TrueNeg => self.true_neg as int,
                PairClass::FalseNeg => self.false_neg as int,
                PairClass::UnsureNeg => self.unsure_neg as int,
            },
            Key::Weight(s, v) => if 0 <= v < self.weights(s).len() {
                self.weights(s)[v] as int
            } else {
                0
            },
        }
    }

    /// Each weighted sum has one numerator per possible `valid` in `0..=width`.
    pub open spec fn wf(&self, width: int) -> bool {
        &&& self.true_pos_w@.len() == width + 1
        &&& self.false_pos_w@.len() == width + 1
        &&& self.true_neg_w@.len() == width + 1
        &&& self.false_neg_w@.len() == width + 1
    }

    /// Counters with every accumulator at zero.
    pub fn new(width: usize) -> (r: PairCounters)
        requires
            width < usize::MAX,
        ensures
            r.wf(width as int),
            forall|key: Key| #[trigger] r.amount(key) == 0,
    {
        let mut z: Vec<u128> = Vec::new();
        let mut k: usize = 0;
        while k <= width
            invariant
                width < usize::MAX,
                k <= width + 1,
                z@.len() == k,
                forall|t: int| 0 <= t < k ==> z@[t] == 0,
            decreases width + 1 - k,
        {
            z.push(0);
            k = k + 1;
        }
        PairCounters {
            true_pos: 0,
            false_pos: 0,
            true_neg: 0,
            false_neg: 0,
            unsure_pos: 0,
            unsure_neg: 0,
            true_pos_w: z.clone(),
            false_pos_w: z.clone(),
            true_neg_w: z.clone(),
            false_neg_w: z,
        }
    }

    /// Adds one pair with `valid` usable and `matched` agreeing slots.
    pub fn add_pair(&mut self, valid: usize, matched: usize, same: bool, width: usize)
        requires
            old(self).wf(width as int),
            matched <= valid <= width,
            forall|c: PairClass| #[trigger] old(self).amount(Key::Count(c)) < u64::MAX,
            forall|s: WeightSide, v: int| #[trigger] old(self).amount(Key::Weight(s, v)) + width
                <= u128::MAX,
        ensures
            final(self).wf(width as int),
            forall|key: Key| #[trigger] final(self).amount(key) == old(self).amount(key)
                + stat_amount(valid as int, matched as int, same, width as int, key),
    {
        if 2 * (valid as u128) <= width as u128 {
            return;
        }
        let cls = if same {
            if 4 * (matched as u128) >= 3 * (valid as u128) {
                PairClass::TruePos
            } else if 4 * (matched as u128) <= valid as u128 {
                PairClass::FalsePos
            } else {
                PairClass::UnsurePos
            }
        } else {
            if 4 * (matched as u128) >= 3 * (valid as u128) {
                PairClass::FalseNeg
            } else if 4 * (matched as u128) <= valid as u128 {
                PairClass::TrueNeg
            } else {
                PairClass::UnsureNeg
            }
        };
        assert(self.amount(Key::Count(cls)) < u64::MAX);
        match cls {
            PairClass::TruePos => self.true_pos = self.true_pos + 1,
            PairClass::FalsePos => self.false_pos = self.false_pos + 1,
            PairClass::UnsurePos => self.unsure_pos = self.unsure_pos + 1,
            PairClass::TrueNeg => self.true_neg = self.true_neg + 1,
            PairClass::FalseNeg => self.false_neg = self.false_neg + 1,
            PairClass::UnsureNeg => self.unsure_neg = self.unsure_neg + 1,
        }
        let w: u128 = if 2 * (matched as u128) >= valid as u128 {
            2 * (matched as u128) - valid as u128
        } else {
            valid as u128 - 2 * (matched as u128)
        };
        let side = if 2 * (matched as u128) > valid as u128 {
            if same { WeightSide::TruePos } else { WeightSide::FalseNeg }
        } else {
            if same { WeightSide::FalsePos } else { WeightSide::TrueNeg }
        };
        assert(old(self).amount(Key::Weight(side, valid as int)) + width <= u128::MAX);
        match side {
            WeightSide::TruePos => {
                let cur = self.true_pos_w[valid];
                self.true_pos_w.set(valid, cur + w);
            },
            WeightSide::FalsePos => {
                let cur = self.false_pos_w[valid];
                self.false_pos_w.set(valid, cur + w);
            },
            WeightSide::TrueNeg => {
                let cur = self.true_neg_w[valid];
                self.true_neg_w.set(valid, cur + w);
            },
            WeightSide::FalseNeg => {
                let cur = self.false_neg_w[valid];
                self.false_neg_w.set(valid, cur + w);
            },
        }
    }
}


/// Every record of `g` carries `width` sense slots.
pub open spec fn uniform_width(g: Seq<Record>, width: int) -> bool {
    forall|t: int| 0 <= t < g.len() ==> (#[trigger] g[t]).senses@.len() == width
}

pub proof fn lemma_pair_bounds(a: Record, b: Record, width: int, key: Key)
    requires
        width >= 0,
    ensures
        0 <= pair_amount(a, b, width, key) <= key_bound(width, key),
{
    lemma_counts_bounded(a, b, width);
}

pub proof fn lemma_row_bounds(g: Seq<Record>, width: int, key: Key, i: int, j: int)
    requires
        width >= 0,
        0 <= i < g.len(),
        0 <= j <= g.len(),
    ensures
        0 <= row_amount(g, width, key, i, j) <= j * key_bound(width, key),
    decreases j,
{
    if j > 0 {
        lemma_row_bounds(g, width, key, i, j - 1);
        lemma_pair_bounds(g[i], g[j - 1], width, key);
        assert((j - 1) * key_bound(width, key) + key_bound(width, key) == j * key_bound(width, key))
            by (nonlinear_arith);
    }
}

pub proof fn lemma_grid_bounds(g: Seq<Record>, width: int, key: Key, i: int)
    requires
        width >= 0,
        0 <= i <= g.len(),
    ensures
        0 <= grid_amount(g, width, key, i) <= i * g.len() * key_bound(width, key),
    decreases i,
{
    if i > 0 {
        let n = g.len() as int;
        let b = key_bound(width, key);
        lemma_grid_bounds(g, width, key, i - 1);
        lemma_row_bounds(g, width, key, i - 1, n);
        assert((i - 1) * n * b + n * b == i * n * b) by (nonlinear_arith);
    }
}

/// The four decided counts of a prefix of a row.
pub open spec fn row_decided(g: Seq<Record>, width: int, i: int, j: int) -> int {
    row_amount(g, width, Key::Count(PairClass::TruePos), i, j) + row_amount(
        g,
        width,
        Key::Count(PairClass::FalsePos),
        i,
        j,
    ) + row_amount(g, width, Key::Count(PairClass::TrueNeg), i, j) + row_amount(
        g,
        width,
        Key::Count(PairClass::FalseNeg),
        i,
        j,
    )
}

/// The four decided counts of the first `i` rows.
pub open spec fn grid_decided(g: Seq<Record>, width: int, i: int) -> int {
    grid_amount(g, width, Key::Count(PairClass::TruePos), i) + grid_amount(
        g,
        width,
        Key::Count(PairClass::FalsePos),
        i,
    ) + grid_amount(g, width, Key::Count(PairClass::TrueNeg), i) + grid_amount(
        g,
        width,
        Key::Count(PairClass::FalseNeg),
        i,
    )
}

proof fn lemma_row_decided(g: Seq<Record>, width: int, i: int, j: int)
    ensures
        row_decided(g, width, i, j) <= if j <= 0 { 0 } else { j },
    decreases j,
{
    if j > 0 {
        lemma_row_decided(g, width, i, j - 1);
    }
}

/// At most one decided count per ordered pair.
pub proof fn lemma_grid_decided(g: Seq<Record>, width: int, i: int)
    requires
        0 <= i <= g.len(),
    ensures
        grid_decided(g, width, i) <= i * g.len(),
    decreases i,
{
    if i > 0 {
        lemma_grid_decided(g, width, i - 1);
        lemma_row_decided(g, width, i - 1, g.len() as int);
        assert((i - 1) * g.len() + g.len() == i * g.len()) by (nonlinear_arith);
    }
}

/// Room left in the accumulators before pair `(i, j)` is added.
proof fn lemma_room(n: int, i: int, j: int, width: int, acc: int, key: Key)
    requires
        0 <= i < n,
        0 <= j < n,
        n <= u32::MAX,
        0 <= width <= u64::MAX,
        0 <= acc <= (i * n + j) * key_bound(width, key),
    ensures
        key is Count ==> acc < u64::MAX,
        key is Weight ==> acc + width <= u128::MAX,
{
    let b = key_bound(width, key);
    let p = i * n + j;
    assert(p + 1 <= n * n) by (nonlinear_arith)
        requires
            0 <= i < n,
            0 <= j < n,
            p == i * n + j,
    ;
    assert(n * n <= 0xffff_fffe_0000_0001) by (nonlinear_arith)
        requires
            0 <= n <= 0xffff_ffff,
    ;
    assert(acc + b <= (p + 1) * b) by (nonlinear_arith)
        requires
            acc <= p * b,
    ;
    assert((p + 1) * b <= 0xffff_fffe_0000_0001 * b) by (nonlinear_arith)
        requires
            p + 1 <= 0xffff_fffe_0000_0001,
            b >= 0,
    ;
    if key is Weight {
        assert(0xffff_fffe_0000_0001 * b <= 0xffff_fffe_0000_0001 * 0xffff_ffff_ffff_ffffint)
            by (nonlinear_arith)
            requires
                0 <= b <= 0xffff_ffff_ffff_ffffint,
        ;
    }
}

/// Counts the ordered pairs `(i, j)` of the group `members`, self-pairs
/// included, over records of `width` sense slots.
pub fn classify_group(records: &Vec<Record>, members: &Vec<usize>, width: usize) -> (r:
    PairCounters)
    requires
        width < usize::MAX,
        members@.len() <= u32::MAX,
        forall|t: int| 0 <= t < members@.len() ==> (#[trigger] members@[t]) < records@.len(),
        uniform_width(members_of(records@, members@), width as int),
    ensures
        r.wf(width as int),
        forall|key: Key| #[trigger] r.amount(key) == group_amount(
            members_of(records@, members@),
            width as int,
            key,
        ),
{
    let ghost g = members_of(records@, members@);
    let n = members.len();
    let mut c = PairCounters::new(width);
    let mut i: usize = 0;
    while i < n
        invariant
            n == members@.len(),
            g == members_of(records@, members@),
            n <= u32::MAX,
            width < usize::MAX,
            forall|t: int| 0 <= t < members@.len() ==> (#[trigger] members@[t]) < records@.len(),
            uniform_width(g, width as int),
            0 <= i <= n,
            c.wf(width as int),
            forall|key: Key| #[trigger] c.amount(key) == grid_amount(g, width as int, key, i as int),
        decreases n - i,
    {
        let a = &records[members[i]];
        let mut j: usize = 0;
        while j < n
            invariant
                n == members@.len(),
                g == members_of(records@, members@),
                n <= u32::MAX,
                width < usize::MAX,
                forall|t: int| 0 <= t < members@.len() ==> (#[trigger] members@[t]) < records@.len(),
                uniform_width(g, width as int),
                0 <= i < n,
                0 <= j <= n,
                *a == g[i as int],
                c.wf(width as int),
                forall|key: Key| #[trigger] c.amount(key) == grid_amount(g, width as int, key, i as int)
                    + row_amount(g, width as int, key, i as int, j as int),
            decreases n - j,
        {
            let b = &records[members[j]];
            assert(*b == g[j as int]);
            assert(g[i as int].senses@.len() == width);
            assert(g[j as int].senses@.len() == width);
            let (valid, matched) = slot_agreement(a, b, width);
            proof {
                lemma_counts_bounded(*a, *b, width as int);
                assert forall|key: Key| #[trigger] c.amount(key) == c.amount(key) implies (key is Count
                    ==> c.amount(key) < u64::MAX) && (key is Weight ==> c.amount(key) + width
                    <= u128::MAX) by {
                    lemma_grid_bounds(g, width as int, key, i as int);
                    lemma_row_bounds(g, width as int, key, i as int, j as int);
                    assert(i * n * key_bound(width as int, key) + j * key_bound(width as int, key)
                        == (i * n + j) * key_bound(width as int, key)) by (nonlinear_arith);
                    lemma_room(n as int, i as int, j as int, width as int, c.amount(key), key);
                }
                assert forall|cl: PairClass| #[trigger] c.amount(Key::Count(cl)) < u64::MAX by {
                    assert(c.amount(Key::Count(cl)) == c.amount(Key::Count(cl)));
                }
                assert forall|s: WeightSide, v: int| #[trigger] c.amount(Key::Weight(s, v)) + width
                    <= u128::MAX by {
                    assert(c.amount(Key::Weight(s, v)) == c.amount(Key::Weight(s, v)));
                }
            }
            let same = a.cluster == b.cluster;
            c.add_pair(valid, matched, same, width);
            j = j + 1;
        }
        i = i + 1;
    }
    c
}

} // verus!
