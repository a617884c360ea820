use vstd::prelude::*;
use crate::pairs::PairCounters;

verus! {

/// An exact quotient `num / den`. A zero denominator stands for the IEEE
/// result of the division: NaN when `num` is zero, an infinity otherwise.
#[derive(PartialEq, Eq, Structural, Clone, Copy, Debug)]
pub struct Ratio {
    pub num: i128,
    pub den: u128,
}

impl Ratio {
    pub open spec fn is(self, num: int, den: int) -> bool {
        self.num as int == num && self.den as int == den
    }
}

/// `(TP + TN) / (TP + TN + FP + FN)`; uncertain pairs are left out.
pub open spec fn rand_index(tp: int, fp: int, tn: int, fneg: int) -> (int, int) {
    (tp + tn, tp + tn + fp + fneg)
}

/// `TP / (TP + FP)`.
pub open spec fn precision(tp: int, fp: int) -> (int, int) {
    (tp, tp + fp)
}

/// `TP / (TP + FN)`.
pub open spec fn recall(tp: int, fneg: int) -> (int, int) {
    (tp, tp + fneg)
}

/// `2 P R / (P + R)` with `P = TP / (TP + FP)` and `R = TP / (TP + FN)`.
/// When `TP` is zero the harmonic mean is `0 / 0` (or P, R themselves are
/// undefined); otherwise it reduces to `2 TP / (2 TP + FP + FN)`.
pub open spec fn f1(tp: int, fp: int, fneg: int) -> (int, int) {
    if tp == 0 {
        (0, 0)
    } else {
        (2 * tp, 2 * tp + fp + fneg)
    }
}

/// With at least one true positive, the reduced form of `f1` is the harmonic
/// mean `2 P R / (P + R)`: writing `P = pn / pd` and `R = rn / rd`, that mean
/// is `2 pn rn / (pn rd + rn pd)`, and the two fractions are equal.
pub proof fn lemma_f1_is_harmonic_mean(tp: int, fp: int, fneg: int)
    requires
        tp > 0,
        fp >= 0,
        fneg >= 0,
    ensures
        ({
            let (pn, pd) = precision(tp, fp);
            let (rn, rd) = recall(tp, fneg);
            let (f_num, f_den) = f1(tp, fp, fneg);
            f_num * (pn * rd + rn * pd) == f_den * (2 * pn * rn)
        }),
{
    assert(2 * tp * (tp * (tp + fneg) + tp * (tp + fp)) == (2 * tp + fp + fneg) * (2 * tp * tp))
        by (nonlinear_arith);
}

/// The association form of the Rand index:
/// `2 (TP TN - FP FN) / ((TN + FN)(TP + FP) + (TN + FP)(TP + FN))`.
pub open spec fn association(tp: int, fp: int, tn: int, fneg: int) -> (int, int) {
    (2 * (tp * tn - fp * fneg), (tn + fneg) * (tp + fp) + (tn + fp) * (tp + fneg))
}

/// The result of one group.
pub struct GroupResult {
    pub head: String,
    pub ri: Ratio,
    pub sri: Ratio,
    pub precision: Ratio,
    pub recall: Ratio,
    pub f1: Ratio,
    pub counters: PairCounters,
    pub instances: u64,
}

pub open spec fn ratio_is(r: Ratio, v: (int, int)) -> bool {
    r.is(v.0, v.1)
}

/// Every ratio of `r` is the one its counters give.
pub open spec fn metrics_match(r: GroupResult) -> bool {
    let tp = r.counters.true_pos as int;
    let fp = r.counters.false_pos as int;
    let tn = r.counters.true_neg as int;
    let fneg = r.counters.false_neg as int;
    &&& ratio_is(r.ri, rand_index(tp, fp, tn, fneg))
    &&& ratio_is(r.precision, precision(tp, fp))
    &&& ratio_is(r.recall, recall(tp, fneg))
    &&& ratio_is(r.f1, f1(tp, fp, fneg))
    &&& ratio_is(r.sri, association(tp, fp, tn, fneg))
}

/// Derives the metrics of one group from its counters.
pub fn derive_metrics(head: String, counters: PairCounters, instances: u64) -> (r: GroupResult)
    requires
        counters.true_pos + counters.false_pos + counters.true_neg + counters.false_neg
            <= u64::MAX,
    ensures
        r.head == head,
        r.counters == counters,
        r.instances == instances,
        metrics_match(r),
        ratio_is(r.ri, rand_index(counters.true_pos as int, counters.false_pos as int,
            counters.true_neg as int, counters.false_neg as int)),
        ratio_is(r.precision, precision(counters.true_pos as int, counters.false_pos as int)),
        ratio_is(r.recall, recall(counters.true_pos as int, counters.false_neg as int)),
        ratio_is(r.f1, f1(counters.true_pos as int, counters.false_pos as int,
            counters.false_neg as int)),
        ratio_is(r.sri, association(counters.true_pos as int, counters.false_pos as int,
            counters.true_neg as int, counters.false_neg as int)),
{
    let a = counters.true_pos as u128;
    let b = counters.false_pos as u128;
    let c = counters.true_neg as u128;
    let d = counters.false_neg as u128;
    let ri = Ratio { num: (a + c) as i128, den: a + c + b + d };
    let precision = Ratio { num: a as i128, den: a + b };
    let recall = Ratio { num: a as i128, den: a + d };
    let f1 = if a == 0 {
        Ratio { num: 0, den: 0 }
    } else {
        Ratio { num: (2 * a) as i128, den: 2 * a + b + d }
    };
    proof {
        let s = a + b + c + d;
        assert(0 <= s <= 0xffff_ffff_ffff_ffff);
        assert(s * s <= 0xffff_ffff_ffff_ffff * 0xffff_ffff_ffff_ffffint) by (nonlinear_arith)
            requires
                0 <= s <= 0xffff_ffff_ffff_ffff,
        ;
        assert(4 * (a * c) <= s * s) by (nonlinear_arith)
            requires
                a >= 0,
                b >= 0,
                c >= 0,
                d >= 0,
                s == a + b + c + d,
        ;
        assert(4 * (b * d) <= s * s) by (nonlinear_arith)
            requires
                a >= 0,
                b >= 0,
                c >= 0,
                d >= 0,
                s == a + b + c + d,
        ;
        assert((c + d) * (a + b) + (c + b) * (a + d) <= s * s) by (nonlinear_arith)
            requires
                a >= 0,
                b >= 0,
                c >= 0,
                d >= 0,
                s == a + b + c + d,
        ;
        assert(0 <= (c + d) * (a + b)) by (nonlinear_arith)
            requires
                a >= 0,
                b >= 0,
                c >= 0,
                d >= 0,
        ;
        assert(0 <= (c + b) * (a + d)) by (nonlinear_arith)
            requires
                a >= 0,
                b >= 0,
                c >= 0,
                d >= 0,
        ;
        assert(0 <= a * c && 0 <= b * d) by (nonlinear_arith)
            requires
                a >= 0,
                b >= 0,
                c >= 0,
                d >= 0,
        ;
    }
    let x = a * c;
    let y = b * d;
    let sri = Ratio {
        num: 2 * (x as i128) - 2 * (y as i128),
        den: (c + d) * (a + b) + (c + b) * (a + d),
    };
    GroupResult { head, ri, sri, precision, recall, f1, counters, instances }
}

} // verus!
