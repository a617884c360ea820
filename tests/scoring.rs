use scorer::grouping::group_by_head;
use scorer::metrics::{derive_metrics, Ratio};
use scorer::pairs::{classify_group, PairCounters};
use scorer::record::{slot_agreement, unclear, Record};
use scorer::scoring::score;

fn rec(head: &str, senses: &[&str], cluster: &str) -> Record {
    Record {
        head: head.to_string(),
        senses: senses.iter().map(|s| s.to_string()).collect(),
        cluster: cluster.to_string(),
    }
}

fn counts(c: &PairCounters) -> [u64; 6] {
    [c.true_pos, c.false_pos, c.true_neg, c.false_neg, c.unsure_pos, c.unsure_neg]
}

#[test]
fn scenario_same_senses_same_cluster() {
    let records = vec![rec("X", &["1", "1"], "A"), rec("X", &["1", "1"], "A")];
    let results = score(&records, 2);
    assert_eq!(results.len(), 1);
    let r = &results[0];
    assert_eq!(r.head, "X");
    assert_eq!(counts(&r.counters), [4, 0, 0, 0, 0, 0]);
    assert_eq!(r.precision, Ratio { num: 4, den: 4 });
    assert_eq!(r.recall, Ratio { num: 4, den: 4 });
    assert_eq!(r.f1, Ratio { num: 8, den: 8 });
    assert_eq!(r.ri, Ratio { num: 4, den: 4 });
    assert_eq!(r.sri, Ratio { num: 0, den: 0 });
    assert_eq!(r.instances, 2);
}

#[test]
fn scenario_different_senses_same_cluster() {
    let records = vec![rec("X", &["1", "1"], "A"), rec("X", &["2", "2"], "A")];
    let results = score(&records, 2);
    assert_eq!(results.len(), 1);
    let r = &results[0];
    assert_eq!(counts(&r.counters), [2, 2, 0, 0, 0, 0]);
    assert_eq!(r.precision, Ratio { num: 2, den: 4 });
    assert_eq!(r.recall, Ratio { num: 2, den: 2 });
    assert_eq!(r.f1, Ratio { num: 4, den: 6 });
    assert_eq!(r.ri, Ratio { num: 2, den: 4 });
    // each diagonal pair weighs 2/2, each off-diagonal pair too
    assert_eq!(r.counters.true_pos_w, vec![0, 0, 4]);
    assert_eq!(r.counters.false_pos_w, vec![0, 0, 4]);
    assert_eq!(r.counters.true_neg_w, vec![0, 0, 0]);
    assert_eq!(r.counters.false_neg_w, vec![0, 0, 0]);
}

#[test]
fn different_clusters_give_negatives() {
    let records = vec![rec("X", &["1", "1"], "A"), rec("X", &["2", "2"], "B"), rec("X", &["1", "1"], "C")];
    let results = score(&records, 2);
    let c = &results[0].counters;
    // diagonal: 3 TP; (0,2),(2,0): FN; (0,1),(1,0),(1,2),(2,1): TN
    assert_eq!(counts(c), [3, 0, 4, 2, 0, 0]);
    assert_eq!(c.false_neg_w, vec![0, 0, 4]);
    assert_eq!(c.true_neg_w, vec![0, 0, 8]);
}

#[test]
fn uncertain_band() {
    // two of four slots agree: ratio 1/2 lies between the bounds
    let records = vec![rec("X", &["1", "2", "3", "4"], "A"), rec("X", &["1", "2", "5", "6"], "A"),
        rec("X", &["1", "2", "7", "8"], "B")];
    let results = score(&records, 4);
    let c = &results[0].counters;
    assert_eq!(counts(c), [3, 0, 0, 0, 2, 4]);
    // ratio 1/2 weighs nothing and goes to the disagreeing side
    assert_eq!(c.false_pos_w, vec![0, 0, 0, 0, 0]);
    assert_eq!(c.true_pos_w, vec![0, 0, 0, 0, 12]);
}

#[test]
fn three_of_four_is_positive_one_of_four_is_negative() {
    let a = rec("X", &["1", "2", "3", "4"], "A");
    let b = rec("X", &["1", "2", "3", "9"], "A");
    let c = rec("X", &["1", "7", "8", "9"], "A");
    let records = vec![a, b, c];
    let members = vec![0usize, 1];
    let r = classify_group(&records, &members, 4);
    assert_eq!(counts(&r), [4, 0, 0, 0, 0, 0]);
    // 3/4: weight 2/4 on each of the two off-diagonal pairs
    assert_eq!(r.true_pos_w, vec![0, 0, 0, 0, 12]);
    let members = vec![0usize, 2];
    let r = classify_group(&records, &members, 4);
    assert_eq!(counts(&r), [2, 2, 0, 0, 0, 0]);
    assert_eq!(r.false_pos_w, vec![0, 0, 0, 0, 4]);
}

#[test]
fn unclear_slot_leaves_the_pair_only() {
    let records = vec![rec("X", &["1x", "1", "1"], "A"), rec("X", &["2", "1", "1"], "A")];
    let (valid, matched) = slot_agreement(&records[0], &records[1], 3);
    assert_eq!((valid, matched), (2, 2));
    let (valid, matched) = slot_agreement(&records[0], &records[0], 3);
    assert_eq!((valid, matched), (2, 2));
    let (valid, matched) = slot_agreement(&records[1], &records[1], 3);
    assert_eq!((valid, matched), (3, 3));
    let results = score(&records, 3);
    assert_eq!(counts(&results[0].counters), [4, 0, 0, 0, 0, 0]);
}

#[test]
fn unclear_never_matches_itself() {
    let records = vec![rec("X", &["1x", "1x"], "A")];
    let (valid, matched) = slot_agreement(&records[0], &records[0], 2);
    assert_eq!((valid, matched), (0, 0));
}

#[test]
fn half_usable_is_skipped() {
    let records = vec![rec("X", &["1x", "1"], "A"), rec("X", &["1", "1"], "A")];
    let results = score(&records, 2);
    // only the pair of the second record with itself has both slots usable
    assert_eq!(counts(&results[0].counters), [1, 0, 0, 0, 0, 0]);
    assert_eq!(results[0].counters.true_pos_w, vec![0, 0, 2]);
}

#[test]
fn unclear_marker_detection() {
    assert!(unclear(&"1x".to_string()));
    assert!(unclear(&"x".to_string()));
    assert!(!unclear(&"".to_string()));
    assert!(!unclear(&"1".to_string()));
    assert!(!unclear(&"xy".to_string()));
    assert!(!unclear(&"1X".to_string()));
}

#[test]
fn groups_follow_first_occurrence() {
    let records = vec![rec("b", &["1", "1"], "A"), rec("a", &["1", "1"], "A"),
        rec("b", &["2", "2"], "B"), rec("c", &["1", "1"], "A"), rec("a", &["1", "1"], "B")];
    let groups = group_by_head(&records);
    assert_eq!(groups.len(), 3);
    assert_eq!(groups[0].head, "b");
    assert_eq!(groups[0].members, vec![0, 2]);
    assert_eq!(groups[1].head, "a");
    assert_eq!(groups[1].members, vec![1, 4]);
    assert_eq!(groups[2].head, "c");
    assert_eq!(groups[2].members, vec![3]);
    let results = score(&records, 2);
    assert_eq!(results.len(), 3);
    assert_eq!(results[1].head, "a");
    assert_eq!(results[1].instances, 2);
    assert_eq!(counts(&results[1].counters), [2, 0, 0, 2, 0, 0]);
    assert_eq!(results[2].instances, 1);
}

#[test]
fn empty_input_has_no_groups() {
    let records: Vec<Record> = vec![];
    assert_eq!(group_by_head(&records).len(), 0);
    assert_eq!(score(&records, 2).len(), 0);
}

#[test]
fn scoring_is_repeatable_and_order_free() {
    let records = vec![rec("X", &["1", "2"], "A"), rec("X", &["1", "3"], "B"), rec("X", &["2", "2"], "A")];
    let again = score(&records, 2);
    let first = score(&records, 2);
    assert_eq!(counts(&first[0].counters), counts(&again[0].counters));
    let rows = vec![records[2].senses.clone(), records[0].senses.clone(), records[1].senses.clone()];
    let permuted = vec![
        Record { head: "X".to_string(), senses: rows[0].clone(), cluster: "A".to_string() },
        Record { head: "X".to_string(), senses: rows[1].clone(), cluster: "A".to_string() },
        Record { head: "X".to_string(), senses: rows[2].clone(), cluster: "B".to_string() },
    ];
    let p = score(&permuted, 2);
    assert_eq!(counts(&first[0].counters), counts(&p[0].counters));
    assert_eq!(first[0].counters.true_pos_w, p[0].counters.true_pos_w);
    let swapped: Vec<Record> = records.iter()
        .map(|r| rec("X", &[r.senses[1].as_str(), r.senses[0].as_str()], r.cluster.as_str()))
        .collect();
    let s = score(&swapped, 2);
    assert_eq!(counts(&first[0].counters), counts(&s[0].counters));
    assert_eq!(first[0].counters.false_neg_w, s[0].counters.false_neg_w);
}

#[test]
fn metric_formulas() {
    let mut c = PairCounters::new(2);
    c.true_pos = 3;
    c.false_pos = 1;
    c.true_neg = 2;
    c.false_neg = 2;
    let r = derive_metrics("h".to_string(), c, 3);
    assert_eq!(r.ri, Ratio { num: 5, den: 8 });
    assert_eq!(r.precision, Ratio { num: 3, den: 4 });
    assert_eq!(r.recall, Ratio { num: 3, den: 5 });
    assert_eq!(r.f1, Ratio { num: 6, den: 9 });
    assert_eq!(r.sri, Ratio { num: 8, den: 31 });
    assert_eq!(r.instances, 3);
}

#[test]
fn association_can_be_negative() {
    let mut c = PairCounters::new(2);
    c.false_pos = 2;
    c.false_neg = 3;
    c.true_pos = 1;
    let r = derive_metrics("h".to_string(), c, 2);
    // 2 (0 - 6) / ((0 + 3)(1 + 2) + (0 + 2)(1 + 3))
    assert_eq!(r.sri, Ratio { num: -12, den: 17 });
}

#[test]
fn no_true_positive_leaves_f1_undefined() {
    let mut c = PairCounters::new(2);
    c.false_pos = 2;
    c.true_neg = 1;
    let r = derive_metrics("h".to_string(), c, 2);
    assert_eq!(r.f1, Ratio { num: 0, den: 0 });
    assert_eq!(r.precision, Ratio { num: 0, den: 2 });
    assert_eq!(r.recall, Ratio { num: 0, den: 0 });
}

#[test]
fn self_pairs_are_true_positives() {
    let records = vec![rec("X", &["1", "2"], "A"), rec("X", &["3", "4"], "B"),
        rec("X", &["5", "6"], "C"), rec("X", &["7", "8"], "D")];
    let results = score(&records, 2);
    assert_eq!(counts(&results[0].counters), [4, 0, 12, 0, 0, 0]);
    let r = &results[0];
    // 2 (4 * 12 - 0) / (12 * 4 + 12 * 4)
    assert_eq!(r.sri, Ratio { num: 96, den: 96 });
    assert_eq!(r.ri, Ratio { num: 16, den: 16 });
}
