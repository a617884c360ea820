use vstd::prelude::*;
use crate::record::Record;
use crate::grouping::{Group, group_by_head, indices_with_head, has_group};
use crate::pairs::{
    Key, PairClass, PairCounters, classify_group, group_amount, members_of, uniform_width,
    grid_decided, lemma_grid_decided,
};
use crate::metrics::{GroupResult, derive_metrics, metrics_match};

verus! {

/// The records whose head is `h`, in input order.
pub open spec fn group_records(records: Seq<Record>, h: Seq<char>) -> Seq<Record> {
    members_of(records, indices_with_head(records, h, records.len() as int))
}

/// Position of the first record with head `h`.
pub open spec fn first_index(records: Seq<Record>, h: Seq<char>) -> int {
    indices_with_head(records, h, records.len() as int)[0] as int
}

/// Some result has head `h`.
pub open spec fn has_result(results: Seq<GroupResult>, h: Seq<char>) -> bool {
    exists|k: int| 0 <= k < results.len() && (#[trigger] results[k]).head@ == h
}

proof fn lemma_indices_props(records: Seq<Record>, h: Seq<char>, t: int)
    requires
        0 <= t <= records.len(),
        records.len() <= usize::MAX,
    ensures
        indices_with_head(records, h, t).len() <= t,
        forall|e: int| #![trigger indices_with_head(records, h, t)[e]]
            0 <= e < indices_with_head(records, h, t).len() ==> indices_with_head(records, h, t)[e]
                < t && records[indices_with_head(records, h, t)[e] as int].head@ == h,
    decreases t,
{
    if t > 0 {
        lemma_indices_props(records, h, t - 1);
        let s = indices_with_head(records, h, t - 1);
        if records[t - 1].head@ == h {
            assert forall|e: int| 0 <= e < s.len() + 1 implies #[trigger] s.push((t - 1) as usize)[e]
                == if e < s.len() { s[e] } else { (t - 1) as usize } by {}
        }
    }
}

/// Scores every head of the input: groups the records by head, classifies
/// all ordered pairs of each group and derives the group's metrics. Results
/// come in the order in which heads first occur.
pub fn score(records: &Vec<Record>, width: usize) -> (results: Vec<GroupResult>)
    requires
        width < usize::MAX,
        records@.len() <= u32::MAX,
        uniform_width(records@, width as int),
    ensures
        forall|i: int| 0 <= i < records@.len() ==> has_result(results@, (#[trigger] records@[i]).head@),
        forall|k1: int, k2: int|
            0 <= k1 < k2 < results@.len() ==> first_index(records@, (#[trigger] results@[k1]).head@)
                < first_index(records@, (#[trigger] results@[k2]).head@),
        forall|k: int| #![trigger results@[k]] 0 <= k < results@.len() ==> {
            let r = results@[k];
            let g = group_records(records@, r.head@);
            &&& g.len() > 0
            &&& r.instances == g.len()
            &&& r.counters.wf(width as int)
            &&& forall|key: Key| #[trigger] r.counters.amount(key) == group_amount(g, width as int, key)
            &&& metrics_match(r)
        },
{
    let groups = group_by_head(records);
    let mut results: Vec<GroupResult> = Vec::new();
    let mut k: usize = 0;
    while k < groups.len()
        invariant
            width < usize::MAX,
            records@.len() <= u32::MAX,
            uniform_width(records@, width as int),
            0 <= k <= groups@.len(),
            results@.len() == k,
            forall|k: int| #![trigger groups@[k]] 0 <= k < groups@.len() ==> groups@[k].members@
                == indices_with_head(records@, groups@[k].head@, records@.len() as int),
            forall|k: int| #![trigger groups@[k]] 0 <= k < groups@.len() ==> groups@[k].members@.len() > 0,
            forall|k1: int, k2: int|
                0 <= k1 < k2 < groups@.len() ==> (#[trigger] groups@[k1]).members@[0] < (
                #[trigger] groups@[k2]).members@[0],
            forall|i: int| 0 <= i < records@.len() ==> has_group(groups@, (#[trigger] records@[i]).head@),
            forall|t: int| #![trigger results@[t]] 0 <= t < k ==> {
                let r = results@[t];
                let g = group_records(records@, r.head@);
                &&& r.head@ == groups@[t].head@
                &&& g.len() > 0
                &&& r.instances == g.len()
                &&& r.counters.wf(width as int)
                &&& forall|key: Key| #[trigger] r.counters.amount(key) == group_amount(g, width as int, key)
                &&& metrics_match(r)
            },
        decreases groups@.len() - k,
    {
        let group: &Group = &groups[k];
        let ghost h = group.head@;
        let ghost g = members_of(records@, group.members@);
        proof {
            lemma_indices_props(records@, h, records@.len() as int);
            assert forall|t: int| 0 <= t < g.len() implies (#[trigger] g[t]).senses@.len() == width by {
                let e = group.members@[t];
                assert(indices_with_head(records@, h, records@.len() as int)[t] == e);
            }
            assert forall|t: int| 0 <= t < group.members@.len() implies (#[trigger] group.members@[t])
                < records@.len() by {
                assert(indices_with_head(records@, h, records@.len() as int)[t] == group.members@[t]);
            }
        }
        let counters = classify_group(records, &group.members, width);
        proof {
            lemma_grid_decided(g, width as int, g.len() as int);
            let n = g.len() as int;
            assert(n * n <= 0xffff_fffe_0000_0001) by (nonlinear_arith)
                requires
                    0 <= n <= 0xffff_ffff,
            ;
            assert(counters.amount(Key::Count(PairClass::TruePos)) == group_amount(g, width as int, Key::Count(PairClass::TruePos)));
            assert(counters.amount(Key::Count(PairClass::FalsePos)) == group_amount(g, width as int, Key::Count(PairClass::FalsePos)));
            assert(counters.amount(Key::Count(PairClass::TrueNeg)) == group_amount(g, width as int, Key::Count(PairClass::TrueNeg)));
            assert(counters.amount(Key::Count(PairClass::FalseNeg)) == group_amount(g, width as int, Key::Count(PairClass::FalseNeg)));
        }
        let r = derive_metrics(group.head.clone(), counters, group.members.len() as u64);
        results.push(r);
        k = k + 1;
    }
    assert forall|i: int| 0 <= i < records@.len() implies has_result(results@, (#[trigger] records@[i]).head@) by {
        assert(has_group(groups@, records@[i].head@));
        let kk = choose|kk: int| 0 <= kk < groups@.len() && (#[trigger] groups@[kk]).head@ == records@[i].head@;
        assert(results@[kk].head@ == records@[i].head@);
    }
    assert forall|k1: int, k2: int|
        0 <= k1 < k2 < results@.len() implies first_index(records@, (#[trigger] results@[k1]).head@)
            < first_index(records@, (#[trigger] results@[k2]).head@) by {
        assert(groups@[k1].members@[0] < groups@[k2].members@[0]);
    }
    results
}

} // verus!
