use vstd::prelude::*;
use crate::record::Record;

verus! {

/// The records of one head, by their positions in the input.
pub struct Group {
    pub head: String,
    pub members: Vec<usize>,
}

/// Positions below `t` of the records whose head is `h`, ascending.
pub open spec fn indices_with_head(records: Seq<Record>, h: Seq<char>, t: int) -> Seq<usize>
    decreases t,
{
    if t <= 0 {
        seq![]
    } else if records[t - 1].head@ == h {
        indices_with_head(records, h, t - 1).push((t - 1) as usize)
    } else {
        indices_with_head(records, h, t - 1)
    }
}

proof fn lemma_indices_none(records: Seq<Record>, h: Seq<char>, t: int)
    requires
        t <= records.len(),
        forall|u: int| 0 <= u < t ==> records[u].head@ != h,
    ensures
        indices_with_head(records, h, t).len() == 0,
    decreases t,
{
    if t > 0 {
        lemma_indices_none(records, h, t - 1);
    }
}

proof fn lemma_indices_first(records: Seq<Record>, h: Seq<char>, f: int, t: int)
    requires
        0 <= f < t <= records.len(),
        records.len() <= usize::MAX,
        records[f].head@ == h,
        forall|u: int| 0 <= u < f ==> records[u].head@ != h,
    ensures
        indices_with_head(records, h, t).len() > 0,
        indices_with_head(records, h, t)[0] == f,
    decreases t,
{
    if t == f + 1 {
        lemma_indices_none(records, h, f);
        assert(indices_with_head(records, h, t) == indices_with_head(records, h, f).push(f as usize));
    } else {
        lemma_indices_first(records, h, f, t - 1);
        let s = indices_with_head(records, h, t - 1);
        assert(s.push((t - 1) as usize)[0] == s[0]);
    }
}

/// Some group has head `h`.
pub open spec fn has_group(groups: Seq<Group>, h: Seq<char>) -> bool {
    exists|k: int| 0 <= k < groups.len() && (#[trigger] groups[k]).head@ == h
}

spec fn listed(heads: Seq<String>, h: Seq<char>) -> bool {
    exists|k: int| 0 <= k < heads.len() && (#[trigger] heads[k])@ == h
}

/// Partitions the records by head. Groups come in the order in which their
/// heads first occur; each lists the positions of its records in input order.
pub fn group_by_head(records: &Vec<Record>) -> (groups: Vec<Group>)
    ensures
        forall|k: int| #![trigger groups@[k]] 0 <= k < groups@.len() ==> groups@[k].members@
            == indices_with_head(records@, groups@[k].head@, records@.len() as int),
        forall|k: int| #![trigger groups@[k]] 0 <= k < groups@.len() ==> groups@[k].members@.len() > 0,
        forall|k1: int, k2: int|
            0 <= k1 < k2 < groups@.len() ==> (#[trigger] groups@[k1]).members@[0] < (
            #[trigger] groups@[k2]).members@[0],
        forall|i: int| 0 <= i < records@.len() ==> has_group(groups@, (#[trigger] records@[i]).head@),
{
    let n = records.len();
    let mut heads: Vec<String> = Vec::new();
    let mut firsts: Vec<usize> = Vec::new();
    let mut i: usize = 0;
    while i < n
        invariant
            n == records@.len(),
            0 <= i <= n,
            heads@.len() == firsts@.len(),
            forall|k: int| #![trigger firsts@[k]] 0 <= k < firsts@.len() ==> firsts@[k] < i
                && records@[firsts@[k] as int].head@ == heads@[k]@,
            forall|k: int, u: int|
                0 <= k < firsts@.len() && 0 <= u < firsts@[k] ==> (#[trigger] records@[u]).head@
                    != (#[trigger] heads@[k])@,
            forall|k1: int, k2: int|
                0 <= k1 < k2 < firsts@.len() ==> (#[trigger] firsts@[k1]) < (#[trigger] firsts@[k2]),
            forall|u: int| 0 <= u < i ==> listed(heads@, (#[trigger] records@[u]).head@),
        decreases n - i,
    {
        let h = &records[i].head;
        let ghost old_heads = heads@;
        let mut k: usize = 0;
        let mut found = false;
        while k < heads.len() && !found
            invariant
                0 <= k <= heads@.len(),
                forall|k2: int| 0 <= k2 < k ==> (#[trigger] heads@[k2])@ != h@,
                found ==> k < heads@.len() && heads@[k as int]@ == h@,
            decreases heads@.len() - k + if found { 0int } else { 1 },
        {
            if heads[k] == *h {
                found = true;
            } else {
                k = k + 1;
            }
        }
        if !found {
            proof {
                assert forall|u: int| 0 <= u < i implies (#[trigger] records@[u]).head@ != h@ by {
                    let kk = choose|kk: int|
                        0 <= kk < heads@.len() && (#[trigger] heads@[kk])@ == records@[u].head@;
                    assert(heads@[kk]@ != h@);
                }
            }
            heads.push(h.clone());
            firsts.push(i);
            assert(heads@[heads@.len() - 1]@ == records@[i as int].head@);
        }
        assert forall|u: int| 0 <= u < i + 1 implies listed(heads@, (#[trigger] records@[u]).head@) by {
            if u < i {
                assert(listed(old_heads, records@[u].head@));
                let kk = choose|kk: int|
                    0 <= kk < old_heads.len() && (#[trigger] old_heads[kk])@ == records@[u].head@;
                assert(heads@[kk] == old_heads[kk]);
            } else {
                if found {
                    assert(heads@[k as int]@ == records@[u].head@);
                } else {
                    assert(heads@[heads@.len() - 1]@ == records@[u].head@);
                }
            }
        }
        i = i + 1;
    }
    let mut groups: Vec<Group> = Vec::new();
    let mut k: usize = 0;
    while k < heads.len()
        invariant
            n == records@.len(),
            heads@.len() == firsts@.len(),
            0 <= k <= heads@.len(),
            groups@.len() == k,
            forall|k: int| #![trigger firsts@[k]] 0 <= k < firsts@.len() ==> firsts@[k] < n
                && records@[firsts@[k] as int].head@ == heads@[k]@,
            forall|k: int, u: int|
                0 <= k < firsts@.len() && 0 <= u < firsts@[k] ==> (#[trigger] records@[u]).head@
                    != (#[trigger] heads@[k])@,
            forall|k1: int, k2: int|
                0 <= k1 < k2 < firsts@.len() ==> (#[trigger] firsts@[k1]) < (#[trigger] firsts@[k2]),
            forall|u: int| 0 <= u < n ==> listed(heads@, (#[trigger] records@[u]).head@),
            forall|t: int| #![trigger groups@[t]] 0 <= t < k ==> groups@[t].head@ == heads@[t]@
                && groups@[t].members@ == indices_with_head(records@, heads@[t]@, n as int)
                && groups@[t].members@.len() > 0 && groups@[t].members@[0] == firsts@[t],
        decreases heads@.len() - k,
    {
        let h = &heads[k];
        let mut members: Vec<usize> = Vec::new();
        let mut t: usize = 0;
        while t < n
            invariant
                n == records@.len(),
                0 <= t <= n,
                members@ == indices_with_head(records@, h@, t as int),
            decreases n - t,
        {
            if records[t].head == *h {
                members.push(t);
            }
            t = t + 1;
        }
        proof {
            lemma_indices_first(records@, h@, firsts@[k as int] as int, n as int);
        }
        groups.push(Group { head: h.clone(), members });
        k = k + 1;
    }
    assert forall|i: int| 0 <= i < records@.len() implies has_group(groups@, (#[trigger] records@[i]).head@) by {
        assert(listed(heads@, records@[i].head@));
        let kk = choose|kk: int|
            0 <= kk < heads@.len() && (#[trigger] heads@[kk])@ == records@[i].head@;
        assert(groups@[kk].head@ == records@[i].head@);
    }
    groups
}

} // verus!
