use vstd::prelude::*;

verus! {

/// One annotated instance: its head, one gold sense per annotator slot, and
/// the cluster a system assigned it to.
pub struct Record {
    pub head: String,
    pub senses: Vec<String>,
    pub cluster: String,
}

/// A sense value whose last character is `x` carries no usable annotation.
pub open spec fn is_unclear(s: Seq<char>) -> bool {
    s.len() > 0 && s.last() == 'x'
}

/// The sense value of record `r` at slot `k`.
pub open spec fn sense_at(r: Record, k: int) -> Seq<char> {
    r.senses@[k]@
}

/// Slot `k` is usable for the pair when neither side holds the unclear marker.
pub open spec fn slot_valid(a: Record, b: Record, k: int) -> bool {
    !is_unclear(sense_at(a, k)) && !is_unclear(sense_at(b, k))
}

/// Slot `k` is usable and both sides hold the same sense.
pub open spec fn slot_matches(a: Record, b: Record, k: int) -> bool {
    slot_valid(a, b, k) && sense_at(a, k) == sense_at(b, k)
}

/// Number of usable slots among the first `k`.
pub open spec fn valid_count(a: Record, b: Record, k: int) -> int
    decreases k,
{
    if k <= 0 {
        0
    } else {
        valid_count(a, b, k - 1) + if slot_valid(a, b, k - 1) { 1int } else { 0 }
    }
}

/// Number of matching slots among the first `k`.
pub open spec fn matched_count(a: Record, b: Record, k: int) -> int
    decreases k,
{
    if k <= 0 {
        0
    } else {
        matched_count(a, b, k - 1) + if slot_matches(a, b, k - 1) { 1int } else { 0 }
    }
}

/// Both records carry exactly `width` sense slots.
pub open spec fn same_width(a: Record, b: Record, width: int) -> bool {
    a.senses@.len() == width && b.senses@.len() == width
}

pub proof fn lemma_counts_bounded(a: Record, b: Record, k: int)
    requires
        k >= 0,
    ensures
        0 <= matched_count(a, b, k) <= valid_count(a, b, k) <= k,
    decreases k,
{
    if k > 0 {
        lemma_counts_bounded(a, b, k - 1);
    }
}

/// Tells whether a sense value is the unclear marker.
pub fn unclear(s: &String) -> (r: bool)
    ensures
        r == is_unclear(s@),
{
    let n = s.as_str().unicode_len();
    n > 0 && s.as_str().get_char(n - 1) == 'x'
}

/// Counts the usable and the matching sense slots of a pair of records.
pub fn slot_agreement(a: &Record, b: &Record, width: usize) -> (r: (usize, usize))
    requires
        same_width(*a, *b, width as int),
    ensures
        r.0 == valid_count(*a, *b, width as int),
        r.1 == matched_count(*a, *b, width as int),
{
    let mut valid: usize = 0;
    let mut matched: usize = 0;
    let mut k: usize = 0;
    while k < width
        invariant
            same_width(*a, *b, width as int),
            k <= width,
            valid == valid_count(*a, *b, k as int),
            matched == matched_count(*a, *b, k as int),
        decreases width - k,
    {
        proof {
            lemma_counts_bounded(*a, *b, k as int);
        }
        let sa = &a.senses[k];
        let sb = &b.senses[k];
        if !unclear(sa) && !unclear(sb) {
            valid = valid + 1;
            if *sa == *sb {
                matched = matched + 1;
            }
        }
        k = k + 1;
    }
    (valid, matched)
}

} // verus!
