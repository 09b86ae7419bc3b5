//! Arithmetic shared by the metric collectors: how an HTTP status is
//! classified, ordering of latency samples and percentiles over them, and
//! the sliding windows that bound how many samples are kept.
use vstd::prelude::*;
use vstd::relations::{sorted_by, total_ordering};

verus! {

/// How a response status is counted.
#[derive(Debug, Clone, Copy, PartialEq, Eq, Structural)]
pub enum StatusClass {
    /// 2xx.
    Success,
    /// 4xx.
    ClientError,
    /// 5xx.
    ServerError,
    /// Informational, redirects and anything else.
    Other,
}

pub open spec fn status_class(code: u16) -> StatusClass {
    if 200 <= code <= 299 {
        StatusClass::Success
    } else if 400 <= code <= 499 {
        StatusClass::ClientError
    } else if 500 <= code <= 599 {
        StatusClass::ServerError
    } else {
        StatusClass::Other
    }
}

/// The class of a response status.
pub fn classify_status(code: u16) -> (r: StatusClass)
    ensures
        r == status_class(code),
{
    if 200 <= code && code <= 299 {
        StatusClass::Success
    } else if 400 <= code && code <= 499 {
        StatusClass::ClientError
    } else if 500 <= code && code <= 599 {
        StatusClass::ServerError
    } else {
        StatusClass::Other
    }
}

pub open spec fn u64_le() -> spec_fn(u64, u64) -> bool {
    |a: u64, b: u64| a <= b
}

/// `s` is in ascending order.
pub open spec fn sorted_ascending(s: Seq<u64>) -> bool {
    sorted_by(s, u64_le())
}

/// The samples of `s` in ascending order.
pub open spec fn ascending(s: Seq<u64>) -> Seq<u64> {
    choose|t: Seq<u64>| sorted_ascending(t) && t.to_multiset() == s.to_multiset()
}

proof fn lemma_u64_le_total()
    ensures
        total_ordering(u64_le()),
{
}

/// A sorted rearrangement of `s` is the one `ascending(s)` names.
pub proof fn lemma_ascending_unique(s: Seq<u64>, t: Seq<u64>)
    requires
        sorted_ascending(t),
        t.to_multiset() == s.to_multiset(),
    ensures
        ascending(s) == t,
{
    lemma_u64_le_total();
    let c = ascending(s);
    assert(sorted_ascending(c) && c.to_multiset() == s.to_multiset());
    vstd::seq_lib::lemma_sorted_unique(c, t, u64_le());
}

/// The samples in ascending order.
pub fn sort_ascending(v: &Vec<u64>) -> (r: Vec<u64>)
    ensures
        sorted_ascending(r@),
        r@.to_multiset() == v@.to_multiset(),
        r@ == ascending(v@),
{
    broadcast use vstd::seq_lib::group_to_multiset_ensures;

    let mut r: Vec<u64> = Vec::new();
    let mut i: usize = 0;
    while i < v.len()
        invariant
            i <= v.len(),
            sorted_ascending(r@),
            r@.to_multiset() == v@.subrange(0, i as int).to_multiset(),
        decreases v.len() - i,
    {
        let x = v[i];
        let mut p: usize = 0;
        while p < r.len() && r[p] <= x
            invariant
                p <= r.len(),
                forall|k: int| 0 <= k < p ==> r@[k] <= x,
            decreases r.len() - p,
        {
            p = p + 1;
        }
        let ghost before = r@;
        r.insert(p, x);
        proof {
            assert(r@ == before.insert(p as int, x));
            assert forall|a: int, b: int| 0 <= a < b < r@.len() implies #[trigger] u64_le()(
                r@[a],
                r@[b],
            ) by {
                if b < p {
                    assert(u64_le()(before[a], before[b]));
                } else if b == p {
                    assert(before[a] <= x);
                } else if a < p {
                    assert(before[a] <= x);
                    if p < before.len() {
                        assert(x < before[p as int]);
                        assert(u64_le()(before[p as int], before[b - 1]));
                    }
                } else if a == p {
                    if p < before.len() {
                        assert(x < before[p as int]);
                        if b - 1 > p {
                            assert(u64_le()(before[p as int], before[b - 1]));
                        }
                    }
                } else {
                    assert(u64_le()(before[a - 1], before[b - 1]));
                }
            }
            assert(v@.subrange(0, i + 1) =~= v@.subrange(0, i as int).push(x));
            vstd::seq_lib::to_multiset_insert(before, p as int, x);
            vstd::seq_lib::to_multiset_build(v@.subrange(0, i as int), x);
        }
        i = i + 1;
    }
    proof {
        assert(v@.subrange(0, v@.len() as int) =~= v@);
        lemma_ascending_unique(v@, r@);
    }
    r
}

/// The position that the `percent`-th percentile takes among `len` sorted
/// samples, by nearest rank: the sample whose rank is `percent` hundredths
/// of `len`, rounded up (the first for 0, the last past 100).
pub open spec fn percentile_index(len: nat, percent: nat) -> int {
    let rank = (percent * len + 99) / 100;
    if rank == 0 {
        0
    } else if rank - 1 < len - 1 {
        rank - 1
    } else {
        len - 1
    }
}

/// The percentile of samples given in ascending order: the sample at
/// `percentile_index`, or 0 when there are none.
pub open spec fn percentile_of_sorted(s: Seq<u64>, percent: nat) -> u64 {
    if s.len() == 0 {
        0
    } else {
        s[percentile_index(s.len(), percent)]
    }
}

/// The `percent`-th percentile of samples given in ascending order.
pub fn calculate_percentile(sorted_data: &[u64], percent: u64) -> (r: u64)
    ensures
        r == percentile_of_sorted(sorted_data@, percent as nat),
{
    let n = sorted_data.len();
    if n == 0 {
        return 0;
    }
    proof {
        let a = percent as u128;
        let b = n as u128;
        assert(a * b <= 0xffff_ffff_ffff_ffffu128 * 0xffff_ffff_ffff_ffffu128) by (nonlinear_arith)
            requires
                a <= 0xffff_ffff_ffff_ffffu128,
                b <= 0xffff_ffff_ffff_ffffu128,
        ;
    }
    let scaled: u128 = (percent as u128) * (n as u128);
    proof {
        assert(scaled == percent * n) by (nonlinear_arith)
            requires
                scaled == (percent as u128) * (n as u128),
        ;
    }
    let rank: u128 = (scaled + 99) / 100;
    if rank == 0 {
        sorted_data[0]
    } else if rank - 1 < (n - 1) as u128 {
        sorted_data[(rank - 1) as usize]
    } else {
        sorted_data[n - 1]
    }
}

/// The samples after the `n` oldest were dropped.
pub fn drop_oldest(v: &mut Vec<u64>, n: usize)
    requires
        n <= old(v).len(),
    ensures
        final(v)@ == old(v)@.subrange(n as int, old(v)@.len() as int),
{
    let mut kept: Vec<u64> = Vec::new();
    let mut i: usize = n;
    while i < v.len()
        invariant
            n <= i <= v.len(),
            kept@ == v@.subrange(n as int, i as int),
        decreases v.len() - i,
    {
        kept.push(v[i]);
        proof {
            assert(v@.subrange(n as int, i + 1) =~= v@.subrange(n as int, i as int).push(v@[i as int]));
        }
        i = i + 1;
    }
    *v = kept;
}

/// The position of `key` among the keyed entries, if it is there.
pub fn find_key<T>(entries: &Vec<(String, T)>, key: &str) -> (r: Option<usize>)
    ensures
        r matches Some(i) ==> i < entries@.len() && entries@[i as int].0@ == key@,
        r is None ==> forall|i: int| 0 <= i < entries@.len() ==> entries@[i].0@ != key@,
{
    let mut i: usize = 0;
    while i < entries.len()
        invariant
            i <= entries.len(),
            forall|j: int| 0 <= j < i ==> entries@[j].0@ != key@,
        decreases entries.len() - i,
    {
        if crate::text::str_eq(entries[i].0.as_str(), key) {
            return Some(i);
        }
        i = i + 1;
    }
    None
}


/// Over samples in ascending order, a higher percentile is never a smaller
/// value.
pub proof fn lemma_percentile_monotone(s: Seq<u64>, p: nat, q: nat)
    requires
        sorted_ascending(s),
        p <= q,
    ensures
        percentile_of_sorted(s, p) <= percentile_of_sorted(s, q),
{
    if s.len() > 0 {
        let n = s.len();
        assert(p * n <= q * n) by (nonlinear_arith)
            requires
                p <= q,
        ;
        assert((p * n + 99) / 100 <= (q * n + 99) / 100) by (nonlinear_arith)
            requires
                p * n <= q * n,
        ;
        let i = percentile_index(s.len(), p);
        let j = percentile_index(s.len(), q);
        assert(0 <= i <= j < s.len());
        if i < j {
            assert(u64_le()(s[i], s[j]));
        }
    }
}

/// Every key occurs once among keyed entries.
pub open spec fn keys_unique<T>(s: Seq<(Seq<char>, T)>) -> bool {
    forall|i: int, j: int| 0 <= i < j < s.len() ==> s[i].0 != s[j].0
}

/// Keyed entries after the entry under `key` went through `f`: an entry
/// already kept is replaced in place, else `f` of `fresh` is added last.
pub open spec fn update_keyed<T>(
    s: Seq<(Seq<char>, T)>,
    key: Seq<char>,
    f: spec_fn(T) -> T,
    fresh: T,
) -> Seq<(Seq<char>, T)> {
    if exists|i: int| 0 <= i < s.len() && s[i].0 == key {
        let i = choose|i: int| 0 <= i < s.len() && s[i].0 == key;
        s.update(i, (key, f(s[i].1)))
    } else {
        s.push((key, f(fresh)))
    }
}

/// The sum of the samples.
pub open spec fn sample_sum(s: Seq<u64>) -> nat
    decreases s.len(),
{
    if s.len() == 0 {
        0
    } else {
        sample_sum(s.drop_last()) + s.last() as nat
    }
}

proof fn lemma_sample_sum_bound(s: Seq<u64>)
    ensures
        sample_sum(s) <= s.len() * 0xffff_ffff_ffff_ffff,
    decreases s.len(),
{
    if s.len() > 0 {
        lemma_sample_sum_bound(s.drop_last());
    }
}

/// The exact sum of the samples.
pub fn sum_samples(v: &Vec<u64>) -> (r: u128)
    ensures
        r == sample_sum(v@),
{
    let mut total: u128 = 0;
    let mut i: usize = 0;
    while i < v.len()
        invariant
            i <= v.len(),
            total == sample_sum(v@.subrange(0, i as int)),
        decreases v.len() - i,
    {
        proof {
            assert(v@.subrange(0, i + 1).drop_last() =~= v@.subrange(0, i as int));
            lemma_sample_sum_bound(v@.subrange(0, i + 1));
            assert((i + 1) * 0xffff_ffff_ffff_ffffu128 <= 0x1_0000_0000_0000_0000u128
                * 0xffff_ffff_ffff_ffffu128) by (nonlinear_arith)
                requires
                    i + 1 <= 0x1_0000_0000_0000_0000u128,
            ;
        }
        total = total + v[i] as u128;
        i = i + 1;
    }
    proof {
        assert(v@.subrange(0, v@.len() as int) =~= v@);
    }
    total
}

/// A count that stops at the largest `u64`.
pub open spec fn cap_u64(n: nat) -> u64 {
    if n > u64::MAX {
        u64::MAX
    } else {
        n as u64
    }
}

/// Pairs are ordered by their counts, largest first.
pub open spec fn counts_descending<K>(s: Seq<(K, u64)>) -> bool {
    forall|i: int, j: int| 0 <= i < j < s.len() ==> s[i].1 >= s[j].1
}

/// The pairs ordered by count, largest first; pairs with equal counts keep
/// their order.
pub fn rank_by_count<K: Copy>(v: &Vec<(K, u64)>) -> (r: Vec<(K, u64)>)
    ensures
        counts_descending(r@),
        r@.to_multiset() == v@.to_multiset(),
{
    broadcast use vstd::seq_lib::group_to_multiset_ensures;

    let mut r: Vec<(K, u64)> = Vec::new();
    let mut i: usize = 0;
    while i < v.len()
        invariant
            i <= v.len(),
            counts_descending(r@),
            r@.to_multiset() == v@.subrange(0, i as int).to_multiset(),
        decreases v.len() - i,
    {
        let x = v[i];
        let mut p: usize = 0;
        while p < r.len() && r[p].1 >= x.1
            invariant
                p <= r.len(),
                forall|k: int| 0 <= k < p ==> r@[k].1 >= x.1,
            decreases r.len() - p,
        {
            p = p + 1;
        }
        let ghost before = r@;
        r.insert(p, x);
        proof {
            assert(r@ == before.insert(p as int, x));
            assert forall|a: int, b: int| 0 <= a < b < r@.len() implies r@[a].1 >= r@[b].1 by {
                if b < p {
                } else if b == p {
                    assert(before[a].1 >= x.1);
                } else if a < p {
                    if p < before.len() {
                        assert(x.1 > before[p as int].1);
                    }
                } else if a == p {
                    if p < before.len() {
                        assert(x.1 > before[p as int].1);
                    }
                } else {
                    assert(before[a - 1].1 >= before[b - 1].1);
                }
            }
            assert(v@.subrange(0, i + 1) =~= v@.subrange(0, i as int).push(x));
            vstd::seq_lib::to_multiset_insert(before, p as int, x);
            vstd::seq_lib::to_multiset_build(v@.subrange(0, i as int), x);
        }
        i = i + 1;
    }
    proof {
        assert(v@.subrange(0, v@.len() as int) =~= v@);
    }
    r
}
} // verus!
