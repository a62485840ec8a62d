use vstd::prelude::*;

use crate::stats::{millis_of, timestamp_millis, Stats};
use crate::text::str_eq;

verus! {

/// `v` is in ascending order.
pub open spec fn sorted(v: Seq<u32>) -> bool {
    forall|i: int, j: int| 0 <= i <= j < v.len() ==> v[i] <= v[j]
}

/// Relies on `rayon::slice::ParallelSliceMut::par_sort_unstable`: sorts the
/// values in ascending order, keeping the same values.
#[verifier::external_body]
fn sort_latencies(v: &mut Vec<u32>)
    ensures
        sorted(final(v)@),
        final(v)@.to_multiset() == old(v)@.to_multiset(),
{
    rayon::slice::ParallelSliceMut::par_sort_unstable(v.as_mut_slice());
}

/// The latencies of `stats`, in ascending order.
pub fn get_sorted_latencies(stats: &Vec<Stats>) -> (r: Vec<u32>)
    ensures
        sorted(r@),
        r@.to_multiset() == stats@.map_values(|s: Stats| s.latency).to_multiset(),
{
    let mut v: Vec<u32> = Vec::new();
    let mut i: usize = 0;
    while i < stats.len()
        invariant
            i <= stats@.len(),
            v@ == stats@.subrange(0, i as int).map_values(|s: Stats| s.latency),
        decreases stats@.len() - i,
    {
        v.push(stats[i].latency);
        i += 1;
        assert(v@ =~= stats@.subrange(0, i as int).map_values(|s: Stats| s.latency));
    }
    assert(stats@.subrange(0, stats@.len() as int) =~= stats@);
    sort_latencies(&mut v);
    v
}

/// The index a percentile reads in a sorted list of `len` values.
pub open spec fn percentile_index(p: int, len: int) -> int {
    if p * len / 100 == 0 {
        0
    } else {
        p * len / 100 - 1
    }
}

/// The `p`-th percentile of a sorted list: the value at position
/// `p * len / 100` counting from one (the first value when that is zero),
/// or 0 for an empty list.
pub fn get_percentile(sorted_vector: &Vec<u32>, p: usize) -> (r: u32)
    requires
        p <= 100,
    ensures
        sorted_vector@.len() == 0 ==> r == 0,
        sorted_vector@.len() > 0 ==> r == sorted_vector@[percentile_index(p as int, sorted_vector@.len() as int)],
{
    let len = sorted_vector.len();
    if len == 0 {
        return 0;
    }
    assert(p * len <= 100 * len) by (nonlinear_arith)
        requires
            p <= 100,
    ;
    let prod: u128 = (p as u128) * (len as u128);
    let idx: u128 = prod / 100;
    assert(idx <= len) by (nonlinear_arith)
        requires
            idx == p * len / 100,
            p <= 100,
    ;
    if idx == 0 {
        sorted_vector[0]
    } else {
        sorted_vector[(idx - 1) as usize]
    }
}

/// The 90th, 95th and 99th percentiles of a sorted list.
pub fn get_all_percentiles(times: &Vec<u32>) -> (r: (u32, u32, u32))
    ensures
        times@.len() == 0 ==> r == (0u32, 0u32, 0u32),
        times@.len() > 0 ==> r == (
            times@[percentile_index(90, times@.len() as int)],
            times@[percentile_index(95, times@.len() as int)],
            times@[percentile_index(99, times@.len() as int)],
        ),
{
    (get_percentile(times, 90), get_percentile(times, 95), get_percentile(times, 99))
}

/// The number of failed requests (status 400 or more) in `s`.
pub open spec fn error_count(s: Seq<Stats>) -> nat
    decreases s.len(),
{
    if s.len() == 0 {
        0
    } else {
        error_count(s.drop_last()) + if s.last().status >= 400 { 1nat } else { 0nat }
    }
}

/// Counts the failed requests.
pub fn get_error_count(stats: &Vec<Stats>) -> (n: usize)
    ensures
        n as nat == error_count(stats@),
{
    let mut n: usize = 0;
    let mut i: usize = 0;
    while i < stats.len()
        invariant
            i <= stats@.len(),
            n <= i,
            n as nat == error_count(stats@.subrange(0, i as int)),
        decreases stats@.len() - i,
    {
        let ghost p = stats@.subrange(0, i + 1);
        assert(p.drop_last() =~= stats@.subrange(0, i as int));
        if stats[i].status >= 400 {
            n += 1;
        }
        i += 1;
    }
    assert(stats@.subrange(0, stats@.len() as int) =~= stats@);
    n
}

/// The stats of `s` for the request named `name`, in order.
pub open spec fn named(s: Seq<Stats>, name: Seq<char>) -> Seq<Stats>
    decreases s.len(),
{
    if s.len() == 0 {
        Seq::empty()
    } else if s.last().name@ == name {
        named(s.drop_last(), name).push(s.last())
    } else {
        named(s.drop_last(), name)
    }
}

/// The stats of the request named `name`, in order.
pub fn filter_stats_by_name(stats: &Vec<Stats>, name: &str) -> (r: Vec<Stats>)
    ensures
        r@.len() == named(stats@, name@).len(),
        forall|i: int| 0 <= i < r@.len() ==> crate::stats::same_stat(#[trigger] r@[i], named(stats@, name@)[i]),
{
    let mut r: Vec<Stats> = Vec::new();
    let mut i: usize = 0;
    while i < stats.len()
        invariant
            i <= stats@.len(),
            r@.len() == named(stats@.subrange(0, i as int), name@).len(),
            forall|j: int| 0 <= j < r@.len() ==> crate::stats::same_stat(#[trigger] r@[j], named(stats@.subrange(0, i as int), name@)[j]),
        decreases stats@.len() - i,
    {
        let ghost p = stats@.subrange(0, i + 1);
        assert(p.drop_last() =~= stats@.subrange(0, i as int));
        if str_eq(stats[i].name.as_str(), name) {
            r.push(stats[i].duplicate());
        }
        i += 1;
    }
    assert(stats@.subrange(0, stats@.len() as int) =~= stats@);
    r
}

/// The names `names` are those of `s`, each once.
pub open spec fn names_of(names: Seq<String>, s: Seq<Stats>) -> bool {
    &&& forall|i: int, j: int| 0 <= i < names.len() && 0 <= j < names.len() && i != j ==> #[trigger] names[i]@ != #[trigger] names[j]@
    &&& forall|i: int| 0 <= i < names.len() ==> exists|k: int| 0 <= k < s.len() && #[trigger] s[k].name@ == (#[trigger] names[i])@
    &&& forall|k: int| 0 <= k < s.len() ==> exists|i: int| 0 <= i < names.len() && #[trigger] names[i]@ == (#[trigger] s[k]).name@
}

/// The distinct request names of `stats`, in order of first appearance.
#[verifier::spinoff_prover]
pub fn get_request_name_set(stats: &Vec<Stats>) -> (r: Vec<String>)
    ensures
        names_of(r@, stats@),
{
    let mut names: Vec<String> = Vec::new();
    let mut k: usize = 0;
    while k < stats.len()
        invariant
            k <= stats@.len(),
            names_of(names@, stats@.subrange(0, k as int)),
        decreases stats@.len() - k,
    {
        let ghost sub = stats@.subrange(0, k + 1);
        let mut found = false;
        let mut i: usize = 0;
        while i < names.len()
            invariant
                k < stats@.len(),
                i <= names@.len(),
                found ==> exists|j: int| 0 <= j < names@.len() && #[trigger] names@[j]@ == stats@[k as int].name@,
                !found ==> forall|j: int| 0 <= j < i ==> #[trigger] names@[j]@ != stats@[k as int].name@,
            decreases names@.len() - i,
        {
            if str_eq(names[i].as_str(), stats[k].name.as_str()) {
                found = true;
            }
            i += 1;
        }
        let ghost before = names@;
        if !found {
            names.push(stats[k].name.clone());
        }
        proof {
            let s0 = stats@.subrange(0, k as int);
            assert forall|a: int, b: int| 0 <= a < names@.len() && 0 <= b < names@.len() && a != b implies #[trigger] names@[a]@ != #[trigger] names@[b]@ by {
                if !found {
                    if a == before.len() {
                        assert(names@[b] == before[b]);
                    } else if b == before.len() {
                        assert(names@[a] == before[a]);
                    } else {
                        assert(names@[a] == before[a]);
                        assert(names@[b] == before[b]);
                    }
                }
            }
            assert forall|a: int| 0 <= a < names@.len() implies exists|m: int| 0 <= m < sub.len() && #[trigger] sub[m].name@ == (#[trigger] names@[a])@ by {
                if a < before.len() {
                    assert(names@[a] == before[a]);
                    let m = choose|m: int| 0 <= m < s0.len() && #[trigger] s0[m].name@ == (#[trigger] before[a])@;
                    assert(sub[m] == s0[m]);
                    assert(sub[m].name@ == names@[a]@);
                } else {
                    assert(sub[k as int] == stats@[k as int]);
                    assert(sub[k as int].name@ == names@[a]@);
                }
            }
            assert forall|m: int| 0 <= m < sub.len() implies exists|a: int| 0 <= a < names@.len() && #[trigger] names@[a]@ == (#[trigger] sub[m]).name@ by {
                if m < k {
                    assert(sub[m] == s0[m]);
                    let a = choose|a: int| 0 <= a < before.len() && #[trigger] before[a]@ == (#[trigger] s0[m]).name@;
                    assert(names@[a] == before[a]);
                } else {
                    assert(sub[m] == stats@[k as int]);
                    if !found {
                        assert(names@[before.len() as int]@ == stats@[k as int].name@);
                    } else {
                        let a = choose|a: int| 0 <= a < before.len() && #[trigger] before[a]@ == stats@[k as int].name@;
                        assert(names@[a] == before[a]);
                    }
                }
            }
            assert(names_of(names@, sub));
        }
        k += 1;
    }
    assert(stats@.subrange(0, stats@.len() as int) =~= stats@);
    names
}

/// Whole seconds in `ms` milliseconds, rounded toward zero.
pub open spec fn whole_seconds(ms: int) -> int {
    if ms >= 0 {
        ms / 1000
    } else {
        -((-ms) / 1000)
    }
}

/// The length of a run in whole seconds: from the start of the first
/// request (its timestamp less its latency) to the timestamp of the last.
/// Zero without stats or when a timestamp cannot be read.
pub open spec fn execution_seconds(stats: Seq<Stats>) -> int {
    if stats.len() == 0 {
        0
    } else {
        match (millis_of(stats[0].timestamp@), millis_of(stats.last().timestamp@)) {
            (Some(first), Some(last)) => whole_seconds(last - (first - stats[0].latency)),
            _ => 0,
        }
    }
}

/// Computes `execution_seconds`.
pub fn get_execution_time(stats: &Vec<Stats>) -> (r: i64)
    ensures
        r as int == execution_seconds(stats@),
{
    if stats.len() == 0 {
        return 0;
    }
    let first = timestamp_millis(stats[0].timestamp.as_str());
    let last = timestamp_millis(stats[stats.len() - 1].timestamp.as_str());
    match (first, last) {
        (Some(f), Some(l)) => {
            let d: i128 = (l as i128) - ((f as i128) - (stats[0].latency as i128));
            let secs: i128 = if d >= 0 { d / 1000 } else { -((-d) / 1000) };
            secs as i64
        },
        _ => 0,
    }
}

/// The sum of `v`.
pub open spec fn sum(v: Seq<u32>) -> int
    decreases v.len(),
{
    if v.len() == 0 {
        0
    } else {
        sum(v.drop_last()) + v.last() as int
    }
}

/// Sums the latencies.
pub fn sum_of_latencies(latencies: &Vec<u32>) -> (r: u64)
    requires
        latencies@.len() <= u32::MAX,
    ensures
        r as int == sum(latencies@),
{
    let mut total: u64 = 0;
    let mut i: usize = 0;
    while i < latencies.len()
        invariant
            i <= latencies@.len(),
            latencies@.len() <= u32::MAX,
            total as int == sum(latencies@.subrange(0, i as int)),
            total <= i * (u32::MAX as int),
        decreases latencies@.len() - i,
    {
        let ghost p = latencies@.subrange(0, i + 1);
        assert(p.drop_last() =~= latencies@.subrange(0, i as int));
        assert(i * (u32::MAX as int) + u32::MAX as int == (i + 1) * (u32::MAX as int)) by (nonlinear_arith);
        assert((i + 1) * (u32::MAX as int) <= (u32::MAX as int) * (u32::MAX as int)) by (nonlinear_arith)
            requires
                i + 1 <= u32::MAX,
        ;
        total = total + latencies[i] as u64;
        i += 1;
    }
    assert(latencies@.subrange(0, latencies@.len() as int) =~= latencies@);
    total
}

} // verus!
