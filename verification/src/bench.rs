//! What a benchmark of channels measures.

use vstd::prelude::*;

verus! {

/// The runs of the benchmark on a machine with `num_cpus` processors, each with its name and its
/// number of threads: one producer first, then more of them as far as there are processors, then
/// as many threads as processors, then twice as many.
pub open spec fn runs_of(num_cpus: int) -> Seq<(Seq<char>, int)> {
    seq![("spsc"@, 2int)] + (if num_cpus > 3 {
        seq![("micro_contention"@, 3int)]
    } else {
        Seq::empty()
    }) + (if num_cpus > 5 {
        seq![("traditional contention"@, 5int)]
    } else {
        Seq::empty()
    }) + seq![("high_contention"@, num_cpus), ("over_subscribed"@, 2 * num_cpus)]
}

/// A run of the benchmark: what it is called and how many threads take part, one of which
/// receives.
#[derive(Clone, Copy, Debug)]
pub struct Run {
    pub name: &'static str,
    pub threads: usize,
}

/// The runs of the benchmark.
pub fn plan(num_cpus: usize) -> (runs: Vec<Run>)
    requires
        2 * num_cpus <= usize::MAX,
    ensures
        runs@.map_values(|run: Run| (run.name@, run.threads as int)) == runs_of(num_cpus as int),
        runs@.len() >= 3,
        runs@[runs@.len() - 2].threads == num_cpus,
        runs@[runs@.len() - 1].threads == 2 * num_cpus,
{
    let mut runs: Vec<Run> = Vec::new();
    runs.push(Run { name: "spsc", threads: 2 });
    if num_cpus > 3 {
        runs.push(Run { name: "micro_contention", threads: 3 });
    }
    if num_cpus > 5 {
        runs.push(Run { name: "traditional contention", threads: 5 });
    }
    runs.push(Run { name: "high_contention", threads: num_cpus });
    runs.push(Run { name: "over_subscribed", threads: num_cpus * 2 });
    assert(runs@.map_values(|run: Run| (run.name@, run.threads as int)) =~= runs_of(
        num_cpus as int,
    ));
    runs
}

/// For every number of processors, the benchmark ends with a run of as many threads as there are
/// processors and one of twice as many as the run before it. It begins with two threads. Of the
/// runs in between, which have fewer threads than there are processors, that with three is there
/// where there are more than three processors, and that with five where there are more than five.
pub proof fn law_plan(num_cpus: int)
    ensures
        ({
            let runs = runs_of(num_cpus);
            let last = runs.len() - 1;
            &&& runs.len() == 3 + (if num_cpus > 3 {
                1int
            } else {
                0
            }) + (if num_cpus > 5 {
                1int
            } else {
                0
            })
            &&& runs[0] == ("spsc"@, 2int)
            &&& runs[last].0 == "over_subscribed"@
            &&& runs[last].1 == runs[last - 1].1 + runs[last - 1].1
            &&& runs[last - 1].0 == "high_contention"@
            &&& runs[last - 1].1 == num_cpus
            &&& num_cpus > 3 ==> runs[1] == ("micro_contention"@, 3int)
            &&& num_cpus > 5 ==> runs[2] == ("traditional contention"@, 5int)
            &&& forall|i: int| 0 < i < last - 1 ==> (#[trigger] runs[i]).1 < num_cpus
        }),
{
}

/// On two machines with more than five processors, the benchmark differs in its last two runs
/// only, and by the difference in processors there.
pub proof fn law_plans(some: int, more: int)
    requires
        5 < some <= more,
    ensures
        runs_of(more).len() == runs_of(some).len(),
        forall|i: int|
            0 <= i < runs_of(some).len() - 2 ==> #[trigger] runs_of(more)[i] == runs_of(some)[i],
        runs_of(more)[3].1 - runs_of(some)[3].1 == more - some,
        runs_of(more)[4].1 - runs_of(some)[4].1 == 2 * (more - some),
{
}

/// The sum of a row of numbers.
pub open spec fn sum(counts: Seq<usize>) -> int
    decreases counts.len(),
{
    if counts.len() == 0 {
        0
    } else {
        sum(counts.drop_last()) + counts.last()
    }
}

/// How many messages all producers have sent.
pub fn total(counts: &Vec<usize>) -> (sent: u128)
    ensures
        sent == sum(counts@),
{
    let mut sent: u128 = 0;
    let mut i: usize = 0;
    while i < counts.len()
        invariant
            i <= counts@.len(),
            sent == sum(counts@.take(i as int)),
            sent <= i * usize::MAX,
        decreases counts@.len() - i,
    {
        proof {
            assert(counts@.take(i + 1).drop_last() =~= counts@.take(i as int));
            assert((i + 1) * usize::MAX == i * usize::MAX + usize::MAX) by (nonlinear_arith);
            assert((i + 1) * usize::MAX <= u128::MAX) by (nonlinear_arith)
                requires
                    i + 1 <= usize::MAX,
            ;
        }
        sent = sent + counts[i] as u128;
        i = i + 1;
    }
    assert(counts@.take(i as int) =~= counts@);
    sent
}

/// Every number counts in full and once: the sum of one number is the number, and the sum of two
/// rows behind each other is the sum of the one and of the other.
pub proof fn law_sum(a: Seq<usize>, b: Seq<usize>, count: usize)
    ensures
        sum(Seq::empty()) == 0,
        sum(seq![count]) == count,
        sum(a + b) == sum(a) + sum(b),
    decreases b.len(),
{
    reveal_with_fuel(sum, 2);
    assert(seq![count].drop_last() =~= Seq::empty());
    if b.len() == 0 {
        assert(a + b =~= a);
    } else {
        assert((a + b).drop_last() =~= a + b.drop_last());
        law_sum(a, b.drop_last(), count);
    }
}

/// The fewest messages that a producer has sent, if there is a producer.
pub fn fewest(counts: &Vec<usize>) -> (min: Option<usize>)
    ensures
        match min {
            Some(least) => counts@.contains(least) && forall|i: int|
                0 <= i < counts@.len() ==> least <= #[trigger] counts@[i],
            None => counts@.len() == 0,
        },
{
    if counts.len() == 0 {
        return None;
    }
    let mut least: usize = counts[0];
    let mut i: usize = 1;
    while i < counts.len()
        invariant
            1 <= i <= counts@.len(),
            counts@.contains(least),
            forall|j: int| 0 <= j < i ==> least <= #[trigger] counts@[j],
        decreases counts@.len() - i,
    {
        if counts[i] < least {
            least = counts[i];
        }
        i = i + 1;
    }
    Some(least)
}

/// The most messages that a producer has sent; 0 where there is no producer.
pub fn most(counts: &Vec<usize>) -> (max: usize)
    ensures
        counts@.len() == 0 ==> max == 0,
        counts@.len() > 0 ==> counts@.contains(max),
        forall|i: int| 0 <= i < counts@.len() ==> #[trigger] counts@[i] <= max,
{
    let mut max: usize = 0;
    let mut i: usize = 0;
    while i < counts.len()
        invariant
            i <= counts@.len(),
            i == 0 ==> max == 0,
            i > 0 ==> counts@.contains(max),
            forall|j: int| 0 <= j < i ==> #[trigger] counts@[j] <= max,
        decreases counts@.len() - i,
    {
        if i == 0 || counts[i] > max {
            max = counts[i];
        }
        i = i + 1;
    }
    max
}

/// Which of `len` numbers in ascending order, counted from 1, is the given percentile: the
/// nearest to that share of `len`, the larger one where two are equally near.
pub open spec fn rank(len: int, percent: int) -> int {
    if (percent * len + 50) / 100 < len {
        (percent * len + 50) / 100
    } else {
        len
    }
}

/// The rank of a percentile is the nearest place to that share of the numbers, and the larger one
/// where two are equally near: the share of the numbers up to that rank differs from the
/// percentile by half a place at most. From 100 on it is the last place.
pub proof fn law_rank(len: int, percent: int)
    requires
        0 <= len,
        0 <= percent,
    ensures
        0 <= rank(len, percent) <= len,
        percent <= 100 ==> percent * len - 50 < 100 * rank(len, percent) <= percent * len + 50,
        percent >= 100 ==> rank(len, percent) == len,
{
    assert(percent <= 100 ==> percent * len <= 100 * len) by (nonlinear_arith)
        requires
            0 <= len,
    ;
    assert(percent >= 100 ==> percent * len >= 100 * len) by (nonlinear_arith)
        requires
            0 <= len,
    ;
    assert(percent * len >= 0) by (nonlinear_arith)
        requires
            0 <= len,
            0 <= percent,
    ;
}

/// The number that is the given percentile of numbers in ascending order, if there is one.
pub open spec fn percentile(sorted: Seq<u64>, percent: int) -> Option<u64> {
    let r = rank(sorted.len() as int, percent);
    if r == 0 {
        None
    } else {
        Some(sorted[r - 1])
    }
}

/// There is a percentile exactly where the share makes up half a place. It is one of the numbers,
/// and half a place at most lies between the share and the place that it has. A larger percentile
/// is no smaller number, and from 100 on it is the largest.
pub proof fn law_percentile(sorted: Seq<u64>, percent: int, more: int)
    requires
        0 <= percent <= more,
        forall|i: int, j: int| 0 <= i <= j < sorted.len() ==> sorted[i] <= sorted[j],
    ensures
        percentile(sorted, percent) is None <==> percent * sorted.len() < 50,
        percentile(sorted, percent) matches Some(value) ==> exists|i: int|
            0 <= i < sorted.len() && #[trigger] sorted[i] == value && (percent <= 100 ==> percent
                * sorted.len() - 50 < 100 * (i + 1) <= percent * sorted.len() + 50) && (percent
                >= 100 ==> i == sorted.len() - 1),
        percentile(sorted, percent) matches Some(value) ==> percentile(sorted, more) matches Some(
            larger,
        ) && value <= larger,
        percent >= 100 && sorted.len() > 0 ==> percentile(sorted, percent) == Some(
            sorted[sorted.len() - 1],
        ),
{
    let len = sorted.len() as int;
    law_rank(len, percent);
    law_rank(len, more);
    assert(percent * len <= more * len) by (nonlinear_arith)
        requires
            percent <= more,
            0 <= len,
    ;
    assert(percent >= 100 && len > 0 ==> percent * len >= 100) by (nonlinear_arith)
        requires
            0 <= len,
    ;
    assert(len == 0 ==> percent * len == 0) by (nonlinear_arith);
    let r = rank(len, percent);
    if r > 0 {
        assert(sorted[r - 1] == percentile(sorted, percent)->0);
    }
}

/// `<[u64]>::sort`: puts the numbers into ascending order. They are the same numbers as before.
#[verifier::external_body]
fn sort(times: &mut Vec<u64>)
    ensures
        final(times)@.to_multiset() == old(times)@.to_multiset(),
        forall|i: int, j: int| 0 <= i <= j < final(times)@.len() ==> final(times)@[i] <= final(times)@[j],
{
    times.sort()
}

/// Puts the times into ascending order and picks the given percentiles. There is none where its
/// rank is 0.
pub fn latencies(times: Vec<u64>, percents: &Vec<u8>) -> (picked: (Vec<u64>, Vec<Option<u64>>))
    ensures
        picked.0@.to_multiset() == times@.to_multiset(),
        forall|i: int, j: int| 0 <= i <= j < picked.0@.len() ==> picked.0@[i] <= picked.0@[j],
        picked.1@.len() == percents@.len(),
        forall|k: int|
            0 <= k < percents@.len() ==> #[trigger] picked.1@[k] == ({
                let r = rank(picked.0@.len() as int, percents@[k] as int);
                if r == 0 {
                    None
                } else {
                    Some(picked.0@[r - 1])
                }
            }),
        forall|k: int|
            0 <= k < percents@.len() ==> #[trigger] picked.1@[k] == percentile(
                picked.0@,
                percents@[k] as int,
            ),
        forall|k: int|
            0 <= k < percents@.len() ==> ((#[trigger] picked.1@[k]) is None <==> percents@[k]
                * picked.0@.len() < 50),
{
    let mut sorted = times;
    sort(&mut sorted);
    let len: usize = sorted.len();
    let mut picked: Vec<Option<u64>> = Vec::new();
    while picked.len() < percents.len()
        invariant
            len == sorted@.len(),
            picked@.len() <= percents@.len(),
            forall|k: int|
                0 <= k < picked@.len() ==> #[trigger] picked@[k] == ({
                    let r = rank(sorted@.len() as int, percents@[k] as int);
                    if r == 0 {
                        None
                    } else {
                        Some(sorted@[r - 1])
                    }
                }),
        decreases percents@.len() - picked@.len(),
    {
        let percent: u8 = percents[picked.len()];
        proof {
            assert(0 <= percent * len <= 255 * usize::MAX) by (nonlinear_arith)
                requires
                    0 <= percent <= 255,
                    0 <= len <= usize::MAX,
            ;
        }
        let share: u128 = (percent as u128 * len as u128 + 50) / 100;
        let r: usize = if share < len as u128 {
            share as usize
        } else {
            len
        };
        picked.push(if r == 0 {
            None
        } else {
            Some(sorted[r - 1])
        });
    }
    proof {
        assert forall|k: int| 0 <= k < percents@.len() implies ((#[trigger] picked@[k]) is None
            <==> percents@[k] * sorted@.len() < 50) by {
            law_percentile(sorted@, percents@[k] as int, percents@[k] as int);
        }
    }
    (sorted, picked)
}

} // verus!
