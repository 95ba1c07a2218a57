//! Latencies: whole nanoseconds and means of them, kept exactly.

use crate::rpc::natural::{Natural, Standing};
use vstd::prelude::*;

verus! {

/// So many nanoseconds over so many calls.
#[derive(Debug)]
pub struct Latency {
    total: Natural,
    calls: Natural,
}

/// `total` over `calls`; there is no mean over no calls.
pub open spec fn ratio(total: nat, calls: nat) -> Option<real> {
    if calls == 0 {
        None
    } else {
        Some((total as int as real) / (calls as int as real))
    }
}

/// The sum of two latencies, if there are both.
pub open spec fn joined(a: Option<real>, b: Option<real>) -> Option<real> {
    match (a, b) {
        (Some(x), Some(y)) => Some(x + y),
        _ => None,
    }
}

/// The sum of some latencies, if there are all of them.
pub open spec fn sum(data: Seq<Option<real>>) -> Option<real>
    decreases data.len(),
{
    if data.len() == 0 {
        Some(0 as real)
    } else {
        joined(sum(data.drop_last()), data.last())
    }
}

/// The mean of some latencies. There is none of no latencies, nor where one of them is missing.
pub open spec fn mean(data: Seq<Option<real>>) -> Option<real> {
    match sum(data) {
        Some(total) => if data.len() == 0 {
            None
        } else {
            Some(total / (data.len() as int as real))
        },
        None => None,
    }
}

/// Whether a latency is above another one; one that is missing is above all that there are.
pub open spec fn above(a: Option<real>, b: Option<real>) -> bool {
    match (a, b) {
        (Some(x), Some(y)) => x > y,
        (None, Some(_)) => true,
        (_, None) => false,
    }
}

/// How many nanoseconds each call took, as latencies.
pub open spec fn whole(times: Seq<u64>) -> Seq<Option<real>> {
    Seq::new(times.len(), |i: int| Some(times[i] as int as real))
}

/// What some latencies are, in order.
pub open spec fn latencies_view(data: Seq<Latency>) -> Seq<Option<real>> {
    Seq::new(data.len(), |i: int| data[i]@)
}

/// Ratios compare as their products across do.
proof fn lemma_across(a: nat, p: nat, b: nat, q: nat)
    requires
        p > 0,
        q > 0,
    ensures
        ratio(a, p)->0 > ratio(b, q)->0 <==> a * q > b * p,
{
    let (x, y) = (a as int as real, b as int as real);
    let (u, v) = (p as int as real, q as int as real);
    assert(x / u > y / v <==> x * v > y * u) by (nonlinear_arith)
        requires
            u > 0 as real,
            v > 0 as real,
    ;
    assert(x * v == (a * q) as int as real) by (nonlinear_arith)
        requires
            x == a as int as real,
            v == q as int as real,
    ;
    assert(y * u == (b * p) as int as real) by (nonlinear_arith)
        requires
            y == b as int as real,
            u == p as int as real,
    ;
}

/// Ratios add up over the product of what they are taken over.
proof fn lemma_joined(a: nat, p: nat, b: nat, q: nat)
    ensures
        ratio(a * q + b * p, p * q) == joined(ratio(a, p), ratio(b, q)),
{
    if p == 0 || q == 0 {
        assert(p * q == 0) by (nonlinear_arith)
            requires
                p == 0 || q == 0,
        ;
    } else {
        assert(p * q > 0) by (nonlinear_arith)
            requires
                p > 0,
                q > 0,
        ;
        let (x, y) = (a as int as real, b as int as real);
        let (u, v) = (p as int as real, q as int as real);
        assert((a * q + b * p) as int as real == x * v + y * u) by (nonlinear_arith)
            requires
                x == a as int as real,
                y == b as int as real,
                u == p as int as real,
                v == q as int as real,
        ;
        assert((p * q) as int as real == u * v) by (nonlinear_arith)
            requires
                u == p as int as real,
                v == q as int as real,
        ;
        assert((x * v + y * u) / (u * v) == x / u + y / v) by (nonlinear_arith)
            requires
                u > 0 as real,
                v > 0 as real,
        ;
    }
}

/// A share of a ratio is taken over so many times as much.
proof fn lemma_shared(a: nat, p: nat, n: nat)
    ensures
        ratio(a, p * n) == match ratio(a, p) {
            Some(x) => if n == 0 {
                None
            } else {
                Some(x / (n as int as real))
            },
            None => None,
        },
{
    if p == 0 || n == 0 {
        assert(p * n == 0) by (nonlinear_arith)
            requires
                p == 0 || n == 0,
        ;
    } else {
        assert(p * n > 0) by (nonlinear_arith)
            requires
                p > 0,
                n > 0,
        ;
        let x = a as int as real;
        let (u, v) = (p as int as real, n as int as real);
        assert((p * n) as int as real == u * v) by (nonlinear_arith)
            requires
                u == p as int as real,
                v == n as int as real,
        ;
        assert(x / (u * v) == (x / u) / v) by (nonlinear_arith)
            requires
                u > 0 as real,
                v > 0 as real,
        ;
    }
}

impl Latency {
    /// The nanoseconds over a call; there are none over no calls.
    pub closed spec fn view(&self) -> Option<real> {
        ratio(self.total@, self.calls@)
    }

    /// The latency of a call that took so many nanoseconds.
    pub fn of(nanoseconds: u64) -> (latency: Latency)
        ensures
            latency@ == Some(nanoseconds as int as real),
    {
        proof {
            let x = nanoseconds as int as real;
            assert(x / (1nat as int as real) == x) by (nonlinear_arith);
        }
        Latency { total: Natural::of(nanoseconds), calls: Natural::of(1) }
    }

    /// The sum of two latencies.
    fn plus(&self, other: &Latency) -> (latency: Latency)
        ensures
            latency@ == joined(self@, other@),
    {
        proof {
            lemma_joined(self.total@, self.calls@, other.total@, other.calls@);
        }
        Latency {
            total: self.total.times(&other.calls).plus(&other.total.times(&self.calls)),
            calls: self.calls.times(&other.calls),
        }
    }

    /// The mean of some latencies.
    pub fn mean(data: &Vec<Latency>) -> (latency: Latency)
        ensures
            latency@ == mean(latencies_view(data@)),
    {
        let mut total = Latency::of(0);
        let ghost all = latencies_view(data@);
        let mut i: usize = 0;
        while i < data.len()
            invariant
                i <= data@.len(),
                all == latencies_view(data@),
                total@ == sum(all.take(i as int)),
            decreases data@.len() - i,
        {
            proof {
                assert(all.take(i + 1).drop_last() =~= all.take(i as int));
            }
            total = total.plus(&data[i]);
            i = i + 1;
        }
        proof {
            assert(all.take(i as int) =~= all);
            lemma_shared(total.total@, total.calls@, all.len());
        }
        let calls = total.calls.times(&Natural::of(data.len() as u64));
        Latency { total: total.total, calls }
    }

    /// Whether this latency is above another one.
    pub fn exceeds(&self, other: &Latency) -> (exceeds: bool)
        ensures
            exceeds == above(self@, other@),
    {
        let zero = Natural::of(0);
        if let Standing::Same = other.calls.stands_to(&zero) {
            return false;
        }
        if let Standing::Same = self.calls.stands_to(&zero) {
            return true;
        }
        proof {
            lemma_across(self.total@, self.calls@, other.total@, other.calls@);
        }
        match self.total.times(&other.calls).stands_to(&other.total.times(&self.calls)) {
            Standing::Above => true,
            _ => false,
        }
    }
}

impl PartialEq for Latency {
    fn eq(&self, other: &Self) -> (equal: bool) {
        !self.exceeds(other) && !other.exceeds(self)
    }
}

impl vstd::std_specs::cmp::PartialEqSpecImpl for Latency {
    open spec fn obeys_eq_spec() -> bool {
        true
    }

    open spec fn eq_spec(&self, other: &Self) -> bool {
        self@ == other@
    }
}

impl Clone for Latency {
    fn clone(&self) -> (copy: Self)
        ensures
            copy@ == self@,
    {
        Latency { total: self.total.clone(), calls: self.calls.clone() }
    }
}

/// Copies some latencies.
pub fn copy_latencies(data: &Vec<Latency>) -> (copy: Vec<Latency>)
    ensures
        latencies_view(copy@) == latencies_view(data@),
{
    let mut copy: Vec<Latency> = Vec::new();
    let mut i: usize = 0;
    while i < data.len()
        invariant
            i <= data@.len(),
            copy@.len() == i,
            forall|j: int| 0 <= j < i ==> (#[trigger] copy@[j])@ == data@[j]@,
        decreases data@.len() - i,
    {
        copy.push(data[i].clone());
        i = i + 1;
    }
    proof {
        assert(latencies_view(copy@) =~= latencies_view(data@));
    }
    copy
}

/// The latencies of calls that took so many nanoseconds.
pub fn from_times(times: &Vec<u64>) -> (data: Vec<Latency>)
    ensures
        latencies_view(data@) == whole(times@),
{
    let mut data: Vec<Latency> = Vec::new();
    let mut i: usize = 0;
    while i < times.len()
        invariant
            i <= times@.len(),
            data@.len() == i,
            forall|j: int| 0 <= j < i ==> (#[trigger] data@[j])@ == whole(times@)[j],
        decreases times@.len() - i,
    {
        data.push(Latency::of(times[i]));
        i = i + 1;
    }
    proof {
        assert(latencies_view(data@) =~= whole(times@));
    }
    data
}

/// Latencies add up: the sum of two lists joined is that of both sums, the sum of one latency is
/// the latency, and where one is missing there is no sum.
pub proof fn law_latencies_add_up(a: Seq<Option<real>>, b: Seq<Option<real>>, x: real)
    ensures
        sum(a) is Some && sum(b) is Some ==> sum(a + b) == Some(sum(a)->0 + sum(b)->0),
        sum(a) is None || sum(b) is None ==> sum(a + b) is None,
        sum(seq![Some(x)]) == Some(x),
        sum(seq![None::<real>]) is None,
    decreases b.len(),
{
    assert(seq![Some(x)].drop_last() =~= Seq::<Option<real>>::empty());
    assert(seq![None::<real>].drop_last() =~= Seq::<Option<real>>::empty());
    assert(sum(Seq::<Option<real>>::empty()) == Some(0 as real));
    if b.len() == 0 {
        assert(a + b =~= a);
    } else {
        law_latencies_add_up(a, b.drop_last(), x);
        assert((a + b).drop_last() =~= a + b.drop_last());
        assert((a + b).last() == b.last());
    }
}

/// The mean of some latencies, taken as often as there are latencies, is their sum; there is none
/// of no latencies, nor where one is missing.
pub proof fn law_mean_is_sum_over_count(data: &Vec<Latency>, latency: Latency)
    requires
        call_ensures(Latency::mean, (data,), latency),
    ensures
        ({
            let values = latencies_view(data@);
            &&& latency@ is Some <==> data@.len() > 0 && sum(values) is Some
            &&& latency@ is Some ==> latency@->0 * (data@.len() as int as real) == sum(values)->0
        }),
{
    let values = latencies_view(data@);
    assert(values.len() == data@.len());
    if data@.len() > 0 {
        if let Some(total) = sum(values) {
            let n = data@.len() as int as real;
            assert((total / n) * n == total) by (nonlinear_arith)
                requires
                    n > 0 as real,
            ;
        }
    }
}

/// A call's latency is its time in nanoseconds, and each call's time becomes one latency.
pub proof fn law_times_become_latencies(
    time: u64,
    latency: Latency,
    times: &Vec<u64>,
    data: Vec<Latency>,
)
    requires
        call_ensures(Latency::of, (time,), latency),
        call_ensures(from_times, (times,), data),
    ensures
        latency@ == Some(time as int as real),
        data@.len() == times@.len(),
        forall|i: int|
            0 <= i < data@.len() ==> (#[trigger] data@[i])@ == Some(times@[i] as int as real),
{
    assert(latencies_view(data@).len() == data@.len());
    assert(whole(times@).len() == times@.len());
    assert forall|i: int| 0 <= i < data@.len() implies (#[trigger] data@[i])@ == Some(
        times@[i] as int as real,
    ) by {
        assert(latencies_view(data@)[i] == data@[i]@);
        assert(whole(times@)[i] == Some(times@[i] as int as real));
    }
}

/// Latencies compare as the numbers that they are, and one that is missing is above all others.
pub proof fn law_latencies_compare_as_numbers(a: &Latency, b: &Latency, exceeds: bool)
    requires
        call_ensures(Latency::exceeds, (a, b), exceeds),
    ensures
        a@ is Some && b@ is Some ==> (exceeds <==> a@->0 > b@->0),
        a@ is None && b@ is Some ==> exceeds,
        b@ is None ==> !exceeds,
{
}

} // verus!
