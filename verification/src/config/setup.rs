//! The nodes when the balancer starts: each is probed, and those that fail wait for recovery.

use crate::config::error::ConfigError;
use crate::rpc::error::RpcError;
use crate::rpc::latency::{above, mean, whole};
use crate::rpc::types::{rpcs_view, Rpc, RpcView};
use vstd::prelude::*;

verus! {

/// What a probe of a node came to.
pub enum Probe {
    TimedOut,
    Failed(RpcError),
    /// Whether the node is catching up, and how many nanoseconds the answer took.
    Answered(bool, u64),
}

impl Probe {
    /// Whether the next probe may follow.
    pub open spec fn good(self) -> bool {
        self matches Probe::Answered(syncing, _) && !syncing
    }

    /// Whether the next probe may follow.
    pub fn is_good(&self) -> (good: bool)
        ensures
            good == self.good(),
    {
        match self {
            Probe::Answered(syncing, _) => !*syncing,
            _ => false,
        }
    }
}

/// Whether another probe of a node follows: until one is not good, or as many are made as calls
/// count for its latency.
pub open spec fn probes_again(probes: Seq<Probe>, ma_length: u32) -> bool {
    probes.len() < ma_length && (probes.len() == 0 || probes.last().good())
}

/// Whether another probe of a node follows.
pub fn probe_again(probes: &Vec<Probe>, ma_length: u32) -> (again: bool)
    ensures
        again == probes_again(probes@, ma_length),
{
    let made: usize = probes.len();
    (made as u64) < ma_length as u64 && (made == 0 || probes[made - 1].is_good())
}

/// Whether none but the last probe may have failed.
pub open spec fn in_turn(probes: Seq<Probe>) -> bool {
    forall|i: int| 0 <= i < probes.len() - 1 ==> (#[trigger] probes[i]).good()
}

/// How many nanoseconds each of some good probes took.
pub open spec fn times(probes: Seq<Probe>) -> Seq<u64> {
    Seq::new(
        probes.len(),
        |i: int|
            match probes[i] {
                Probe::Answered(_, time) => time,
                _ => 0,
            },
    )
}

/// Whether an error is what a probe that is not good gives.
pub open spec fn fails(error: ConfigError, probe: Probe) -> bool {
    match probe {
        Probe::TimedOut => error matches ConfigError::Rpc(RpcError::SendError(text)) && text@
            == "Startup probe timed out"@,
        Probe::Failed(rpc_error) => error == ConfigError::Rpc(rpc_error),
        Probe::Answered(_, _) => error == ConfigError::Syncing,
    }
}

/// Takes in the probes of a node, the last of which may have failed. If all are good, their mean
/// counts as the latency of a first call; of no probes there is no mean.
pub fn set_starting_latency(rpc: &mut Rpc, probes: Vec<Probe>) -> (result: Result<
    (),
    ConfigError,
>)
    requires
        in_turn(probes@),
    ensures
        if probes@.len() == 0 || probes@.last().good() {
            &&& result == Ok::<(), ConfigError>(())
            &&& final(rpc)@ == old(rpc)@.probed(times(probes@))
        } else {
            &&& result matches Err(error) && fails(error, probes@.last())
            &&& final(rpc)@ == old(rpc)@
        },
{
    let mut probes = probes;
    let ghost all = probes@;
    let made: usize = probes.len();
    if made > 0 && !probes[made - 1].is_good() {
        return match probes.pop() {
            Some(Probe::TimedOut) => Err(
                ConfigError::Rpc(RpcError::SendError("Startup probe timed out".to_owned())),
            ),
            Some(Probe::Failed(error)) => Err(ConfigError::Rpc(error)),
            _ => Err(ConfigError::Syncing),
        };
    }
    let mut latencies: Vec<u64> = Vec::new();
    let mut i: usize = 0;
    while i < probes.len()
        invariant
            i <= probes@.len(),
            probes@ == all,
            forall|j: int| 0 <= j < all.len() ==> (#[trigger] all[j]).good(),
            latencies@ == times(all).take(i as int),
        decreases probes@.len() - i,
    {
        proof {
            assert(all[i as int].good());
            assert(times(all).take(i as int).push(times(all)[i as int]) =~= times(all).take(
                i + 1,
            ));
        }
        let time: u64 = match &probes[i] {
            Probe::Answered(_, time) => *time,
            _ => 0,
        };
        latencies.push(time);
        i = i + 1;
    }
    proof {
        assert(times(all).take(i as int) =~= times(all));
    }
    rpc.start_latency(&latencies);
    Ok(())
}

/// The nodes of a list with a given latency, in order.
pub open spec fn with_latency(rpcs: Seq<RpcView>, latency: Option<real>) -> Seq<RpcView>
    decreases rpcs.len(),
{
    if rpcs.len() == 0 {
        Seq::empty()
    } else if rpcs.last().status.latency == latency {
        with_latency(rpcs.drop_last(), latency).push(rpcs.last())
    } else {
        with_latency(rpcs.drop_last(), latency)
    }
}

/// Whether the latencies of a list do not decrease.
pub open spec fn ascending(rpcs: Seq<RpcView>) -> bool {
    forall|i: int, j: int|
        0 <= i < j < rpcs.len() ==> !above(
            (#[trigger] rpcs[i]).status.latency,
            (#[trigger] rpcs[j]).status.latency,
        )
}

/// Whether `sorted` holds the nodes of `rpcs` by latency, those of the same latency in the order
/// in which they stood.
pub open spec fn sorts(rpcs: Seq<RpcView>, sorted: Seq<RpcView>) -> bool {
    &&& ascending(sorted)
    &&& forall|latency: Option<real>| #[trigger]
        with_latency(sorted, latency) == with_latency(rpcs, latency)
}

/// The nodes whose probes succeeded, in order.
pub open spec fn succeeded(rpcs: Seq<RpcView>, results: Seq<Result<(), ConfigError>>) -> Seq<
    RpcView,
>
    decreases rpcs.len(),
{
    if rpcs.len() == 0 || rpcs.len() != results.len() {
        Seq::empty()
    } else if results.last() is Ok {
        succeeded(rpcs.drop_last(), results.drop_last()).push(rpcs.last())
    } else {
        succeeded(rpcs.drop_last(), results.drop_last())
    }
}

/// The nodes whose probes failed, marked, in order.
pub open spec fn failed(rpcs: Seq<RpcView>, results: Seq<Result<(), ConfigError>>) -> Seq<RpcView>
    decreases rpcs.len(),
{
    if rpcs.len() == 0 || rpcs.len() != results.len() {
        Seq::empty()
    } else if results.last() is Ok {
        failed(rpcs.drop_last(), results.drop_last())
    } else {
        failed(rpcs.drop_last(), results.drop_last()).push(rpcs.last().erroring(true))
    }
}

proof fn lemma_with_latency_add(a: Seq<RpcView>, b: Seq<RpcView>, latency: Option<real>)
    ensures
        with_latency(a + b, latency) == with_latency(a, latency) + with_latency(b, latency),
    decreases b.len(),
{
    if b.len() == 0 {
        assert(a + b =~= a);
        assert(with_latency(a, latency) + with_latency(b, latency) =~= with_latency(a, latency));
    } else {
        lemma_with_latency_add(a, b.drop_last(), latency);
        assert((a + b).drop_last() =~= a + b.drop_last());
        assert(with_latency(a + b, latency) =~= with_latency(a, latency) + with_latency(
            b,
            latency,
        ));
    }
}

proof fn lemma_none_with_latency(rpcs: Seq<RpcView>, latency: Option<real>)
    requires
        forall|i: int| 0 <= i < rpcs.len() ==> (#[trigger] rpcs[i]).status.latency != latency,
    ensures
        with_latency(rpcs, latency) == Seq::<RpcView>::empty(),
    decreases rpcs.len(),
{
    if rpcs.len() > 0 {
        assert(rpcs[rpcs.len() - 1].status.latency != latency);
        assert forall|i: int| 0 <= i < rpcs.drop_last().len() implies (
        #[trigger] rpcs.drop_last()[i]).status.latency != latency by {
            assert(rpcs.drop_last()[i] == rpcs[i]);
        }
        lemma_none_with_latency(rpcs.drop_last(), latency);
    }
}

proof fn lemma_inserted(rpcs: Seq<RpcView>, sorted: Seq<RpcView>, rpc: RpcView, at: int)
    requires
        sorts(rpcs, sorted),
        0 <= at <= sorted.len(),
        forall|i: int|
            0 <= i < at ==> !above((#[trigger] sorted[i]).status.latency, rpc.status.latency),
        forall|i: int|
            at <= i < sorted.len() ==> above(
                (#[trigger] sorted[i]).status.latency,
                rpc.status.latency,
            ),
    ensures
        sorts(rpcs.push(rpc), sorted.insert(at, rpc)),
{
    let after = sorted.insert(at, rpc);
    assert forall|i: int, j: int| 0 <= i < j < after.len() implies !above(
        (#[trigger] after[i]).status.latency,
        (#[trigger] after[j]).status.latency,
    ) by {
        let a = if i < at { i } else { i - 1 };
        let b = if j < at { j } else { j - 1 };
        if i == at {
            assert(after[j] == sorted[b]);
        } else if j == at {
            assert(after[i] == sorted[a]);
        } else {
            assert(after[i] == sorted[a] && after[j] == sorted[b]);
        }
    }
    let front = sorted.take(at);
    let back = sorted.skip(at);
    assert(sorted =~= front + back);
    assert(after =~= front.push(rpc) + back);
    assert forall|latency: Option<real>| #[trigger]
        with_latency(after, latency) == with_latency(rpcs.push(rpc), latency) by {
        lemma_with_latency_add(front, back, latency);
        lemma_with_latency_add(front.push(rpc), back, latency);
        assert(front.push(rpc).drop_last() =~= front);
        assert(rpcs.push(rpc).drop_last() =~= rpcs);
        assert(with_latency(sorted, latency) == with_latency(rpcs, latency));
        if latency == rpc.status.latency {
            assert forall|i: int| 0 <= i < back.len() implies (
            #[trigger] back[i]).status.latency != latency by {
                assert(back[i] == sorted[at + i]);
            }
            lemma_none_with_latency(back, latency);
            assert(with_latency(after, latency) =~= with_latency(rpcs, latency).push(rpc));
        } else {
            assert(with_latency(after, latency) =~= with_latency(rpcs, latency));
        }
    }
}

/// Puts a node into a list that is sorted by latency, behind those that are as fast.
fn insert_sorted(sorted: &mut Vec<Rpc>, rpc: Rpc) -> (at: usize)
    requires
        ascending(rpcs_view(old(sorted)@)),
    ensures
        at <= old(sorted)@.len(),
        rpcs_view(final(sorted)@) == rpcs_view(old(sorted)@).insert(at as int, rpc@),
        forall|i: int|
            0 <= i < at ==> !above(
                (#[trigger] rpcs_view(old(sorted)@)[i]).status.latency,
                rpc@.status.latency,
            ),
        forall|i: int|
            at <= i < old(sorted)@.len() ==> above(
                (#[trigger] rpcs_view(old(sorted)@)[i]).status.latency,
                rpc@.status.latency,
            ),
{
    let ghost before = rpcs_view(sorted@);
    let mut at: usize = sorted.len();
    while at > 0 && sorted[at - 1].latency().exceeds(&rpc.latency())
        invariant
            at <= sorted@.len(),
            before == rpcs_view(sorted@),
            forall|i: int|
                at <= i < before.len() ==> above(
                    (#[trigger] before[i]).status.latency,
                    rpc@.status.latency,
                ),
        decreases at,
    {
        at = at - 1;
    }
    proof {
        assert forall|i: int| 0 <= i < at implies !above(
            (#[trigger] before[i]).status.latency,
            rpc@.status.latency,
        ) by {
            if i < at - 1 {
                assert(!above(before[i].status.latency, before[at - 1].status.latency));
            }
        }
    }
    sorted.insert(at, rpc);
    proof {
        assert(rpcs_view(sorted@) =~= before.insert(at as int, rpc@));
    }
    at
}

/// Takes in what the probes of the nodes came to. The nodes that failed join the poverty list,
/// marked; the others come back by latency.
pub fn sort_by_latency(
    rpc_list: Vec<Rpc>,
    poverty_list: Vec<Rpc>,
    results: &Vec<Result<(), ConfigError>>,
) -> (lists: (Vec<Rpc>, Vec<Rpc>))
    requires
        rpc_list@.len() == results@.len(),
    ensures
        sorts(succeeded(rpcs_view(rpc_list@), results@), rpcs_view(lists.0@)),
        rpcs_view(lists.1@) == rpcs_view(poverty_list@) + failed(
            rpcs_view(rpc_list@),
            results@,
        ),
{
    let ghost all = rpcs_view(rpc_list@);
    let ghost poor = rpcs_view(poverty_list@);
    let mut sorted: Vec<Rpc> = Vec::new();
    let mut poverty = poverty_list;
    let mut i: usize = 0;
    proof {
        assert(rpcs_view(poverty@) =~= poor + failed(all.take(0), results@.take(0)));
        assert(succeeded(all.take(0), results@.take(0)) =~= rpcs_view(sorted@));
    }
    while i < rpc_list.len()
        invariant
            i <= rpc_list@.len(),
            all == rpcs_view(rpc_list@),
            rpc_list@.len() == results@.len(),
            sorts(succeeded(all.take(i as int), results@.take(i as int)), rpcs_view(sorted@)),
            rpcs_view(poverty@) == poor + failed(all.take(i as int), results@.take(i as int)),
        decreases rpc_list@.len() - i,
    {
        let ghost listed = rpcs_view(sorted@);
        let ghost waiting = rpcs_view(poverty@);
        proof {
            assert(all.take(i + 1).drop_last() =~= all.take(i as int));
            assert(results@.take(i + 1).drop_last() =~= results@.take(i as int));
        }
        let mut rpc = rpc_list[i].clone();
        if results[i].is_ok() {
            let at: usize = insert_sorted(&mut sorted, rpc);
            proof {
                lemma_inserted(
                    succeeded(all.take(i as int), results@.take(i as int)),
                    listed,
                    all[i as int],
                    at as int,
                );
            }
        } else {
            rpc.set_erroring(true);
            poverty.push(rpc);
            proof {
                assert(rpcs_view(poverty@) =~= waiting.push(all[i as int].erroring(true)));
                assert(rpcs_view(poverty@) =~= poor + failed(
                    all.take(i + 1),
                    results@.take(i + 1),
                ));
            }
        }
        i = i + 1;
    }
    proof {
        assert(all.take(i as int) =~= all);
        assert(results@.take(i as int) =~= results@);
    }
    (sorted, poverty)
}

/// Probing a node as long as another probe follows ends with probes that its latency can be taken
/// from: as many as calls count for the latency, or one that failed behind good ones.
pub proof fn law_probing_ends_in_turn(probes: Seq<Probe>, ma_length: u32, next: Probe)
    requires
        in_turn(probes),
        probes.len() <= ma_length,
    ensures
        probes_again(probes, ma_length) ==> in_turn(probes.push(next)) && probes.push(next).len()
            <= ma_length,
        !probes_again(probes, ma_length) ==> probes.len() == ma_length || !probes.last().good(),
{
    if probes_again(probes, ma_length) {
        let more = probes.push(next);
        assert forall|i: int| 0 <= i < more.len() - 1 implies (#[trigger] more[i]).good() by {
            assert(more[i] == probes[i]);
        }
    }
}

/// Starting loses no node: each is active, or waits for recovery.
pub proof fn law_start_loses_no_node(rpcs: Seq<RpcView>, results: Seq<Result<(), ConfigError>>)
    requires
        rpcs.len() == results.len(),
    ensures
        succeeded(rpcs, results).len() + failed(rpcs, results).len() == rpcs.len(),
    decreases rpcs.len(),
{
    if rpcs.len() > 0 {
        law_start_loses_no_node(rpcs.drop_last(), results.drop_last());
    }
}

/// A node is probed as often as calls count for its latency, and no longer than all probes are
/// good: that a probe is good means that it was answered, in time, by a node that is not catching
/// up.
pub proof fn law_probing_goes_on_while_good(
    probes: &Vec<Probe>,
    ma_length: u32,
    again: bool,
    probe: &Probe,
    good: bool,
)
    requires
        call_ensures(probe_again, (probes, ma_length), again),
        call_ensures(Probe::is_good, (probe,), good),
    ensures
        good <==> (*probe matches Probe::Answered(syncing, _) && !syncing),
        probes@.len() == 0 ==> (again <==> ma_length > 0),
        probes@.len() > 0 ==> (again <==> probes@.len() < ma_length && (
        probes@.last() matches Probe::Answered(syncing, _) && !syncing)),
{
}

/// What the probes of a node come to: where all are good, their mean in nanoseconds is the latency
/// of its first call; where the last one is not, the node is left as it was and the error says why.
pub proof fn law_probes_decide_on_a_node(
    rpc: &mut Rpc,
    probes: Vec<Probe>,
    result: Result<(), ConfigError>,
)
    requires
        forall|i: int|
            0 <= i < probes@.len() - 1 ==> (#[trigger] probes@[i]) is Answered
                && !probes@[i]->Answered_0,
        call_ensures(set_starting_latency, (rpc, probes), result),
        old(rpc)@.status.latency_data.len() == 0,
    ensures
        ({
            let last = probes@.last();
            let good = probes@.len() == 0 || (last matches Probe::Answered(syncing, _) && !syncing);
            let data = Seq::new(
                probes@.len(),
                |i: int| Some(probes@[i]->Answered_1 as int as real),
            );
            &&& result is Ok <==> good
            &&& good ==> {
                &&& final(rpc)@.status.latency_data.len() == 1
                &&& final(rpc)@.status.latency_data[0] == mean(data)
                &&& final(rpc)@.url == old(rpc)@.url
                &&& final(rpc)@.status.is_erroring == old(rpc)@.status.is_erroring
            }
            &&& !good ==> {
                &&& final(rpc)@ == old(rpc)@
                &&& last is TimedOut ==> (result matches Err(
                    ConfigError::Rpc(RpcError::SendError(text)),
                ) && text@ == "Startup probe timed out"@)
                &&& last matches Probe::Failed(error) ==> result == Err::<(), ConfigError>(
                    ConfigError::Rpc(error),
                )
                &&& last is Answered ==> result == Err::<(), ConfigError>(ConfigError::Syncing)
            }
        }),
{
    assert forall|i: int| 0 <= i < probes@.len() - 1 implies (#[trigger] probes@[i]).good() by {}
    let good = probes@.len() == 0 || probes@.last().good();
    if good {
        let data = Seq::new(probes@.len(), |i: int| Some(probes@[i]->Answered_1 as int as real));
        assert forall|i: int| 0 <= i < probes@.len() implies #[trigger] whole(times(probes@))[i]
            == data[i] by {
            if i == probes@.len() - 1 {
                assert(probes@[i] == probes@.last());
            }
            assert(probes@[i].good());
        }
        assert(whole(times(probes@)) =~= data);
    }
}

proof fn lemma_with_latency_count(rpcs: Seq<RpcView>, latency: Option<real>, rpc: RpcView)
    ensures
        with_latency(rpcs, latency).to_multiset().count(rpc) == if rpc.status.latency == latency {
            rpcs.to_multiset().count(rpc)
        } else {
            0
        },
    decreases rpcs.len(),
{
    broadcast use vstd::seq_lib::group_to_multiset_ensures;

    if rpcs.len() == 0 {
        assert(rpcs =~= Seq::<RpcView>::empty());
    } else {
        let shorter = rpcs.drop_last();
        lemma_with_latency_count(shorter, latency, rpc);
        assert(rpcs =~= shorter.push(rpcs.last()));
    }
}

proof fn lemma_chosen(rpcs: Seq<RpcView>, results: Seq<Result<(), ConfigError>>, rpc: RpcView)
    requires
        rpcs.len() == results.len(),
    ensures
        succeeded(rpcs, results).contains(rpc) <==> exists|i: int|
            0 <= i < rpcs.len() && #[trigger] rpcs[i] == rpc && results[i] is Ok,
    decreases rpcs.len(),
{
    if rpcs.len() > 0 {
        let (shorter, fewer) = (rpcs.drop_last(), results.drop_last());
        lemma_chosen(shorter, fewer, rpc);
        let all = succeeded(rpcs, results);
        let before = succeeded(shorter, fewer);
        let last = rpcs.len() - 1;
        if before.contains(rpc) {
            let i = choose|i: int|
                0 <= i < shorter.len() && #[trigger] shorter[i] == rpc && fewer[i] is Ok;
            assert(rpcs[i] == rpc && results[i] is Ok);
            let k = choose|k: int| 0 <= k < before.len() && before[k] == rpc;
            assert(all[k] == rpc);
        }
        if rpcs[last] == rpc && results[last] is Ok {
            assert(all[all.len() - 1] == rpc);
        }
        if exists|i: int| 0 <= i < rpcs.len() && #[trigger] rpcs[i] == rpc && results[i] is Ok {
            let i = choose|i: int|
                0 <= i < rpcs.len() && #[trigger] rpcs[i] == rpc && results[i] is Ok;
            if i < last {
                assert(shorter[i] == rpc && fewer[i] is Ok);
            }
        }
        if all.contains(rpc) && !before.contains(rpc) {
            let k = choose|k: int| 0 <= k < all.len() && all[k] == rpc;
            if results[last] is Ok && k < before.len() {
                assert(before[k] == rpc);
            }
            assert(rpcs[last] == rpc && results[last] is Ok);
        }
    }
}

/// At the start the nodes whose probes succeeded are active, the faster before the slower and those
/// that are as fast in the order in which they were given; each is there as often as it was given,
/// and no other is.
pub proof fn law_fast_nodes_come_first(
    rpc_list: Vec<Rpc>,
    poverty_list: Vec<Rpc>,
    results: &Vec<Result<(), ConfigError>>,
    lists: (Vec<Rpc>, Vec<Rpc>),
    i: int,
    j: int,
    rpc: RpcView,
)
    requires
        rpc_list@.len() == results@.len(),
        call_ensures(sort_by_latency, (rpc_list, poverty_list, results), lists),
    ensures
        ({
            let given = rpcs_view(rpc_list@);
            let active = rpcs_view(lists.0@);
            let good = succeeded(given, results@);
            &&& 0 <= i < j < active.len() && active[i].status.latency is Some
                && active[j].status.latency is Some ==> active[i].status.latency->0
                <= active[j].status.latency->0
            &&& 0 <= i < j < active.len() && active[i].status.latency is None
                ==> active[j].status.latency is None
            &&& active.to_multiset() == good.to_multiset()
            &&& active.len() == good.len()
            &&& active.contains(rpc) <==> exists|k: int|
                0 <= k < given.len() && #[trigger] given[k] == rpc && results@[k] is Ok
        }),
{
    broadcast use vstd::seq_lib::group_to_multiset_ensures;

    let given = rpcs_view(rpc_list@);
    let active = rpcs_view(lists.0@);
    let good = succeeded(given, results@);
    assert forall|v: RpcView| active.to_multiset().count(v) == good.to_multiset().count(v) by {
        lemma_with_latency_count(active, v.status.latency, v);
        lemma_with_latency_count(good, v.status.latency, v);
        assert(with_latency(active, v.status.latency) == with_latency(good, v.status.latency));
    }
    assert(active.to_multiset() =~= good.to_multiset());
    assert(active.len() == active.to_multiset().len());
    assert(good.len() == good.to_multiset().len());
    assert(active.contains(rpc) <==> active.to_multiset().count(rpc) > 0);
    assert(good.contains(rpc) <==> good.to_multiset().count(rpc) > 0);
    lemma_chosen(given, results@, rpc);
}

/// Nodes that are as fast stay in the order in which they were given.
pub proof fn law_equally_fast_nodes_keep_their_order(
    rpc_list: Vec<Rpc>,
    poverty_list: Vec<Rpc>,
    results: &Vec<Result<(), ConfigError>>,
    lists: (Vec<Rpc>, Vec<Rpc>),
)
    requires
        rpc_list@.len() == results@.len(),
        call_ensures(sort_by_latency, (rpc_list, poverty_list, results), lists),
        forall|i: int, j: int|
            0 <= i < j < rpc_list@.len() ==> (#[trigger] rpc_list@[i])@.status.latency == (
            #[trigger] rpc_list@[j])@.status.latency,
        forall|i: int| 0 <= i < results@.len() ==> (#[trigger] results@[i]) is Ok,
    ensures
        rpcs_view(lists.0@) == rpcs_view(rpc_list@),
{
    let given = rpcs_view(rpc_list@);
    let active = rpcs_view(lists.0@);
    lemma_all_succeeded(given, results@);
    if given.len() == 0 {
        law_fast_nodes_come_first(rpc_list, poverty_list, results, lists, 0, 0, arbitrary());
        assert(active =~= given);
    } else {
        let latency = given[0].status.latency;
        assert forall|i: int| 0 <= i < given.len() implies (#[trigger] given[i]).status.latency
            == latency by {
            assert(given[i] == rpc_list@[i]@ && given[0] == rpc_list@[0]@);
            if i > 0 {
                assert(rpc_list@[0]@.status.latency == rpc_list@[i]@.status.latency);
            }
        }
        assert forall|i: int| 0 <= i < active.len() implies (#[trigger] active[i]).status.latency
            == latency by {
            law_fast_nodes_come_first(rpc_list, poverty_list, results, lists, 0, 0, active[i]);
            assert(active.contains(active[i]));
            let k = choose|k: int|
                0 <= k < given.len() && #[trigger] given[k] == active[i] && results@[k] is Ok;
            assert(given[k].status.latency == latency);
        }
        lemma_all_with_latency(given, latency);
        lemma_all_with_latency(active, latency);
        assert(with_latency(active, latency) == with_latency(given, latency));
    }
}

proof fn lemma_all_succeeded(rpcs: Seq<RpcView>, results: Seq<Result<(), ConfigError>>)
    requires
        rpcs.len() == results.len(),
        forall|i: int| 0 <= i < results.len() ==> (#[trigger] results[i]) is Ok,
    ensures
        succeeded(rpcs, results) == rpcs,
    decreases rpcs.len(),
{
    if rpcs.len() > 0 {
        let fewer = results.drop_last();
        assert forall|i: int| 0 <= i < fewer.len() implies (#[trigger] fewer[i]) is Ok by {
            assert(fewer[i] == results[i]);
        }
        lemma_all_succeeded(rpcs.drop_last(), fewer);
        assert(results[results.len() - 1] is Ok);
        assert(rpcs.drop_last().push(rpcs.last()) =~= rpcs);
    } else {
        assert(succeeded(rpcs, results) =~= rpcs);
    }
}

proof fn lemma_all_with_latency(rpcs: Seq<RpcView>, latency: Option<real>)
    requires
        forall|i: int| 0 <= i < rpcs.len() ==> (#[trigger] rpcs[i]).status.latency == latency,
    ensures
        with_latency(rpcs, latency) == rpcs,
    decreases rpcs.len(),
{
    if rpcs.len() > 0 {
        let shorter = rpcs.drop_last();
        assert forall|i: int| 0 <= i < shorter.len() implies (
        #[trigger] shorter[i]).status.latency == latency by {
            assert(shorter[i] == rpcs[i]);
        }
        lemma_all_with_latency(shorter, latency);
        assert(rpcs[rpcs.len() - 1].status.latency == latency);
        assert(shorter.push(rpcs.last()) =~= rpcs);
    } else {
        assert(with_latency(rpcs, latency) =~= rpcs);
    }
}

proof fn lemma_failed(rpcs: Seq<RpcView>, results: Seq<Result<(), ConfigError>>, rpc: RpcView)
    requires
        rpcs.len() == results.len(),
    ensures
        failed(rpcs, results).contains(rpc) <==> exists|i: int|
            0 <= i < rpcs.len() && (#[trigger] rpcs[i]).erroring(true) == rpc && results[i] is Err,
    decreases rpcs.len(),
{
    if rpcs.len() > 0 {
        let (shorter, fewer) = (rpcs.drop_last(), results.drop_last());
        lemma_failed(shorter, fewer, rpc);
        let all = failed(rpcs, results);
        let before = failed(shorter, fewer);
        let last = rpcs.len() - 1;
        if before.contains(rpc) {
            let i = choose|i: int|
                0 <= i < shorter.len() && (#[trigger] shorter[i]).erroring(true) == rpc && fewer[i]
                    is Err;
            assert(rpcs[i].erroring(true) == rpc && results[i] is Err);
            let k = choose|k: int| 0 <= k < before.len() && before[k] == rpc;
            assert(all[k] == rpc);
        }
        if rpcs[last].erroring(true) == rpc && results[last] is Err {
            assert(all[all.len() - 1] == rpc);
        }
        if exists|i: int|
            0 <= i < rpcs.len() && (#[trigger] rpcs[i]).erroring(true) == rpc && results[i]
                is Err {
            let i = choose|i: int|
                0 <= i < rpcs.len() && (#[trigger] rpcs[i]).erroring(true) == rpc && results[i]
                    is Err;
            if i < last {
                assert(shorter[i].erroring(true) == rpc && fewer[i] is Err);
            }
        }
        if all.contains(rpc) && !before.contains(rpc) {
            let k = choose|k: int| 0 <= k < all.len() && all[k] == rpc;
            if results[last] is Err && k < before.len() {
                assert(before[k] == rpc);
            }
            assert(rpcs[last].erroring(true) == rpc && results[last] is Err);
        }
    }
}

/// At the start exactly the nodes whose probes failed join the poverty list, marked, behind those
/// that were on it; no node is lost or there twice by it.
pub proof fn law_failed_nodes_start_poor(
    rpc_list: Vec<Rpc>,
    poverty_list: Vec<Rpc>,
    results: &Vec<Result<(), ConfigError>>,
    lists: (Vec<Rpc>, Vec<Rpc>),
    rpc: RpcView,
)
    requires
        rpc_list@.len() == results@.len(),
        call_ensures(sort_by_latency, (rpc_list, poverty_list, results), lists),
    ensures
        ({
            let given = rpcs_view(rpc_list@);
            let poor = rpcs_view(lists.1@);
            let before = rpcs_view(poverty_list@);
            &&& before.is_prefix_of(poor)
            &&& poor.skip(before.len() as int).contains(rpc) <==> exists|k: int|
                0 <= k < given.len() && (#[trigger] given[k]).erroring(true) == rpc && results@[k]
                    is Err
            &&& lists.0@.len() + lists.1@.len() == rpc_list@.len() + poverty_list@.len()
        }),
{
    let given = rpcs_view(rpc_list@);
    let poor = rpcs_view(lists.1@);
    let before = rpcs_view(poverty_list@);
    lemma_failed(given, results@, rpc);
    assert(poor.skip(before.len() as int) =~= failed(given, results@));
    assert(before =~= poor.take(before.len() as int));
    law_start_loses_no_node(given, results@);
    law_fast_nodes_come_first(rpc_list, poverty_list, results, lists, 0, 0, rpc);
    assert(rpcs_view(lists.0@).len() == lists.0@.len() && poor.len() == lists.1@.len());
    assert(given.len() == rpc_list@.len() && before.len() == poverty_list@.len());
}

proof fn lemma_with_latency_filters(rpcs: Seq<RpcView>, latency: Option<real>)
    ensures
        with_latency(rpcs, latency) == rpcs.filter(|rpc: RpcView| rpc.status.latency == latency),
    decreases rpcs.len(),
{
    reveal(Seq::filter);
    if rpcs.len() > 0 {
        lemma_with_latency_filters(rpcs.drop_last(), latency);
    } else {
        assert(with_latency(rpcs, latency) =~= rpcs.filter(
            |rpc: RpcView| rpc.status.latency == latency,
        ));
    }
}

/// Of the nodes of any one latency, those that are active stand in the order in which they were
/// given, whatever stands between them.
pub proof fn law_sorting_is_stable(
    rpc_list: Vec<Rpc>,
    poverty_list: Vec<Rpc>,
    results: &Vec<Result<(), ConfigError>>,
    lists: (Vec<Rpc>, Vec<Rpc>),
    latency: Option<real>,
)
    requires
        rpc_list@.len() == results@.len(),
        forall|i: int| 0 <= i < results@.len() ==> (#[trigger] results@[i]) is Ok,
        call_ensures(sort_by_latency, (rpc_list, poverty_list, results), lists),
    ensures
        rpcs_view(lists.0@).filter(|rpc: RpcView| rpc.status.latency == latency) == rpcs_view(
            rpc_list@,
        ).filter(|rpc: RpcView| rpc.status.latency == latency),
{
    let given = rpcs_view(rpc_list@);
    let active = rpcs_view(lists.0@);
    lemma_all_succeeded(given, results@);
    assert(with_latency(active, latency) == with_latency(given, latency));
    lemma_with_latency_filters(active, latency);
    lemma_with_latency_filters(given, latency);
}

} // verus!
