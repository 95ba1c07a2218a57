//! Nodes that fall behind, and nodes that catch up.
//!
//! A node that falls behind leaves the list of active nodes for the poverty list, until it has
//! caught up.

use crate::health::error::HealthError;
use crate::rpc::types::{rpcs_view, Rpc, RpcView};
use crate::websocket::connections::{find_rpc, first_listed, is_listed, listed};
use crate::websocket::error::WsError;
use crate::websocket::types::{WsChannelErr, WsconnMessage};
use vstd::prelude::*;

verus! {

/// What a node says of its head.
pub struct HeadResult {
    pub rpc: Rpc,
    pub is_syncing: bool,
    pub reported_head: u64,
}

#[verifier::ext_equal]
pub struct HeadView {
    pub rpc: RpcView,
    pub is_syncing: bool,
    pub reported_head: u64,
}

impl HeadResult {
    pub open spec fn view(&self) -> HeadView {
        HeadView {
            rpc: self.rpc@,
            is_syncing: self.is_syncing,
            reported_head: self.reported_head,
        }
    }
}

/// What the nodes of a list say of their heads, in order.
pub open spec fn heads_view(heads: Seq<HeadResult>) -> Seq<HeadView> {
    Seq::new(heads.len(), |i: int| heads[i]@)
}

/// What a probe of a node came to. `None` stands for one that was not over in time; its parts are
/// `None` where the node gave no usable answer.
pub fn head_check(rpc: Rpc, probe: Option<(Option<u64>, Option<bool>)>) -> (head: HeadResult)
    ensures
        head@ == (HeadView {
            rpc: rpc@,
            reported_head: match probe {
                Some((Some(number), _)) => number,
                _ => 0,
            },
            is_syncing: match probe {
                Some((_, Some(syncing))) => syncing,
                _ => true,
            },
        }),
{
    let reported_head: u64 = match probe {
        Some((Some(number), _)) => number,
        _ => 0,
    };
    let is_syncing = match probe {
        Some((_, Some(syncing))) => syncing,
        _ => true,
    };
    HeadResult { rpc, is_syncing, reported_head }
}

/// The highest head among those of nodes on the list, zero where there is none.
pub open spec fn highest_head(rpcs: Seq<RpcView>, heads: Seq<HeadView>) -> u64
    decreases heads.len(),
{
    if heads.len() == 0 {
        0
    } else {
        let before = highest_head(rpcs, heads.drop_last());
        if listed(rpcs, heads.last().rpc) && heads.last().reported_head > before {
            heads.last().reported_head
        } else {
            before
        }
    }
}

/// Whether a node falls behind.
pub open spec fn behind(head: HeadView, highest: u64) -> bool {
    head.reported_head < highest || head.is_syncing
}

/// Active nodes and poverty list once the nodes that fall behind are marked and listed there.
pub open spec fn marked(
    rpcs: Seq<RpcView>,
    poverty: Seq<RpcView>,
    heads: Seq<HeadView>,
    highest: u64,
) -> (Seq<RpcView>, Seq<RpcView>)
    decreases heads.len(),
{
    if heads.len() == 0 {
        (rpcs, poverty)
    } else {
        let (active, poor) = marked(rpcs, poverty, heads.drop_last(), highest);
        let head = heads.last();
        match first_listed(active, head.rpc) {
            Some(at) => if behind(head, highest) {
                let rpc = active[at].erroring(true);
                (active.update(at, rpc), poor.push(rpc))
            } else {
                (active, poor)
            },
            None => (active, poor),
        }
    }
}

/// The nodes of a list that are not marked, in order.
pub open spec fn unmarked(rpcs: Seq<RpcView>) -> Seq<RpcView>
    decreases rpcs.len(),
{
    if rpcs.len() == 0 {
        Seq::empty()
    } else if rpcs.last().status.is_erroring {
        unmarked(rpcs.drop_last())
    } else {
        unmarked(rpcs.drop_last()).push(rpcs.last())
    }
}

fn highest_reported(rpcs: &Vec<Rpc>, heads: &Vec<HeadResult>) -> (highest: u64)
    ensures
        highest == highest_head(rpcs_view(rpcs@), heads_view(heads@)),
{
    let ghost nodes = rpcs_view(rpcs@);
    let ghost all = heads_view(heads@);
    let mut highest: u64 = 0;
    let mut i: usize = 0;
    while i < heads.len()
        invariant
            i <= heads@.len(),
            nodes == rpcs_view(rpcs@),
            all == heads_view(heads@),
            highest == highest_head(nodes, all.take(i as int)),
        decreases heads@.len() - i,
    {
        proof {
            assert(all.take(i + 1).drop_last() =~= all.take(i as int));
        }
        if is_listed(rpcs, &heads[i].rpc) && heads[i].reported_head > highest {
            highest = heads[i].reported_head;
        }
        i = i + 1;
    }
    proof {
        assert(all.take(i as int) =~= all);
    }
    highest
}

/// Takes the marked nodes out of a list.
fn retain_unmarked(rpcs: &mut Vec<Rpc>)
    ensures
        rpcs_view(final(rpcs)@) == unmarked(rpcs_view(old(rpcs)@)),
{
    let ghost all = rpcs_view(rpcs@);
    let mut kept: Vec<Rpc> = Vec::new();
    let mut i: usize = 0;
    while i < rpcs.len()
        invariant
            i <= rpcs@.len(),
            all == rpcs_view(rpcs@),
            rpcs_view(kept@) == unmarked(all.take(i as int)),
        decreases rpcs@.len() - i,
    {
        let ghost before = rpcs_view(kept@);
        proof {
            assert(all.take(i + 1).drop_last() =~= all.take(i as int));
        }
        if !rpcs[i].is_erroring() {
            kept.push(rpcs[i].clone());
            proof {
                assert(rpcs_view(kept@) =~= before.push(all[i as int]));
            }
        }
        i = i + 1;
    }
    proof {
        assert(all.take(i as int) =~= all);
    }
    *rpcs = kept;
}

/// Moves the nodes that fall behind the highest head from the active nodes to the poverty list.
/// Gives the highest head.
pub fn make_poverty(
    rpc_list: &mut Vec<Rpc>,
    poverty_list: &mut Vec<Rpc>,
    heads: &Vec<HeadResult>,
) -> (highest: u64)
    ensures
        ({
            let rpcs = rpcs_view(old(rpc_list)@);
            let poverty = rpcs_view(old(poverty_list)@);
            let (active, poor) = marked(rpcs, poverty, heads_view(heads@), highest);
            &&& highest == highest_head(rpcs, heads_view(heads@))
            &&& rpcs_view(final(rpc_list)@) == unmarked(active)
            &&& rpcs_view(final(poverty_list)@) == poor
        }),
{
    let ghost rpcs = rpcs_view(rpc_list@);
    let ghost poverty = rpcs_view(poverty_list@);
    let ghost all = heads_view(heads@);
    let highest: u64 = highest_reported(rpc_list, heads);
    let mut i: usize = 0;
    while i < heads.len()
        invariant
            i <= heads@.len(),
            all == heads_view(heads@),
            (rpcs_view(rpc_list@), rpcs_view(poverty_list@)) == marked(
                rpcs,
                poverty,
                all.take(i as int),
                highest,
            ),
        decreases heads@.len() - i,
    {
        let ghost active = rpcs_view(rpc_list@);
        let ghost poor = rpcs_view(poverty_list@);
        proof {
            assert(all.take(i + 1).drop_last() =~= all.take(i as int));
        }
        if heads[i].reported_head < highest || heads[i].is_syncing {
            if let Some(at) = find_rpc(rpc_list, &heads[i].rpc) {
                rpc_list[at].set_erroring(true);
                proof {
                    assert(rpcs_view(rpc_list@) =~= active.update(
                        at as int,
                        active[at as int].erroring(true),
                    ));
                }
                poverty_list.push(rpc_list[at].clone());
                proof {
                    assert(rpcs_view(poverty_list@) =~= poor.push(
                        active[at as int].erroring(true),
                    ));
                }
            }
        }
        i = i + 1;
    }
    proof {
        assert(all.take(i as int) =~= all);
    }
    retain_unmarked(rpc_list);
    highest
}

/// Active nodes and poverty list once the nodes that have caught up have moved over.
pub open spec fn recovered(
    rpcs: Seq<RpcView>,
    poverty: Seq<RpcView>,
    heads: Seq<HeadView>,
    agreed_head: u64,
) -> (Seq<RpcView>, Seq<RpcView>)
    decreases heads.len(),
{
    if heads.len() == 0 {
        (rpcs, poverty)
    } else {
        let (active, poor) = recovered(rpcs, poverty, heads.drop_last(), agreed_head);
        let head = heads.last();
        match first_listed(poor, head.rpc) {
            Some(at) => if !behind(head, agreed_head) {
                (active.push(poor[at].erroring(false)), poor.remove(at))
            } else {
                (active, poor)
            },
            None => (active, poor),
        }
    }
}

/// How the nodes are doing as a whole.
#[derive(Clone, Copy, PartialEq, Eq, Structural)]
pub enum HealthState {
    Healthy,
    MissingRpcs,
    Unhealthy,
}

/// A change for the monitor of the balancer's state.
#[derive(Clone, Copy, PartialEq, Eq, Structural)]
pub enum LiveReadyUpdate {
    Health(HealthState),
}

/// How `active` active nodes and `poor` others are doing as a whole.
pub open spec fn health_state(active: nat, poor: nat) -> HealthState {
    if active > 0 && poor == 0 {
        HealthState::Healthy
    } else if active > 0 {
        HealthState::MissingRpcs
    } else {
        HealthState::Unhealthy
    }
}

/// Moves the nodes that have caught up with `agreed_head` from the poverty list to the active
/// nodes. Gives how the nodes are doing afterwards.
pub fn escape_poverty(
    rpc_list: &mut Vec<Rpc>,
    poverty_list: &mut Vec<Rpc>,
    poverty_heads: &Vec<HeadResult>,
    agreed_head: u64,
) -> (update: LiveReadyUpdate)
    ensures
        ({
            let (active, poor) = recovered(
                rpcs_view(old(rpc_list)@),
                rpcs_view(old(poverty_list)@),
                heads_view(poverty_heads@),
                agreed_head,
            );
            &&& rpcs_view(final(rpc_list)@) == active
            &&& rpcs_view(final(poverty_list)@) == poor
            &&& update == LiveReadyUpdate::Health(health_state(active.len(), poor.len()))
        }),
{
    let ghost rpcs = rpcs_view(rpc_list@);
    let ghost poverty = rpcs_view(poverty_list@);
    let ghost all = heads_view(poverty_heads@);
    let mut i: usize = 0;
    while i < poverty_heads.len()
        invariant
            i <= poverty_heads@.len(),
            all == heads_view(poverty_heads@),
            (rpcs_view(rpc_list@), rpcs_view(poverty_list@)) == recovered(
                rpcs,
                poverty,
                all.take(i as int),
                agreed_head,
            ),
        decreases poverty_heads@.len() - i,
    {
        let ghost active = rpcs_view(rpc_list@);
        let ghost poor = rpcs_view(poverty_list@);
        proof {
            assert(all.take(i + 1).drop_last() =~= all.take(i as int));
        }
        let head = &poverty_heads[i];
        if head.reported_head >= agreed_head && !head.is_syncing {
            if let Some(at) = find_rpc(poverty_list, &head.rpc) {
                let mut rpc = poverty_list.remove(at);
                rpc.set_erroring(false);
                rpc_list.push(rpc);
                proof {
                    assert(rpcs_view(poverty_list@) =~= poor.remove(at as int));
                    assert(rpcs_view(rpc_list@) =~= active.push(
                        poor[at as int].erroring(false),
                    ));
                }
            }
        }
        i = i + 1;
    }
    proof {
        assert(all.take(i as int) =~= all);
        assert(rpcs_view(rpc_list@).len() == rpc_list@.len());
        assert(rpcs_view(poverty_list@).len() == poverty_list@.len());
    }
    let is_pov_empty = poverty_list.len() == 0;
    let is_rpc_empty = rpc_list.len() == 0;
    if !is_rpc_empty && is_pov_empty {
        LiveReadyUpdate::Health(HealthState::Healthy)
    } else if !is_pov_empty && !is_rpc_empty {
        LiveReadyUpdate::Health(HealthState::MissingRpcs)
    } else {
        LiveReadyUpdate::Health(HealthState::Unhealthy)
    }
}

/// Active nodes and poverty list once a node whose connection ended has moved over.
pub open spec fn dropped_view(
    rpcs: Seq<RpcView>,
    poverty: Seq<RpcView>,
    rpc: RpcView,
) -> (Seq<RpcView>, Seq<RpcView>) {
    match first_listed(rpcs, rpc) {
        Some(at) => (rpcs.remove(at), poverty.push(rpcs[at].erroring(true))),
        None => (rpcs, poverty),
    }
}

/// What is done about a connection that ended.
pub struct Dropped {
    /// Goes to the upstream connections.
    pub order: WsconnMessage,
    /// Once the order is sent, the subscriptions of the node in this slot are moved.
    pub slot: usize,
}

impl Dropped {
    /// Takes in whether the order could be sent. Gives the slot whose subscriptions are to be
    /// moved.
    pub fn ordered(&self, sent: bool) -> (slot: Result<usize, HealthError>)
        ensures
            slot == if sent {
                Ok::<usize, HealthError>(self.slot)
            } else {
                Err(HealthError::Unresponsive)
            },
    {
        if sent {
            Ok(self.slot)
        } else {
            Err(HealthError::Unresponsive)
        }
    }

    /// Takes in what came of moving the subscriptions.
    pub fn moved(&self, result: Result<(), WsError>) -> (handled: Result<(), HealthError>)
        ensures
            handled == match result {
                Ok(()) => Ok::<(), HealthError>(()),
                Err(error) => Err(HealthError::Websocket(error)),
            },
    {
        match result {
            Ok(()) => Ok(()),
            Err(error) => Err(HealthError::Websocket(error)),
        }
    }
}

/// Takes in the next report of a connection that ended. It is an error where reports end.
pub fn dropped_listener(report: Option<WsChannelErr>) -> (dropped: Result<
    WsChannelErr,
    HealthError,
>)
    ensures
        match report {
            Some(report) => dropped == Ok::<WsChannelErr, HealthError>(report),
            None => dropped matches Err(HealthError::InvalidResponse(text)) && text@
                == "Expected WsChannelErr!"@,
        },
{
    match report {
        Some(report) => Ok(report),
        None => Err(HealthError::InvalidResponse("Expected WsChannelErr!".to_owned())),
    }
}

/// Moves a node whose connection ended from the active nodes to the poverty list. Whether it was
/// active or not, the upstream connections are to connect again.
pub fn send_dropped_to_poverty(
    rpc_list: &mut Vec<Rpc>,
    poverty_list: &mut Vec<Rpc>,
    dropped: &WsChannelErr,
) -> (step: Dropped)
    ensures
        ({
            let WsChannelErr::Closed(index, rpc) = *dropped;
            &&& step == (Dropped { order: WsconnMessage::Reconnect(), slot: index })
            &&& (rpcs_view(final(rpc_list)@), rpcs_view(final(poverty_list)@)) == dropped_view(
                rpcs_view(old(rpc_list)@),
                rpcs_view(old(poverty_list)@),
                rpc@,
            )
        }),
{
    let ghost active = rpcs_view(rpc_list@);
    let ghost poor = rpcs_view(poverty_list@);
    match dropped {
        WsChannelErr::Closed(index, dropped_rpc) => {
            if let Some(at) = find_rpc(rpc_list, dropped_rpc) {
                let mut rpc = rpc_list.remove(at);
                rpc.set_erroring(true);
                poverty_list.push(rpc);
                proof {
                    assert(rpcs_view(rpc_list@) =~= active.remove(at as int));
                    assert(rpcs_view(poverty_list@) =~= poor.push(
                        active[at as int].erroring(true),
                    ));
                }
            }
            Dropped { order: WsconnMessage::Reconnect(), slot: *index }
        },
    }
}

proof fn lemma_first_listed_bound(rpcs: Seq<RpcView>, rpc: RpcView)
    ensures
        first_listed(rpcs, rpc) matches Some(at) ==> 0 <= at < rpcs.len() && rpcs[at].same_endpoint(
            rpc,
        ),
    decreases rpcs.len(),
{
    if rpcs.len() > 0 {
        lemma_first_listed_bound(rpcs.drop_first(), rpc);
    }
}

proof fn lemma_unmarked_has(rpcs: Seq<RpcView>, i: int)
    requires
        0 <= i < rpcs.len(),
        !rpcs[i].status.is_erroring,
    ensures
        unmarked(rpcs).contains(rpcs[i]),
    decreases rpcs.len(),
{
    let shorter = rpcs.drop_last();
    if i == rpcs.len() - 1 {
        assert(unmarked(rpcs)[unmarked(rpcs).len() - 1] == rpcs[i]);
    } else {
        lemma_unmarked_has(shorter, i);
        let j = choose|j: int| 0 <= j < unmarked(shorter).len() && unmarked(shorter)[j] == rpcs[i];
        assert(unmarked(rpcs)[j] == rpcs[i]);
    }
}

proof fn lemma_marked(
    rpcs: Seq<RpcView>,
    poverty: Seq<RpcView>,
    heads: Seq<HeadView>,
    highest: u64,
    i: int,
)
    requires
        0 <= i < rpcs.len(),
    ensures
        ({
            let (active, poor) = marked(rpcs, poverty, heads, highest);
            &&& active.len() == rpcs.len()
            &&& active[i] == rpcs[i] || (active[i] == rpcs[i].erroring(true) && poor.contains(
                active[i],
            ))
            &&& poverty.is_prefix_of(poor)
        }),
    decreases heads.len(),
{
    if heads.len() > 0 {
        let (active, poor) = marked(rpcs, poverty, heads.drop_last(), highest);
        lemma_marked(rpcs, poverty, heads.drop_last(), highest, i);
        lemma_first_listed_bound(active, heads.last().rpc);
        let (after, poorer) = marked(rpcs, poverty, heads, highest);
        if let Some(at) = first_listed(active, heads.last().rpc) {
            if behind(heads.last(), highest) {
                assert(poverty.is_prefix_of(poorer)) by {
                    assert(poverty =~= poorer.take(poverty.len() as int));
                }
                assert(poorer[poor.len() as int] == active[at].erroring(true));
                assert(rpcs[i].erroring(true).erroring(true) == rpcs[i].erroring(true));
                if poor.contains(active[i]) {
                    let j = choose|j: int| 0 <= j < poor.len() && poor[j] == active[i];
                    assert(poorer[j] == active[i]);
                }
            }
        }
    }
}

/// Checking the active nodes loses none: each stays, or moves to the poverty list. No node leaves
/// the poverty list by it.
pub proof fn law_poverty_loses_no_node(
    rpcs: Seq<RpcView>,
    poverty: Seq<RpcView>,
    heads: Seq<HeadView>,
    i: int,
)
    requires
        0 <= i < rpcs.len(),
        !rpcs[i].status.is_erroring,
    ensures
        ({
            let (active, poor) = marked(rpcs, poverty, heads, highest_head(rpcs, heads));
            &&& unmarked(active).contains(rpcs[i]) || poor.contains(rpcs[i].erroring(true))
            &&& poverty.is_prefix_of(poor)
        }),
{
    let highest = highest_head(rpcs, heads);
    let (active, poor) = marked(rpcs, poverty, heads, highest);
    lemma_marked(rpcs, poverty, heads, highest, i);
    if active[i] == rpcs[i] {
        lemma_unmarked_has(active, i);
    }
}

/// After a check every active node is unmarked, and is one of those that the check left as they
/// were.
pub proof fn law_active_nodes_are_unmarked(rpcs: Seq<RpcView>, i: int)
    requires
        0 <= i < unmarked(rpcs).len(),
    ensures
        !unmarked(rpcs)[i].status.is_erroring,
        rpcs.contains(unmarked(rpcs)[i]),
    decreases rpcs.len(),
{
    let shorter = rpcs.drop_last();
    if i < unmarked(shorter).len() {
        law_active_nodes_are_unmarked(shorter, i);
        let j = choose|j: int| 0 <= j < shorter.len() && shorter[j] == unmarked(shorter)[i];
        assert(rpcs[j] == unmarked(rpcs)[i]);
    } else {
        assert(rpcs[rpcs.len() - 1] == unmarked(rpcs)[i]);
    }
}

/// Recovery moves nodes over and loses none: as many nodes are there as before, no active node
/// leaves, and each node of the poverty list stays or becomes active.
pub proof fn law_recovery_loses_no_node(
    rpcs: Seq<RpcView>,
    poverty: Seq<RpcView>,
    heads: Seq<HeadView>,
    agreed_head: u64,
    i: int,
)
    requires
        0 <= i < poverty.len(),
    ensures
        ({
            let (active, poor) = recovered(rpcs, poverty, heads, agreed_head);
            &&& active.len() + poor.len() == rpcs.len() + poverty.len()
            &&& rpcs.is_prefix_of(active)
            &&& poor.contains(poverty[i]) || active.contains(poverty[i].erroring(false))
        }),
    decreases heads.len(),
{
    if heads.len() == 0 {
        assert(rpcs =~= rpcs.take(rpcs.len() as int));
        assert(poverty.contains(poverty[i]));
    } else {
        let (active, poor) = recovered(rpcs, poverty, heads.drop_last(), agreed_head);
        law_recovery_loses_no_node(rpcs, poverty, heads.drop_last(), agreed_head, i);
        lemma_first_listed_bound(poor, heads.last().rpc);
        let (more, fewer) = recovered(rpcs, poverty, heads, agreed_head);
        if let Some(at) = first_listed(poor, heads.last().rpc) {
            if !behind(heads.last(), agreed_head) {
                assert(rpcs =~= more.take(rpcs.len() as int));
                if poor.contains(poverty[i]) {
                    let j = choose|j: int| 0 <= j < poor.len() && poor[j] == poverty[i];
                    if j < at {
                        assert(fewer[j] == poverty[i]);
                    } else if j > at {
                        assert(fewer[j - 1] == poverty[i]);
                    } else {
                        assert(more[active.len() as int] == poverty[i].erroring(false));
                    }
                } else {
                    let j = choose|j: int|
                        0 <= j < active.len() && active[j] == poverty[i].erroring(false);
                    assert(more[j] == active[j]);
                }
            }
        }
    }
}

/// A node whose connection ended is moved, never lost, and no other node is touched.
pub proof fn law_dropped_node_is_moved(rpcs: Seq<RpcView>, poverty: Seq<RpcView>, rpc: RpcView)
    ensures
        ({
            let (active, poor) = dropped_view(rpcs, poverty, rpc);
            &&& active.len() + poor.len() == rpcs.len() + poverty.len()
            &&& match first_listed(rpcs, rpc) {
                Some(at) => {
                    &&& 0 <= at < rpcs.len()
                    &&& rpcs[at].same_endpoint(rpc)
                    &&& poor == poverty.push(rpcs[at].erroring(true))
                    &&& active == rpcs.remove(at)
                },
                None => active == rpcs && poor == poverty,
            }
        }),
{
    lemma_first_listed_bound(rpcs, rpc);
}

/// No two nodes of a list stand at one address.
pub open spec fn distinct_nodes(rpcs: Seq<RpcView>) -> bool {
    forall|i: int, j: int|
        0 <= i < rpcs.len() && 0 <= j < rpcs.len() && i != j ==> !(
        #[trigger] rpcs[i]).same_endpoint(#[trigger] rpcs[j])
}

/// Whether some head says that a node falls behind.
pub open spec fn reported_behind(heads: Seq<HeadView>, rpc: RpcView, highest: u64) -> bool {
    exists|i: int|
        0 <= i < heads.len() && (#[trigger] heads[i]).rpc.same_endpoint(rpc) && behind(
            heads[i],
            highest,
        )
}

proof fn lemma_listed_at(rpcs: Seq<RpcView>, rpc: RpcView, i: int)
    requires
        distinct_nodes(rpcs),
        0 <= i < rpcs.len(),
    ensures
        first_listed(rpcs, rpc) == Some(i) <==> rpcs[i].same_endpoint(rpc),
{
    lemma_first_listed_bound(rpcs, rpc);
    if rpcs[i].same_endpoint(rpc) {
        assert forall|j: int| 0 <= j < i implies !(#[trigger] rpcs[j]).same_endpoint(rpc) by {
            assert(!rpcs[j].same_endpoint(rpcs[i]));
        }
        crate::websocket::connections::lemma_first_listed(rpcs, rpc, i);
    }
}

proof fn lemma_marked_iff_behind(
    rpcs: Seq<RpcView>,
    poverty: Seq<RpcView>,
    heads: Seq<HeadView>,
    highest: u64,
    i: int,
)
    requires
        distinct_nodes(rpcs),
        0 <= i < rpcs.len(),
    ensures
        ({
            let (active, poor) = marked(rpcs, poverty, heads, highest);
            &&& active.len() == rpcs.len()
            &&& distinct_nodes(active)
            &&& active[i] == if reported_behind(heads, rpcs[i], highest) {
                rpcs[i].erroring(true)
            } else {
                rpcs[i]
            }
        }),
    decreases heads.len(),
{
    if heads.len() > 0 {
        let shorter = heads.drop_last();
        let head = heads.last();
        let (active, poor) = marked(rpcs, poverty, shorter, highest);
        let (after, poorer) = marked(rpcs, poverty, heads, highest);
        lemma_marked_iff_behind(rpcs, poverty, shorter, highest, i);
        lemma_first_listed_bound(active, head.rpc);
        lemma_listed_at(active, head.rpc, i);
        assert(heads[heads.len() - 1] == head);
        assert forall|j: int| 0 <= j < shorter.len() implies heads[j] == #[trigger] shorter[j] by {}
        if reported_behind(shorter, rpcs[i], highest) {
            let j = choose|j: int|
                0 <= j < shorter.len() && (#[trigger] shorter[j]).rpc.same_endpoint(rpcs[i])
                    && behind(shorter[j], highest);
            assert(heads[j].rpc.same_endpoint(rpcs[i]));
        }
        if reported_behind(heads, rpcs[i], highest) && !reported_behind(
            shorter,
            rpcs[i],
            highest,
        ) {
            let j = choose|j: int|
                0 <= j < heads.len() && (#[trigger] heads[j]).rpc.same_endpoint(rpcs[i]) && behind(
                    heads[j],
                    highest,
                );
            if j < shorter.len() {
                assert(shorter[j].rpc.same_endpoint(rpcs[i]));
            }
        }
        assert forall|a: int, b: int|
            0 <= a < after.len() && 0 <= b < after.len() && a != b implies !(
        #[trigger] after[a]).same_endpoint(#[trigger] after[b]) by {
            assert(!active[a].same_endpoint(active[b]));
        }
    }
}

/// Where no two active nodes stand at one address, exactly those leave that some head says are
/// behind the highest head, or catching up.
pub proof fn law_exactly_nodes_behind_leave(
    rpcs: Seq<RpcView>,
    poverty: Seq<RpcView>,
    heads: Seq<HeadView>,
    i: int,
)
    requires
        distinct_nodes(rpcs),
        0 <= i < rpcs.len(),
        !rpcs[i].status.is_erroring,
    ensures
        ({
            let highest = highest_head(rpcs, heads);
            let (active, poor) = marked(rpcs, poverty, heads, highest);
            unmarked(active).contains(rpcs[i]) <==> !reported_behind(heads, rpcs[i], highest)
        }),
{
    let highest = highest_head(rpcs, heads);
    let (active, poor) = marked(rpcs, poverty, heads, highest);
    lemma_marked_iff_behind(rpcs, poverty, heads, highest, i);
    if !reported_behind(heads, rpcs[i], highest) {
        lemma_unmarked_has(active, i);
    } else if unmarked(active).contains(rpcs[i]) {
        let k = choose|k: int| 0 <= k < unmarked(active).len() && unmarked(active)[k] == rpcs[i];
        law_active_nodes_are_unmarked(active, k);
        let j = choose|j: int| 0 <= j < active.len() && active[j] == rpcs[i];
        if j != i {
            assert(!active[j].same_endpoint(active[i]));
        }
    }
}

/// What a probe of a node says: the number that it reports, zero where it reports none, and whether
/// it is catching up, which counts as so where it does not say.
pub proof fn law_head_is_what_the_node_says(
    rpc: Rpc,
    probe: Option<(Option<u64>, Option<bool>)>,
    head: HeadResult,
)
    requires
        call_ensures(head_check, (rpc, probe), head),
    ensures
        head.rpc@ == rpc@,
        probe is None ==> head.reported_head == 0 && head.is_syncing,
        probe is Some && (probe->0).0 is Some ==> head.reported_head == ((probe->0).0)->0,
        probe is Some && (probe->0).0 is None ==> head.reported_head == 0,
        probe is Some && (probe->0).1 is Some ==> head.is_syncing == ((probe->0).1)->0,
        probe is Some && (probe->0).1 is None ==> head.is_syncing,
{
}

proof fn lemma_highest_head(rpcs: Seq<RpcView>, heads: Seq<HeadView>)
    ensures
        forall|i: int|
            0 <= i < heads.len() && listed(rpcs, (#[trigger] heads[i]).rpc)
                ==> heads[i].reported_head <= highest_head(rpcs, heads),
        highest_head(rpcs, heads) == 0 || exists|i: int|
            0 <= i < heads.len() && listed(rpcs, (#[trigger] heads[i]).rpc)
                && heads[i].reported_head == highest_head(rpcs, heads),
    decreases heads.len(),
{
    if heads.len() > 0 {
        let shorter = heads.drop_last();
        lemma_highest_head(rpcs, shorter);
        assert(heads[heads.len() - 1] == heads.last());
        assert forall|i: int|
            0 <= i < heads.len() && listed(
                rpcs,
                (#[trigger] heads[i]).rpc,
            ) implies heads[i].reported_head <= highest_head(rpcs, heads) by {
            if i < shorter.len() {
                assert(shorter[i] == heads[i]);
            }
        }
        if highest_head(rpcs, heads) != 0 && highest_head(rpcs, heads) == highest_head(
            rpcs,
            shorter,
        ) {
            let i = choose|i: int|
                0 <= i < shorter.len() && listed(rpcs, (#[trigger] shorter[i]).rpc)
                    && shorter[i].reported_head == highest_head(rpcs, shorter);
            assert(heads[i] == shorter[i]);
        }
    }
}

/// The highest head is the highest that a node of the list reports: no node of the list reports a
/// higher one, and one of them reports it, unless it is zero.
pub proof fn law_highest_head_is_the_highest_reported(
    rpc_list: &mut Vec<Rpc>,
    poverty_list: &mut Vec<Rpc>,
    heads: &Vec<HeadResult>,
    highest: u64,
)
    requires
        call_ensures(make_poverty, (rpc_list, poverty_list, heads), highest),
    ensures
        forall|i: int, j: int|
            0 <= i < heads@.len() && 0 <= j < old(rpc_list)@.len() && (
            #[trigger] old(rpc_list)@[j])@.same_endpoint((#[trigger] heads@[i]).rpc@)
                ==> heads@[i].reported_head <= highest,
        highest == 0 || exists|i: int, j: int|
            0 <= i < heads@.len() && 0 <= j < old(rpc_list)@.len() && (
            #[trigger] old(rpc_list)@[j])@.same_endpoint((#[trigger] heads@[i]).rpc@)
                && heads@[i].reported_head == highest,
{
    let rpcs = rpcs_view(old(rpc_list)@);
    let views = heads_view(heads@);
    lemma_highest_head(rpcs, views);
    assert forall|i: int, j: int|
        0 <= i < heads@.len() && 0 <= j < old(rpc_list)@.len() && (
        #[trigger] old(rpc_list)@[j])@.same_endpoint(
            (#[trigger] heads@[i]).rpc@,
        ) implies heads@[i].reported_head <= highest by {
        assert(rpcs[j].same_endpoint(views[i].rpc));
        assert(listed(rpcs, views[i].rpc));
    }
    if highest != 0 {
        let i = choose|i: int|
            0 <= i < views.len() && listed(rpcs, (#[trigger] views[i]).rpc)
                && views[i].reported_head == highest;
        let j = choose|j: int|
            0 <= j < rpcs.len() && (#[trigger] rpcs[j]).same_endpoint(views[i].rpc);
        assert(old(rpc_list)@[j]@.same_endpoint(heads@[i].rpc@));
    }
}

proof fn lemma_unmarked_filters(
    rpcs: Seq<RpcView>,
    active: Seq<RpcView>,
    leaves: spec_fn(RpcView) -> bool,
)
    requires
        active.len() == rpcs.len(),
        forall|i: int|
            0 <= i < rpcs.len() ==> #[trigger] active[i] == if leaves(rpcs[i]) {
                rpcs[i].erroring(true)
            } else {
                rpcs[i]
            },
    ensures
        unmarked(active) == rpcs.filter(|rpc: RpcView| !rpc.status.is_erroring && !leaves(rpc)),
    decreases rpcs.len(),
{
    reveal(Seq::filter);
    if rpcs.len() > 0 {
        let shorter = rpcs.drop_last();
        assert forall|i: int| 0 <= i < shorter.len() implies #[trigger] active.drop_last()[i]
            == if leaves(shorter[i]) {
            shorter[i].erroring(true)
        } else {
            shorter[i]
        } by {
            assert(active.drop_last()[i] == active[i]);
            assert(shorter[i] == rpcs[i]);
        }
        lemma_unmarked_filters(shorter, active.drop_last(), leaves);
        assert(active[active.len() - 1] == active.last());
        assert(rpcs[rpcs.len() - 1] == rpcs.last());
    }
}

/// After a check exactly those nodes are active, in the order in which they were, that were not
/// marked and that no head says are behind: that no head at their address is lower than the highest
/// or says that the node is catching up. This holds where no two active nodes stand at one address.
pub proof fn law_active_nodes_are_those_not_behind(
    rpc_list: &mut Vec<Rpc>,
    poverty_list: &mut Vec<Rpc>,
    heads: &Vec<HeadResult>,
    highest: u64,
)
    requires
        distinct_nodes(rpcs_view(old(rpc_list)@)),
        call_ensures(make_poverty, (rpc_list, poverty_list, heads), highest),
    ensures
        rpcs_view(final(rpc_list)@) == rpcs_view(old(rpc_list)@).filter(
            |rpc: RpcView|
                !rpc.status.is_erroring && forall|i: int|
                    0 <= i < heads@.len() && (#[trigger] heads@[i]).rpc@.same_endpoint(rpc)
                        ==> heads@[i].reported_head >= highest && !heads@[i].is_syncing,
        ),
{
    let rpcs = rpcs_view(old(rpc_list)@);
    let poverty = rpcs_view(old(poverty_list)@);
    let views = heads_view(heads@);
    let (active, poor) = marked(rpcs, poverty, views, highest);
    let leaves = |rpc: RpcView| reported_behind(views, rpc, highest);
    assert forall|i: int| 0 <= i < rpcs.len() implies #[trigger] active[i] == if leaves(rpcs[i]) {
        rpcs[i].erroring(true)
    } else {
        rpcs[i]
    } by {
        lemma_marked_iff_behind(rpcs, poverty, views, highest, i);
    }
    if rpcs.len() > 0 {
        lemma_marked_iff_behind(rpcs, poverty, views, highest, 0);
    } else {
        lemma_marked_keeps_length(rpcs, poverty, views, highest);
    }
    lemma_unmarked_filters(rpcs, active, leaves);
    let first = |rpc: RpcView| !rpc.status.is_erroring && !leaves(rpc);
    let second = |rpc: RpcView|
        !rpc.status.is_erroring && forall|i: int|
            0 <= i < heads@.len() && (#[trigger] heads@[i]).rpc@.same_endpoint(rpc)
                ==> heads@[i].reported_head >= highest && !heads@[i].is_syncing;
    assert forall|rpc: RpcView| #[trigger] first(rpc) == second(rpc) by {
        if leaves(rpc) {
            let i = choose|i: int|
                0 <= i < views.len() && (#[trigger] views[i]).rpc.same_endpoint(rpc) && behind(
                    views[i],
                    highest,
                );
            assert(views[i] == heads@[i]@);
            assert(heads@[i].rpc@.same_endpoint(rpc));
        } else {
            assert forall|i: int|
                0 <= i < heads@.len() && (#[trigger] heads@[i]).rpc@.same_endpoint(
                    rpc,
                ) implies heads@[i].reported_head >= highest && !heads@[i].is_syncing by {
                assert(views[i] == heads@[i]@);
                assert(views[i].rpc.same_endpoint(rpc));
            }
        }
    }
    assert(first =~= second);
}

proof fn lemma_marked_keeps_length(
    rpcs: Seq<RpcView>,
    poverty: Seq<RpcView>,
    heads: Seq<HeadView>,
    highest: u64,
)
    ensures
        marked(rpcs, poverty, heads, highest).0.len() == rpcs.len(),
        forall|i: int|
            0 <= i < rpcs.len() ==> (#[trigger] marked(rpcs, poverty, heads, highest).0[i])
                == rpcs[i] || marked(rpcs, poverty, heads, highest).0[i] == rpcs[i].erroring(true),
    decreases heads.len(),
{
    if heads.len() > 0 {
        let shorter = heads.drop_last();
        lemma_marked_keeps_length(rpcs, poverty, shorter, highest);
        let (active, poor) = marked(rpcs, poverty, shorter, highest);
        lemma_first_listed_bound(active, heads.last().rpc);
        let (after, poorer) = marked(rpcs, poverty, heads, highest);
        assert forall|i: int| 0 <= i < rpcs.len() implies (#[trigger] after[i]) == rpcs[i]
            || after[i] == rpcs[i].erroring(true) by {
            assert(active[i] == rpcs[i] || active[i] == rpcs[i].erroring(true));
        }
    }
}

proof fn lemma_first_listed_by_address(a: Seq<RpcView>, b: Seq<RpcView>, rpc: RpcView)
    requires
        a.len() == b.len(),
        forall|i: int|
            0 <= i < a.len() ==> (#[trigger] a[i]).same_endpoint(rpc) == b[i].same_endpoint(rpc),
    ensures
        first_listed(a, rpc) == first_listed(b, rpc),
    decreases a.len(),
{
    if a.len() > 0 {
        assert(a[0].same_endpoint(rpc) == b[0].same_endpoint(rpc));
        let (x, y) = (a.drop_first(), b.drop_first());
        assert forall|i: int| 0 <= i < x.len() implies (#[trigger] x[i]).same_endpoint(rpc)
            == y[i].same_endpoint(rpc) by {
            assert(x[i] == a[i + 1] && y[i] == b[i + 1]);
        }
        lemma_first_listed_by_address(x, y, rpc);
    }
}

/// The node of a list that a head is about: the first one at its address.
pub open spec fn meant_node(rpcs: Seq<RpcView>, head: HeadView) -> Option<RpcView> {
    match first_listed(rpcs, head.rpc) {
        Some(at) => Some(rpcs[at]),
        None => None,
    }
}

proof fn lemma_poverty_gets(
    rpcs: Seq<RpcView>,
    poverty: Seq<RpcView>,
    heads: Seq<HeadView>,
    highest: u64,
)
    ensures
        marked(rpcs, poverty, heads, highest).1 == poverty + heads.filter(
            |head: HeadView|
                meant_node(rpcs, head) is Some && (head.reported_head < highest || head.is_syncing),
        ).map_values(|head: HeadView| meant_node(rpcs, head)->0.erroring(true)),
    decreases heads.len(),
{
    reveal(Seq::filter);
    let leaves = |head: HeadView|
        meant_node(rpcs, head) is Some && (head.reported_head < highest || head.is_syncing);
    let node = |head: HeadView| meant_node(rpcs, head)->0.erroring(true);
    if heads.len() == 0 {
        assert(poverty + heads.filter(leaves).map_values(node) =~= poverty);
    } else {
        let shorter = heads.drop_last();
        let head = heads.last();
        lemma_poverty_gets(rpcs, poverty, shorter, highest);
        lemma_marked_keeps_length(rpcs, poverty, shorter, highest);
        let (active, poor) = marked(rpcs, poverty, shorter, highest);
        assert forall|i: int| 0 <= i < active.len() implies (#[trigger] active[i]).same_endpoint(
            head.rpc,
        ) == rpcs[i].same_endpoint(head.rpc) by {
            assert(active[i] == rpcs[i] || active[i] == rpcs[i].erroring(true));
        }
        lemma_first_listed_by_address(active, rpcs, head.rpc);
        lemma_first_listed_bound(active, head.rpc);
        if leaves(head) {
            let at = first_listed(active, head.rpc)->0;
            assert(active[at].erroring(true) == rpcs[at].erroring(true));
            assert(heads.filter(leaves) == shorter.filter(leaves).push(head));
            assert(poor.push(node(head)) =~= poverty + heads.filter(leaves).map_values(node));
        } else {
            assert(heads.filter(leaves) == shorter.filter(leaves));
        }
    }
}

/// What a check adds to the poverty list: for each head, in order, that is lower than the highest
/// or says that its node is catching up, the active node that it is about, marked. What was on the
/// list stays.
pub proof fn law_nodes_behind_join_poverty(
    rpc_list: &mut Vec<Rpc>,
    poverty_list: &mut Vec<Rpc>,
    heads: &Vec<HeadResult>,
    highest: u64,
)
    requires
        call_ensures(make_poverty, (rpc_list, poverty_list, heads), highest),
    ensures
        ({
            let rpcs = rpcs_view(old(rpc_list)@);
            rpcs_view(final(poverty_list)@) == rpcs_view(old(poverty_list)@) + heads_view(
                heads@,
            ).filter(
                |head: HeadView|
                    meant_node(rpcs, head) is Some && (head.reported_head < highest
                        || head.is_syncing),
            ).map_values(|head: HeadView| meant_node(rpcs, head)->0.erroring(true))
        }),
{
    lemma_poverty_gets(
        rpcs_view(old(rpc_list)@),
        rpcs_view(old(poverty_list)@),
        heads_view(heads@),
        highest,
    );
}

/// Whether some head says that a node has caught up.
pub open spec fn reported_caught_up(heads: Seq<HeadView>, rpc: RpcView, agreed_head: u64) -> bool {
    exists|i: int|
        0 <= i < heads.len() && (#[trigger] heads[i]).rpc.same_endpoint(rpc)
            && heads[i].reported_head >= agreed_head && !heads[i].is_syncing
}

/// Whether a node is one of the poverty list that has caught up, unmarked.
spec fn came_over(
    poverty: Seq<RpcView>,
    heads: Seq<HeadView>,
    agreed_head: u64,
    node: RpcView,
) -> bool {
    exists|rpc: RpcView| #[trigger]
        poverty.contains(rpc) && reported_caught_up(heads, rpc, agreed_head) && node
            == rpc.erroring(false)
}

proof fn lemma_recovered(
    rpcs: Seq<RpcView>,
    poverty: Seq<RpcView>,
    heads: Seq<HeadView>,
    agreed_head: u64,
)
    requires
        distinct_nodes(poverty),
    ensures
        ({
            let (active, poor) = recovered(rpcs, poverty, heads, agreed_head);
            &&& distinct_nodes(poor)
            &&& forall|rpc: RpcView| #[trigger]
                poor.contains(rpc) <==> poverty.contains(rpc) && !reported_caught_up(
                    heads,
                    rpc,
                    agreed_head,
                )
            &&& rpcs.is_prefix_of(active)
            &&& forall|k: int|
                rpcs.len() <= k < active.len() ==> came_over(
                    poverty,
                    heads,
                    agreed_head,
                    #[trigger] active[k],
                )
        }),
    decreases heads.len(),
{
    if heads.len() > 0 {
        let shorter = heads.drop_last();
        let head = heads.last();
        lemma_recovered(rpcs, poverty, shorter, agreed_head);
        let (active, poor) = recovered(rpcs, poverty, shorter, agreed_head);
        let (after, left) = recovered(rpcs, poverty, heads, agreed_head);
        lemma_first_listed_bound(poor, head.rpc);
        assert(heads[heads.len() - 1] == head);
        assert forall|rpc: RpcView|
            reported_caught_up(heads, rpc, agreed_head) <==> #[trigger] reported_caught_up(
                shorter,
                rpc,
                agreed_head,
            ) || (head.rpc.same_endpoint(rpc) && head.reported_head >= agreed_head
                && !head.is_syncing) by {
            if reported_caught_up(shorter, rpc, agreed_head) {
                let i = choose|i: int|
                    0 <= i < shorter.len() && (#[trigger] shorter[i]).rpc.same_endpoint(rpc)
                        && shorter[i].reported_head >= agreed_head && !shorter[i].is_syncing;
                assert(heads[i] == shorter[i]);
            }
            if reported_caught_up(heads, rpc, agreed_head) {
                let i = choose|i: int|
                    0 <= i < heads.len() && (#[trigger] heads[i]).rpc.same_endpoint(rpc)
                        && heads[i].reported_head >= agreed_head && !heads[i].is_syncing;
                if i < shorter.len() {
                    assert(shorter[i] == heads[i]);
                }
            }
        }
        let caught_up = head.reported_head >= agreed_head && !head.is_syncing;
        let found = first_listed(poor, head.rpc);
        assert forall|i: int| 0 <= i < poor.len() implies ((#[trigger] poor[i]).same_endpoint(
            head.rpc,
        ) <==> found == Some(i)) by {
            lemma_listed_at(poor, head.rpc, i);
        }
        if found is Some && caught_up {
            let at = found->0;
            assert forall|a: int, b: int|
                0 <= a < left.len() && 0 <= b < left.len() && a != b implies !(
            #[trigger] left[a]).same_endpoint(#[trigger] left[b]) by {
                let x = if a < at { a } else { a + 1 };
                let y = if b < at { b } else { b + 1 };
                assert(left[a] == poor[x] && left[b] == poor[y]);
            }
            assert forall|rpc: RpcView| #[trigger]
                left.contains(rpc) <==> poverty.contains(rpc) && !reported_caught_up(
                    heads,
                    rpc,
                    agreed_head,
                ) by {
                assert(poor.contains(rpc) <==> poverty.contains(rpc) && !reported_caught_up(
                    shorter,
                    rpc,
                    agreed_head,
                ));
                if left.contains(rpc) {
                    let a = choose|a: int| 0 <= a < left.len() && left[a] == rpc;
                    let x = if a < at { a } else { a + 1 };
                    assert(poor[x] == rpc);
                    assert(poor.contains(rpc));
                    assert(!poor[x].same_endpoint(head.rpc));
                }
                if poor.contains(rpc) && !head.rpc.same_endpoint(rpc) {
                    let x = choose|x: int| 0 <= x < poor.len() && poor[x] == rpc;
                    let a = if x < at { x } else { x - 1 };
                    assert(x != at);
                    assert(left[a] == rpc);
                }
            }
            assert(poor.contains(poor[at]));
            assert(reported_caught_up(shorter, poor[at], agreed_head) || head.rpc.same_endpoint(
                poor[at],
            ));
        } else {
            assert forall|rpc: RpcView| #[trigger]
                left.contains(rpc) <==> poverty.contains(rpc) && !reported_caught_up(
                    heads,
                    rpc,
                    agreed_head,
                ) by {
                assert(poor.contains(rpc) <==> poverty.contains(rpc) && !reported_caught_up(
                    shorter,
                    rpc,
                    agreed_head,
                ));
                if poor.contains(rpc) && caught_up {
                    let x = choose|x: int| 0 <= x < poor.len() && poor[x] == rpc;
                    assert(!poor[x].same_endpoint(head.rpc));
                }
            }
        }
        assert forall|k: int| rpcs.len() <= k < after.len() implies came_over(
            poverty,
            heads,
            agreed_head,
            #[trigger] after[k],
        ) by {
            if k < active.len() {
                assert(came_over(poverty, shorter, agreed_head, active[k]));
                let rpc = choose|rpc: RpcView| #[trigger]
                    poverty.contains(rpc) && reported_caught_up(shorter, rpc, agreed_head)
                        && active[k] == rpc.erroring(false);
                assert(reported_caught_up(heads, rpc, agreed_head));
                assert(poverty.contains(rpc));
            } else {
                let rpc = poor[found->0];
                assert(poor.contains(rpc));
                assert(poverty.contains(rpc));
                assert(reported_caught_up(shorter, rpc, agreed_head) || head.rpc.same_endpoint(rpc));
                assert(after[k] == rpc.erroring(false));
            }
        }
    }
}

/// Recovery moves exactly the nodes that have caught up: a node leaves the poverty list where some
/// head at its address has reached the agreed one and does not say that the node is catching up,
/// and comes back unmarked behind the active nodes, none of which is touched. This holds where no
/// two nodes of the poverty list stand at one address.
pub proof fn law_exactly_nodes_that_caught_up_recover(
    rpc_list: &mut Vec<Rpc>,
    poverty_list: &mut Vec<Rpc>,
    heads: &Vec<HeadResult>,
    agreed_head: u64,
    update: LiveReadyUpdate,
    i: int,
)
    requires
        distinct_nodes(rpcs_view(old(poverty_list)@)),
        0 <= i < old(poverty_list)@.len(),
        call_ensures(escape_poverty, (rpc_list, poverty_list, heads, agreed_head), update),
    ensures
        ({
            let node = old(poverty_list)@[i]@;
            let active = rpcs_view(final(rpc_list)@);
            let poor = rpcs_view(final(poverty_list)@);
            let caught_up = exists|k: int|
                0 <= k < heads@.len() && (#[trigger] heads@[k]).rpc@.same_endpoint(node)
                    && heads@[k].reported_head >= agreed_head && !heads@[k].is_syncing;
            &&& rpcs_view(old(rpc_list)@).is_prefix_of(active)
            &&& poor.contains(node) <==> !caught_up
            &&& caught_up ==> active.contains(node.erroring(false))
            &&& active.len() + poor.len() == old(rpc_list)@.len() + old(poverty_list)@.len()
        }),
{
    let rpcs = rpcs_view(old(rpc_list)@);
    let poverty = rpcs_view(old(poverty_list)@);
    let views = heads_view(heads@);
    let node = old(poverty_list)@[i]@;
    assert(poverty[i] == node);
    assert(poverty.contains(node));
    lemma_recovered(rpcs, poverty, views, agreed_head);
    law_recovery_loses_no_node(rpcs, poverty, views, agreed_head, i);
    assert(rpcs.len() == old(rpc_list)@.len());
    if reported_caught_up(views, node, agreed_head) {
        let k = choose|k: int|
            0 <= k < views.len() && (#[trigger] views[k]).rpc.same_endpoint(node)
                && views[k].reported_head >= agreed_head && !views[k].is_syncing;
        assert(heads@[k].rpc@.same_endpoint(node));
    }
    if exists|k: int|
        0 <= k < heads@.len() && (#[trigger] heads@[k]).rpc@.same_endpoint(node)
            && heads@[k].reported_head >= agreed_head && !heads@[k].is_syncing {
        let k = choose|k: int|
            0 <= k < heads@.len() && (#[trigger] heads@[k]).rpc@.same_endpoint(node)
                && heads@[k].reported_head >= agreed_head && !heads@[k].is_syncing;
        assert(views[k].rpc.same_endpoint(node));
    }
}

/// Every node that recovery adds to the active ones comes from the poverty list, unmarked.
pub proof fn law_recovered_nodes_come_from_poverty(
    rpc_list: &mut Vec<Rpc>,
    poverty_list: &mut Vec<Rpc>,
    heads: &Vec<HeadResult>,
    agreed_head: u64,
    update: LiveReadyUpdate,
    k: int,
)
    requires
        distinct_nodes(rpcs_view(old(poverty_list)@)),
        call_ensures(escape_poverty, (rpc_list, poverty_list, heads, agreed_head), update),
        old(rpc_list)@.len() <= k < final(rpc_list)@.len(),
    ensures
        exists|i: int|
            0 <= i < old(poverty_list)@.len() && final(rpc_list)@[k]@ == (
            #[trigger] old(poverty_list)@[i])@.erroring(false),
{
    let rpcs = rpcs_view(old(rpc_list)@);
    let poverty = rpcs_view(old(poverty_list)@);
    let views = heads_view(heads@);
    lemma_recovered(rpcs, poverty, views, agreed_head);
    let active = rpcs_view(final(rpc_list)@);
    assert(rpcs.len() == old(rpc_list)@.len());
    assert(came_over(poverty, views, agreed_head, active[k]));
    let rpc = choose|rpc: RpcView| #[trigger]
        poverty.contains(rpc) && reported_caught_up(views, rpc, agreed_head) && active[k]
            == rpc.erroring(false);
    let i = choose|i: int| 0 <= i < poverty.len() && poverty[i] == rpc;
    assert(old(poverty_list)@[i]@ == rpc);
    assert(active[k] == final(rpc_list)@[k]@);
}

/// The balancer is healthy where some node is active and none is on the poverty list, misses nodes
/// where some is active and some is not, and is unhealthy where none is active.
pub proof fn law_health_goes_by_the_lists(
    rpc_list: &mut Vec<Rpc>,
    poverty_list: &mut Vec<Rpc>,
    heads: &Vec<HeadResult>,
    agreed_head: u64,
    update: LiveReadyUpdate,
)
    requires
        call_ensures(escape_poverty, (rpc_list, poverty_list, heads, agreed_head), update),
    ensures
        update == LiveReadyUpdate::Health(HealthState::Unhealthy) <==> final(rpc_list)@.len() == 0,
        update == LiveReadyUpdate::Health(HealthState::Healthy) <==> final(rpc_list)@.len() > 0
            && final(poverty_list)@.len() == 0,
        update == LiveReadyUpdate::Health(HealthState::MissingRpcs) <==> final(rpc_list)@.len() > 0
            && final(poverty_list)@.len() > 0,
{
    assert(rpcs_view(final(rpc_list)@).len() == final(rpc_list)@.len());
    assert(rpcs_view(final(poverty_list)@).len() == final(poverty_list)@.len());
}

/// A node whose connection ended leaves the active nodes for the end of the poverty list, marked;
/// the first one at its address does, and no other node is touched. Whether there was one or not,
/// the connections are to be made again, and the subscriptions of its slot are to be moved.
pub proof fn law_node_without_connection_leaves(
    rpc_list: &mut Vec<Rpc>,
    poverty_list: &mut Vec<Rpc>,
    dropped: &WsChannelErr,
    step: Dropped,
    at: int,
)
    requires
        call_ensures(send_dropped_to_poverty, (rpc_list, poverty_list, dropped), step),
    ensures
        ({
            let WsChannelErr::Closed(index, rpc) = *dropped;
            let before = rpcs_view(old(rpc_list)@);
            let poverty = rpcs_view(old(poverty_list)@);
            let after = rpcs_view(final(rpc_list)@);
            let poor = rpcs_view(final(poverty_list)@);
            &&& step.slot == index
            &&& step.order == WsconnMessage::Reconnect()
            &&& 0 <= at < before.len() && before[at].same_endpoint(rpc@) && (forall|i: int|
                0 <= i < at ==> !(#[trigger] before[i]).same_endpoint(rpc@)) ==> after
                == before.remove(at) && poor == poverty.push(before[at].erroring(true))
            &&& (forall|i: int|
                0 <= i < before.len() ==> !(#[trigger] before[i]).same_endpoint(rpc@)) ==> after
                == before && poor == poverty
        }),
{
    let WsChannelErr::Closed(index, rpc) = *dropped;
    let before = rpcs_view(old(rpc_list)@);
    if 0 <= at < before.len() && before[at].same_endpoint(rpc@) && forall|i: int|
        0 <= i < at ==> !(#[trigger] before[i]).same_endpoint(rpc@) {
        crate::websocket::connections::lemma_first_listed(before, rpc@, at);
    }
    if forall|i: int| 0 <= i < before.len() ==> !(#[trigger] before[i]).same_endpoint(rpc@) {
        crate::websocket::connections::lemma_first_listed(before, rpc@, before.len() as int);
    }
}

/// What comes of a connection that ended: the slot goes on where the order got through, and the
/// error of a failed move is passed on. The end of reports is an error.
pub proof fn law_dropped_connection_is_followed_up(
    dropped: &Dropped,
    sent: bool,
    slot: Result<usize, HealthError>,
    result: Result<(), WsError>,
    handled: Result<(), HealthError>,
    report: Option<WsChannelErr>,
    taken: Result<WsChannelErr, HealthError>,
)
    requires
        call_ensures(Dropped::ordered, (dropped, sent), slot),
        call_ensures(Dropped::moved, (dropped, result), handled),
        call_ensures(dropped_listener, (report,), taken),
    ensures
        sent ==> slot == Ok::<usize, HealthError>(dropped.slot),
        !sent ==> slot == Err::<usize, HealthError>(HealthError::Unresponsive),
        result is Ok ==> handled is Ok,
        result matches Err(error) ==> handled == Err::<(), HealthError>(
            HealthError::Websocket(error),
        ),
        report is Some ==> taken == Ok::<WsChannelErr, HealthError>(report->0),
        report is None ==> (taken matches Err(HealthError::InvalidResponse(text)) && text@
            == "Expected WsChannelErr!"@),
{
}

} // verus!
