//! Connections to upstream nodes.
//!
//! A connection keeps its slot for good: subscriptions refer to nodes by it. Opening sockets and
//! sending over them is done outside.

use crate::balancer::response_errors::{
    error_reply, law_errors_say_what_is_wrong, request_error,
};
use crate::json::{bytes_value, integer, parse_bytes, value_text, Json, JsonView};
use crate::rpc::types::{rpcs_view, Rpc, RpcView};
use crate::websocket::types::{IncomingResponse, WsChannelErr};
use vstd::prelude::*;

verus! {

/// The way to a node: there is none, its far end is gone, or it is open.
#[derive(Clone, Copy, PartialEq, Eq, Structural)]
pub enum Link {
    Absent,
    Closed,
    Open,
}

/// A slot for the connection to a node.
pub struct WsConnection {
    pub rpc: Rpc,
    pub sender: Link,
}

#[verifier::ext_equal]
pub struct ConnectionView {
    pub rpc: RpcView,
    pub sender: Link,
}

impl WsConnection {
    pub open spec fn view(&self) -> ConnectionView {
        ConnectionView { rpc: self.rpc@, sender: self.sender }
    }
}

/// What the slots say, in order.
pub open spec fn slots_view(handles: Seq<WsConnection>) -> Seq<ConnectionView> {
    Seq::new(handles.len(), |i: int| handles[i]@)
}

/// A slot and the node that it is for.
pub type SlotView = (usize, RpcView);

/// What a list of slots and nodes says.
pub open spec fn pairs_view(pairs: Seq<(usize, Rpc)>) -> Seq<SlotView> {
    Seq::new(pairs.len(), |i: int| (pairs[i].0, pairs[i].1@))
}

/// Whether a node stands in a list.
pub open spec fn listed(rpcs: Seq<RpcView>, rpc: RpcView) -> bool {
    exists|i: int| 0 <= i < rpcs.len() && (#[trigger] rpcs[i]).same_endpoint(rpc)
}

/// The first slot for a node; one past the last where there is none.
pub open spec fn first_slot(slots: Seq<ConnectionView>, rpc: RpcView) -> nat
    decreases slots.len(),
{
    if slots.len() == 0 || slots[0].rpc.same_endpoint(rpc) {
        0
    } else {
        1 + first_slot(slots.drop_first(), rpc)
    }
}

/// The slots once the links to nodes that are not listed any more are given up.
pub open spec fn pruned(slots: Seq<ConnectionView>, rpcs: Seq<RpcView>) -> Seq<ConnectionView> {
    Seq::new(
        slots.len(),
        |i: int|
            if listed(rpcs, slots[i].rpc) {
                slots[i]
            } else {
                ConnectionView { sender: Link::Absent, ..slots[i] }
            },
    )
}

/// The slots whose open links are given up.
pub open spec fn given_up(slots: Seq<ConnectionView>, rpcs: Seq<RpcView>) -> Seq<SlotView>
    decreases slots.len(),
{
    if slots.len() == 0 {
        Seq::empty()
    } else {
        let before = given_up(slots.drop_last(), rpcs);
        let last = slots.last();
        if !listed(rpcs, last.rpc) && last.sender == Link::Open {
            before.push(((slots.len() - 1) as usize, last.rpc))
        } else {
            before
        }
    }
}

/// The slots once each node of a list has one.
pub open spec fn slotted(slots: Seq<ConnectionView>, rpcs: Seq<RpcView>) -> Seq<ConnectionView>
    decreases rpcs.len(),
{
    if rpcs.len() == 0 {
        slots
    } else {
        let before = slotted(slots, rpcs.drop_last());
        if first_slot(before, rpcs.last()) < before.len() {
            before
        } else {
            before.push(ConnectionView { rpc: rpcs.last(), sender: Link::Absent })
        }
    }
}

/// The slots that need a new connection, with the nodes as the list has them.
pub open spec fn to_connect(slots: Seq<ConnectionView>, rpcs: Seq<RpcView>) -> Seq<SlotView>
    decreases rpcs.len(),
{
    if rpcs.len() == 0 {
        Seq::empty()
    } else {
        let before = to_connect(slots, rpcs.drop_last());
        let rpc = rpcs.last();
        let after = slotted(slots, rpcs);
        let slot = first_slot(after, rpc) as int;
        if after[slot].sender == Link::Open {
            before
        } else {
            before.push((slot as usize, rpc))
        }
    }
}

/// The slots after attempts to connect: each says whether it succeeded. One for a node that is
/// not listed any more does not count.
pub open spec fn settled(
    slots: Seq<ConnectionView>,
    rpcs: Seq<RpcView>,
    attempts: Seq<(usize, RpcView, bool)>,
) -> Seq<ConnectionView>
    decreases attempts.len(),
{
    if attempts.len() == 0 {
        slots
    } else {
        let before = settled(slots, rpcs, attempts.drop_last());
        let (slot, rpc, connected) = attempts.last();
        if listed(rpcs, rpc) {
            before.update(
                slot as int,
                ConnectionView {
                    sender: if connected {
                        Link::Open
                    } else {
                        Link::Absent
                    },
                    ..before[slot as int]
                },
            )
        } else {
            before
        }
    }
}

proof fn lemma_first_slot(slots: Seq<ConnectionView>, rpc: RpcView, n: int)
    requires
        0 <= n <= slots.len(),
        forall|i: int| 0 <= i < n ==> !(#[trigger] slots[i]).rpc.same_endpoint(rpc),
        n == slots.len() || slots[n].rpc.same_endpoint(rpc),
    ensures
        first_slot(slots, rpc) == n,
    decreases slots.len(),
{
    if n > 0 {
        let rest = slots.drop_first();
        assert(!slots[0].rpc.same_endpoint(rpc));
        assert forall|i: int| 0 <= i < n - 1 implies !(
        #[trigger] rest[i]).rpc.same_endpoint(rpc) by {
            assert(rest[i] == slots[i + 1]);
        }
        lemma_first_slot(rest, rpc, n - 1);
    }
}

proof fn lemma_first_slot_bound(slots: Seq<ConnectionView>, rpc: RpcView)
    ensures
        first_slot(slots, rpc) <= slots.len(),
        first_slot(slots, rpc) < slots.len() ==> slots[first_slot(
            slots,
            rpc,
        ) as int].rpc.same_endpoint(rpc),
    decreases slots.len(),
{
    if slots.len() > 0 && !slots[0].rpc.same_endpoint(rpc) {
        lemma_first_slot_bound(slots.drop_first(), rpc);
    }
}

/// Whether a node stands in a list.
pub fn is_listed(rpcs: &Vec<Rpc>, rpc: &Rpc) -> (found: bool)
    ensures
        found == listed(rpcs_view(rpcs@), rpc@),
{
    let mut i: usize = 0;
    while i < rpcs.len()
        invariant
            i <= rpcs@.len(),
            forall|j: int| 0 <= j < i ==> !(#[trigger] rpcs_view(rpcs@)[j]).same_endpoint(rpc@),
        decreases rpcs@.len() - i,
    {
        if rpcs[i].same_endpoint(rpc) {
            proof {
                assert(rpcs_view(rpcs@)[i as int].same_endpoint(rpc@));
            }
            return true;
        }
        i = i + 1;
    }
    false
}

fn find_slot(handles: &Vec<WsConnection>, rpc: &Rpc) -> (slot: usize)
    ensures
        slot == first_slot(slots_view(handles@), rpc@),
        slot <= handles@.len(),
{
    let mut i: usize = 0;
    while i < handles.len()
        invariant
            i <= handles@.len(),
            forall|j: int|
                0 <= j < i ==> !(#[trigger] slots_view(handles@)[j]).rpc.same_endpoint(rpc@),
        decreases handles@.len() - i,
    {
        if handles[i].rpc.same_endpoint(rpc) {
            proof {
                lemma_first_slot(slots_view(handles@), rpc@, i as int);
            }
            return i;
        }
        i = i + 1;
    }
    proof {
        lemma_first_slot(slots_view(handles@), rpc@, i as int);
    }
    i
}

/// Gives up the links to nodes that are not listed any more. Those that were open are reported.
fn prune(rpcs: &Vec<Rpc>, handles: &mut Vec<WsConnection>) -> (closed: Vec<(usize, Rpc)>)
    ensures
        slots_view(final(handles)@) == pruned(slots_view(old(handles)@), rpcs_view(rpcs@)),
        pairs_view(closed@) == given_up(slots_view(old(handles)@), rpcs_view(rpcs@)),
{
    let ghost before = slots_view(handles@);
    let ghost nodes = rpcs_view(rpcs@);
    let mut closed: Vec<(usize, Rpc)> = Vec::new();
    let mut i: usize = 0;
    while i < handles.len()
        invariant
            i <= handles@.len(),
            before.len() == handles@.len(),
            nodes == rpcs_view(rpcs@),
            forall|j: int|
                #![trigger slots_view(handles@)[j]]
                0 <= j < before.len() ==> slots_view(handles@)[j] == if j < i {
                    pruned(before, nodes)[j]
                } else {
                    before[j]
                },
            pairs_view(closed@) == given_up(before.take(i as int), nodes),
        decreases handles@.len() - i,
    {
        let ghost reported = pairs_view(closed@);
        let ghost now = slots_view(handles@);
        proof {
            assert(now[i as int] == before[i as int]);
            assert(before.take(i + 1).drop_last() =~= before.take(i as int));
        }
        if !is_listed(rpcs, &handles[i].rpc) {
            if handles[i].sender == Link::Open {
                closed.push((i, handles[i].rpc.clone()));
                proof {
                    assert(pairs_view(closed@) =~= reported.push((i, before[i as int].rpc)));
                }
            }
            handles[i].sender = Link::Absent;
        }
        proof {
            assert(slots_view(handles@) =~= now.update(i as int, pruned(before, nodes)[i as int]));
        }
        i = i + 1;
    }
    proof {
        assert(slots_view(handles@) =~= pruned(before, nodes));
        assert(before.take(i as int) =~= before);
    }
    closed
}

/// Gives each node a slot. Says which slots need a new connection.
fn fill(rpcs: &Vec<Rpc>, handles: &mut Vec<WsConnection>) -> (reconnect: Vec<(usize, Rpc)>)
    requires
        old(handles)@.len() + rpcs@.len() <= usize::MAX,
    ensures
        slots_view(final(handles)@) == slotted(slots_view(old(handles)@), rpcs_view(rpcs@)),
        pairs_view(reconnect@) == to_connect(slots_view(old(handles)@), rpcs_view(rpcs@)),
{
    let ghost before = slots_view(handles@);
    let ghost nodes = rpcs_view(rpcs@);
    let mut reconnect: Vec<(usize, Rpc)> = Vec::new();
    let mut i: usize = 0;
    while i < rpcs.len()
        invariant
            i <= rpcs@.len(),
            nodes == rpcs_view(rpcs@),
            slots_view(handles@) == slotted(before, nodes.take(i as int)),
            pairs_view(reconnect@) == to_connect(before, nodes.take(i as int)),
        decreases rpcs@.len() - i,
    {
        let ghost now = slots_view(handles@);
        let ghost waiting = pairs_view(reconnect@);
        proof {
            assert(nodes.take(i + 1).drop_last() =~= nodes.take(i as int));
        }
        let slot: usize = find_slot(handles, &rpcs[i]);
        if slot == handles.len() {
            handles.push(WsConnection { rpc: rpcs[i].clone(), sender: Link::Absent });
            proof {
                let after = now.push(ConnectionView { rpc: nodes[i as int], sender: Link::Absent });
                assert(slots_view(handles@) =~= after);
                lemma_first_slot_bound(now, nodes[i as int]);
                assert(now.len() == slot);
                lemma_first_slot_pushed(now, nodes[i as int]);
            }
        }
        proof {
            assert(slots_view(handles@) == slotted(before, nodes.take(i + 1)));
            assert(first_slot(slots_view(handles@), nodes[i as int]) == slot);
            assert(slots_view(handles@)[slot as int] == handles@[slot as int]@);
        }
        if handles[slot].sender != Link::Open {
            reconnect.push((slot, rpcs[i].clone()));
            proof {
                assert(pairs_view(reconnect@) =~= waiting.push((slot, nodes[i as int])));
            }
        }
        i = i + 1;
    }
    proof {
        assert(nodes.take(i as int) =~= nodes);
    }
    reconnect
}

proof fn lemma_first_slot_pushed(slots: Seq<ConnectionView>, rpc: RpcView)
    requires
        first_slot(slots, rpc) == slots.len(),
    ensures
        first_slot(slots.push(ConnectionView { rpc, sender: Link::Absent }), rpc) == slots.len(),
    decreases slots.len(),
{
    let more = slots.push(ConnectionView { rpc, sender: Link::Absent });
    if slots.len() > 0 {
        lemma_first_slot_bound(slots.drop_first(), rpc);
        lemma_first_slot_pushed(slots.drop_first(), rpc);
        assert(more.drop_first() =~= slots.drop_first().push(
            ConnectionView { rpc, sender: Link::Absent },
        ));
    }
}

/// What is to be done about the connections.
pub struct ConnectionPlan {
    /// Open connections that were given up, to be reported as closed.
    pub closed: Vec<(usize, Rpc)>,
    /// Slots to connect.
    pub reconnect: Vec<(usize, Rpc)>,
}

/// Brings the slots in line with the list of nodes, and says what is to be done.
pub fn update_ws_connections(rpcs: &Vec<Rpc>, handles: &mut Vec<WsConnection>) -> (plan:
    ConnectionPlan)
    requires
        old(handles)@.len() + rpcs@.len() <= usize::MAX,
    ensures
        ({
            let nodes = rpcs_view(rpcs@);
            let before = slots_view(old(handles)@);
            &&& slots_view(final(handles)@) == slotted(pruned(before, nodes), nodes)
            &&& pairs_view(plan.closed@) == given_up(before, nodes)
            &&& pairs_view(plan.reconnect@) == to_connect(pruned(before, nodes), nodes)
        }),
{
    let ghost before = slots_view(handles@);
    let closed = prune(rpcs, handles);
    proof {
        assert(slots_view(handles@).len() == before.len());
    }
    let reconnect = fill(rpcs, handles);
    ConnectionPlan { closed, reconnect }
}

/// What attempts to connect say.
pub open spec fn attempts_view(attempts: Seq<(usize, Rpc, bool)>) -> Seq<(usize, RpcView, bool)> {
    Seq::new(attempts.len(), |i: int| (attempts[i].0, attempts[i].1@, attempts[i].2))
}

/// Takes in which attempts to connect succeeded. An attempt for a node that has left the list in
/// the meantime does not count.
pub fn settle_ws_connections(
    rpcs: &Vec<Rpc>,
    handles: &mut Vec<WsConnection>,
    attempts: &Vec<(usize, Rpc, bool)>,
)
    requires
        forall|i: int|
            0 <= i < attempts@.len() ==> (#[trigger] attempts@[i]).0 < old(handles)@.len(),
    ensures
        slots_view(final(handles)@) == settled(
            slots_view(old(handles)@),
            rpcs_view(rpcs@),
            attempts_view(attempts@),
        ),
{
    let ghost before = slots_view(handles@);
    let ghost nodes = rpcs_view(rpcs@);
    let ghost made = attempts_view(attempts@);
    let mut i: usize = 0;
    while i < attempts.len()
        invariant
            i <= attempts@.len(),
            nodes == rpcs_view(rpcs@),
            made == attempts_view(attempts@),
            handles@.len() == before.len(),
            forall|j: int|
                0 <= j < attempts@.len() ==> (#[trigger] attempts@[j]).0 < handles@.len(),
            slots_view(handles@) == settled(before, nodes, made.take(i as int)),
        decreases attempts@.len() - i,
    {
        let ghost now = slots_view(handles@);
        proof {
            assert(made.take(i + 1).drop_last() =~= made.take(i as int));
        }
        if is_listed(rpcs, &attempts[i].1) {
            let slot: usize = attempts[i].0;
            let sender = if attempts[i].2 {
                Link::Open
            } else {
                Link::Absent
            };
            handles[slot].sender = sender;
            proof {
                assert(slots_view(handles@) =~= now.update(
                    slot as int,
                    ConnectionView { sender, ..now[slot as int] },
                ));
            }
        }
        i = i + 1;
    }
    proof {
        assert(made.take(i as int) =~= made);
    }
}

/// The first slot with an open link to a node; one past the last where there is none.
pub open spec fn open_slot(slots: Seq<ConnectionView>, rpc: RpcView) -> nat
    decreases slots.len(),
{
    if slots.len() == 0 || (slots[0].rpc.same_endpoint(rpc) && slots[0].sender == Link::Open) {
        0
    } else {
        1 + open_slot(slots.drop_first(), rpc)
    }
}

/// The nodes with an open link, by their place in the list, and the slots of the links.
pub open spec fn routes(rpcs: Seq<RpcView>, slots: Seq<ConnectionView>) -> Seq<(usize, usize)>
    decreases rpcs.len(),
{
    if rpcs.len() == 0 {
        Seq::empty()
    } else {
        let before = routes(rpcs.drop_last(), slots);
        let slot = open_slot(slots, rpcs.last());
        if slot < slots.len() {
            before.push(((rpcs.len() - 1) as usize, slot as usize))
        } else {
            before
        }
    }
}

proof fn lemma_open_slot(slots: Seq<ConnectionView>, rpc: RpcView, n: int)
    requires
        0 <= n <= slots.len(),
        forall|i: int|
            0 <= i < n ==> !((#[trigger] slots[i]).rpc.same_endpoint(rpc) && slots[i].sender
                == Link::Open),
        n == slots.len() || (slots[n].rpc.same_endpoint(rpc) && slots[n].sender == Link::Open),
    ensures
        open_slot(slots, rpc) == n,
    decreases slots.len(),
{
    if n > 0 {
        let rest = slots.drop_first();
        assert(!(slots[0].rpc.same_endpoint(rpc) && slots[0].sender == Link::Open));
        assert forall|i: int| 0 <= i < n - 1 implies !((
        #[trigger] rest[i]).rpc.same_endpoint(rpc) && rest[i].sender == Link::Open) by {
            assert(rest[i] == slots[i + 1]);
        }
        lemma_open_slot(rest, rpc, n - 1);
    }
}

fn find_open_slot(handles: &Vec<WsConnection>, rpc: &Rpc) -> (slot: usize)
    ensures
        slot == open_slot(slots_view(handles@), rpc@),
        slot <= handles@.len(),
{
    let mut i: usize = 0;
    while i < handles.len()
        invariant
            i <= handles@.len(),
            forall|j: int|
                0 <= j < i ==> !((#[trigger] slots_view(handles@)[j]).rpc.same_endpoint(rpc@)
                    && slots_view(handles@)[j].sender == Link::Open),
        decreases handles@.len() - i,
    {
        if handles[i].rpc.same_endpoint(rpc) && handles[i].sender == Link::Open {
            proof {
                lemma_open_slot(slots_view(handles@), rpc@, i as int);
            }
            return i;
        }
        i = i + 1;
    }
    proof {
        lemma_open_slot(slots_view(handles@), rpc@, i as int);
    }
    i
}

/// The nodes with an open link, by their place in the list, and the slots of the links.
pub fn open_routes(rpcs: &Vec<Rpc>, handles: &Vec<WsConnection>) -> (positions: Vec<
    (usize, usize),
>)
    ensures
        positions@ == routes(rpcs_view(rpcs@), slots_view(handles@)),
        forall|i: int|
            0 <= i < positions@.len() ==> (#[trigger] positions@[i]).0 < rpcs@.len()
                && positions@[i].1 < handles@.len(),
{
    let ghost nodes = rpcs_view(rpcs@);
    let mut positions: Vec<(usize, usize)> = Vec::new();
    let mut i: usize = 0;
    while i < rpcs.len()
        invariant
            i <= rpcs@.len(),
            nodes == rpcs_view(rpcs@),
            positions@ == routes(nodes.take(i as int), slots_view(handles@)),
            forall|j: int|
                0 <= j < positions@.len() ==> (#[trigger] positions@[j]).0 < i && positions@[j].1
                    < handles@.len(),
        decreases rpcs@.len() - i,
    {
        proof {
            assert(nodes.take(i + 1).drop_last() =~= nodes.take(i as int));
        }
        let slot: usize = find_open_slot(handles, &rpcs[i]);
        if slot < handles.len() {
            positions.push((i, slot));
        }
        i = i + 1;
    }
    proof {
        assert(nodes.take(i as int) =~= nodes);
    }
    positions
}

/// Copies of the nodes at some places of the list, to pick one from.
pub fn candidates(rpcs: &Vec<Rpc>, positions: &Vec<(usize, usize)>) -> (candidates: Vec<Rpc>)
    requires
        forall|i: int| 0 <= i < positions@.len() ==> (#[trigger] positions@[i]).0 < rpcs@.len(),
    ensures
        rpcs_view(candidates@) == Seq::new(
            positions@.len(),
            |i: int| rpcs@[positions@[i].0 as int]@,
        ),
{
    let mut candidates: Vec<Rpc> = Vec::new();
    let mut i: usize = 0;
    while i < positions.len()
        invariant
            i <= positions@.len(),
            candidates@.len() == i,
            forall|j: int|
                0 <= j < positions@.len() ==> (#[trigger] positions@[j]).0 < rpcs@.len(),
            forall|j: int|
                0 <= j < i ==> (#[trigger] candidates@[j])@ == rpcs@[positions@[j].0 as int]@,
        decreases positions@.len() - i,
    {
        let place: usize = positions[i].0;
        candidates.push(rpcs[place].clone());
        i = i + 1;
    }
    proof {
        assert(rpcs_view(candidates@) =~= Seq::new(
            positions@.len(),
            |i: int| rpcs@[positions@[i].0 as int]@,
        ));
    }
    candidates
}

/// The list of nodes with candidates back in their places.
pub open spec fn put_back(
    rpcs: Seq<RpcView>,
    positions: Seq<(usize, usize)>,
    candidates: Seq<RpcView>,
) -> Seq<RpcView>
    decreases candidates.len(),
{
    if candidates.len() == 0 || candidates.len() > positions.len() {
        rpcs
    } else {
        put_back(rpcs, positions, candidates.drop_last()).update(
            positions[candidates.len() - 1].0 as int,
            candidates.last(),
        )
    }
}

/// Puts candidates back in their places: picking one changes what is known of them.
pub fn write_back(rpcs: &mut Vec<Rpc>, positions: &Vec<(usize, usize)>, candidates: &Vec<Rpc>)
    requires
        candidates@.len() <= positions@.len(),
        forall|i: int|
            0 <= i < positions@.len() ==> (#[trigger] positions@[i]).0 < old(rpcs)@.len(),
    ensures
        rpcs_view(final(rpcs)@) == put_back(
            rpcs_view(old(rpcs)@),
            positions@,
            rpcs_view(candidates@),
        ),
{
    let ghost before = rpcs_view(rpcs@);
    let ghost chosen = rpcs_view(candidates@);
    let mut i: usize = 0;
    while i < candidates.len()
        invariant
            i <= candidates@.len(),
            candidates@.len() <= positions@.len(),
            chosen == rpcs_view(candidates@),
            rpcs@.len() == before.len(),
            forall|j: int|
                0 <= j < positions@.len() ==> (#[trigger] positions@[j]).0 < rpcs@.len(),
            rpcs_view(rpcs@) == put_back(before, positions@, chosen.take(i as int)),
        decreases candidates@.len() - i,
    {
        let ghost now = rpcs_view(rpcs@);
        proof {
            assert(chosen.take(i + 1).drop_last() =~= chosen.take(i as int));
        }
        let place: usize = positions[i].0;
        rpcs.set(place, candidates[i].clone());
        proof {
            assert(rpcs_view(rpcs@) =~= now.update(place as int, chosen[i as int]));
        }
        i = i + 1;
    }
    proof {
        assert(chosen.take(i as int) =~= chosen);
    }
}

/// The slot that a message goes to: the one asked for, or that of the candidate picked.
pub fn destination(
    specified: Option<usize>,
    positions: &Vec<(usize, usize)>,
    selected: Option<usize>,
) -> (slot: Option<usize>)
    requires
        selected matches Some(index) ==> index < positions@.len(),
    ensures
        slot == match (specified, selected) {
            (Some(slot), _) => Some(slot),
            (None, Some(index)) => Some(positions@[index as int].1),
            (None, None) => None,
        },
{
    match (specified, selected) {
        (Some(slot), _) => Some(slot),
        (None, Some(index)) => Some(positions[index].1),
        (None, None) => None,
    }
}

/// Whether a message can be handed to the link in a slot.
pub fn has_sender(handles: &Vec<WsConnection>, slot: Option<usize>) -> (has: bool)
    ensures
        has == (slot is Some && slot->0 < handles@.len() && handles@[slot->0 as int].sender
            != Link::Absent),
{
    match slot {
        Some(slot) => slot < handles.len() && handles[slot].sender != Link::Absent,
        None => false,
    }
}

/// What a message that could not be handed to a link is answered.
pub fn undelivered(incoming: &Json, slot: Option<usize>) -> (answer: IncomingResponse)
    ensures
        answer.node_id == match slot {
            Some(slot) => slot,
            None => usize::MAX,
        },
        answer.content@ == error_reply(
            incoming@.member("id"@),
            -32000,
            "No upstream WebSocket connection available"@,
        ),
{
    IncomingResponse {
        node_id: match slot {
            Some(slot) => slot,
            None => usize::MAX,
        },
        content: request_error(
            incoming.member("id"),
            -32000,
            "No upstream WebSocket connection available",
        ),
    }
}

/// What comes over a connection from a node.
pub enum UpstreamFrame {
    Text(Vec<u8>),
    Binary(Vec<u8>),
    Ping(Vec<u8>),
    Pong,
    /// The connection was closed, broke, or sent something else.
    Ended,
}

/// What a connection does next.
pub enum UpstreamAction {
    Send(String),
    Pong(Vec<u8>),
    /// Pass the message on to whoever waits for it.
    Publish(IncomingResponse),
    Wait,
    /// End without a report: the connection has been replaced.
    Stop,
    /// End and report it.
    Close(WsChannelErr),
}

/// A connection to a node.
pub struct Upstream {
    pub rpc: Rpc,
    pub index: usize,
}

impl Upstream {
    /// Whether an action ends this connection with a report.
    pub open spec fn closes(&self, action: UpstreamAction) -> bool {
        action matches UpstreamAction::Close(WsChannelErr::Closed(index, rpc)) && index
            == self.index && rpc@ == self.rpc@
    }

    /// Where to connect to; a node without such an address has no connection.
    pub fn url(&self) -> (url: Option<&str>)
        ensures
            match url {
                Some(url) => self.rpc@.ws_url is Some && url@ == self.rpc@.ws_url->0.text,
                None => self.rpc@.ws_url is None,
            },
    {
        self.rpc.ws_address()
    }

    fn close(&self) -> (action: UpstreamAction)
        ensures
            self.closes(action),
    {
        UpstreamAction::Close(WsChannelErr::Closed(self.index, self.rpc.clone()))
    }

    /// A message for the node, or the end of messages.
    pub fn outgoing(&self, message: Option<Json>) -> (action: UpstreamAction)
        ensures
            match message {
                Some(message) => action matches UpstreamAction::Send(text) && text@ == value_text(
                    message@,
                ),
                None => action == UpstreamAction::Stop,
            },
    {
        match message {
            Some(message) => UpstreamAction::Send(message.to_text()),
            None => UpstreamAction::Stop,
        }
    }

    /// Whether what was to be sent got through in time.
    pub fn sent(&self, delivered: bool) -> (action: UpstreamAction)
        ensures
            if delivered {
                action == UpstreamAction::Wait
            } else {
                self.closes(action)
            },
    {
        if delivered {
            UpstreamAction::Wait
        } else {
            self.close()
        }
    }

    /// A message from the node, once it is parsed. What is no JSON is passed over.
    pub fn publish(&self, parsed: Option<Json>) -> (action: UpstreamAction)
        ensures
            match parsed {
                Some(content) => action matches UpstreamAction::Publish(response)
                    && response.node_id == self.index && response.content@ == content@,
                None => action == UpstreamAction::Wait,
            },
    {
        match parsed {
            Some(content) => UpstreamAction::Publish(
                IncomingResponse { node_id: self.index, content },
            ),
            None => UpstreamAction::Wait,
        }
    }

    /// Something from the node.
    pub fn frame(&self, frame: UpstreamFrame) -> (action: UpstreamAction)
        ensures
            match frame {
                UpstreamFrame::Text(bytes) | UpstreamFrame::Binary(bytes) => match bytes_value(
                    bytes@,
                ) {
                    Some(content) => action matches UpstreamAction::Publish(response)
                        && response.node_id == self.index && response.content@ == content,
                    None => action == UpstreamAction::Wait,
                },
                UpstreamFrame::Ping(payload) => action == UpstreamAction::Pong(payload),
                UpstreamFrame::Pong => action == UpstreamAction::Wait,
                UpstreamFrame::Ended => self.closes(action),
            },
    {
        match frame {
            UpstreamFrame::Text(bytes) => self.publish(parse_bytes(bytes)),
            UpstreamFrame::Binary(bytes) => self.publish(parse_bytes(bytes)),
            UpstreamFrame::Ping(payload) => UpstreamAction::Pong(payload),
            UpstreamFrame::Pong => UpstreamAction::Wait,
            UpstreamFrame::Ended => self.close(),
        }
    }

    /// Takes in how many nanoseconds it took to pass a message on: for the first node of the list
    /// at the same address.
    pub fn record_latency(&self, rpc_list: &mut Vec<Rpc>, time: u64)
        ensures
            match first_listed(rpcs_view(old(rpc_list)@), self.rpc@) {
                Some(at) => rpcs_view(final(rpc_list)@) == rpcs_view(old(rpc_list)@).update(
                    at,
                    rpcs_view(old(rpc_list)@)[at].timed(time),
                ),
                None => rpcs_view(final(rpc_list)@) == rpcs_view(old(rpc_list)@),
            },
    {
        let ghost before = rpcs_view(rpc_list@);
        if let Some(at) = find_rpc(rpc_list, &self.rpc) {
            rpc_list[at].update_latency(time);
            proof {
                assert(rpcs_view(rpc_list@) =~= before.update(
                    at as int,
                    before[at as int].timed(time),
                ));
            }
        }
    }
}

/// The place of the first node of a list at the address of `rpc`.
pub open spec fn first_listed(rpcs: Seq<RpcView>, rpc: RpcView) -> Option<int>
    decreases rpcs.len(),
{
    if rpcs.len() == 0 {
        None
    } else if rpcs[0].same_endpoint(rpc) {
        Some(0)
    } else {
        match first_listed(rpcs.drop_first(), rpc) {
            Some(at) => Some(at + 1),
            None => None,
        }
    }
}

pub proof fn lemma_first_listed(rpcs: Seq<RpcView>, rpc: RpcView, n: int)
    requires
        0 <= n <= rpcs.len(),
        forall|i: int| 0 <= i < n ==> !(#[trigger] rpcs[i]).same_endpoint(rpc),
        n == rpcs.len() || rpcs[n].same_endpoint(rpc),
    ensures
        first_listed(rpcs, rpc) == if n == rpcs.len() {
            None
        } else {
            Some(n)
        },
    decreases rpcs.len(),
{
    if n > 0 {
        let rest = rpcs.drop_first();
        assert(!rpcs[0].same_endpoint(rpc));
        assert forall|i: int| 0 <= i < n - 1 implies !(#[trigger] rest[i]).same_endpoint(rpc) by {
            assert(rest[i] == rpcs[i + 1]);
        }
        lemma_first_listed(rest, rpc, n - 1);
    }
}

/// The place of the first node of a list at the address of `rpc`.
pub fn find_rpc(rpcs: &Vec<Rpc>, rpc: &Rpc) -> (found: Option<usize>)
    ensures
        match found {
            Some(at) => at < rpcs@.len() && first_listed(rpcs_view(rpcs@), rpc@) == Some(at as int),
            None => first_listed(rpcs_view(rpcs@), rpc@) is None,
        },
{
    let mut i: usize = 0;
    while i < rpcs.len()
        invariant
            i <= rpcs@.len(),
            forall|j: int| 0 <= j < i ==> !(#[trigger] rpcs_view(rpcs@)[j]).same_endpoint(rpc@),
        decreases rpcs@.len() - i,
    {
        if rpcs[i].same_endpoint(rpc) {
            proof {
                lemma_first_listed(rpcs_view(rpcs@), rpc@, i as int);
            }
            return Some(i);
        }
        i = i + 1;
    }
    proof {
        lemma_first_listed(rpcs_view(rpcs@), rpc@, i as int);
    }
    None
}

proof fn lemma_slotted_extends(slots: Seq<ConnectionView>, rpcs: Seq<RpcView>)
    ensures
        slots.len() <= slotted(slots, rpcs).len(),
        forall|i: int| 0 <= i < slots.len() ==> #[trigger] slotted(slots, rpcs)[i] == slots[i],
    decreases rpcs.len(),
{
    if rpcs.len() > 0 {
        lemma_slotted_extends(slots, rpcs.drop_last());
    }
}

/// Bringing the slots in line with a list of nodes leaves every slot its node; the connections of
/// the nodes that stay on the list are not touched, and those of the others are given up.
pub proof fn law_slots_are_stable(slots: Seq<ConnectionView>, rpcs: Seq<RpcView>, slot: int)
    requires
        0 <= slot < slots.len(),
    ensures
        ({
            let after = slotted(pruned(slots, rpcs), rpcs);
            &&& slot < after.len()
            &&& after[slot].rpc == slots[slot].rpc
            &&& listed(rpcs, slots[slot].rpc) ==> after[slot] == slots[slot]
            &&& !listed(rpcs, slots[slot].rpc) ==> after[slot].sender == Link::Absent
        }),
{
    lemma_slotted_extends(pruned(slots, rpcs), rpcs);
}

/// Whether a slot is among those to connect for a node.
pub open spec fn connects(pairs: Seq<SlotView>, slot: int, rpc: RpcView) -> bool {
    exists|i: int| 0 <= i < pairs.len() && #[trigger] pairs[i] == (slot as usize, rpc)
}

/// Whether `slot` is for the node at `place` of the list, and is open or is to be connected.
pub open spec fn serves(
    slots: Seq<ConnectionView>,
    rpcs: Seq<RpcView>,
    slot: int,
    place: int,
) -> bool {
    let after = slotted(slots, rpcs);
    &&& 0 <= slot < after.len()
    &&& after[slot].rpc.same_endpoint(rpcs[place])
    &&& after[slot].sender == Link::Open || connects(to_connect(slots, rpcs), slot, rpcs[place])
}

/// Each node of the list has a slot that is open or is to be connected.
pub proof fn law_every_node_is_served(slots: Seq<ConnectionView>, rpcs: Seq<RpcView>, place: int)
    requires
        0 <= place < rpcs.len(),
    ensures
        exists|slot: int| #[trigger] serves(slots, rpcs, slot, place),
    decreases rpcs.len(),
{
    let shorter = rpcs.drop_last();
    let before = slotted(slots, shorter);
    let after = slotted(slots, rpcs);
    if place == rpcs.len() - 1 {
        let rpc = rpcs.last();
        let slot = first_slot(after, rpc) as int;
        lemma_first_slot_bound(before, rpc);
        if first_slot(before, rpc) >= before.len() {
            lemma_first_slot_pushed(before, rpc);
        }
        lemma_first_slot_bound(after, rpc);
        if after[slot].sender != Link::Open {
            let pairs = to_connect(slots, rpcs);
            assert(pairs[pairs.len() - 1] == (slot as usize, rpc));
        }
        assert(serves(slots, rpcs, slot, place));
    } else {
        law_every_node_is_served(slots, shorter, place);
        let slot = choose|slot: int| #[trigger] serves(slots, shorter, slot, place);
        assert(after[slot] == before[slot]);
        if before[slot].sender != Link::Open {
            let pairs = to_connect(slots, shorter);
            let i = choose|i: int|
                0 <= i < pairs.len() && #[trigger] pairs[i] == (slot as usize, shorter[place]);
            assert(to_connect(slots, rpcs)[i] == pairs[i]);
        }
        assert(serves(slots, rpcs, slot, place));
    }
}

/// Whether no two slots are for one node.
pub open spec fn distinct_slots(slots: Seq<ConnectionView>) -> bool {
    forall|i: int, j: int|
        0 <= i < j < slots.len() ==> !(#[trigger] slots[i]).rpc.same_endpoint(
            (#[trigger] slots[j]).rpc,
        )
}

/// Whether attempts were made for these slots and nodes, in order, and for no others.
pub open spec fn attempts_of(
    attempts: Seq<(usize, RpcView, bool)>,
    pairs: Seq<SlotView>,
) -> bool {
    &&& attempts.len() == pairs.len()
    &&& forall|i: int|
        #![trigger attempts[i]]
        0 <= i < attempts.len() ==> (attempts[i].0, attempts[i].1) == pairs[i]
}

/// Whether the last attempt for a slot succeeded; nothing where none was made.
pub open spec fn last_attempt(attempts: Seq<(usize, RpcView, bool)>, slot: int) -> Option<bool>
    decreases attempts.len(),
{
    if attempts.len() == 0 {
        None
    } else if attempts.last().0 == slot {
        Some(attempts.last().2)
    } else {
        last_attempt(attempts.drop_last(), slot)
    }
}

proof fn lemma_no_slot(slots: Seq<ConnectionView>, rpc: RpcView, i: int)
    requires
        first_slot(slots, rpc) >= slots.len(),
        0 <= i < slots.len(),
    ensures
        !slots[i].rpc.same_endpoint(rpc),
    decreases slots.len(),
{
    if i > 0 {
        lemma_no_slot(slots.drop_first(), rpc, i - 1);
    }
}

proof fn lemma_slotted(slots: Seq<ConnectionView>, rpcs: Seq<RpcView>)
    requires
        distinct_slots(slots),
    ensures
        distinct_slots(slotted(slots, rpcs)),
        slotted(slots, rpcs).len() <= slots.len() + rpcs.len(),
        forall|i: int|
            slots.len() <= i < slotted(slots, rpcs).len() ==> listed(
                rpcs,
                (#[trigger] slotted(slots, rpcs)[i]).rpc,
            ),
    decreases rpcs.len(),
{
    if rpcs.len() > 0 {
        let shorter = rpcs.drop_last();
        let before = slotted(slots, shorter);
        let after = slotted(slots, rpcs);
        lemma_slotted(slots, shorter);
        assert forall|i: int, j: int| 0 <= i < j < after.len() implies !(
        #[trigger] after[i]).rpc.same_endpoint((#[trigger] after[j]).rpc) by {
            if j < before.len() {
                assert(after[i] == before[i] && after[j] == before[j]);
            } else {
                lemma_no_slot(before, rpcs.last(), i);
                assert(after[i] == before[i]);
            }
        }
        assert forall|i: int| slots.len() <= i < after.len() implies listed(
            rpcs,
            (#[trigger] after[i]).rpc,
        ) by {
            if i < before.len() {
                assert(listed(shorter, before[i].rpc));
                let k = choose|k: int|
                    0 <= k < shorter.len() && (#[trigger] shorter[k]).same_endpoint(before[i].rpc);
                assert(rpcs[k].same_endpoint(after[i].rpc));
            } else {
                assert(rpcs[rpcs.len() - 1].same_endpoint(after[i].rpc));
            }
        }
    }
}

/// What is to be connected is for a node of the list, and has no open link.
proof fn lemma_to_connect(slots: Seq<ConnectionView>, rpcs: Seq<RpcView>, i: int)
    requires
        slots.len() + rpcs.len() <= usize::MAX,
        distinct_slots(slots),
        0 <= i < to_connect(slots, rpcs).len(),
    ensures
        ({
            let (slot, rpc) = to_connect(slots, rpcs)[i];
            let after = slotted(slots, rpcs);
            &&& slot < after.len()
            &&& after[slot as int].rpc.same_endpoint(rpc)
            &&& after[slot as int].sender != Link::Open
            &&& listed(rpcs, rpc)
        }),
    decreases rpcs.len(),
{
    let shorter = rpcs.drop_last();
    let before = slotted(slots, shorter);
    let after = slotted(slots, rpcs);
    let known = to_connect(slots, shorter);
    lemma_slotted(slots, rpcs);
    if i < known.len() {
        lemma_to_connect(slots, shorter, i);
        let (slot, rpc) = known[i];
        assert(after[slot as int] == before[slot as int]);
        let k = choose|k: int| 0 <= k < shorter.len() && (#[trigger] shorter[k]).same_endpoint(rpc);
        assert(rpcs[k].same_endpoint(rpc));
    } else {
        let rpc = rpcs.last();
        lemma_first_slot_bound(before, rpc);
        if first_slot(before, rpc) >= before.len() {
            lemma_first_slot_pushed(before, rpc);
        }
        lemma_first_slot_bound(after, rpc);
        assert(rpcs[rpcs.len() - 1].same_endpoint(rpc));
    }
}

/// Attempts for listed nodes leave each slot as the last one for it says.
proof fn lemma_settled(
    slots: Seq<ConnectionView>,
    rpcs: Seq<RpcView>,
    attempts: Seq<(usize, RpcView, bool)>,
    slot: int,
)
    requires
        0 <= slot < slots.len(),
        forall|i: int|
            0 <= i < attempts.len() ==> (#[trigger] attempts[i]).0 < slots.len() && listed(
                rpcs,
                attempts[i].1,
            ),
    ensures
        settled(slots, rpcs, attempts).len() == slots.len(),
        settled(slots, rpcs, attempts)[slot] == match last_attempt(attempts, slot) {
            None => slots[slot],
            Some(true) => ConnectionView { sender: Link::Open, ..slots[slot] },
            Some(false) => ConnectionView { sender: Link::Absent, ..slots[slot] },
        },
    decreases attempts.len(),
{
    if attempts.len() > 0 {
        let shorter = attempts.drop_last();
        assert forall|i: int| 0 <= i < shorter.len() implies (#[trigger] shorter[i]).0 < slots.len()
            && listed(rpcs, shorter[i].1) by {
            assert(shorter[i] == attempts[i]);
        }
        lemma_settled(slots, rpcs, shorter, slot);
        assert(attempts.last() == attempts[attempts.len() - 1]);
    }
}

proof fn lemma_last_attempt(attempts: Seq<(usize, RpcView, bool)>, slot: int)
    ensures
        last_attempt(attempts, slot) is Some <==> exists|i: int|
            0 <= i < attempts.len() && (#[trigger] attempts[i]).0 == slot,
    decreases attempts.len(),
{
    if attempts.len() > 0 {
        let shorter = attempts.drop_last();
        lemma_last_attempt(shorter, slot);
        if last_attempt(attempts, slot) is Some {
            if attempts.last().0 == slot {
                assert(attempts[attempts.len() - 1].0 == slot);
            } else {
                let i = choose|i: int| 0 <= i < shorter.len() && (#[trigger] shorter[i]).0 == slot;
                assert(attempts[i].0 == slot);
            }
        }
        if exists|i: int| 0 <= i < attempts.len() && (#[trigger] attempts[i]).0 == slot {
            let i = choose|i: int| 0 <= i < attempts.len() && (#[trigger] attempts[i]).0 == slot;
            if i < shorter.len() {
                assert(shorter[i].0 == slot);
            }
        }
    }
}

/// Connecting again touches exactly the slots that need it. Where no two slots are for one node,
/// and the list stays as it is while the attempts are made: every slot keeps its node; one with an
/// open link to a node of the list is not tried and keeps the link; one for a node of the list
/// without an open link is tried, and is open afterwards if and only if that succeeded; one for a
/// node that is not listed is not tried and has no link.
pub proof fn law_only_lost_links_are_renewed(
    slots: Seq<ConnectionView>,
    rpcs: Seq<RpcView>,
    attempts: Seq<(usize, RpcView, bool)>,
    slot: int,
)
    requires
        slots.len() + rpcs.len() <= usize::MAX,
        distinct_slots(slots),
        attempts_of(attempts, to_connect(pruned(slots, rpcs), rpcs)),
        0 <= slot < slotted(pruned(slots, rpcs), rpcs).len(),
    ensures
        ({
            let before = slotted(pruned(slots, rpcs), rpcs);
            let after = settled(before, rpcs, attempts);
            &&& after.len() == before.len()
            &&& slots.len() <= after.len()
            &&& distinct_slots(before)
            &&& after[slot].rpc == before[slot].rpc
            &&& slot < slots.len() ==> after[slot].rpc == slots[slot].rpc
            &&& slot >= slots.len() ==> listed(rpcs, after[slot].rpc)
            &&& if !listed(rpcs, after[slot].rpc) {
                &&& last_attempt(attempts, slot) is None
                &&& after[slot].sender == Link::Absent
            } else if slot < slots.len() && slots[slot].sender == Link::Open {
                &&& last_attempt(attempts, slot) is None
                &&& after[slot] == slots[slot]
            } else {
                &&& last_attempt(attempts, slot) is Some
                &&& after[slot].sender == if last_attempt(attempts, slot)->0 {
                    Link::Open
                } else {
                    Link::Absent
                }
            }
        }),
{
    let kept = pruned(slots, rpcs);
    let before = slotted(kept, rpcs);
    let pairs = to_connect(kept, rpcs);
    assert(distinct_slots(kept)) by {
        assert forall|i: int, j: int| 0 <= i < j < kept.len() implies !(
        #[trigger] kept[i]).rpc.same_endpoint((#[trigger] kept[j]).rpc) by {
            assert(!slots[i].rpc.same_endpoint(slots[j].rpc));
        }
    }
    lemma_slotted(kept, rpcs);
    lemma_slotted_extends(kept, rpcs);
    lemma_last_attempt(attempts, slot);
    assert forall|i: int| 0 <= i < attempts.len() implies (#[trigger] attempts[i]).0 < before.len()
        && listed(rpcs, attempts[i].1) && before[attempts[i].0 as int].rpc.same_endpoint(
        attempts[i].1,
    ) && before[attempts[i].0 as int].sender != Link::Open by {
        lemma_to_connect(kept, rpcs, i);
        assert((attempts[i].0, attempts[i].1) == pairs[i]);
    }
    lemma_settled(before, rpcs, attempts, slot);
    if slot >= slots.len() {
        lemma_new_slots_are_absent(kept, rpcs, slot);
    }
    if last_attempt(attempts, slot) is Some {
        let i = choose|i: int| 0 <= i < attempts.len() && (#[trigger] attempts[i]).0 == slot;
        let k = choose|k: int|
            0 <= k < rpcs.len() && (#[trigger] rpcs[k]).same_endpoint(attempts[i].1);
        assert(rpcs[k].same_endpoint(before[slot].rpc));
    }
    if listed(rpcs, before[slot].rpc) && before[slot].sender != Link::Open {
        let place = choose|k: int|
            0 <= k < rpcs.len() && (#[trigger] rpcs[k]).same_endpoint(before[slot].rpc);
        law_every_node_is_served(kept, rpcs, place);
        let other = choose|s: int| #[trigger] serves(kept, rpcs, s, place);
        assert(before[other].rpc.same_endpoint(before[slot].rpc));
        assert(before[slot].rpc.same_endpoint(before[other].rpc));
        assert(other == slot);
        let i = choose|i: int|
            0 <= i < pairs.len() && #[trigger] pairs[i] == (slot as usize, rpcs[place]);
        assert(attempts[i].0 == slot);
    }
}

proof fn lemma_new_slots_are_absent(slots: Seq<ConnectionView>, rpcs: Seq<RpcView>, slot: int)
    requires
        slots.len() <= slot < slotted(slots, rpcs).len(),
    ensures
        slotted(slots, rpcs)[slot].sender == Link::Absent,
    decreases rpcs.len(),
{
    if rpcs.len() > 0 && slot < slotted(slots, rpcs.drop_last()).len() {
        lemma_new_slots_are_absent(slots, rpcs.drop_last(), slot);
    }
}

/// A message that no slot was asked for goes to an open link only, and to a node of the list.
pub proof fn law_routes_are_open(
    rpcs: Seq<RpcView>,
    slots: Seq<ConnectionView>,
    i: int,
)
    requires
        rpcs.len() <= usize::MAX,
        slots.len() <= usize::MAX,
        0 <= i < routes(rpcs, slots).len(),
    ensures
        ({
            let (place, slot) = routes(rpcs, slots)[i];
            &&& place < rpcs.len()
            &&& slot < slots.len()
            &&& slots[slot as int].sender == Link::Open
            &&& slots[slot as int].rpc.same_endpoint(rpcs[place as int])
        }),
    decreases rpcs.len(),
{
    let rpc = rpcs.last();
    let before = routes(rpcs.drop_last(), slots);
    if i < before.len() {
        law_routes_are_open(rpcs.drop_last(), slots, i);
        let (place, slot) = before[i];
        assert(rpcs.drop_last()[place as int] == rpcs[place as int]);
    } else {
        lemma_open_slot_bound(slots, rpc);
    }
}

proof fn lemma_open_slot_bound(slots: Seq<ConnectionView>, rpc: RpcView)
    ensures
        open_slot(slots, rpc) <= slots.len(),
        open_slot(slots, rpc) < slots.len() ==> {
            let slot = slots[open_slot(slots, rpc) as int];
            slot.rpc.same_endpoint(rpc) && slot.sender == Link::Open
        },
    decreases slots.len(),
{
    if slots.len() > 0 && !(slots[0].rpc.same_endpoint(rpc) && slots[0].sender == Link::Open) {
        lemma_open_slot_bound(slots.drop_first(), rpc);
    }
}

/// A node is listed exactly where some node of the list stands at its address, and the place that
/// is found is that of the first such node.
pub proof fn law_nodes_are_found_by_address(
    rpcs: &Vec<Rpc>,
    rpc: &Rpc,
    found: bool,
    place: Option<usize>,
    i: int,
)
    requires
        call_ensures(is_listed, (rpcs, rpc), found),
        call_ensures(find_rpc, (rpcs, rpc), place),
    ensures
        found <==> place is Some,
        place is Some ==> place->0 < rpcs@.len() && rpcs@[place->0 as int]@.same_endpoint(rpc@),
        0 <= i < rpcs@.len() && rpcs@[i]@.same_endpoint(rpc@) ==> place is Some && place->0 <= i,
{
    let views = rpcs_view(rpcs@);
    lemma_first_listed_is_first(views, rpc@);
    if 0 <= i < rpcs@.len() && rpcs@[i]@.same_endpoint(rpc@) {
        assert(views[i].same_endpoint(rpc@));
    }
    if place is Some {
        assert(views[place->0 as int].same_endpoint(rpc@));
    }
}

proof fn lemma_first_listed_is_first(rpcs: Seq<RpcView>, rpc: RpcView)
    ensures
        match first_listed(rpcs, rpc) {
            Some(at) => 0 <= at < rpcs.len() && rpcs[at].same_endpoint(rpc) && forall|i: int|
                0 <= i < at ==> !(#[trigger] rpcs[i]).same_endpoint(rpc),
            None => forall|i: int|
                0 <= i < rpcs.len() ==> !(#[trigger] rpcs[i]).same_endpoint(rpc),
        },
    decreases rpcs.len(),
{
    if rpcs.len() > 0 && !rpcs[0].same_endpoint(rpc) {
        let rest = rpcs.drop_first();
        lemma_first_listed_is_first(rest, rpc);
        let end = match first_listed(rpcs, rpc) {
            Some(at) => at,
            None => rpcs.len() as int,
        };
        assert forall|i: int| 0 <= i < end implies !(#[trigger] rpcs[i]).same_endpoint(rpc) by {
            if i > 0 {
                assert(rest[i - 1] == rpcs[i]);
            }
        }
    }
}

proof fn lemma_given_up(slots: Seq<ConnectionView>, rpcs: Seq<RpcView>, slot: int)
    requires
        slots.len() <= usize::MAX,
        0 <= slot < slots.len(),
    ensures
        connects(given_up(slots, rpcs), slot, slots[slot].rpc) <==> !listed(rpcs, slots[slot].rpc)
            && slots[slot].sender == Link::Open,
        forall|i: int|
            0 <= i < given_up(slots, rpcs).len() ==> (#[trigger] given_up(slots, rpcs)[i]).0
                < slots.len() && given_up(slots, rpcs)[i].1 == slots[given_up(
                slots,
                rpcs,
            )[i].0 as int].rpc && !listed(rpcs, given_up(slots, rpcs)[i].1)
                && slots[given_up(slots, rpcs)[i].0 as int].sender == Link::Open,
    decreases slots.len(),
{
    let shorter = slots.drop_last();
    let before = given_up(shorter, rpcs);
    let after = given_up(slots, rpcs);
    let last = slots.len() - 1;
    if shorter.len() > 0 {
        lemma_given_up(
            shorter,
            rpcs,
            if slot < last {
                slot
            } else {
                0
            },
        );
    } else {
        assert(before.len() == 0);
    }
    assert forall|i: int| 0 <= i < after.len() implies (#[trigger] after[i]).0 < slots.len()
        && after[i].1 == slots[after[i].0 as int].rpc && !listed(rpcs, after[i].1)
        && slots[after[i].0 as int].sender == Link::Open by {
        if i < before.len() {
            assert(after[i] == before[i]);
            assert(shorter[before[i].0 as int] == slots[before[i].0 as int]);
        }
    }
    if !listed(rpcs, slots[slot].rpc) && slots[slot].sender == Link::Open {
        if slot == last {
            assert(after[after.len() - 1] == (slot as usize, slots[slot].rpc));
        } else {
            assert(shorter[slot] == slots[slot]);
            let i = choose|i: int|
                0 <= i < before.len() && #[trigger] before[i] == (slot as usize, shorter[slot].rpc);
            assert(after[i] == before[i]);
        }
    }
}

/// Bringing the slots in line with the list of nodes: no slot is lost or given to another node; the
/// links to listed nodes stay as they are, and those to others are given up. Exactly the open links
/// among these are reported as closed. New slots are for listed nodes and have no link, and
/// each listed node has a slot that is open or is to be connected.
pub proof fn law_slots_follow_the_list(
    rpcs: &Vec<Rpc>,
    handles: &mut Vec<WsConnection>,
    plan: ConnectionPlan,
    slot: int,
    place: int,
)
    requires
        old(handles)@.len() + rpcs@.len() <= usize::MAX,
        call_ensures(update_ws_connections, (rpcs, handles), plan),
    ensures
        ({
            let nodes = rpcs_view(rpcs@);
            let before = slots_view(old(handles)@);
            let after = slots_view(final(handles)@);
            let closed = pairs_view(plan.closed@);
            let reconnect = pairs_view(plan.reconnect@);
            &&& after.len() >= before.len()
            &&& 0 <= slot < before.len() ==> {
                &&& after[slot].rpc == before[slot].rpc
                &&& listed(nodes, before[slot].rpc) ==> after[slot].sender == before[slot].sender
                &&& !listed(nodes, before[slot].rpc) ==> after[slot].sender == Link::Absent
                &&& (exists|i: int|
                    0 <= i < closed.len() && #[trigger] closed[i] == (
                        slot as usize,
                        before[slot].rpc,
                    )) <==> !listed(nodes, before[slot].rpc) && before[slot].sender == Link::Open
            }
            &&& before.len() <= slot < after.len() ==> after[slot].sender == Link::Absent
            &&& forall|i: int|
                0 <= i < closed.len() ==> (#[trigger] closed[i]).0 < before.len() && closed[i].1
                    == before[closed[i].0 as int].rpc && before[closed[i].0 as int].sender
                    == Link::Open
            &&& 0 <= place < nodes.len() ==> exists|s: int|
                0 <= s < after.len() && (#[trigger] after[s]).rpc.same_endpoint(nodes[place]) && (
                after[s].sender == Link::Open || connects(reconnect, s, nodes[place]))
        }),
{
    let nodes = rpcs_view(rpcs@);
    let before = slots_view(old(handles)@);
    let kept = pruned(before, nodes);
    let after = slots_view(final(handles)@);
    assert(before.len() == old(handles)@.len());
    lemma_slotted_extends(kept, nodes);
    if 0 <= slot < before.len() {
        law_slots_are_stable(before, nodes, slot);
        lemma_given_up(before, nodes, slot);
    }
    if before.len() > 0 {
        lemma_given_up(before, nodes, 0);
    } else {
        assert(given_up(before, nodes).len() == 0);
    }
    if before.len() <= slot < after.len() {
        lemma_new_slots_are_absent(kept, nodes, slot);
    }
    if 0 <= place < nodes.len() {
        law_every_node_is_served(kept, nodes, place);
        let s = choose|s: int| #[trigger] serves(kept, nodes, s, place);
        assert(after[s].rpc.same_endpoint(nodes[place]));
    }
}

/// What is to be connected again is for a listed node, and has no open link: no connection that
/// works is made a second time. This holds where no two slots are for one node.
pub proof fn law_working_connections_are_left_alone(
    rpcs: &Vec<Rpc>,
    handles: &mut Vec<WsConnection>,
    plan: ConnectionPlan,
    i: int,
)
    requires
        old(handles)@.len() + rpcs@.len() <= usize::MAX,
        distinct_slots(slots_view(old(handles)@)),
        call_ensures(update_ws_connections, (rpcs, handles), plan),
        0 <= i < plan.reconnect@.len(),
    ensures
        ({
            let (slot, rpc) = pairs_view(plan.reconnect@)[i];
            let after = slots_view(final(handles)@);
            &&& slot < after.len()
            &&& after[slot as int].rpc.same_endpoint(rpc)
            &&& after[slot as int].sender != Link::Open
            &&& listed(rpcs_view(rpcs@), rpc)
            &&& distinct_slots(after)
        }),
{
    let nodes = rpcs_view(rpcs@);
    let before = slots_view(old(handles)@);
    let kept = pruned(before, nodes);
    assert forall|a: int, b: int| 0 <= a < b < kept.len() implies !(
    #[trigger] kept[a]).rpc.same_endpoint((#[trigger] kept[b]).rpc) by {
        assert(!before[a].rpc.same_endpoint(before[b].rpc));
    }
    assert(before.len() == old(handles)@.len());
    assert(nodes.len() == rpcs@.len());
    assert(pairs_view(plan.reconnect@).len() == plan.reconnect@.len());
    lemma_to_connect(kept, nodes, i);
    lemma_slotted(kept, nodes);
}

/// The last attempt for a slot that counts; one for a node that is not listed does not.
spec fn counted_attempt(
    rpcs: Seq<RpcView>,
    attempts: Seq<(usize, RpcView, bool)>,
    slot: int,
) -> Option<bool>
    decreases attempts.len(),
{
    if attempts.len() == 0 {
        None
    } else if attempts.last().0 == slot && listed(rpcs, attempts.last().1) {
        Some(attempts.last().2)
    } else {
        counted_attempt(rpcs, attempts.drop_last(), slot)
    }
}

proof fn lemma_settled_by_attempt(
    slots: Seq<ConnectionView>,
    rpcs: Seq<RpcView>,
    attempts: Seq<(usize, RpcView, bool)>,
    slot: int,
)
    requires
        0 <= slot < slots.len(),
        forall|i: int| 0 <= i < attempts.len() ==> (#[trigger] attempts[i]).0 < slots.len(),
    ensures
        ({
            let after = settled(slots, rpcs, attempts);
            &&& after.len() == slots.len()
            &&& after[slot].rpc == slots[slot].rpc
            &&& after[slot].sender == match counted_attempt(rpcs, attempts, slot) {
                Some(true) => Link::Open,
                Some(false) => Link::Absent,
                None => slots[slot].sender,
            }
        }),
    decreases attempts.len(),
{
    if attempts.len() > 0 {
        let shorter = attempts.drop_last();
        assert(attempts[attempts.len() - 1] == attempts.last());
        assert forall|i: int| 0 <= i < shorter.len() implies (#[trigger] shorter[i]).0
            < slots.len() by {
            assert(shorter[i] == attempts[i]);
        }
        lemma_settled_by_attempt(slots, rpcs, shorter, slot);
    }
}

proof fn lemma_counted_attempt(
    rpcs: Seq<RpcView>,
    attempts: Seq<(usize, RpcView, bool)>,
    slot: int,
    k: int,
)
    ensures
        (forall|i: int|
            0 <= i < attempts.len() && (#[trigger] attempts[i]).0 == slot ==> !listed(
                rpcs,
                attempts[i].1,
            )) ==> counted_attempt(rpcs, attempts, slot) is None,
        0 <= k < attempts.len() && attempts[k].0 == slot && listed(rpcs, attempts[k].1) && (forall|
            i: int,
        |
            k < i < attempts.len() && (#[trigger] attempts[i]).0 == slot ==> !listed(
                rpcs,
                attempts[i].1,
            )) ==> counted_attempt(rpcs, attempts, slot) == Some(attempts[k].2),
    decreases attempts.len(),
{
    if attempts.len() > 0 {
        let shorter = attempts.drop_last();
        let last = attempts.len() - 1;
        assert(attempts[last] == attempts.last());
        lemma_counted_attempt(rpcs, shorter, slot, k);
        assert forall|i: int| 0 <= i < shorter.len() implies #[trigger] shorter[i]
            == attempts[i] by {}
        if forall|i: int|
            0 <= i < attempts.len() && (#[trigger] attempts[i]).0 == slot ==> !listed(
                rpcs,
                attempts[i].1,
            ) {
            assert forall|i: int|
                0 <= i < shorter.len() && (#[trigger] shorter[i]).0 == slot implies !listed(
                rpcs,
                shorter[i].1,
            ) by {
                assert(attempts[i].0 == slot);
            }
        }
        if 0 <= k < last && attempts[k].0 == slot && listed(rpcs, attempts[k].1) && (forall|i: int|
            k < i < attempts.len() && (#[trigger] attempts[i]).0 == slot ==> !listed(
                rpcs,
                attempts[i].1,
            )) {
            assert forall|i: int|
                k < i < shorter.len() && (#[trigger] shorter[i]).0 == slot implies !listed(
                rpcs,
                shorter[i].1,
            ) by {
                assert(attempts[i].0 == slot);
            }
            assert(shorter[k] == attempts[k]);
        }
    }
}

/// After attempts to connect a slot is open where the last attempt for it succeeded, has no link
/// where that failed, and is as it was where there was none; an attempt for a node that is not
/// listed any more does not count. Every slot keeps its node.
pub proof fn law_attempts_decide_on_slots(
    rpcs: &Vec<Rpc>,
    handles: &mut Vec<WsConnection>,
    attempts: &Vec<(usize, Rpc, bool)>,
    slot: int,
    k: int,
)
    requires
        forall|i: int|
            0 <= i < attempts@.len() ==> (#[trigger] attempts@[i]).0 < old(handles)@.len(),
        0 <= slot < old(handles)@.len(),
        call_ensures(settle_ws_connections, (rpcs, handles, attempts), ()),
    ensures
        ({
            let nodes = rpcs_view(rpcs@);
            let before = slots_view(old(handles)@);
            let after = slots_view(final(handles)@);
            &&& after.len() == before.len()
            &&& after[slot].rpc == before[slot].rpc
            &&& (forall|i: int|
                0 <= i < attempts@.len() && (#[trigger] attempts@[i]).0 == slot ==> !listed(
                    nodes,
                    attempts@[i].1@,
                )) ==> after[slot].sender == before[slot].sender
            &&& 0 <= k < attempts@.len() && attempts@[k].0 == slot && listed(
                nodes,
                attempts@[k].1@,
            ) && (forall|i: int|
                k < i < attempts@.len() && (#[trigger] attempts@[i]).0 == slot ==> !listed(
                    nodes,
                    attempts@[i].1@,
                )) ==> after[slot].sender == if attempts@[k].2 {
                Link::Open
            } else {
                Link::Absent
            }
        }),
{
    let nodes = rpcs_view(rpcs@);
    let made = attempts_view(attempts@);
    let before = slots_view(old(handles)@);
    assert forall|i: int| 0 <= i < made.len() implies (#[trigger] made[i]).0 < before.len() by {
        assert(attempts@[i].0 < old(handles)@.len());
    }
    assert forall|i: int| 0 <= i < made.len() implies #[trigger] made[i] == (
        attempts@[i].0,
        attempts@[i].1@,
        attempts@[i].2,
    ) by {}
    lemma_settled_by_attempt(before, nodes, made, slot);
    lemma_counted_attempt(nodes, made, slot, k);
    if forall|i: int|
        0 <= i < attempts@.len() && (#[trigger] attempts@[i]).0 == slot ==> !listed(
            nodes,
            attempts@[i].1@,
        ) {
        assert forall|i: int| 0 <= i < made.len() && (#[trigger] made[i]).0 == slot implies !listed(
            nodes,
            made[i].1,
        ) by {
            assert(attempts@[i].0 == slot);
        }
    }
    if 0 <= k < attempts@.len() && (forall|i: int|
        k < i < attempts@.len() && (#[trigger] attempts@[i]).0 == slot ==> !listed(
            nodes,
            attempts@[i].1@,
        )) {
        assert forall|i: int| k < i < made.len() && (#[trigger] made[i]).0 == slot implies !listed(
            nodes,
            made[i].1,
        ) by {
            assert(attempts@[i].0 == slot);
        }
        assert(made[k].0 == attempts@[k].0);
    }
}

proof fn lemma_open_slot_is_first(slots: Seq<ConnectionView>, rpc: RpcView, i: int)
    requires
        0 <= i < slots.len(),
        slots[i].rpc.same_endpoint(rpc),
        slots[i].sender == Link::Open,
    ensures
        open_slot(slots, rpc) <= i,
    decreases slots.len(),
{
    if !(slots[0].rpc.same_endpoint(rpc) && slots[0].sender == Link::Open) {
        let rest = slots.drop_first();
        assert(rest[i - 1] == slots[i]);
        lemma_open_slot_is_first(rest, rpc, i - 1);
    }
}

proof fn lemma_routes_complete(
    rpcs: Seq<RpcView>,
    slots: Seq<ConnectionView>,
    place: int,
    slot: int,
)
    requires
        rpcs.len() <= usize::MAX,
        slots.len() <= usize::MAX,
        0 <= place < rpcs.len(),
        0 <= slot < slots.len(),
        slots[slot].rpc.same_endpoint(rpcs[place]),
        slots[slot].sender == Link::Open,
    ensures
        exists|i: int|
            0 <= i < routes(rpcs, slots).len() && (#[trigger] routes(rpcs, slots)[i]).0 == place
                && routes(rpcs, slots)[i].1 <= slot,
    decreases rpcs.len(),
{
    let before = routes(rpcs.drop_last(), slots);
    let all = routes(rpcs, slots);
    if place == rpcs.len() - 1 {
        lemma_open_slot_is_first(slots, rpcs[place], slot);
        assert(all[all.len() - 1].0 == place);
    } else {
        assert(rpcs.drop_last()[place] == rpcs[place]);
        lemma_routes_complete(rpcs.drop_last(), slots, place, slot);
        let i = choose|i: int|
            0 <= i < before.len() && (#[trigger] before[i]).0 == place && before[i].1 <= slot;
        assert(all[i] == before[i]);
    }
}

/// A message that goes to no slot in particular may go to every node of the list with an open link,
/// and to no other: each of them is among the routes, by its place and the first such link.
pub proof fn law_routes_lead_to_all_open_nodes(
    rpcs: &Vec<Rpc>,
    handles: &Vec<WsConnection>,
    positions: Vec<(usize, usize)>,
    i: int,
    place: int,
    slot: int,
)
    requires
        call_ensures(open_routes, (rpcs, handles), positions),
        rpcs@.len() <= usize::MAX,
        handles@.len() <= usize::MAX,
    ensures
        0 <= i < positions@.len() ==> {
            let (p, s) = positions@[i];
            &&& p < rpcs@.len()
            &&& s < handles@.len()
            &&& handles@[s as int].sender == Link::Open
            &&& handles@[s as int].rpc@.same_endpoint(rpcs@[p as int]@)
        },
        0 <= place < rpcs@.len() && 0 <= slot < handles@.len() && handles@[slot].sender
            == Link::Open && handles@[slot].rpc@.same_endpoint(rpcs@[place]@) ==> exists|k: int|
            0 <= k < positions@.len() && (#[trigger] positions@[k]).0 == place && positions@[k].1
                <= slot,
{
    let nodes = rpcs_view(rpcs@);
    let slots = slots_view(handles@);
    assert(nodes.len() == rpcs@.len() && slots.len() == handles@.len());
    if 0 <= i < positions@.len() {
        law_routes_are_open(nodes, slots, i);
        let (p, s) = positions@[i];
        assert(slots[s as int] == handles@[s as int]@);
        assert(nodes[p as int] == rpcs@[p as int]@);
    }
    if 0 <= place < rpcs@.len() && 0 <= slot < handles@.len() && handles@[slot].sender == Link::Open
        && handles@[slot].rpc@.same_endpoint(rpcs@[place]@) {
        assert(slots[slot] == handles@[slot]@);
        assert(nodes[place] == rpcs@[place]@);
        lemma_routes_complete(nodes, slots, place, slot);
    }
}

proof fn lemma_put_back(
    rpcs: Seq<RpcView>,
    positions: Seq<(usize, usize)>,
    candidates: Seq<RpcView>,
    place: int,
)
    requires
        candidates.len() <= positions.len(),
        forall|i: int| 0 <= i < positions.len() ==> (#[trigger] positions[i]).0 < rpcs.len(),
        0 <= place < rpcs.len(),
    ensures
        put_back(rpcs, positions, candidates).len() == rpcs.len(),
        (forall|i: int| 0 <= i < candidates.len() ==> (#[trigger] positions[i]).0 != place)
            ==> put_back(rpcs, positions, candidates)[place] == rpcs[place],
        forall|i: int|
            0 <= i < candidates.len() && (#[trigger] positions[i]).0 == place && (forall|k: int|
                i < k < candidates.len() ==> (#[trigger] positions[k]).0 != place) ==> put_back(
                rpcs,
                positions,
                candidates,
            )[place] == candidates[i],
    decreases candidates.len(),
{
    if candidates.len() > 0 {
        lemma_put_back(rpcs, positions, candidates.drop_last(), place);
        let last = candidates.len() - 1;
        assert(positions[last].0 < rpcs.len());
    }
}

/// Candidates are copies of the nodes at their places, and go back to these places: each node from
/// which a candidate was taken is what has become of it, and no other node changes. No two
/// candidates are for one place.
pub proof fn law_candidates_go_back_to_their_places(
    list: &Vec<Rpc>,
    positions: &Vec<(usize, usize)>,
    taken: Vec<Rpc>,
    rpcs: &mut Vec<Rpc>,
    changed: &Vec<Rpc>,
    i: int,
    place: int,
)
    requires
        forall|k: int| 0 <= k < positions@.len() ==> (#[trigger] positions@[k]).0 < list@.len(),
        forall|a: int, b: int|
            0 <= a < b < positions@.len() ==> (#[trigger] positions@[a]).0 != (
            #[trigger] positions@[b]).0,
        old(rpcs)@.len() == list@.len(),
        changed@.len() == positions@.len(),
        call_ensures(candidates, (list, positions), taken),
        call_ensures(write_back, (rpcs, positions, changed), ()),
    ensures
        taken@.len() == positions@.len(),
        final(rpcs)@.len() == old(rpcs)@.len(),
        0 <= i < positions@.len() ==> taken@[i]@ == list@[positions@[i].0 as int]@,
        0 <= i < positions@.len() ==> final(rpcs)@[positions@[i].0 as int]@ == changed@[i]@,
        0 <= place < list@.len() && (forall|k: int|
            0 <= k < positions@.len() ==> (#[trigger] positions@[k]).0 != place)
            ==> final(rpcs)@[place]@ == old(rpcs)@[place]@,
{
    let before = rpcs_view(old(rpcs)@);
    let after = rpcs_view(final(rpcs)@);
    let given = rpcs_view(changed@);
    assert(rpcs_view(taken@).len() == taken@.len());
    assert(before.len() == old(rpcs)@.len() && after.len() == final(rpcs)@.len());
    assert(given.len() == changed@.len());
    if list@.len() > 0 {
        lemma_put_back(before, positions@, given, 0);
    } else {
        assert(positions@.len() == 0) by {
            if positions@.len() > 0 {
                assert(positions@[0].0 < list@.len());
            }
        }
    }
    if 0 <= i < positions@.len() {
        let at = positions@[i].0 as int;
        assert(rpcs_view(taken@)[i] == taken@[i]@);
        lemma_put_back(before, positions@, given, at);
        assert forall|k: int| i < k < given.len() implies (#[trigger] positions@[k]).0 != at by {
            assert(positions@[i].0 != positions@[k].0);
        }
        assert(after[at] == given[i]);
        assert(after[at] == final(rpcs)@[at]@);
        assert(given[i] == changed@[i]@);
    }
    if 0 <= place < list@.len() {
        lemma_put_back(before, positions@, given, place);
        assert(after[place] == final(rpcs)@[place]@);
        assert(before[place] == old(rpcs)@[place]@);
    }
}

/// A message goes to the slot that it asks for, or else to that of the candidate picked, and can be
/// handed over where that slot has a link. One that cannot is answered with an error under its
/// own id.
pub proof fn law_messages_have_a_destination(
    specified: Option<usize>,
    positions: &Vec<(usize, usize)>,
    selected: Option<usize>,
    slot: Option<usize>,
    handles: &Vec<WsConnection>,
    has: bool,
    incoming: &Json,
    answer: IncomingResponse,
)
    requires
        selected matches Some(index) ==> index < positions@.len(),
        call_ensures(destination, (specified, positions, selected), slot),
        call_ensures(has_sender, (handles, slot), has),
        call_ensures(undelivered, (incoming, slot), answer),
    ensures
        specified is Some ==> slot == specified,
        specified is None && selected is Some ==> slot == Some(
            positions@[selected->0 as int].1,
        ),
        specified is None && selected is None ==> slot is None,
        has <==> slot is Some && slot->0 < handles@.len() && (handles@[slot->0 as int].sender
            == Link::Open || handles@[slot->0 as int].sender == Link::Closed),
        slot is Some ==> answer.node_id == slot->0,
        slot is None ==> answer.node_id == usize::MAX,
        answer.content@.member("id"@) == incoming@.member("id"@),
        answer.content@.member("error"@).member("code"@) == integer(-32000),
        answer.content@.member("error"@).member("message"@) == JsonView::Text(
            "No upstream WebSocket connection available"@,
        ),
{
    law_errors_say_what_is_wrong(
        incoming@.member("id"@),
        -32000,
        "No upstream WebSocket connection available"@,
    );
}

/// What comes from a node is passed on as it is, together with the slot that it came from; a ping
/// is answered with what it holds, and an end is reported with the slot and the node. What is no
/// JSON, and a pong, is passed over.
pub proof fn law_frames_of_nodes_are_passed_on(
    upstream: &Upstream,
    frame: UpstreamFrame,
    action: UpstreamAction,
    parsed: Option<Json>,
    published: UpstreamAction,
)
    requires
        call_ensures(Upstream::frame, (upstream, frame), action),
        call_ensures(Upstream::publish, (upstream, parsed), published),
    ensures
        frame is Text || frame is Binary ==> {
            let bytes = if frame is Text {
                frame->Text_0@
            } else {
                frame->Binary_0@
            };
            &&& bytes_value(bytes) is None ==> action is Wait
            &&& bytes_value(bytes) is Some ==> (action matches UpstreamAction::Publish(response)
                && response.node_id == upstream.index && response.content@ == bytes_value(bytes)->0)
        },
        frame matches UpstreamFrame::Ping(payload) ==> action == UpstreamAction::Pong(payload),
        frame is Pong ==> action is Wait,
        frame is Ended ==> (action matches UpstreamAction::Close(WsChannelErr::Closed(index, rpc))
            && index == upstream.index && rpc@ == upstream.rpc@),
        parsed is None ==> published is Wait,
        parsed is Some ==> (published matches UpstreamAction::Publish(response) && response.node_id
            == upstream.index && response.content@ == parsed->0@),
{
}

/// A message for a node is sent as its text; where there are no more, the connection ends without a
/// report. What did not get through in time ends the connection with one.
pub proof fn law_messages_for_nodes_are_sent(
    upstream: &Upstream,
    message: Option<Json>,
    action: UpstreamAction,
    delivered: bool,
    after: UpstreamAction,
    url: Option<&str>,
)
    requires
        call_ensures(Upstream::outgoing, (upstream, message), action),
        call_ensures(Upstream::sent, (upstream, delivered), after),
        call_ensures(Upstream::url, (upstream,), url),
    ensures
        message is Some ==> (action matches UpstreamAction::Send(text) && text@ == value_text(
            message->0@,
        )),
        message is None ==> action is Stop,
        delivered ==> after is Wait,
        !delivered ==> (after matches UpstreamAction::Close(WsChannelErr::Closed(index, rpc))
            && index == upstream.index && rpc@ == upstream.rpc@),
        url is Some <==> upstream.rpc@.ws_url is Some,
        url is Some ==> url->0@ == upstream.rpc@.ws_url->0.text,
{
}

/// How long it took to pass a message on counts for the first node of the list at the address of
/// the connection, and for no other.
pub proof fn law_passing_on_is_timed(
    upstream: &Upstream,
    rpc_list: &mut Vec<Rpc>,
    time: u64,
    i: int,
)
    requires
        call_ensures(Upstream::record_latency, (upstream, rpc_list, time), ()),
        0 <= i < old(rpc_list)@.len(),
    ensures
        final(rpc_list)@.len() == old(rpc_list)@.len(),
        ({
            let first = old(rpc_list)@[i]@.same_endpoint(upstream.rpc@) && forall|k: int|
                0 <= k < i ==> !(#[trigger] old(rpc_list)@[k])@.same_endpoint(upstream.rpc@);
            final(rpc_list)@[i]@ == if first {
                old(rpc_list)@[i]@.timed(time)
            } else {
                old(rpc_list)@[i]@
            }
        }),
{
    let before = rpcs_view(old(rpc_list)@);
    let after = rpcs_view(final(rpc_list)@);
    lemma_first_listed_is_first(before, upstream.rpc@);
    assert(before.len() == old(rpc_list)@.len() && after.len() == final(rpc_list)@.len());
    assert(before[i] == old(rpc_list)@[i]@ && after[i] == final(rpc_list)@[i]@);
    if let Some(at) = first_listed(before, upstream.rpc@) {
        assert(before[at] == old(rpc_list)@[at]@);
        if at < i {
            assert(old(rpc_list)@[at]@.same_endpoint(upstream.rpc@));
        }
        if i == at {
            assert forall|k: int| 0 <= k < i implies !(
            #[trigger] old(rpc_list)@[k])@.same_endpoint(upstream.rpc@) by {
                assert(before[k] == old(rpc_list)@[k]@);
            }
        }
    }
}

} // verus!
