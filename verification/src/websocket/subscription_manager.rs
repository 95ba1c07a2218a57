//! Notifications on their way to users, and subscriptions on their way to another node.

use crate::config::system::WS_SUB_MANAGER_ID;
use crate::json::{
    empty_object, integer, items_view, parse, text_value, Json, JsonView, Numeric,
};
use crate::rpc::method::EthRpcMethod;
use crate::websocket::client::{id_after, RequestIds};
use crate::websocket::error::WsError;
use crate::websocket::types::{
    relabeled, Dispatch, IncomingResponse, NodeView, RequestResult, SubscriptionData,
    SubscriptionsView, WsconnMessage,
};
use crate::websocket::users::enumerates;
use std::collections::HashMap;
use vstd::prelude::*;

verus! {

/// The first id of a request that moves a subscription.
pub const FIRST_MIGRATION_ID: u64 = 0x8000_0000_0000_0000;

/// A request of the balancer with one parameter or with given ones.
pub open spec fn management(id: JsonView, method: EthRpcMethod, params: JsonView) -> JsonView {
    empty_object().with("jsonrpc"@, JsonView::Text("2.0"@)).with("id"@, id).with(
        "method"@,
        JsonView::Text(method.name()),
    ).with("params"@, params)
}

fn management_request(id: Json, method: EthRpcMethod, params: Json) -> (request: Json)
    ensures
        request@ == management(id@, method, params@),
{
    Json::object().put("jsonrpc", Json::text("2.0")).put("id", id).put(
        "method",
        Json::text(method.as_str()),
    ).put("params", params)
}

/// The request to end the upstream subscription `id`.
pub open spec fn unsubscribe_view(id: Seq<char>) -> JsonView {
    management(
        integer(WS_SUB_MANAGER_ID as int),
        EthRpcMethod::Unsubscribe,
        JsonView::Array(seq![JsonView::Text(id)]),
    )
}

/// Whether a message ends the upstream subscription `id` of the node in slot `node_id`.
pub open spec fn unsubscribes(message: WsconnMessage, id: Seq<char>, node_id: usize) -> bool {
    message matches WsconnMessage::Message(request, Some(slot)) && request@ == unsubscribe_view(id)
        && slot == node_id
}

fn unsubscribe_message(id: &str, node_id: usize) -> (message: WsconnMessage)
    ensures
        unsubscribes(message, id@, node_id),
{
    let mut params: Vec<Json> = Vec::new();
    params.push(Json::text(id));
    proof {
        assert(items_view(params@) =~= seq![JsonView::Text(id@)]);
    }
    WsconnMessage::Message(
        management_request(
            Json::unsigned(WS_SUB_MANAGER_ID as u64),
            EthRpcMethod::Unsubscribe,
            Json::array(params),
        ),
        Some(node_id),
    )
}

/// What becomes of a message from a node.
pub enum Dispatched {
    /// It is no notification that anybody waits for.
    Skip,
    /// Nobody shares the subscription any more: send this upstream.
    Unsubscribe(WsconnMessage),
    /// The message goes to these users. Whoever cannot be reached is to be taken out of the
    /// subscription with this id.
    Deliver { message: Json, users: Vec<u32>, client_id: String },
}

/// The upstream subscription that a message is a notification of.
pub open spec fn notification_id(content: JsonView) -> Option<Seq<char>> {
    if content.member("method"@) == JsonView::Text(EthRpcMethod::Subscription.name()) {
        content.member("params"@).member("subscription"@).text()
    } else {
        None
    }
}

/// Takes in a message from a node.
pub fn subscription_dispatcher(response: IncomingResponse, sub_data: &mut SubscriptionData) -> (
dispatched: Dispatched)
    requires
        old(sub_data).wf(),
    ensures
        final(sub_data).wf(),
        ({
            let before = old(sub_data)@;
            let content = response.content@;
            let node_id = response.node_id;
            match notification_id(content) {
                None => {
                    &&& dispatched == Dispatched::Skip
                    &&& final(sub_data)@ == before
                },
                Some(id) => if !before.subscriptions.contains_key((node_id, id)) {
                    &&& dispatched == Dispatched::Skip
                    &&& final(sub_data)@ == before
                } else if before.subscriptions[(node_id, id)].users == Set::<u32>::empty() {
                    &&& dispatched matches Dispatched::Unsubscribe(message) && unsubscribes(
                        message,
                        id,
                        node_id,
                    )
                    &&& final(sub_data)@ == before.forgotten((node_id, id))
                } else {
                    let shared = before.subscriptions[(node_id, id)];
                    &&& dispatched matches Dispatched::Deliver { message, users, client_id }
                        && message@ == relabeled(content, shared.client_id) && enumerates(
                        users@,
                        shared.users.intersect(before.users),
                    ) && client_id@ == shared.client_id
                    &&& final(sub_data)@ == before
                },
            }
        }),
{
    let node_id: usize = response.node_id;
    let content = response.content;
    let is_notification = match content.get("method") {
        Some(method) => method.is(EthRpcMethod::Subscription.as_str()),
        None => false,
    };
    if !is_notification {
        return Dispatched::Skip;
    }
    let id = match content.get("params") {
        Some(params) => match params.get("subscription") {
            Some(id) => match id.as_str() {
                Some(id) => Some(id.to_owned()),
                None => None,
            },
            None => None,
        },
        None => None,
    };
    let id = match id {
        Some(id) => id,
        None => {
            return Dispatched::Skip;
        },
    };
    match sub_data.dispatch_to_subscribers(
        id.as_str(),
        node_id,
        &RequestResult::Subscription(content),
    ) {
        Ok(Dispatch::Unsubscribe) => Dispatched::Unsubscribe(
            unsubscribe_message(id.as_str(), node_id),
        ),
        Ok(Dispatch::Deliver { message, users, client_id }) => Dispatched::Deliver {
            message,
            users,
            client_id,
        },
        _ => Dispatched::Skip,
    }
}

/// The error for a channel of messages that ended, or that was read too slowly.
pub fn receive_failed(lagged: bool) -> (error: WsError)
    ensures
        error == if lagged {
            WsError::ReceiverLagged()
        } else {
            WsError::ChannelClosed()
        },
{
    if lagged {
        WsError::ReceiverLagged()
    } else {
        WsError::ChannelClosed()
    }
}

/// The subscriptions of a node on their way to other nodes: the parameters of each by the id of
/// the request that asks for it.
pub struct Migration {
    pairs: HashMap<u64, String>,
}

/// How a migration starts.
pub struct MigrationStart {
    pub migration: Migration,
    /// Ends the subscriptions at the old node.
    pub unsubscribe: Vec<WsconnMessage>,
    /// Asks for the subscriptions at any node.
    pub subscribe: Vec<WsconnMessage>,
    /// Whether all parameters could be read; if not, the migration fails once what is there has
    /// been sent.
    pub complete: bool,
}

/// What ends a migration before all subscriptions have moved.
pub enum MigrationEvent {
    /// A request could not be sent.
    NotSent,
    /// The parameters of a subscription could not be read.
    Unreadable,
    /// An answer did not come in time.
    TimedOut,
    /// The channel of messages ended, or was read too slowly.
    NotReceived { lagged: bool },
}

/// What comes next for a migration.
pub enum MigrationStep {
    Wait,
    Done,
    Fail(WsError),
}

/// Whether a message asks for a subscription with the parameters `params` under the id `id`.
pub open spec fn subscribes(message: WsconnMessage, id: u64, params: Seq<char>) -> bool {
    message matches WsconnMessage::Message(request, None) && text_value(params) is Some
        && request@ == management(
        integer(id as int),
        EthRpcMethod::Subscribe,
        text_value(params)->0,
    )
}

/// What is asked for under each id: the parameters in order, under ids in order.
pub open spec fn asked(params: Seq<Seq<char>>, first: u64) -> Map<u64, Seq<char>>
    decreases params.len(),
{
    if params.len() == 0 {
        Map::empty()
    } else {
        asked(params.drop_last(), first).insert(
            id_after(first, (params.len() - 1) as nat),
            params.last(),
        )
    }
}

/// Whether a migration starts as it should for the subscriptions with the parameters `params`.
pub open spec fn starts(
    start: MigrationStart,
    view: SubscriptionsView,
    node_id: usize,
    params: Seq<Seq<char>>,
    first: u64,
) -> bool {
    &&& enumerates(params, view.served_by(node_id))
    &&& start.unsubscribe@.len() == params.len()
    &&& forall|i: int|
        0 <= i < params.len() ==> unsubscribes(
            #[trigger] start.unsubscribe@[i],
            view.incoming[params[i]].1,
            node_id,
        )
    &&& start.subscribe@.len() <= params.len()
    &&& forall|i: int|
        0 <= i < start.subscribe@.len() ==> subscribes(
            #[trigger] start.subscribe@[i],
            id_after(first, i as nat),
            params[i],
        )
    &&& start.migration@ == asked(params.take(start.subscribe@.len() as int), first)
    &&& start.complete <==> start.subscribe@.len() == params.len()
    &&& !start.complete ==> text_value(params[start.subscribe@.len() as int]) is None
}

impl MigrationStart {
    /// Takes in whether all requests could be sent.
    pub fn sent(&self, delivered: bool) -> (step: MigrationStep)
        ensures
            step == if !delivered {
                MigrationStep::Fail(WsError::ChannelClosed())
            } else if !self.complete {
                MigrationStep::Fail(WsError::FailedParsing())
            } else if self.migration@ == Map::<u64, Seq<char>>::empty() {
                MigrationStep::Done
            } else {
                MigrationStep::Wait
            },
    {
        if !delivered {
            MigrationStep::Fail(Migration::failed(MigrationEvent::NotSent))
        } else if !self.complete {
            MigrationStep::Fail(Migration::failed(MigrationEvent::Unreadable))
        } else if self.migration.is_done() {
            MigrationStep::Done
        } else {
            MigrationStep::Wait
        }
    }
}

impl Migration {
    pub closed spec fn view(&self) -> Map<u64, Seq<char>> {
        self.pairs@.map_values(|params: String| params@)
    }

    /// Starts to move all subscriptions away from the node in slot `node_id`. Until a node
    /// answers, users keep what they have.
    pub fn move_subscriptions(
        sub_data: &SubscriptionData,
        node_id: usize,
        ids: &mut RequestIds,
    ) -> (start: MigrationStart)
        requires
            sub_data.wf(),
        ensures
            final(ids)@ == id_after(
                old(ids)@,
                if start.complete {
                    start.subscribe@.len()
                } else {
                    start.subscribe@.len() + 1
                },
            ),
            exists|params: Seq<Seq<char>>| #[trigger]
                starts(start, sub_data@, node_id, params, old(ids)@),
    {
        let found = sub_data.subscriptions_by_node(node_id);
        let ghost params = Seq::new(found@.len(), |i: int| found@[i].0@);
        let ghost first = ids@;
        let mut unsubscribe: Vec<WsconnMessage> = Vec::new();
        let mut i: usize = 0;
        while i < found.len()
            invariant
                i <= found@.len(),
                unsubscribe@.len() == i,
                forall|j: int|
                    0 <= j < i ==> unsubscribes(
                        #[trigger] unsubscribe@[j],
                        found@[j].1@,
                        node_id,
                    ),
            decreases found@.len() - i,
        {
            unsubscribe.push(unsubscribe_message(found[i].1.as_str(), node_id));
            i = i + 1;
        }
        let mut pairs: HashMap<u64, String> = HashMap::new();
        let mut subscribe: Vec<WsconnMessage> = Vec::new();
        let mut complete = true;
        let mut i: usize = 0;
        proof {
            assert(pairs@.map_values(|params: String| params@) =~= asked(params.take(0), first));
        }
        while i < found.len() && complete
            invariant
                i <= found@.len(),
                params == Seq::new(found@.len(), |i: int| found@[i].0@),
                pairs@.map_values(|params: String| params@) == asked(
                    params.take(subscribe@.len() as int),
                    first,
                ),
                ids@ == id_after(first, i as nat),
                complete ==> subscribe@.len() == i,
                !complete ==> subscribe@.len() + 1 == i && text_value(
                    params[subscribe@.len() as int],
                ) is None,
                forall|j: int|
                    0 <= j < subscribe@.len() ==> subscribes(
                        #[trigger] subscribe@[j],
                        id_after(first, j as nat),
                        params[j],
                    ),
            decreases found@.len() - i,
        {
            let id: u64 = ids.take();
            match parse(found[i].0.as_str()) {
                None => {
                    complete = false;
                },
                Some(parsed) => {
                    let ghost before = pairs@;
                    pairs.insert(id, found[i].0.clone());
                    proof {
                        assert(params.take(i + 1).drop_last() =~= params.take(i as int));
                        assert(pairs@.map_values(|params: String| params@) =~= before.map_values(
                            |params: String| params@,
                        ).insert(id, params[i as int]));
                    }
                    subscribe.push(
                        WsconnMessage::Message(
                            management_request(
                                Json::unsigned(id),
                                EthRpcMethod::Subscribe,
                                parsed,
                            ),
                            None,
                        ),
                    );
                },
            }
            i = i + 1;
        }
        let start = MigrationStart {
            migration: Migration { pairs },
            unsubscribe,
            subscribe,
            complete,
        };
        proof {
            assert forall|j: int| 0 <= j < params.len() implies unsubscribes(
                #[trigger] start.unsubscribe@[j],
                sub_data@.incoming[params[j]].1,
                node_id,
            ) by {
                assert(found@[j].1@ == sub_data@.incoming[found@[j].0@].1);
            }
            assert(starts(start, sub_data@, node_id, params, first));
        }
        start
    }

    /// The error that a migration fails with. It has changed nothing but for the subscriptions
    /// that have moved already.
    pub fn failed(event: MigrationEvent) -> (error: WsError)
        ensures
            error == match event {
                MigrationEvent::NotSent => WsError::ChannelClosed(),
                MigrationEvent::Unreadable => WsError::FailedParsing(),
                MigrationEvent::TimedOut => WsError::NoWsResponse,
                MigrationEvent::NotReceived { lagged } => if lagged {
                    WsError::ReceiverLagged()
                } else {
                    WsError::ChannelClosed()
                },
            },
    {
        match event {
            MigrationEvent::NotSent => WsError::ChannelClosed(),
            MigrationEvent::Unreadable => WsError::FailedParsing(),
            MigrationEvent::TimedOut => WsError::NoWsResponse,
            MigrationEvent::NotReceived { lagged } => receive_failed(lagged),
        }
    }

    /// Whether all subscriptions have moved.
    pub fn is_done(&self) -> (done: bool)
        ensures
            done == (self@ == Map::<u64, Seq<char>>::empty()),
    {
        proof {
            if self.pairs@.is_empty() {
                assert(self@ =~= Map::<u64, Seq<char>>::empty());
            } else {
                let id = choose|id: u64| self.pairs@.contains_key(id);
                assert(self@.contains_key(id));
            }
        }
        self.pairs.is_empty()
    }

    /// Takes in a message from a node. The answer to a request of the migration moves the
    /// subscription there; anything else is passed over.
    pub fn received(&mut self, response: &IncomingResponse, sub_data: &mut SubscriptionData) -> (
    step: MigrationStep)
        requires
            old(sub_data).wf(),
        ensures
            final(sub_data).wf(),
            ({
                let content = response.content@;
                let id = content.member("id"@).unsigned();
                let before = old(sub_data)@;
                if id is None || !old(self)@.contains_key(id->0) {
                    &&& final(self)@ == old(self)@
                    &&& final(sub_data)@ == before
                    &&& step == MigrationStep::Wait
                } else {
                    let params = old(self)@[id->0];
                    &&& final(self)@ == old(self)@.remove(id->0)
                    &&& match content.member("result"@).text() {
                        None => {
                            &&& final(sub_data)@ == before
                            &&& step matches MigrationStep::Fail(WsError::InvalidData(detail))
                                && detail@ == "Upstream rejected subscription"@
                        },
                        Some(sub_id) => moved(
                            before,
                            final(sub_data)@,
                            params,
                            (response.node_id, sub_id),
                            final(self)@ == Map::<u64, Seq<char>>::empty(),
                            step,
                        ),
                    }
                }
            }),
    {
        let id: u64 = match response.content.get("id") {
            Some(id) => match id.as_u64() {
                Some(id) => id,
                None => {
                    return MigrationStep::Wait;
                },
            },
            None => {
                return MigrationStep::Wait;
            },
        };
        let ghost before = self.pairs@;
        let removed = self.pairs.remove(&id);
        let params = match removed {
            Some(params) => params,
            None => {
                proof {
                    assert(before.remove(id) =~= before);
                }
                return MigrationStep::Wait;
            },
        };
        proof {
            assert(self@ =~= old(self)@.remove(id));
        }
        let sub_id = match response.content.get("result") {
            Some(result) => match result.as_str() {
                Some(id) => Some(id.to_owned()),
                None => None,
            },
            None => None,
        };
        match sub_id {
            None => MigrationStep::Fail(
                WsError::InvalidData("Upstream rejected subscription".to_owned()),
            ),
            Some(sub_id) => {
                match sub_data.move_subscriptions(response.node_id, &params, sub_id) {
                    Err(error) => MigrationStep::Fail(error),
                    Ok(()) => if self.is_done() {
                        MigrationStep::Done
                    } else {
                        MigrationStep::Wait
                    },
                }
            },
        }
    }
}

/// Whether a subscription was moved to `to` as it should be, with `done` saying whether it was
/// the last one.
pub open spec fn moved(
    before: SubscriptionsView,
    after: SubscriptionsView,
    params: Seq<char>,
    to: NodeView,
    done: bool,
    step: MigrationStep,
) -> bool {
    if !before.incoming.contains_key(params) {
        after == before && step == MigrationStep::Fail(WsError::MissingSubscription())
    } else {
        let from = before.incoming[params];
        if before.shared_at(from).users == Set::<u32>::empty() {
            &&& after == (SubscriptionsView {
                subscriptions: before.subscriptions.remove(from),
                ..before
            })
            &&& step matches MigrationStep::Fail(WsError::EmptyList(detail)) && detail@
                == "User list empty!"@
        } else {
            &&& after == (SubscriptionsView {
                subscriptions: before.subscriptions.remove(from).insert(
                    to,
                    before.subscriptions[from],
                ),
                incoming: before.incoming.insert(params, to),
                ..before
            })
            &&& step == if done {
                MigrationStep::Done
            } else {
                MigrationStep::Wait
            }
        }
    }
}

/// After a subscription has moved, a notification under its new id reaches the users who shared
/// it before, under the id that they have always known.
pub proof fn law_moved_notifications_keep_client_id(
    before: SubscriptionsView,
    params: Seq<char>,
    to: NodeView,
    after: SubscriptionsView,
    content: JsonView,
    done: bool,
)
    requires
        before.incoming.contains_key(params),
        before.shared_at(before.incoming[params]).users != Set::<u32>::empty(),
        moved(
            before,
            after,
            params,
            to,
            done,
            if done {
                MigrationStep::Done
            } else {
                MigrationStep::Wait
            },
        ),
        content.member("params"@).has("subscription"@),
    ensures
        after.subscriptions.contains_key(to),
        after.subscriptions[to].users == before.subscriptions[before.incoming[params]].users,
        relabeled(content, after.subscriptions[to].client_id).member("params"@).member(
            "subscription"@,
        ) == JsonView::Text(before.subscriptions[before.incoming[params]].client_id),
{
}

/// A message of a node is a notification where it calls `eth_subscription` and names a subscription
/// by a text; it goes to the users of the subscription that the node has under that id. Everything
/// else is passed over. What the users get differs from what the node sent in the id of the
/// subscription alone, which is the one that they know; it goes to exactly those who share the
/// subscription and are connected.
pub proof fn law_notification_reaches_its_users(
    response: IncomingResponse,
    data: &mut SubscriptionData,
    dispatched: Dispatched,
)
    requires
        call_ensures(subscription_dispatcher, (response, data), dispatched),
    ensures
        ({
            let content = response.content@;
            let id = content.member("params"@).member("subscription"@);
            let node = (response.node_id, id->Text_0);
            let notifies = content.member("method"@) == JsonView::Text("eth_subscription"@) && id
                is Text;
            let known = notifies && old(data)@.subscriptions.contains_key(node);
            let shared = old(data)@.subscriptions[node];
            &&& dispatched is Skip <==> !known
            &&& dispatched is Unsubscribe <==> known && shared.users == Set::<u32>::empty()
            &&& !(dispatched is Unsubscribe) ==> final(data)@ == old(data)@
            &&& dispatched is Unsubscribe ==> final(data)@ == old(data)@.forgotten(node)
            &&& dispatched matches Dispatched::Unsubscribe(message) ==> (message matches
                WsconnMessage::Message(request, Some(slot)) && slot == response.node_id
                && request@.member("method"@) == JsonView::Text("eth_unsubscribe"@)
                && request@.member("params"@) == JsonView::Array(seq![id]))
            &&& dispatched matches Dispatched::Deliver { message, users, client_id } ==> {
                let before = content.member("params"@);
                let after = message@.member("params"@);
                &&& client_id@ == shared.client_id
                &&& users@.no_duplicates()
                &&& forall|user: u32| #[trigger]
                    users@.contains(user) <==> shared.users.contains(user) && old(
                        data,
                    )@.users.contains(user)
                &&& after.member("subscription"@) == JsonView::Text(shared.client_id)
                &&& forall|key: Seq<char>|
                    {
                        &&& (#[trigger] message@.has(key) <==> content.has(key))
                        &&& key != "params"@ ==> message@.member(key) == content.member(key)
                    }
                &&& forall|key: Seq<char>|
                    {
                        &&& (#[trigger] after.has(key) <==> before.has(key))
                        &&& key != "subscription"@ ==> after.member(key) == before.member(key)
                    }
            }
        }),
{
    let content = response.content@;
    let id = content.member("params"@).member("subscription"@);
    let node = (response.node_id, id->Text_0);
    let shared = old(data)@.subscriptions[node];
    lemma_request_members(
        integer(WS_SUB_MANAGER_ID as int),
        EthRpcMethod::Unsubscribe,
        JsonView::Array(seq![JsonView::Text(id->Text_0)]),
    );
    if let Dispatched::Deliver { message, users, client_id } = dispatched {
        assert(content.member("params"@).has("subscription"@));
        let reached = shared.users.intersect(old(data)@.users);
        assert forall|user: u32| #[trigger]
            users@.contains(user) <==> shared.users.contains(user) && old(data)@.users.contains(
                user,
            ) by {
            assert(users@.contains(user) <==> users@.to_set().contains(user));
            assert(users@.to_set() == reached);
        }
    }
}

proof fn lemma_request_members(id: JsonView, method: EthRpcMethod, params: JsonView)
    ensures
        ({
            let request = management(id, method, params);
            &&& request.member("jsonrpc"@) == JsonView::Text("2.0"@)
            &&& request.member("id"@) == id
            &&& request.member("method"@) == JsonView::Text(method.name())
            &&& request.member("params"@) == params
        }),
{
    reveal_strlit("method");
    reveal_strlit("params");
    reveal_strlit("id");
    reveal_strlit("jsonrpc");
    assert("method"@.len() == 6 && "params"@.len() == 6 && "id"@.len() == 2 && "jsonrpc"@.len()
        == 7);
    assert("method"@[0] == 'm' && "params"@[0] == 'p');
}

/// Whether a message asks at any node for the subscription with some parameters under an id.
pub open spec fn asks_for(message: WsconnMessage, id: u64, params: JsonView) -> bool {
    message matches WsconnMessage::Message(request, None) && request@.member("method"@)
        == JsonView::Text("eth_subscribe"@) && request@.member("params"@) == params
        && request@.member("id"@) == integer(id as int) && request@.member("jsonrpc"@)
        == JsonView::Text("2.0"@)
}

/// Whether a message ends a subscription at a node.
pub open spec fn ends(message: WsconnMessage, id: Seq<char>, node_id: usize) -> bool {
    message matches WsconnMessage::Message(request, Some(slot)) && slot == node_id
        && request@.member("method"@) == JsonView::Text("eth_unsubscribe"@) && request@.member(
        "params"@,
    ) == JsonView::Array(seq![JsonView::Text(id)]) && request@.member("id"@) == integer(
        WS_SUB_MANAGER_ID as int,
    ) && request@.member("jsonrpc"@) == JsonView::Text("2.0"@)
}

/// Moving the subscriptions of a node ends each of them there, once, and asks for each of them at
/// any node with the parameters that it has, under ids of its own, which are not given out again;
/// for all of them, where all parameters can be read.
pub proof fn law_all_subscriptions_of_a_node_move(
    data: &SubscriptionData,
    node_id: usize,
    ids: &mut RequestIds,
    start: MigrationStart,
)
    requires
        call_ensures(Migration::move_subscriptions, (data, node_id, ids), start),
    ensures
        final(ids)@ == id_after(
            old(ids)@,
            start.subscribe@.len() + if start.complete {
                0nat
            } else {
                1nat
            },
        ),
        exists|params: Seq<Seq<char>>|
            #![trigger enumerates(params, data@.served_by(node_id))]
            {
                &&& enumerates(params, data@.served_by(node_id))
                &&& params.no_duplicates()
                &&& forall|text: Seq<char>| #[trigger]
                    params.contains(text) <==> data@.incoming.contains_key(text)
                        && data@.incoming[text].0 == node_id
                &&& start.unsubscribe@.len() == params.len()
                &&& forall|i: int|
                    0 <= i < params.len() ==> ends(
                        #[trigger] start.unsubscribe@[i],
                        data@.incoming[params[i]].1,
                        node_id,
                    )
                &&& start.complete <==> start.subscribe@.len() == params.len()
                &&& start.subscribe@.len() <= params.len()
                &&& forall|i: int|
                    0 <= i < start.subscribe@.len() ==> asks_for(
                        #[trigger] start.subscribe@[i],
                        id_after(old(ids)@, i as nat),
                        text_value(params[i])->0,
                    )
                &&& !start.complete ==> text_value(params[start.subscribe@.len() as int]) is None
                &&& start.migration@ == asked(
                    params.take(start.subscribe@.len() as int),
                    old(ids)@,
                )
            },
{
    let params = choose|params: Seq<Seq<char>>| #[trigger]
        starts(start, data@, node_id, params, old(ids)@);
    assert forall|text: Seq<char>| #[trigger]
        params.contains(text) <==> data@.incoming.contains_key(text) && data@.incoming[text].0
            == node_id by {
        assert(params.to_set().contains(text) <==> params.contains(text));
        assert(data@.served_by(node_id).contains(text) <==> data@.incoming.contains_key(text)
            && data@.incoming[text].0 == node_id);
    }
    assert forall|i: int| 0 <= i < params.len() implies ends(
        #[trigger] start.unsubscribe@[i],
        data@.incoming[params[i]].1,
        node_id,
    ) by {
        lemma_request_members(
            integer(WS_SUB_MANAGER_ID as int),
            EthRpcMethod::Unsubscribe,
            JsonView::Array(seq![JsonView::Text(data@.incoming[params[i]].1)]),
        );
    }
    assert forall|i: int| 0 <= i < start.subscribe@.len() implies asks_for(
        #[trigger] start.subscribe@[i],
        id_after(old(ids)@, i as nat),
        text_value(params[i])->0,
    ) by {
        lemma_request_members(
            integer(id_after(old(ids)@, i as nat) as int),
            EthRpcMethod::Subscribe,
            text_value(params[i])->0,
        );
    }
}

proof fn lemma_asked(params: Seq<Seq<char>>, first: u64, i: int)
    requires
        params.len() < 0x1_0000_0000_0000_0000,
        0 <= i < params.len(),
    ensures
        asked(params, first).contains_key(id_after(first, i as nat)),
        asked(params, first)[id_after(first, i as nat)] == params[i],
    decreases params.len(),
{
    if i < params.len() - 1 {
        lemma_asked(params.drop_last(), first, i);
        crate::websocket::client::law_request_ids_differ(
            first,
            i as nat,
            (params.len() - 1) as nat,
        );
        assert(params.drop_last()[i] == params[i]);
    }
}

/// What is asked for under each id is what the answer under that id is taken for: the parameters
/// are kept by the id of the request that asks for them, and by no other id.
pub proof fn law_answers_find_their_parameters(params: Seq<Seq<char>>, first: u64, i: int, id: u64)
    requires
        params.len() < 0x1_0000_0000_0000_0000,
        0 <= i < params.len(),
    ensures
        asked(params, first).contains_key(id_after(first, i as nat)),
        asked(params, first)[id_after(first, i as nat)] == params[i],
        asked(params, first).contains_key(id) ==> exists|k: int|
            0 <= k < params.len() && id == #[trigger] id_after(first, k as nat),
    decreases params.len(),
{
    lemma_asked(params, first, i);
    lemma_asked_only(params, first, id);
}

proof fn lemma_asked_only(params: Seq<Seq<char>>, first: u64, id: u64)
    ensures
        asked(params, first).contains_key(id) ==> exists|k: int|
            0 <= k < params.len() && id == #[trigger] id_after(first, k as nat),
    decreases params.len(),
{
    if params.len() > 0 {
        lemma_asked_only(params.drop_last(), first, id);
        let last = params.len() - 1;
        if asked(params, first).contains_key(id) {
            if id == id_after(first, last as nat) {
                assert(0 <= last < params.len() && id == id_after(first, last as nat));
            } else {
                let k = choose|k: int|
                    0 <= k < params.drop_last().len() && id == #[trigger] id_after(
                        first,
                        k as nat,
                    );
                assert(id == id_after(first, k as nat));
            }
        }
    }
}

/// What an answer to a migration does. One that answers none of its requests changes nothing. One
/// that grants the subscription moves it to the node that answered, with its users and the id that
/// they know; one that does not grants nothing and changes no subscription. A request is answered
/// once.
pub proof fn law_granted_subscription_moves(
    migration: &mut Migration,
    response: &IncomingResponse,
    data: &mut SubscriptionData,
    step: MigrationStep,
    id: u64,
    node: NodeView,
)
    requires
        call_ensures(Migration::received, (migration, response, data), step),
    ensures
        ({
            let content = response.content@;
            let answered = content.member("id"@);
            let awaited = answered matches JsonView::Number(Numeric::Unsigned(id))
                && old(migration)@.contains_key(id);
            let result = content.member("result"@);
            let to = (response.node_id, result->Text_0);
            &&& !awaited ==> step is Wait && final(migration)@ == old(migration)@ && final(data)@
                == old(data)@
            &&& awaited ==> {
                let request = answered.unsigned()->0;
                let params = old(migration)@[request];
                let from = old(data)@.incoming[params];
                let shared = old(data)@.incoming.contains_key(params) && old(
                    data,
                )@.subscriptions.contains_key(from) && old(data)@.subscriptions[from].users
                    != Set::<u32>::empty();
                &&& (final(migration)@.contains_key(id) <==> id != request && old(
                    migration,
                )@.contains_key(id))
                &&& id != request && old(migration)@.contains_key(id) ==> final(migration)@[id]
                    == old(migration)@[id]
                &&& !(result is Text) ==> step is Fail && final(data)@ == old(data)@
                &&& result is Text && shared ==> {
                    &&& final(data)@.incoming[params] == to
                    &&& final(data)@.subscriptions.contains_key(to)
                    &&& final(data)@.subscriptions[to].users == old(
                        data,
                    )@.subscriptions[from].users
                    &&& final(data)@.subscriptions[to].client_id == old(
                        data,
                    )@.subscriptions[from].client_id
                    &&& from != to ==> !final(data)@.subscriptions.contains_key(from)
                    &&& final(data)@.users == old(data)@.users
                    &&& node != from && node != to ==> (final(data)@.subscriptions.contains_key(
                        node,
                    ) <==> old(data)@.subscriptions.contains_key(node))
                    &&& node != from && node != to && old(data)@.subscriptions.contains_key(node)
                        ==> final(data)@.subscriptions[node] == old(data)@.subscriptions[node]
                    &&& step is Done <==> final(migration)@ == Map::<u64, Seq<char>>::empty()
                    &&& step is Done || step is Wait
                }
                &&& result is Text && !shared ==> step is Fail && final(data)@.incoming == old(
                    data,
                )@.incoming
            }
        }),
{
}

/// A migration goes on once everything is sent, is done where there is nothing to wait for, and
/// fails where something could not be sent or read; and it fails with what went wrong.
pub proof fn law_migration_ends_as_it_went(
    start: &MigrationStart,
    delivered: bool,
    step: MigrationStep,
    event: MigrationEvent,
    error: WsError,
    migration: &Migration,
    done: bool,
    lagged: bool,
    receive_error: WsError,
)
    requires
        call_ensures(MigrationStart::sent, (start, delivered), step),
        call_ensures(Migration::failed, (event,), error),
        call_ensures(Migration::is_done, (migration,), done),
        call_ensures(receive_failed, (lagged,), receive_error),
    ensures
        !delivered ==> step == MigrationStep::Fail(WsError::ChannelClosed()),
        delivered && !start.complete ==> step == MigrationStep::Fail(WsError::FailedParsing()),
        delivered && start.complete ==> (step is Done <==> start.migration@ == Map::<
            u64,
            Seq<char>,
        >::empty()) && (step is Done || step is Wait),
        event is NotSent ==> error == WsError::ChannelClosed(),
        event is Unreadable ==> error == WsError::FailedParsing(),
        event is TimedOut ==> error is NoWsResponse,
        event matches MigrationEvent::NotReceived { lagged } ==> error == if lagged {
            WsError::ReceiverLagged()
        } else {
            WsError::ChannelClosed()
        },
        done <==> migration@ == Map::<u64, Seq<char>>::empty(),
        lagged ==> receive_error == WsError::ReceiverLagged(),
        !lagged ==> receive_error == WsError::ChannelClosed(),
{
}

} // verus!
