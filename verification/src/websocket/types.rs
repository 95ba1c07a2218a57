//! Subscriptions and who shares them.
//!
//! An upstream subscription is shared by all users who asked for the same thing. A user knows it
//! by the id that it had at first, also after it has moved to another node.

use crate::json::{text_value, value_text, Json, JsonView};
use crate::rpc::types::Rpc;
use crate::table::{lemma_listed, lemma_row, Key, Table};
use crate::text::same;
use crate::websocket::error::WsError;
use crate::websocket::users::{enumerates, UserSet};
use vstd::prelude::*;
use vstd::std_specs::convert::FromSpecImpl;

verus! {

/// Something for a user's connection: a call to make, or a text to pass on.
pub enum RequestResult {
    Call(Json),
    Subscription(Json),
}

impl From<RequestResult> for Json {
    fn from(req: RequestResult) -> (value: Json) {
        match req {
            RequestResult::Call(call) => call,
            RequestResult::Subscription(sub) => sub,
        }
    }
}

impl FromSpecImpl<RequestResult> for Json {
    open spec fn obeys_from_spec() -> bool {
        true
    }

    open spec fn from_spec(req: RequestResult) -> Json {
        match req {
            RequestResult::Call(call) => call,
            RequestResult::Subscription(sub) => sub,
        }
    }
}

/// Something for the upstream connections: a message, for one of them or for any, or the order to
/// connect again where that is needed.
pub enum WsconnMessage {
    Message(Json, Option<usize>),
    Reconnect(),
}

impl From<WsconnMessage> for Json {
    fn from(msg: WsconnMessage) -> (value: Json) {
        match msg {
            WsconnMessage::Message(msg, _) => msg,
            WsconnMessage::Reconnect() => Json::Null,
        }
    }
}

impl FromSpecImpl<WsconnMessage> for Json {
    open spec fn obeys_from_spec() -> bool {
        true
    }

    open spec fn from_spec(msg: WsconnMessage) -> Json {
        match msg {
            WsconnMessage::Message(msg, _) => msg,
            WsconnMessage::Reconnect() => Json::Null,
        }
    }
}

/// An upstream connection that ended: its slot, and its node.
pub enum WsChannelErr {
    Closed(usize, Rpc),
}

/// A message from an upstream connection.
pub struct IncomingResponse {
    pub content: Json,
    pub node_id: usize,
}

/// An upstream subscription: the slot of its node, and its id there.
pub struct NodeSubInfo {
    pub node_id: usize,
    pub subscription_id: String,
}

/// What an upstream subscription is known by.
pub type NodeView = (usize, Seq<char>);

impl NodeSubInfo {
    pub open spec fn view(&self) -> NodeView {
        (self.node_id, self.subscription_id@)
    }
}

impl Clone for NodeSubInfo {
    fn clone(&self) -> (copy: Self)
        ensures
            copy@ == self@,
    {
        NodeSubInfo { node_id: self.node_id, subscription_id: self.subscription_id.clone() }
    }
}

impl Key for NodeSubInfo {
    type Name = (usize, Seq<char>);

    open spec fn name(&self) -> (usize, Seq<char>) {
        self@
    }

    fn same_key(&self, other: &Self) -> (same: bool) {
        self.node_id == other.node_id && self.subscription_id == other.subscription_id
    }
}

/// Who shares a subscription, and by which id they know it.
struct Subscription {
    client_id: String,
    users: UserSet,
}

#[verifier::ext_equal]
pub struct SubscriptionView {
    pub client_id: Seq<char>,
    pub users: Set<u32>,
}

impl Subscription {
    spec fn view(&self) -> SubscriptionView {
        SubscriptionView { client_id: self.client_id@, users: self.users@ }
    }
}

impl Subscription {
    fn duplicate(&self) -> (copy: Self)
        ensures
            copy@ == self@,
    {
        Subscription { client_id: self.client_id.clone(), users: self.users.clone() }
    }
}

/// All subscriptions and the users who share them.
pub struct SubscriptionData {
    users: UserSet,
    subscriptions: Table<NodeSubInfo, Subscription>,
    incoming_subscriptions: Table<String, NodeSubInfo>,
}

#[verifier::ext_equal]
pub struct SubscriptionsView {
    /// The users who are connected.
    pub users: Set<u32>,
    /// Who shares each upstream subscription.
    pub subscriptions: Map<NodeView, SubscriptionView>,
    /// The upstream subscription for each kind of subscription, by the text of its parameters.
    pub incoming: Map<Seq<char>, NodeView>,
}

spec fn sharing(subscriptions: Map<NodeView, Subscription>) -> Map<NodeView, SubscriptionView> {
    subscriptions.map_values(|subscription: Subscription| subscription@)
}

spec fn upstream(incoming: Map<Seq<char>, NodeSubInfo>) -> Map<Seq<char>, NodeView> {
    incoming.map_values(|node: NodeSubInfo| node@)
}

/// Whether `subscription_id` is an id of a subscription: the one that users know, or the upstream
/// one. Without an id every subscription is meant.
pub open spec fn meant(
    node: NodeView,
    subscription: SubscriptionView,
    subscription_id: Option<Seq<char>>,
) -> bool {
    match subscription_id {
        Some(id) => subscription.client_id == id || node.1 == id,
        None => true,
    }
}

impl SubscriptionsView {
    /// After a user has left the subscriptions that are meant.
    pub open spec fn left(self, user_id: u32, subscription_id: Option<Seq<char>>) -> Self {
        SubscriptionsView {
            subscriptions: Map::new(
                |node: NodeView| self.subscriptions.contains_key(node),
                |node: NodeView|
                    {
                        let subscription = self.subscriptions[node];
                        if meant(node, subscription, subscription_id) {
                            SubscriptionView {
                                users: subscription.users.remove(user_id),
                                ..subscription
                            }
                        } else {
                            subscription
                        }
                    },
            ),
            ..self
        }
    }

    /// The subscription at `node` as it is shared, or as it starts out.
    pub open spec fn shared_at(self, node: NodeView) -> SubscriptionView {
        if self.subscriptions.contains_key(node) {
            self.subscriptions[node]
        } else {
            SubscriptionView { client_id: node.1, users: Set::empty() }
        }
    }

    /// After a user has joined the subscription with the parameters `params`.
    pub open spec fn joined(self, user_id: u32, params: Seq<char>) -> Self {
        let node = self.incoming[params];
        let subscription = self.shared_at(node);
        SubscriptionsView {
            subscriptions: self.subscriptions.insert(
                node,
                SubscriptionView { users: subscription.users.insert(user_id), ..subscription },
            ),
            ..self
        }
    }

    /// After the upstream subscription at `node` is known for the parameters `params`.
    pub open spec fn registered(self, params: Seq<char>, node: NodeView) -> Self {
        SubscriptionsView { incoming: self.incoming.insert(params, node), ..self }
    }

    /// Without the upstream subscription at `node`.
    pub open spec fn forgotten(self, node: NodeView) -> Self {
        SubscriptionsView {
            subscriptions: self.subscriptions.remove(node),
            incoming: self.incoming.remove_keys(
                Set::new(|params: Seq<char>| self.incoming[params] == node),
            ),
            ..self
        }
    }

    /// The parameters of the subscriptions that the node in slot `node_id` serves.
    pub open spec fn served_by(self, node_id: usize) -> Set<Seq<char>> {
        Set::new(
            |params: Seq<char>|
                self.incoming.contains_key(params) && self.incoming[params].0 == node_id,
        )
    }

    /// Whether the node in slot `node_id` serves a subscription that users know by `id`.
    pub open spec fn known_at(self, id: Seq<char>, node_id: usize) -> bool {
        exists|node: NodeView| #[trigger]
            self.subscriptions.contains_key(node) && self.subscriptions[node].client_id == id
                && node.0 == node_id
    }

    /// Whether the node in slot `node_id` serves a subscription under the id `id`.
    pub open spec fn served_at(self, id: Seq<char>, node_id: usize) -> bool {
        exists|params: Seq<char>| #[trigger]
            self.incoming.contains_key(params) && self.incoming[params] == (node_id, id)
    }

    /// Whether a subscription with the id `id` is found at the node in slot `node_id`: by the id
    /// that users know, or else by the upstream one.
    pub open spec fn found_at(self, id: Seq<char>, node_id: usize) -> bool {
        ||| self.known_at(id, node_id)
        ||| (forall|n: usize| !self.known_at(id, n)) && self.served_at(id, node_id)
    }

    /// Whether some subscription has the id `id`, among users or upstream.
    pub open spec fn has_id(self, id: Seq<char>) -> bool {
        exists|node_id: usize| self.known_at(id, node_id) || self.served_at(id, node_id)
    }
}

/// A notification with the id that users know in place of the upstream one.
pub open spec fn relabeled(message: JsonView, client_id: Seq<char>) -> JsonView {
    let params = message.member("params"@);
    if params.has("subscription"@) {
        message.with("params"@, params.with("subscription"@, JsonView::Text(client_id)))
    } else {
        message
    }
}

/// A notification with the id that users know in place of the upstream one.
fn relabel(message: &Json, client_id: &str) -> (relabeled_message: Json)
    ensures
        relabeled_message@ == relabeled(message@, client_id@),
{
    let mut copy = message.clone();
    let params = message.member("params");
    if params.get("subscription").is_some() {
        copy.insert("params", params.put("subscription", Json::text(client_id)));
    }
    copy
}

/// What becomes of a notification.
pub enum Dispatch {
    /// Nobody shares the subscription any more; it is to be ended upstream.
    Unsubscribe,
    /// Nobody knows the subscription.
    Ignore,
    /// The message goes to these users. Whoever cannot be reached is to be taken out of the
    /// subscription with this id.
    Deliver { message: Json, users: Vec<u32>, client_id: String },
}

impl SubscriptionData {
    pub closed spec fn view(&self) -> SubscriptionsView {
        SubscriptionsView {
            users: self.users@,
            subscriptions: sharing(self.subscriptions@),
            incoming: upstream(self.incoming_subscriptions@),
        }
    }

    pub closed spec fn wf(&self) -> bool {
        &&& self.subscriptions.wf()
        &&& self.incoming_subscriptions.wf()
    }

    pub fn new() -> (data: SubscriptionData)
        ensures
            data.wf(),
            data@ == (SubscriptionsView {
                users: Set::empty(),
                subscriptions: Map::empty(),
                incoming: Map::empty(),
            }),
    {
        let data = SubscriptionData {
            users: UserSet::new(),
            subscriptions: Table::new(),
            incoming_subscriptions: Table::new(),
        };
        proof {
            assert(sharing(data.subscriptions@) =~= Map::<NodeView, SubscriptionView>::empty());
            assert(upstream(data.incoming_subscriptions@) =~= Map::<
                Seq<char>,
                NodeView,
            >::empty());
        }
        data
    }

    /// A user has connected.
    pub fn add_user(&mut self, user_id: u32)
        requires
            old(self).wf(),
        ensures
            final(self).wf(),
            final(self)@ == (SubscriptionsView {
                users: old(self)@.users.insert(user_id),
                ..old(self)@
            }),
    {
        self.users.insert(user_id);
    }

    /// Whether a user is connected.
    pub fn has_user(&self, user_id: u32) -> (connected: bool)
        ensures
            connected == self@.users.contains(user_id),
    {
        self.users.contains(user_id)
    }

    /// A user has gone: out of all subscriptions too.
    pub fn remove_user(&mut self, user_id: u32)
        requires
            old(self).wf(),
        ensures
            final(self).wf(),
            final(self)@ == (SubscriptionsView {
                users: old(self)@.users.remove(user_id),
                ..old(self)@.left(user_id, None)
            }),
    {
        self.unsubscribe_user_from_all(user_id);
        self.users.remove(user_id);
    }

    /// The upstream subscription `subscription_id` of the node in slot `node_id` serves whoever
    /// asks for what `subscription` asks for. The parameters can be read again from the text that
    /// they are kept as, where their numbers are integers and they are not nested too deep.
    pub fn register_subscription(
        &mut self,
        subscription: &Json,
        subscription_id: String,
        node_id: usize,
    )
        requires
            old(self).wf(),
        ensures
            final(self).wf(),
            final(self)@ == old(self)@.registered(
                value_text(subscription@.member("params"@)),
                (node_id, subscription_id@),
            ),
            subscription@.member("params"@).plain(127) ==> text_value(
                value_text(subscription@.member("params"@)),
            ) == Some(subscription@.member("params"@)),
    {
        let params = subscription.member("params").to_text();
        self.raw_register(params, subscription_id, node_id);
    }

    pub fn raw_register(&mut self, subscription: String, subscription_id: String, node_id: usize)
        requires
            old(self).wf(),
        ensures
            final(self).wf(),
            final(self)@ == old(self)@.registered(subscription@, (node_id, subscription_id@)),
    {
        let ghost before = self.incoming_subscriptions@;
        let node = NodeSubInfo { node_id, subscription_id };
        self.incoming_subscriptions.insert(subscription, node);
        proof {
            assert(upstream(self.incoming_subscriptions@) =~= upstream(before).insert(
                subscription@,
                (node_id, subscription_id@),
            ));
        }
    }

    /// Lets a user share a subscription that exists. Gives the id by which the user knows it.
    pub fn subscribe_user(&mut self, user_id: u32, subscription: &Json) -> (id: Result<
        String,
        WsError,
    >)
        requires
            old(self).wf(),
        ensures
            final(self).wf(),
            ({
                let params = subscription@.member("params"@);
                let text = value_text(params);
                if params is Array && params->Array_0.len() > 0 && old(
                    self,
                )@.incoming.contains_key(text) {
                    &&& final(self)@ == old(self)@.joined(user_id, text)
                    &&& id matches Ok(id) && id@ == old(self)@.shared_at(
                        old(self)@.incoming[text],
                    ).client_id
                } else {
                    &&& final(self)@ == old(self)@
                    &&& id == Err::<String, WsError>(WsError::FailedParsing())
                }
            }),
    {
        let params = subscription.member("params");
        let usable = match params.as_array() {
            Some(items) => items.len() > 0,
            None => false,
        };
        if !usable {
            return Err(WsError::FailedParsing());
        }
        let text = params.to_text();
        self.raw_subscribe(user_id, &text)
    }

    pub fn raw_subscribe(&mut self, user_id: u32, subscription: &String) -> (id: Result<
        String,
        WsError,
    >)
        requires
            old(self).wf(),
        ensures
            final(self).wf(),
            if old(self)@.incoming.contains_key(subscription@) {
                &&& final(self)@ == old(self)@.joined(user_id, subscription@)
                &&& id matches Ok(id) && id@ == old(self)@.shared_at(
                    old(self)@.incoming[subscription@],
                ).client_id
            } else {
                &&& final(self)@ == old(self)@
                &&& id == Err::<String, WsError>(WsError::FailedParsing())
            },
    {
        let node = match self.incoming_subscriptions.get(subscription) {
            Some(node) => node.clone(),
            None => {
                return Err(WsError::FailedParsing());
            },
        };
        let ghost before = self.subscriptions@;
        let mut shared = match self.subscriptions.get(&node) {
            Some(shared) => shared.duplicate(),
            None => Subscription {
                client_id: node.subscription_id.clone(),
                users: UserSet::new(),
            },
        };
        shared.users.insert(user_id);
        let client_id = shared.client_id.clone();
        self.subscriptions.insert(node, shared);
        proof {
            assert(sharing(self.subscriptions@) =~= sharing(before).insert(node@, shared@));
        }
        Ok(client_id)
    }

    /// Takes a user out of the subscriptions that are meant.
    fn leave(&mut self, user_id: u32, subscription_id: Option<&str>)
        requires
            old(self).wf(),
        ensures
            final(self).wf(),
            final(self)@ == old(self)@.left(
                user_id,
                match subscription_id {
                    Some(id) => Some(id@),
                    None => None,
                },
            ),
    {
        let ghost id = match subscription_id {
            Some(id) => Some(id@),
            None => None,
        };
        let ghost before = self.subscriptions.rows();
        let ghost whole = self@;
        let mut i: usize = 0;
        while i < self.subscriptions.len()
            invariant
                id == (match subscription_id {
                    Some(id) => Some(id@),
                    None => None,
                }),
                self.users@ == whole.users,
                self.subscriptions.wf(),
                self.incoming_subscriptions.wf(),
                upstream(self.incoming_subscriptions@) == whole.incoming,
                self.subscriptions.rows().len() == before.len(),
                i <= before.len(),
                forall|j: int|
                    #![trigger self.subscriptions.rows()[j]]
                    0 <= j < before.len() ==> {
                        let row = self.subscriptions.rows()[j];
                        &&& row.0.name() == before[j].0.name()
                        &&& row.1@ == if j < i && meant(before[j].0@, before[j].1@, id) {
                            SubscriptionView {
                                users: before[j].1@.users.remove(user_id),
                                ..before[j].1@
                            }
                        } else {
                            before[j].1@
                        }
                    },
            decreases before.len() - i,
        {
            let node = self.subscriptions.key(i);
            let shared = self.subscriptions.value(i);
            let is_meant = match subscription_id {
                Some(id) => same(shared.client_id.as_str(), id) || same(
                    node.subscription_id.as_str(),
                    id,
                ),
                None => true,
            };
            if is_meant {
                let mut left = shared.duplicate();
                left.users.remove(user_id);
                self.subscriptions.set(i, left);
            }
            i = i + 1;
        }
        proof {
            let rows = self.subscriptions.rows();
            let expected = whole.left(user_id, id).subscriptions;
            let found = sharing(self.subscriptions@);
            assert forall|node: NodeView|
                (#[trigger] found.dom().contains(node)) == expected.dom().contains(node) && (
                expected.dom().contains(node) ==> found[node] == expected[node]) by {
                if found.dom().contains(node) {
                    let j = lemma_listed(rows, node);
                    lemma_row(rows, j);
                    lemma_row(before, j);
                }
                if expected.dom().contains(node) {
                    let j = lemma_listed(before, node);
                    assert(rows[j].0.name() == node);
                    lemma_row(rows, j);
                    lemma_row(before, j);
                }
            }
            assert(found =~= expected);
        }
    }

    /// Takes a user out of a subscription, by either of its ids.
    pub fn unsubscribe_user(&mut self, user_id: u32, subscription_id: &str)
        requires
            old(self).wf(),
        ensures
            final(self).wf(),
            final(self)@ == old(self)@.left(user_id, Some(subscription_id@)),
    {
        self.leave(user_id, Some(subscription_id));
    }

    /// Takes a user out of all subscriptions.
    pub fn unsubscribe_user_from_all(&mut self, user_id: u32)
        requires
            old(self).wf(),
        ensures
            final(self).wf(),
            final(self)@ == old(self)@.left(user_id, None),
    {
        self.leave(user_id, None);
    }

    /// The slot of a node that serves a subscription, by the id that users know or else by the
    /// upstream one. Where several nodes do, it is one of them.
    pub fn get_node_from_id(&self, subscription_id: &str) -> (node_id: Option<usize>)
        requires
            self.wf(),
        ensures
            match node_id {
                Some(node_id) => self@.found_at(subscription_id@, node_id),
                None => !self@.has_id(subscription_id@),
            },
    {
        let mut i: usize = 0;
        while i < self.subscriptions.len()
            invariant
                i <= self.subscriptions.rows().len(),
                self.wf(),
                forall|j: int|
                    0 <= j < i ==> (#[trigger] self.subscriptions.rows()[j]).1.client_id@
                        != subscription_id@,
            decreases self.subscriptions.rows().len() - i,
        {
            if same(self.subscriptions.value(i).client_id.as_str(), subscription_id) {
                proof {
                    lemma_row(self.subscriptions.rows(), i as int);
                    let node = self.subscriptions.rows()[i as int].0@;
                    assert(self@.subscriptions.contains_key(node));
                }
                return Some(self.subscriptions.key(i).node_id);
            }
            i = i + 1;
        }
        proof {
            assert forall|n: usize| !self@.known_at(subscription_id@, n) by {
                if self@.known_at(subscription_id@, n) {
                    let node = choose|node: NodeView| #[trigger]
                        self@.subscriptions.contains_key(node)
                            && self@.subscriptions[node].client_id == subscription_id@ && node.0
                            == n;
                    let j = lemma_listed(self.subscriptions.rows(), node);
                    lemma_row(self.subscriptions.rows(), j);
                    assert(self.subscriptions.rows()[j].1.client_id@ == subscription_id@);
                }
            }
        }
        let mut i: usize = 0;
        while i < self.incoming_subscriptions.len()
            invariant
                i <= self.incoming_subscriptions.rows().len(),
                self.wf(),
                forall|n: usize| !self@.known_at(subscription_id@, n),
                forall|j: int|
                    0 <= j < i ==> (
                    #[trigger] self.incoming_subscriptions.rows()[j]).1.subscription_id@
                        != subscription_id@,
            decreases self.incoming_subscriptions.rows().len() - i,
        {
            let node = self.incoming_subscriptions.value(i);
            if same(node.subscription_id.as_str(), subscription_id) {
                proof {
                    lemma_row(self.incoming_subscriptions.rows(), i as int);
                    let params = self.incoming_subscriptions.rows()[i as int].0@;
                    assert(self@.incoming.contains_key(params));
                }
                return Some(node.node_id);
            }
            i = i + 1;
        }
        proof {
            if self@.has_id(subscription_id@) {
                let n = choose|n: usize|
                    self@.known_at(subscription_id@, n) || self@.served_at(subscription_id@, n);
                let params = choose|params: Seq<char>| #[trigger]
                    self@.incoming.contains_key(params) && self@.incoming[params] == (
                        n,
                        subscription_id@,
                    );
                let j = lemma_listed(self.incoming_subscriptions.rows(), params);
                lemma_row(self.incoming_subscriptions.rows(), j);
                assert(self.incoming_subscriptions.rows()[j].1.subscription_id@
                    == subscription_id@);
            }
        }
        None
    }

    /// The upstream subscriptions of the node in slot `node_id`: for each the text of its
    /// parameters and its id, in any order.
    pub fn subscriptions_by_node(&self, node_id: usize) -> (found: Vec<(String, String)>)
        requires
            self.wf(),
        ensures
            enumerates(
                Seq::new(found@.len(), |i: int| found@[i].0@),
                self@.served_by(node_id),
            ),
            forall|i: int|
                #![trigger found@[i]]
                0 <= i < found@.len() ==> found@[i].1@ == self@.incoming[found@[i].0@].1,
    {
        let mut found: Vec<(String, String)> = Vec::new();
        let ghost rows = self.incoming_subscriptions.rows();
        let ghost mut origins: Seq<int> = Seq::empty();
        let mut i: usize = 0;
        while i < self.incoming_subscriptions.len()
            invariant
                i <= rows.len(),
                rows == self.incoming_subscriptions.rows(),
                self.wf(),
                origins.len() == found@.len(),
                forall|j: int|
                    #![trigger found@[j]]
                    #![trigger origins[j]]
                    0 <= j < found@.len() ==> {
                        let row = rows[origins[j]];
                        &&& 0 <= origins[j] < i
                        &&& row.0@ == found@[j].0@
                        &&& row.1.node_id == node_id
                        &&& row.1.subscription_id@ == found@[j].1@
                    },
                forall|a: int, b: int|
                    0 <= a < b < origins.len() ==> #[trigger] origins[a] < #[trigger] origins[b],
                forall|k: int|
                    0 <= k < i && (#[trigger] rows[k]).1.node_id == node_id ==> origins.contains(
                        k,
                    ),
            decreases rows.len() - i,
        {
            let node = self.incoming_subscriptions.value(i);
            if node.node_id == node_id {
                let params = self.incoming_subscriptions.key(i);
                found.push((params.clone(), node.subscription_id.clone()));
                proof {
                    let before = origins;
                    origins = origins.push(i as int);
                    assert forall|k: int|
                        0 <= k < i + 1 && (
                        #[trigger] rows[k]).1.node_id == node_id implies origins.contains(k) by {
                        if k == i {
                            assert(origins[before.len() as int] == k);
                        } else {
                            let j = choose|j: int| 0 <= j < before.len() && before[j] == k;
                            assert(origins[j] == k);
                        }
                    }
                }
            }
            i = i + 1;
        }
        proof {
            let names = Seq::new(found@.len(), |i: int| found@[i].0@);
            let expected = self@.served_by(node_id);
            assert forall|a: int, b: int|
                0 <= a < b < names.len() implies names[a] != names[b] by {
                assert(origins[a] < origins[b]);
                assert(rows[origins[a]].0.name() != rows[origins[b]].0.name());
            }
            assert(names.no_duplicates());
            assert forall|params: Seq<char>| (#[trigger] names.to_set().contains(params))
                == expected.contains(params) by {
                if names.contains(params) {
                    let j = choose|j: int| 0 <= j < names.len() && names[j] == params;
                    assert(found@[j].0@ == params);
                    lemma_row(rows, origins[j]);
                }
                if expected.contains(params) {
                    let k = lemma_listed(rows, params);
                    lemma_row(rows, k);
                    assert(rows[k].1.node_id == node_id);
                    let j = choose|j: int| 0 <= j < origins.len() && origins[j] == k;
                    assert(names[j] == params);
                }
            }
            assert(names.to_set() =~= expected);
            assert forall|j: int|
                #![trigger found@[j]]
                0 <= j < found@.len() implies found@[j].1@ == self@.incoming[found@[j].0@].1 by {
                lemma_row(rows, origins[j]);
            }
        }
        found
    }

    /// The ids of the upstream subscriptions of the node in slot `node_id`, in any order.
    pub fn get_sub_id_by_node(&self, node_id: usize) -> (ids: Vec<String>)
        requires
            self.wf(),
        ensures
            exists|params: Seq<Seq<char>>| #[trigger]
                enumerates(params, self@.served_by(node_id)) && params.len() == ids@.len()
                    && forall|i: int|
                    #![trigger ids@[i]]
                    0 <= i < ids@.len() ==> ids@[i]@ == self@.incoming[params[i]].1,
    {
        let found = self.subscriptions_by_node(node_id);
        let mut ids: Vec<String> = Vec::new();
        let mut i: usize = 0;
        while i < found.len()
            invariant
                i <= found@.len(),
                ids@.len() == i,
                forall|j: int| #![trigger ids@[j]] 0 <= j < i ==> ids@[j]@ == found@[j].1@,
            decreases found@.len() - i,
        {
            ids.push(found[i].1.clone());
            i = i + 1;
        }
        proof {
            let params = Seq::new(found@.len(), |i: int| found@[i].0@);
            assert(enumerates(params, self@.served_by(node_id)));
            assert forall|i: int|
                #![trigger ids@[i]]
                0 <= i < ids@.len() implies ids@[i]@ == self@.incoming[params[i]].1 by {
                assert(found@[i].1@ == self@.incoming[found@[i].0@].1);
            }
        }
        ids
    }

    /// The texts of the parameters of the subscriptions that the node in slot `node_id` serves,
    /// in any order.
    pub fn get_subscription_by_node(&self, node_id: usize) -> (params: Vec<String>)
        requires
            self.wf(),
        ensures
            enumerates(
                Seq::new(params@.len(), |i: int| params@[i]@),
                self@.served_by(node_id),
            ),
    {
        let found = self.subscriptions_by_node(node_id);
        let mut params: Vec<String> = Vec::new();
        let mut i: usize = 0;
        while i < found.len()
            invariant
                i <= found@.len(),
                params@.len() == i,
                forall|j: int| #![trigger params@[j]] 0 <= j < i ==> params@[j]@ == found@[j].0@,
            decreases found@.len() - i,
        {
            params.push(found[i].0.clone());
            i = i + 1;
        }
        proof {
            assert(Seq::new(params@.len(), |i: int| params@[i]@) =~= Seq::new(
                found@.len(),
                |i: int| found@[i].0@,
            ));
        }
        params
    }

    /// The id of the upstream subscription with the parameters `params`.
    pub fn get_sub_id_by_params(&self, params: &str) -> (id: Option<String>)
        requires
            self.wf(),
        ensures
            match id {
                Some(id) => self@.incoming.contains_key(params@) && id@
                    == self@.incoming[params@].1,
                None => !self@.incoming.contains_key(params@),
            },
    {
        match self.incoming_subscriptions.get(&params.to_owned()) {
            Some(node) => Some(node.subscription_id.clone()),
            None => None,
        }
    }

    /// The users who share a subscription with the upstream id `subscription_id`, in any order.
    /// Where several nodes have one with that id, it is the users of one of them.
    pub fn get_users_for_subscription(&self, subscription_id: &str) -> (users: Vec<u32>)
        requires
            self.wf(),
        ensures
            (users@ == Seq::<u32>::empty() && forall|node: NodeView|
                #[trigger] self@.subscriptions.contains_key(node) ==> node.1 != subscription_id@)
                || exists|node: NodeView| #[trigger]
                self@.subscriptions.contains_key(node) && node.1 == subscription_id@ && enumerates(
                    users@,
                    self@.subscriptions[node].users,
                ),
    {
        let ghost rows = self.subscriptions.rows();
        let mut i: usize = 0;
        while i < self.subscriptions.len()
            invariant
                i <= rows.len(),
                rows == self.subscriptions.rows(),
                self.wf(),
                forall|j: int|
                    0 <= j < i ==> (#[trigger] rows[j]).0.subscription_id@ != subscription_id@,
            decreases rows.len() - i,
        {
            if same(self.subscriptions.key(i).subscription_id.as_str(), subscription_id) {
                proof {
                    lemma_row(rows, i as int);
                    assert(self@.subscriptions.contains_key(rows[i as int].0@));
                }
                return self.subscriptions.value(i).users.ids();
            }
            i = i + 1;
        }
        proof {
            assert forall|node: NodeView| #[trigger]
                self@.subscriptions.contains_key(node) implies node.1 != subscription_id@ by {
                let j = lemma_listed(rows, node);
                assert(rows[j].0.subscription_id@ != subscription_id@);
            }
        }
        Vec::new()
    }

    /// Moves a subscription to the node in slot `target`, where it has the id `subscription_id`.
    /// Users keep the id that they know. One that nobody shares is dropped instead.
    pub fn move_subscriptions(
        &mut self,
        target: usize,
        request: &String,
        subscription_id: String,
    ) -> (moved: Result<(), WsError>)
        requires
            old(self).wf(),
        ensures
            final(self).wf(),
            ({
                let before = old(self)@;
                if !before.incoming.contains_key(request@) {
                    &&& final(self)@ == before
                    &&& moved == Err::<(), WsError>(WsError::MissingSubscription())
                } else {
                    let from = before.incoming[request@];
                    let to = (target, subscription_id@);
                    if before.shared_at(from).users == Set::<u32>::empty() {
                        &&& final(self)@ == (SubscriptionsView {
                            subscriptions: before.subscriptions.remove(from),
                            ..before
                        })
                        &&& moved matches Err(WsError::EmptyList(detail)) && detail@
                            == "User list empty!"@
                    } else {
                        &&& final(self)@ == (SubscriptionsView {
                            subscriptions: before.subscriptions.remove(from).insert(
                                to,
                                before.subscriptions[from],
                            ),
                            incoming: before.incoming.insert(request@, to),
                            ..before
                        })
                        &&& moved == Ok::<(), WsError>(())
                    }
                }
            }),
    {
        let ghost whole = self@;
        let ghost incoming = self.incoming_subscriptions@;
        let ghost subscriptions = self.subscriptions@;
        let previous = match self.incoming_subscriptions.get(request) {
            Some(node) => node.clone(),
            None => {
                return Err(WsError::MissingSubscription());
            },
        };
        let removed = self.subscriptions.remove(&previous);
        proof {
            assert(sharing(self.subscriptions@) =~= sharing(subscriptions).remove(previous@));
        }
        match removed {
            Some(shared) => {
                if shared.users.is_empty() {
                    return Err(WsError::EmptyList("User list empty!".to_owned()));
                }
                let node = NodeSubInfo { node_id: target, subscription_id };
                self.incoming_subscriptions.insert(request.clone(), node.clone());
                self.subscriptions.insert(node, shared);
                proof {
                    assert(upstream(self.incoming_subscriptions@) =~= upstream(incoming).insert(
                        request@,
                        node@,
                    ));
                    assert(sharing(self.subscriptions@) =~= sharing(subscriptions).remove(
                        previous@,
                    ).insert(node@, shared@));
                }
                Ok(())
            },
            None => Err(WsError::EmptyList("User list empty!".to_owned())),
        }
    }

    /// Takes in a notification of the upstream subscription `subscription_id` of the node in slot
    /// `node_id`, and says what becomes of it. A subscription that nobody shares any more is
    /// forgotten.
    pub fn dispatch_to_subscribers(
        &mut self,
        subscription_id: &str,
        node_id: usize,
        message: &RequestResult,
    ) -> (dispatch: Result<Dispatch, WsError>)
        requires
            old(self).wf(),
        ensures
            final(self).wf(),
            ({
                let before = old(self)@;
                let node = (node_id, subscription_id@);
                match *message {
                    RequestResult::Call(_) => {
                        &&& final(self)@ == before
                        &&& dispatch matches Err(WsError::InvalidData(detail)) && detail@
                            == "Trying to send a call as a subscription!"@
                    },
                    RequestResult::Subscription(message) => if !before.subscriptions.contains_key(
                        node,
                    ) {
                        final(self)@ == before && dispatch == Ok::<Dispatch, WsError>(
                            Dispatch::Ignore,
                        )
                    } else if before.subscriptions[node].users == Set::<u32>::empty() {
                        final(self)@ == before.forgotten(node) && dispatch == Ok::<
                            Dispatch,
                            WsError,
                        >(Dispatch::Unsubscribe)
                    } else {
                        let shared = before.subscriptions[node];
                        &&& final(self)@ == before
                        &&& dispatch matches Ok(
                            Dispatch::Deliver { message: sent, users, client_id },
                        ) && sent@ == relabeled(message@, shared.client_id) && enumerates(
                            users@,
                            shared.users.intersect(before.users),
                        ) && client_id@ == shared.client_id
                    },
                }
            }),
    {
        let content = match message {
            RequestResult::Call(_) => {
                return Err(
                    WsError::InvalidData("Trying to send a call as a subscription!".to_owned()),
                );
            },
            RequestResult::Subscription(content) => content,
        };
        let node = NodeSubInfo { node_id, subscription_id: subscription_id.to_owned() };
        let shared = match self.subscriptions.get(&node) {
            Some(shared) => shared.duplicate(),
            None => {
                return Ok(Dispatch::Ignore);
            },
        };
        if shared.users.is_empty() {
            self.forget(&node);
            return Ok(Dispatch::Unsubscribe);
        }
        let message = relabel(content, shared.client_id.as_str());
        let users = shared.users.common(&self.users);
        Ok(Dispatch::Deliver { message, users, client_id: shared.client_id })
    }

    /// Forgets an upstream subscription.
    fn forget(&mut self, node: &NodeSubInfo)
        requires
            old(self).wf(),
        ensures
            final(self).wf(),
            final(self)@ == old(self)@.forgotten(node@),
    {
        let ghost whole = self@;
        let ghost subscriptions = self.subscriptions@;
        let ghost before = self.incoming_subscriptions@;
        self.subscriptions.remove(node);
        proof {
            assert(sharing(self.subscriptions@) =~= sharing(subscriptions).remove(node@));
        }
        let mut i: usize = 0;
        while i < self.incoming_subscriptions.len()
            invariant
                i <= self.incoming_subscriptions.rows().len(),
                self.users@ == whole.users,
                self.subscriptions.wf(),
                sharing(self.subscriptions@) == whole.subscriptions.remove(node@),
                whole.incoming == upstream(before),
                self.incoming_subscriptions.wf(),
                forall|j: int|
                    0 <= j < i ==> (#[trigger] self.incoming_subscriptions.rows()[j]).1@ != node@,
                forall|params: Seq<char>| #[trigger]
                    self.incoming_subscriptions@.contains_key(params) ==> before.contains_key(
                        params,
                    ) && self.incoming_subscriptions@[params] == before[params],
                forall|params: Seq<char>| #[trigger]
                    before.contains_key(params) && before[params]@ != node@
                        ==> self.incoming_subscriptions@.contains_key(params),
            decreases self.incoming_subscriptions.rows().len() - i,
        {
            let value = self.incoming_subscriptions.value(i);
            let ghost rows = self.incoming_subscriptions.rows();
            let ghost map = self.incoming_subscriptions@;
            if value.same_key(node) {
                proof {
                    lemma_row(rows, i as int);
                }
                self.incoming_subscriptions.take(i);
                proof {
                    assert forall|j: int| 0 <= j < i implies (
                    #[trigger] self.incoming_subscriptions.rows()[j]).1@ != node@ by {
                        assert(self.incoming_subscriptions.rows()[j] == rows[j]);
                    }
                }
            } else {
                i = i + 1;
            }
        }
        proof {
            let found = upstream(self.incoming_subscriptions@);
            let expected = whole.forgotten(node@).incoming;
            let rows = self.incoming_subscriptions.rows();
            assert forall|params: Seq<char>|
                (#[trigger] found.dom().contains(params)) == expected.dom().contains(params) && (
                expected.dom().contains(params) ==> found[params] == expected[params]) by {
                if found.dom().contains(params) {
                    let j = lemma_listed(rows, params);
                    lemma_row(rows, j);
                    assert(rows[j].1@ != node@);
                }
                if expected.dom().contains(params) {
                    assert(before.contains_key(params));
                    assert(before[params]@ != node@);
                }
            }
            assert(found =~= expected);
        }
    }
}

/// After a user has left all subscriptions, none is shared by that user; other users stay.
pub proof fn law_leaving_all_leaves_none(
    before: SubscriptionsView,
    user_id: u32,
    other: u32,
    node: NodeView,
)
    requires
        before.subscriptions.contains_key(node),
    ensures
        before.left(user_id, None).subscriptions.contains_key(node),
        !before.left(user_id, None).subscriptions[node].users.contains(user_id),
        other != user_id ==> (before.left(user_id, None).subscriptions[node].users.contains(other)
            <==> before.subscriptions[node].users.contains(other)),
{
}

/// After a user has left a subscription by one of its ids, that user does not share it; who else
/// shares it, and all other subscriptions, stay.
pub proof fn law_leaving_leaves(
    before: SubscriptionsView,
    user_id: u32,
    id: Seq<char>,
    node: NodeView,
)
    requires
        before.subscriptions.contains_key(node),
    ensures
        ({
            let after = before.left(user_id, Some(id)).subscriptions;
            let meant = before.subscriptions[node].client_id == id || node.1 == id;
            &&& after.contains_key(node)
            &&& after[node].client_id == before.subscriptions[node].client_id
            &&& meant ==> after[node].users == before.subscriptions[node].users.remove(user_id)
            &&& !meant ==> after[node] == before.subscriptions[node]
        }),
{
}

/// Whoever joins a subscription gets its messages under the id that they were given.
pub proof fn law_joining_shares(before: SubscriptionsView, user_id: u32, params: Seq<char>)
    requires
        before.incoming.contains_key(params),
    ensures
        ({
            let node = before.incoming[params];
            let after = before.joined(user_id, params);
            &&& after.subscriptions.contains_key(node)
            &&& after.subscriptions[node].users.contains(user_id)
            &&& after.subscriptions[node].client_id == before.shared_at(node).client_id
            &&& after.incoming == before.incoming
        }),
{
}

/// A subscription that moves keeps its users and the id that they know; who joins it afterwards
/// is given that id too.
pub proof fn law_moving_keeps_id_and_users(
    before: SubscriptionsView,
    request: Seq<char>,
    target: usize,
    subscription_id: Seq<char>,
)
    requires
        before.incoming.contains_key(request),
        before.subscriptions.contains_key(before.incoming[request]),
    ensures
        ({
            let from = before.incoming[request];
            let to = (target, subscription_id);
            let after = SubscriptionsView {
                subscriptions: before.subscriptions.remove(from).insert(
                    to,
                    before.subscriptions[from],
                ),
                incoming: before.incoming.insert(request, to),
                ..before
            };
            &&& after.incoming[request] == to
            &&& after.shared_at(to) == before.subscriptions[from]
            &&& from != to ==> !after.subscriptions.contains_key(from)
            &&& forall|node: NodeView|
                node != from && node != to && #[trigger] before.subscriptions.contains_key(node)
                    ==> after.subscriptions.contains_key(node) && after.subscriptions[node]
                    == before.subscriptions[node]
        }),
{
}

/// Of a subscription that is forgotten nothing is left, and of the others everything is.
pub proof fn law_forgotten_subscription_is_gone(
    before: SubscriptionsView,
    node: NodeView,
    params: Seq<char>,
    other: NodeView,
)
    ensures
        !before.forgotten(node).subscriptions.contains_key(node),
        before.forgotten(node).incoming.contains_key(params) <==> before.incoming.contains_key(
            params,
        ) && before.incoming[params] != node,
        other != node ==> (before.forgotten(node).subscriptions.contains_key(other)
            <==> before.subscriptions.contains_key(other)),
        other != node && before.subscriptions.contains_key(other) ==> before.forgotten(
            node,
        ).subscriptions[other] == before.subscriptions[other],
{
}

proof fn lemma_relabeled(message: JsonView, client_id: Seq<char>)
    ensures
        ({
            let sent = relabeled(message, client_id);
            let before = message.member("params"@);
            let after = sent.member("params"@);
            &&& forall|key: Seq<char>|
                {
                    &&& (#[trigger] sent.has(key) <==> message.has(key))
                    &&& key != "params"@ ==> sent.member(key) == message.member(key)
                }
            &&& forall|key: Seq<char>|
                {
                    &&& (#[trigger] after.has(key) <==> before.has(key))
                    &&& key != "subscription"@ ==> after.member(key) == before.member(key)
                }
            &&& before.has("subscription"@) ==> after.member("subscription"@) == JsonView::Text(
                client_id,
            )
            &&& !before.has("subscription"@) ==> sent == message
        }),
{
}

/// A notification that goes to users differs from the one that the node sent in one thing alone:
/// where its parameters name the subscription, they name it by the id that the users know. Every
/// other member of the parameters, and of the notification, is what the node sent. It goes to
/// exactly the users who share the subscription and are connected, to each once.
pub proof fn law_notification_is_delivered_as_it_is(
    data: &mut SubscriptionData,
    subscription_id: &str,
    node_id: usize,
    message: Json,
    dispatch: Result<Dispatch, WsError>,
)
    requires
        call_ensures(
            SubscriptionData::dispatch_to_subscribers,
            (data, subscription_id, node_id, &RequestResult::Subscription(message)),
            dispatch,
        ),
    ensures
        dispatch is Ok,
        ({
            let node = (node_id, subscription_id@);
            let known = old(data)@.subscriptions.contains_key(node);
            let shared = old(data)@.subscriptions[node];
            &&& dispatch->Ok_0 is Ignore <==> !known
            &&& dispatch->Ok_0 is Unsubscribe <==> known && shared.users == Set::<u32>::empty()
            &&& !(dispatch->Ok_0 is Unsubscribe) ==> final(data)@ == old(data)@
            &&& dispatch->Ok_0 matches Dispatch::Deliver { message: sent, users, client_id } ==> {
                let before = message@.member("params"@);
                let after = sent@.member("params"@);
                &&& client_id@ == shared.client_id
                &&& users@.no_duplicates()
                &&& forall|user: u32| #[trigger]
                    users@.contains(user) <==> shared.users.contains(user) && old(
                        data,
                    )@.users.contains(user)
                &&& forall|key: Seq<char>|
                    {
                        &&& (#[trigger] sent@.has(key) <==> message@.has(key))
                        &&& key != "params"@ ==> sent@.member(key) == message@.member(key)
                    }
                &&& forall|key: Seq<char>|
                    {
                        &&& (#[trigger] after.has(key) <==> before.has(key))
                        &&& key != "subscription"@ ==> after.member(key) == before.member(key)
                    }
                &&& before.has("subscription"@) ==> after.member("subscription"@)
                    == JsonView::Text(shared.client_id)
                &&& !before.has("subscription"@) ==> sent@ == message@
            }
        }),
{
    let node = (node_id, subscription_id@);
    let shared = old(data)@.subscriptions[node];
    lemma_relabeled(message@, shared.client_id);
    if let Ok(Dispatch::Deliver { message: sent, users, client_id }) = dispatch {
        let reached = shared.users.intersect(old(data)@.users);
        assert forall|user: u32| #[trigger]
            users@.contains(user) <==> shared.users.contains(user) && old(data)@.users.contains(
                user,
            ) by {
            assert(users@.contains(user) <==> users@.to_set().contains(user));
            assert(users@.to_set() == reached);
        }
    }
}

/// A subscription that nobody shares any more is forgotten with the notification that finds it so:
/// neither it nor its parameters are known afterwards, and all other subscriptions stay.
pub proof fn law_unshared_subscription_is_forgotten(
    data: &mut SubscriptionData,
    subscription_id: &str,
    node_id: usize,
    message: RequestResult,
    dispatch: Result<Dispatch, WsError>,
    other: NodeView,
    params: Seq<char>,
)
    requires
        call_ensures(
            SubscriptionData::dispatch_to_subscribers,
            (data, subscription_id, node_id, &message),
            dispatch,
        ),
    ensures
        final(data)@.users == old(data)@.users,
        message is Call ==> dispatch is Err && final(data)@ == old(data)@,
        dispatch == Ok::<Dispatch, WsError>(Dispatch::Unsubscribe) ==> {
            let node = (node_id, subscription_id@);
            &&& (final(data)@.subscriptions.contains_key(other) <==> other != node && old(
                data,
            )@.subscriptions.contains_key(other))
            &&& final(data)@.subscriptions.contains_key(other)
                ==> final(data)@.subscriptions[other] == old(data)@.subscriptions[other]
            &&& (final(data)@.incoming.contains_key(params) <==> old(data)@.incoming.contains_key(
                params,
            ) && old(data)@.incoming[params] != node)
            &&& final(data)@.incoming.contains_key(params) ==> final(data)@.incoming[params]
                == old(data)@.incoming[params]
        },
{
}

/// Whoever asks for a subscription that exists shares it from then on, and is told the id that all
/// who share it know. Nobody else is touched, and neither is any other subscription. Where there is
/// none, nothing changes.
pub proof fn law_subscriber_shares_what_exists(
    data: &mut SubscriptionData,
    user_id: u32,
    subscription: &Json,
    id: Result<String, WsError>,
    node: NodeView,
    user: u32,
)
    requires
        call_ensures(SubscriptionData::subscribe_user, (data, user_id, subscription), id),
    ensures
        ({
            let params = subscription@.member("params"@);
            let text = value_text(params);
            let before = old(data)@;
            let after = final(data)@;
            let joined = before.incoming[text];
            &&& id is Ok <==> params is Array && params->Array_0.len() > 0
                && before.incoming.contains_key(text)
            &&& id is Err ==> after == before
            &&& after.users == before.users
            &&& after.incoming == before.incoming
            &&& id is Ok ==> {
                &&& after.subscriptions.contains_key(joined)
                &&& after.subscriptions[joined].users.contains(user_id)
                &&& id->Ok_0@ == after.subscriptions[joined].client_id
                &&& before.subscriptions.contains_key(joined) ==> id->Ok_0@
                    == before.subscriptions[joined].client_id
                &&& !before.subscriptions.contains_key(joined) ==> id->Ok_0@ == joined.1
                &&& user != user_id ==> (after.subscriptions[joined].users.contains(user)
                    <==> before.subscriptions.contains_key(joined)
                    && before.subscriptions[joined].users.contains(user))
                &&& node != joined ==> (after.subscriptions.contains_key(node)
                    <==> before.subscriptions.contains_key(node))
                &&& node != joined && before.subscriptions.contains_key(node)
                    ==> after.subscriptions[node] == before.subscriptions[node]
            }
        }),
{
}

/// By the text of its parameters a subscription is shared as it is by the parameters.
pub proof fn law_subscriber_shares_by_text(
    data: &mut SubscriptionData,
    user_id: u32,
    text: &String,
    id: Result<String, WsError>,
)
    requires
        call_ensures(SubscriptionData::raw_subscribe, (data, user_id, text), id),
    ensures
        id is Ok <==> old(data)@.incoming.contains_key(text@),
        id is Err ==> final(data)@ == old(data)@,
        id is Ok ==> {
            let node = old(data)@.incoming[text@];
            &&& final(data)@.subscriptions.contains_key(node)
            &&& final(data)@.subscriptions[node].users.contains(user_id)
            &&& final(data)@.subscriptions[node].client_id == id->Ok_0@
            &&& old(data)@.subscriptions.contains_key(node) ==> id->Ok_0@ == old(
                data,
            )@.subscriptions[node].client_id
        },
{
}

/// A subscription that a node granted is known by the text of its parameters, and by nothing else;
/// whatever else is known stays, and nobody shares it yet by that.
pub proof fn law_granted_subscription_is_known(
    data: &mut SubscriptionData,
    subscription: &Json,
    subscription_id: String,
    node_id: usize,
    params: Seq<char>,
)
    requires
        call_ensures(
            SubscriptionData::register_subscription,
            (data, subscription, subscription_id, node_id),
            (),
        ),
    ensures
        ({
            let text = value_text(subscription@.member("params"@));
            &&& final(data)@.incoming.contains_key(text)
            &&& final(data)@.incoming[text] == (node_id, subscription_id@)
            &&& params != text ==> (final(data)@.incoming.contains_key(params) <==> old(
                data,
            )@.incoming.contains_key(params))
            &&& params != text && old(data)@.incoming.contains_key(params)
                ==> final(data)@.incoming[params] == old(data)@.incoming[params]
            &&& final(data)@.users == old(data)@.users
            &&& final(data)@.subscriptions == old(data)@.subscriptions
        }),
{
}

/// The same holds of a subscription that is granted by the text of its parameters.
pub proof fn law_granted_subscription_is_known_by_text(
    data: &mut SubscriptionData,
    text: String,
    subscription_id: String,
    node_id: usize,
    params: Seq<char>,
)
    requires
        call_ensures(
            SubscriptionData::raw_register,
            (data, text, subscription_id, node_id),
            (),
        ),
    ensures
        final(data)@.incoming.contains_key(text@),
        final(data)@.incoming[text@] == (node_id, subscription_id@),
        params != text@ ==> (final(data)@.incoming.contains_key(params) <==> old(
            data,
        )@.incoming.contains_key(params)),
        params != text@ && old(data)@.incoming.contains_key(params)
            ==> final(data)@.incoming[params] == old(data)@.incoming[params],
        final(data)@.users == old(data)@.users,
        final(data)@.subscriptions == old(data)@.subscriptions,
{
}

/// Whoever leaves a subscription, by the id that users know or by the upstream one, does not share
/// it any more. Who else shares it stays, the id that they know stays, all other subscriptions
/// stay, and so does every upstream one.
pub proof fn law_unsubscribing_leaves_one_subscription(
    data: &mut SubscriptionData,
    user_id: u32,
    subscription_id: &str,
    node: NodeView,
    user: u32,
)
    requires
        call_ensures(SubscriptionData::unsubscribe_user, (data, user_id, subscription_id), ()),
    ensures
        ({
            let before = old(data)@;
            let after = final(data)@;
            &&& after.users == before.users
            &&& after.incoming == before.incoming
            &&& (after.subscriptions.contains_key(node) <==> before.subscriptions.contains_key(
                node,
            ))
            &&& before.subscriptions.contains_key(node) ==> {
                let meant = before.subscriptions[node].client_id == subscription_id@ || node.1
                    == subscription_id@;
                &&& after.subscriptions[node].client_id == before.subscriptions[node].client_id
                &&& (after.subscriptions[node].users.contains(user)
                    <==> before.subscriptions[node].users.contains(user) && !(meant && user
                    == user_id))
            }
        }),
{
}

/// Whoever leaves all subscriptions shares none any more, and nobody else is touched. Whoever goes
/// altogether is not connected any more either.
pub proof fn law_leaving_altogether(
    data: &mut SubscriptionData,
    gone: &mut SubscriptionData,
    user_id: u32,
    node: NodeView,
    user: u32,
)
    requires
        call_ensures(SubscriptionData::unsubscribe_user_from_all, (data, user_id), ()),
        call_ensures(SubscriptionData::remove_user, (gone, user_id), ()),
    ensures
        final(data)@.users == old(data)@.users,
        final(gone)@.users.contains(user) <==> old(gone)@.users.contains(user) && user != user_id,
        final(data)@.incoming == old(data)@.incoming,
        final(gone)@.incoming == old(gone)@.incoming,
        final(data)@.subscriptions.contains_key(node) <==> old(data)@.subscriptions.contains_key(
            node,
        ),
        final(gone)@.subscriptions.contains_key(node) <==> old(gone)@.subscriptions.contains_key(
            node,
        ),
        old(data)@.subscriptions.contains_key(node) ==> {
            &&& final(data)@.subscriptions[node].client_id == old(
                data,
            )@.subscriptions[node].client_id
            &&& (final(data)@.subscriptions[node].users.contains(user) <==> old(
                data,
            )@.subscriptions[node].users.contains(user) && user != user_id)
        },
        old(gone)@.subscriptions.contains_key(node) ==> {
            &&& final(gone)@.subscriptions[node].client_id == old(
                gone,
            )@.subscriptions[node].client_id
            &&& (final(gone)@.subscriptions[node].users.contains(user) <==> old(
                gone,
            )@.subscriptions[node].users.contains(user) && user != user_id)
        },
{
}

/// A user is connected from when it is added, and nothing else changes by that.
pub proof fn law_added_user_is_connected(
    data: &mut SubscriptionData,
    user_id: u32,
    after: &SubscriptionData,
    user: u32,
    connected: bool,
    new: SubscriptionData,
)
    requires
        call_ensures(SubscriptionData::add_user, (data, user_id), ()),
        after@ == final(data)@,
        call_ensures(SubscriptionData::has_user, (after, user), connected),
        call_ensures(SubscriptionData::new, (), new),
    ensures
        connected <==> user == user_id || old(data)@.users.contains(user),
        final(data)@.subscriptions == old(data)@.subscriptions,
        final(data)@.incoming == old(data)@.incoming,
        !new@.users.contains(user),
        new@.subscriptions.dom() == Set::<NodeView>::empty(),
        new@.incoming.dom() == Set::<Seq<char>>::empty(),
{
}

/// A subscription that moves is served by its new node under its new id. Whoever shared it shares
/// it still and knows it by the same id, the old node does not serve it any more, and no other
/// subscription is touched. One that nobody shares is not moved.
pub proof fn law_moved_subscription_keeps_its_users(
    data: &mut SubscriptionData,
    target: usize,
    request: &String,
    subscription_id: String,
    moved: Result<(), WsError>,
    node: NodeView,
    params: Seq<char>,
)
    requires
        call_ensures(
            SubscriptionData::move_subscriptions,
            (data, target, request, subscription_id),
            moved,
        ),
    ensures
        ({
            let before = old(data)@;
            let after = final(data)@;
            let from = before.incoming[request@];
            let to = (target, subscription_id@);
            let shared = before.subscriptions.contains_key(from)
                && before.subscriptions[from].users != Set::<u32>::empty();
            &&& moved is Ok <==> before.incoming.contains_key(request@) && shared
            &&& after.users == before.users
            &&& !before.incoming.contains_key(request@) ==> after == before && moved == Err::<
                (),
                WsError,
            >(WsError::MissingSubscription())
            &&& moved is Err ==> after.incoming == before.incoming
            &&& moved is Ok ==> {
                &&& after.incoming.contains_key(request@) && after.incoming[request@] == to
                &&& params != request@ ==> (after.incoming.contains_key(params)
                    <==> before.incoming.contains_key(params))
                &&& params != request@ && before.incoming.contains_key(params)
                    ==> after.incoming[params] == before.incoming[params]
                &&& after.subscriptions.contains_key(to)
                &&& after.subscriptions[to].users == before.subscriptions[from].users
                &&& after.subscriptions[to].client_id == before.subscriptions[from].client_id
                &&& from != to ==> !after.subscriptions.contains_key(from)
                &&& node != from && node != to ==> (after.subscriptions.contains_key(node)
                    <==> before.subscriptions.contains_key(node))
                &&& node != from && node != to && before.subscriptions.contains_key(node)
                    ==> after.subscriptions[node] == before.subscriptions[node]
            }
        }),
{
}

/// The node that is found for an id has a subscription with that id: by the one that users know,
/// or, where no user knows it, upstream. None is found only where there is none with that id.
pub proof fn law_node_is_found_by_id(
    data: &SubscriptionData,
    id: &str,
    found: Option<usize>,
    node: NodeView,
    params: Seq<char>,
)
    requires
        call_ensures(SubscriptionData::get_node_from_id, (data, id), found),
    ensures
        found is None ==> {
            &&& data@.subscriptions.contains_key(node) ==> data@.subscriptions[node].client_id
                != id@
            &&& data@.incoming.contains_key(params) ==> data@.incoming[params].1 != id@
        },
        found is Some ==> {
            ||| exists|n: NodeView| #[trigger]
                data@.subscriptions.contains_key(n) && data@.subscriptions[n].client_id == id@
                    && n.0 == found->0
            ||| {
                &&& !(data@.subscriptions.contains_key(node) && data@.subscriptions[node].client_id
                    == id@)
                &&& exists|p: Seq<char>| #[trigger]
                    data@.incoming.contains_key(p) && data@.incoming[p] == (found->0, id@)
            }
        },
{
    if found is None {
        if data@.subscriptions.contains_key(node) && data@.subscriptions[node].client_id == id@ {
            assert(data@.known_at(id@, node.0));
        }
        if data@.incoming.contains_key(params) && data@.incoming[params].1 == id@ {
            assert(data@.served_at(id@, data@.incoming[params].0));
        }
    } else if !data@.known_at(id@, found->0) {
        if data@.subscriptions.contains_key(node) && data@.subscriptions[node].client_id == id@ {
            assert(data@.known_at(id@, node.0));
        }
    }
}

/// What a node serves is listed completely: the parameters of each of its subscriptions once, with
/// the id that it has upstream, and nothing of other nodes.
pub proof fn law_subscriptions_of_a_node_are_listed(
    data: &SubscriptionData,
    node_id: usize,
    found: Vec<(String, String)>,
    names: Vec<String>,
    params: Seq<char>,
    i: int,
    j: int,
)
    requires
        call_ensures(SubscriptionData::subscriptions_by_node, (data, node_id), found),
        call_ensures(SubscriptionData::get_subscription_by_node, (data, node_id), names),
    ensures
        0 <= i < found@.len() ==> data@.incoming.contains_key(found@[i].0@)
            && data@.incoming[found@[i].0@] == (node_id, found@[i].1@),
        0 <= i < names@.len() ==> data@.incoming.contains_key(names@[i]@)
            && data@.incoming[names@[i]@].0 == node_id,
        0 <= i < j < found@.len() ==> found@[i].0@ != found@[j].0@,
        0 <= i < j < names@.len() ==> names@[i]@ != names@[j]@,
        data@.incoming.contains_key(params) && data@.incoming[params].0 == node_id ==> {
            &&& exists|k: int| 0 <= k < found@.len() && (#[trigger] found@[k]).0@ == params
            &&& exists|k: int| 0 <= k < names@.len() && (#[trigger] names@[k])@ == params
        },
{
    let listed = Seq::new(found@.len(), |i: int| found@[i].0@);
    let others = Seq::new(names@.len(), |i: int| names@[i]@);
    let served = data@.served_by(node_id);
    if 0 <= i < found@.len() {
        assert(listed.to_set().contains(listed[i]));
        assert(served.contains(found@[i].0@));
    }
    if 0 <= i < names@.len() {
        assert(others.to_set().contains(others[i]));
        assert(served.contains(names@[i]@));
    }
    if 0 <= i < j < found@.len() {
        assert(listed[i] != listed[j]);
    }
    if 0 <= i < j < names@.len() {
        assert(others[i] != others[j]);
    }
    if data@.incoming.contains_key(params) && data@.incoming[params].0 == node_id {
        assert(served.contains(params));
        assert(listed.contains(params));
        assert(others.contains(params));
        let k = choose|k: int| 0 <= k < listed.len() && listed[k] == params;
        assert(found@[k].0@ == params);
        let k = choose|k: int| 0 <= k < others.len() && others[k] == params;
        assert(names@[k]@ == params);
    }
}

/// The id of a subscription is found by the text of its parameters.
pub proof fn law_id_is_found_by_parameters(
    data: &SubscriptionData,
    params: &str,
    id: Option<String>,
)
    requires
        call_ensures(SubscriptionData::get_sub_id_by_params, (data, params), id),
    ensures
        id is Some <==> data@.incoming.contains_key(params@),
        id is Some ==> id->0@ == data@.incoming[params@].1,
{
}

/// The ids that are listed for a node are those of the subscriptions that it serves.
pub proof fn law_ids_of_a_node_are_listed(
    data: &SubscriptionData,
    node_id: usize,
    ids: Vec<String>,
    i: int,
    params: Seq<char>,
)
    requires
        call_ensures(SubscriptionData::get_sub_id_by_node, (data, node_id), ids),
    ensures
        0 <= i < ids@.len() ==> data@.served_at(ids@[i]@, node_id),
        data@.incoming.contains_key(params) && data@.incoming[params].0 == node_id ==> exists|
            k: int,
        |
            0 <= k < ids@.len() && (#[trigger] ids@[k])@ == data@.incoming[params].1,
{
    let names = choose|names: Seq<Seq<char>>| #[trigger]
        enumerates(names, data@.served_by(node_id)) && names.len() == ids@.len() && forall|i: int|
            #![trigger ids@[i]]
            0 <= i < ids@.len() ==> ids@[i]@ == data@.incoming[names[i]].1;
    let served = data@.served_by(node_id);
    if 0 <= i < ids@.len() {
        assert(names.to_set().contains(names[i]));
        assert(served.contains(names[i]));
        assert(data@.incoming.contains_key(names[i]));
    }
    if data@.incoming.contains_key(params) && data@.incoming[params].0 == node_id {
        assert(served.contains(params));
        assert(names.contains(params));
        let k = choose|k: int| 0 <= k < names.len() && names[k] == params;
        assert(ids@[k]@ == data@.incoming[params].1);
    }
}

} // verus!
