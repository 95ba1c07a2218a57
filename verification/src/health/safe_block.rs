//! The head of the chain and its newest finalized block.

use crate::config::system::WS_HEALTH_CHECK_USER_ID;
use crate::json::{empty_object, items_view, value_text, Json, JsonView};
use crate::number::{decimal, decimal_text, HexError};
use crate::rpc::method::EthRpcMethod;
use crate::rpc::types::{block_number_of, hex_to_decimal};
use crate::websocket::types::{RequestResult, SubscriptionData, SubscriptionsView};
use vstd::prelude::*;

verus! {

/// The numbers that block tags stand for; zero where a number is not known.
#[derive(Debug, Clone, Copy, PartialEq, Eq, Structural)]
pub struct NamedBlocknumbers {
    pub latest: u64,
    pub earliest: u64,
    pub safe: u64,
    pub finalized: u64,
    pub pending: u64,
}

impl NamedBlocknumbers {
    /// No number known.
    pub open spec fn unknown() -> NamedBlocknumbers {
        NamedBlocknumbers { latest: 0, earliest: 0, safe: 0, finalized: 0, pending: 0 }
    }

    pub fn defualt() -> (numbers: NamedBlocknumbers)
        ensures
            numbers == NamedBlocknumbers::unknown(),
    {
        NamedBlocknumbers { latest: 0, earliest: 0, safe: 0, finalized: 0, pending: 0 }
    }
}

impl Default for NamedBlocknumbers {
    fn default() -> (numbers: Self)
        ensures
            numbers == NamedBlocknumbers::unknown(),
    {
        NamedBlocknumbers::defualt()
    }
}

/// The highest of the numbers that are there.
pub open spec fn highest(numbers: Seq<Option<u64>>) -> Option<u64>
    decreases numbers.len(),
{
    if numbers.len() == 0 {
        None
    } else {
        match (highest(numbers.drop_last()), numbers.last()) {
            (Some(a), Some(b)) => if a >= b {
                Some(a)
            } else {
                Some(b)
            },
            (Some(a), None) => Some(a),
            (None, last) => last,
        }
    }
}

fn highest_of(numbers: &Vec<Option<u64>>) -> (found: Option<u64>)
    ensures
        found == highest(numbers@),
{
    let mut found: Option<u64> = None;
    let mut i: usize = 0;
    while i < numbers.len()
        invariant
            i <= numbers@.len(),
            found == highest(numbers@.take(i as int)),
        decreases numbers@.len() - i,
    {
        proof {
            assert(numbers@.take(i + 1).drop_last() =~= numbers@.take(i as int));
        }
        found = match (found, numbers[i]) {
            (Some(a), Some(b)) => if a >= b {
                Some(a)
            } else {
                Some(b)
            },
            (Some(a), None) => Some(a),
            (None, last) => last,
        };
        i = i + 1;
    }
    proof {
        assert(numbers@.take(i as int) =~= numbers@);
    }
    found
}

/// Takes in what the nodes say is their newest finalized block; a node that failed to answer says
/// nothing. The highest number counts; where there is none, the last one stays. Gives the number
/// that counts, and whether `finalized` has changed.
pub fn get_safe_block(
    answers: &Vec<Option<u64>>,
    finalized: &mut u64,
    named_numbers: &mut NamedBlocknumbers,
) -> (safe: (u64, bool))
    ensures
        match highest(answers@) {
            Some(number) => {
                &&& safe == (number, number != *old(finalized))
                &&& *final(finalized) == number
                &&& *final(named_numbers) == (NamedBlocknumbers {
                    finalized: number,
                    ..*old(named_numbers)
                })
            },
            None => {
                &&& safe == (old(named_numbers).finalized, false)
                &&& *final(finalized) == *old(finalized)
                &&& *final(named_numbers) == *old(named_numbers)
            },
        },
{
    match highest_of(answers) {
        None => (named_numbers.finalized, false),
        Some(number) => {
            let changed = *finalized != number;
            *finalized = number;
            named_numbers.finalized = number;
            (number, changed)
        },
    }
}

/// The call that subscribes to new heads.
pub open spec fn new_heads_call() -> JsonView {
    empty_object().with("jsonrpc"@, JsonView::Text("2.0"@)).with(
        "method"@,
        JsonView::Text(EthRpcMethod::Subscribe.name()),
    ).with("params"@, new_heads_params()).with(
        "id"@,
        JsonView::Text(decimal_text(WS_HEALTH_CHECK_USER_ID as nat)),
    )
}

/// The parameters that ask for new heads.
pub open spec fn new_heads_params() -> JsonView {
    JsonView::Array(seq![JsonView::Text("newHeads"@)])
}

/// The call that subscribes to new heads.
pub fn send_newheads_sub_message() -> (call: Json)
    ensures
        call@ == new_heads_call(),
{
    let mut params: Vec<Json> = Vec::new();
    params.push(Json::text("newHeads"));
    proof {
        assert(items_view(params@) =~= seq![JsonView::Text("newHeads"@)]);
    }
    Json::object().put("jsonrpc", Json::text("2.0")).put(
        "method",
        Json::text(EthRpcMethod::Subscribe.as_str()),
    ).put("params", Json::array(params)).put(
        "id",
        Json::Text(decimal(WS_HEALTH_CHECK_USER_ID as u64)),
    )
}

/// What is done next to follow the head of the chain.
pub enum HeadStep {
    /// Make the call that subscribes.
    Subscribe,
    /// Ask the upstream connections to connect again, since there is no subscription yet.
    Retry,
    /// Ask the upstream connections to connect again, since no head came.
    Reconnect,
    /// Wait for the next head.
    Wait,
    /// Pass on the number of the new head.
    Publish(u64),
    /// Move the subscriptions of the node in this slot.
    Move(usize),
    Stop,
}

/// The number of the block in a notification of a new head.
pub open spec fn head_number(notification: JsonView) -> Option<u64> {
    match notification.member("params"@).member("result"@).member("number"@).text() {
        Some(text) => match block_number_of(text) {
            Ok(number) => Some(number),
            Err(_) => None,
        },
        None => None,
    }
}

/// The number of the block in a notification of a new head.
pub fn number_of_head(notification: &Json) -> (number: Option<u64>)
    ensures
        number == head_number(notification@),
{
    match notification.member("params").member("result").member("number").as_str() {
        Some(text) => match hex_to_decimal(text) {
            Ok(number) => Some(number),
            Err(_) => None,
        },
        None => None,
    }
}

/// Follows the head of the chain by a subscription.
pub struct NewHeads {
    pub user_id: u32,
}

impl NewHeads {
    /// Starts as a user of its own.
    pub fn subscribe_to_new_heads(sub_data: &mut SubscriptionData) -> (heads: NewHeads)
        requires
            old(sub_data).wf(),
        ensures
            heads.user_id == WS_HEALTH_CHECK_USER_ID,
            final(sub_data).wf(),
            final(sub_data)@ == (SubscriptionsView {
                users: old(sub_data)@.users.insert(WS_HEALTH_CHECK_USER_ID),
                ..old(sub_data)@
            }),
    {
        sub_data.add_user(WS_HEALTH_CHECK_USER_ID);
        NewHeads { user_id: WS_HEALTH_CHECK_USER_ID }
    }

    /// Takes in whether the call that subscribes succeeded. Only where the user then shares the
    /// subscription does it count.
    pub fn subscribed(&self, succeeded: bool, sub_data: &mut SubscriptionData) -> (step: HeadStep)
        requires
            old(sub_data).wf(),
        ensures
            final(sub_data).wf(),
            ({
                let params = value_text(new_heads_params());
                if succeeded && old(sub_data)@.incoming.contains_key(params) {
                    &&& step == HeadStep::Wait
                    &&& final(sub_data)@ == old(sub_data)@.joined(self.user_id, params)
                } else {
                    &&& step == HeadStep::Retry
                    &&& final(sub_data)@ == old(sub_data)@
                }
            }),
    {
        if !succeeded {
            return HeadStep::Retry;
        }
        let call = send_newheads_sub_message();
        proof {
            reveal_strlit("params");
            reveal_strlit("id");
            assert("params"@.len() != "id"@.len());
            assert(call@.member("params"@) == new_heads_params());
        }
        match sub_data.subscribe_user(self.user_id, &call) {
            Ok(_) => HeadStep::Wait,
            Err(_) => HeadStep::Retry,
        }
    }

    /// Takes in whether the order to connect again got through, while there is no subscription
    /// yet. If so, the call is made again after a pause.
    pub fn retried(&self, sent: bool) -> (step: HeadStep)
        ensures
            step == if sent {
                HeadStep::Subscribe
            } else {
                HeadStep::Stop
            },
    {
        if sent {
            HeadStep::Subscribe
        } else {
            HeadStep::Stop
        }
    }

    /// Takes in a message for the user, or the end of messages. A notification with a number sets
    /// the head.
    pub fn received(&self, message: Option<RequestResult>, numbers: &mut NamedBlocknumbers) -> (
    step: HeadStep)
        ensures
            match message {
                None => step == HeadStep::Stop && *final(numbers) == *old(numbers),
                Some(RequestResult::Subscription(notification)) => match head_number(
                    notification@,
                ) {
                    Some(number) => {
                        &&& step == HeadStep::Publish(number)
                        &&& *final(numbers) == (NamedBlocknumbers {
                            latest: number,
                            ..*old(numbers)
                        })
                    },
                    None => step == HeadStep::Wait && *final(numbers) == *old(numbers),
                },
                Some(_) => step == HeadStep::Wait && *final(numbers) == *old(numbers),
            },
    {
        match message {
            None => HeadStep::Stop,
            Some(RequestResult::Subscription(notification)) => match number_of_head(
                &notification,
            ) {
                Some(number) => {
                    numbers.latest = number;
                    HeadStep::Publish(number)
                },
                None => HeadStep::Wait,
            },
            Some(_) => HeadStep::Wait,
        }
    }

    /// No head came in time: the head is not known any more.
    pub fn timed_out(&self, numbers: &mut NamedBlocknumbers) -> (step: HeadStep)
        ensures
            step == HeadStep::Reconnect,
            *final(numbers) == (NamedBlocknumbers { latest: 0, ..*old(numbers) }),
    {
        numbers.latest = 0;
        HeadStep::Reconnect
    }

    /// Takes in whether the order to connect again got through, after no head came in time. If
    /// so, the subscriptions of the node that was to send it are moved.
    pub fn reconnected(&self, sent: bool, sub_data: &SubscriptionData) -> (step: HeadStep)
        requires
            sub_data.wf(),
        ensures
            follows_silence(step, sent, sub_data@),
    {
        if !sent {
            return HeadStep::Stop;
        }
        let call = send_newheads_sub_message();
        let params = call.member("params").to_text();
        proof {
            reveal_strlit("params");
            reveal_strlit("id");
            assert("params"@.len() != "id"@.len());
            assert(call@.member("params"@) == new_heads_params());
        }
        match sub_data.get_sub_id_by_params(params.as_str()) {
            None => HeadStep::Wait,
            Some(id) => {
                proof {
                    let slot = sub_data@.incoming[params@].0;
                    assert(sub_data@.served_at(id@, slot));
                }
                match sub_data.get_node_from_id(id.as_str()) {
                    Some(slot) => HeadStep::Move(slot),
                    None => HeadStep::Wait,
                }
            },
        }
    }
}

/// Whether `step` is what is done once the order to connect again was sent, or not: the
/// subscriptions of a node that serves the subscription to new heads are moved.
pub open spec fn follows_silence(step: HeadStep, sent: bool, data: SubscriptionsView) -> bool {
    let params = value_text(new_heads_params());
    if !sent {
        step == HeadStep::Stop
    } else if !data.incoming.contains_key(params) {
        step == HeadStep::Wait
    } else {
        step matches HeadStep::Move(slot) && data.found_at(data.incoming[params].1, slot)
    }
}

/// Once the heads are subscribed to, the node that falls silent is the one whose subscriptions
/// move, as long as no other node has a subscription by the same id.
pub proof fn law_silent_node_is_moved(before: SubscriptionsView, user_id: u32, step: HeadStep)
    requires
        before.incoming.contains_key(value_text(new_heads_params())),
        ({
            let params = value_text(new_heads_params());
            let data = before.joined(user_id, params);
            let (slot, id) = data.incoming[params];
            &&& follows_silence(step, true, data)
            &&& forall|n: usize| data.known_at(id, n) || data.served_at(id, n) ==> n == slot
        }),
    ensures
        step == HeadStep::Move(before.incoming[value_text(new_heads_params())].0),
{
}

/// The number that counts as finalized was reported by a node, and no node reported a higher one;
/// there is none only where no node answered.
pub proof fn law_highest_answer_counts(numbers: Seq<Option<u64>>)
    ensures
        highest(numbers) is None <==> forall|i: int|
            0 <= i < numbers.len() ==> #[trigger] numbers[i] is None,
        highest(numbers) matches Some(h) ==> numbers.contains(Some(h)) && forall|i: int|
            0 <= i < numbers.len() && #[trigger] numbers[i] is Some ==> numbers[i]->0 <= h,
    decreases numbers.len(),
{
    if numbers.len() > 0 {
        let shorter = numbers.drop_last();
        law_highest_answer_counts(shorter);
        assert(numbers[numbers.len() - 1] == numbers.last());
        assert forall|i: int| 0 <= i < shorter.len() implies #[trigger] numbers[i]
            == shorter[i] by {}
        if highest(numbers) is None {
            assert forall|i: int| 0 <= i < numbers.len() implies #[trigger] numbers[i] is None by {
                if i < shorter.len() {
                    assert(shorter[i] is None);
                }
            }
        }
        if let Some(h) = highest(shorter) {
            let i = choose|i: int| 0 <= i < shorter.len() && shorter[i] == Some(h);
            assert(numbers[i] == Some(h));
        }
        if let Some(h) = highest(numbers) {
            assert forall|i: int| 0 <= i < numbers.len() && #[trigger] numbers[i] is Some implies
                numbers[i]->0 <= h by {
                if i < shorter.len() {
                    assert(shorter[i] is Some);
                }
            }
        }
    }
}

/// The newest finalized block is the highest that a node reports: it is one that some node reports,
/// and no node reports a higher one. It becomes the finalized number, and no other named number
/// changes. Where no node reports one, nothing changes.
pub proof fn law_finalized_is_the_highest_reported(
    answers: &Vec<Option<u64>>,
    finalized: &mut u64,
    numbers: &mut NamedBlocknumbers,
    safe: (u64, bool),
)
    requires
        call_ensures(get_safe_block, (answers, finalized, numbers), safe),
    ensures
        (forall|i: int| 0 <= i < answers@.len() ==> #[trigger] answers@[i] is None) ==> safe == (
            old(numbers).finalized,
            false,
        ) && *final(finalized) == *old(finalized) && *final(numbers) == *old(numbers),
        (exists|i: int| 0 <= i < answers@.len() && #[trigger] answers@[i] is Some) ==> {
            &&& exists|i: int| 0 <= i < answers@.len() && #[trigger] answers@[i] == Some(safe.0)
            &&& forall|i: int|
                0 <= i < answers@.len() && #[trigger] answers@[i] is Some ==> answers@[i]->0
                    <= safe.0
            &&& safe.1 <==> safe.0 != *old(finalized)
            &&& *final(finalized) == safe.0
            &&& final(numbers).finalized == safe.0
            &&& final(numbers).latest == old(numbers).latest
            &&& final(numbers).earliest == old(numbers).earliest
            &&& final(numbers).safe == old(numbers).safe
            &&& final(numbers).pending == old(numbers).pending
        },
{
    law_highest_answer_counts(answers@);
    if let Some(h) = highest(answers@) {
        let i = choose|i: int| 0 <= i < answers@.len() && answers@[i] == Some(h);
        assert(answers@[i] is Some);
    }
}

/// The call that follows the head asks for new heads, as the user that does so.
pub proof fn law_heads_are_asked_for(call: Json)
    requires
        call_ensures(send_newheads_sub_message, (), call),
    ensures
        call@.member("method"@) == JsonView::Text("eth_subscribe"@),
        call@.member("params"@) == JsonView::Array(seq![JsonView::Text("newHeads"@)]),
        call@.member("jsonrpc"@) == JsonView::Text("2.0"@),
        call@.member("id"@) == JsonView::Text(decimal_text(WS_HEALTH_CHECK_USER_ID as nat)),
{
    reveal_strlit("method");
    reveal_strlit("params");
    reveal_strlit("id");
    reveal_strlit("jsonrpc");
    assert("method"@.len() == 6 && "params"@.len() == 6 && "id"@.len() == 2 && "jsonrpc"@.len()
        == 7);
    assert("method"@[0] == 'm' && "params"@[0] == 'p');
}

/// A notification with a number sets the head to it and passes it on; any other message is passed
/// over, and the end of messages ends it. No other named number changes.
pub proof fn law_head_is_the_number_received(
    heads: &NewHeads,
    message: Option<RequestResult>,
    numbers: &mut NamedBlocknumbers,
    step: HeadStep,
)
    requires
        call_ensures(NewHeads::received, (heads, message, numbers), step),
    ensures
        message is None ==> step is Stop,
        final(numbers).earliest == old(numbers).earliest,
        final(numbers).safe == old(numbers).safe,
        final(numbers).finalized == old(numbers).finalized,
        final(numbers).pending == old(numbers).pending,
        ({
            let number = match message {
                Some(RequestResult::Subscription(notification)) => {
                    let value = notification@.member("params"@).member("result"@).member(
                        "number"@,
                    );
                    match value {
                        JsonView::Text(text) => block_number_of(text),
                        _ => Err(HexError::Empty),
                    }
                },
                _ => Err(HexError::Empty),
            };
            match number {
                Ok(number) => step == HeadStep::Publish(number) && final(numbers).latest == number,
                Err(_) => final(numbers).latest == old(numbers).latest && (message is Some
                    ==> step is Wait),
            }
        }),
{
}

/// The number in a notification is read from where the notification has it.
pub proof fn law_head_number_is_read(notification: &Json, number: Option<u64>)
    requires
        call_ensures(number_of_head, (notification,), number),
    ensures
        ({
            let value = notification@.member("params"@).member("result"@).member("number"@);
            &&& !(value is Text) ==> number is None
            &&& value is Text ==> match block_number_of(value->Text_0) {
                Ok(read) => number == Some(read),
                Err(_) => number is None,
            }
        }),
{
}

/// A head that does not come in time leaves no head known, and nothing else changes; the
/// connections are to be made again.
pub proof fn law_silence_forgets_the_head(
    heads: &NewHeads,
    numbers: &mut NamedBlocknumbers,
    step: HeadStep,
)
    requires
        call_ensures(NewHeads::timed_out, (heads, numbers), step),
    ensures
        step is Reconnect,
        final(numbers).latest == 0,
        final(numbers).earliest == old(numbers).earliest,
        final(numbers).safe == old(numbers).safe,
        final(numbers).finalized == old(numbers).finalized,
        final(numbers).pending == old(numbers).pending,
{
}

/// The heads are followed as a user of their own: it connects, shares the subscription once the
/// call has succeeded and there is one, and tries again until then; without connections it stops.
pub proof fn law_heads_are_subscribed_to(
    heads: &NewHeads,
    succeeded: bool,
    data: &mut SubscriptionData,
    step: HeadStep,
    sent: bool,
    next: HeadStep,
    start: &mut SubscriptionData,
    new: NewHeads,
)
    requires
        call_ensures(NewHeads::subscribed, (heads, succeeded, data), step),
        call_ensures(NewHeads::retried, (heads, sent), next),
        call_ensures(NewHeads::subscribe_to_new_heads, (start,), new),
    ensures
        ({
            let params = value_text(JsonView::Array(seq![JsonView::Text("newHeads"@)]));
            let known = old(data)@.incoming.contains_key(params);
            let node = old(data)@.incoming[params];
            &&& step is Wait <==> succeeded && known
            &&& step is Retry <==> !(succeeded && known)
            &&& step is Wait ==> final(data)@.subscriptions.contains_key(node)
                && final(data)@.subscriptions[node].users.contains(heads.user_id)
            &&& step is Retry ==> final(data)@ == old(data)@
        }),
        sent ==> next is Subscribe,
        !sent ==> next is Stop,
        final(start)@.users == old(start)@.users.insert(new.user_id),
        final(start)@.subscriptions == old(start)@.subscriptions,
        final(start)@.incoming == old(start)@.incoming,
        new.user_id == WS_HEALTH_CHECK_USER_ID,
{
}

/// No number is known at the start.
pub proof fn law_no_number_is_known_at_first(a: NamedBlocknumbers)
    requires
        call_ensures(NamedBlocknumbers::defualt, (), a),
    ensures
        a.latest == 0 && a.earliest == 0 && a.safe == 0 && a.finalized == 0 && a.pending == 0,
{
}

/// After silence the node whose subscriptions move serves the subscription to new heads.
pub proof fn law_silence_moves_the_serving_node(
    heads: &NewHeads,
    sent: bool,
    data: &SubscriptionData,
    step: HeadStep,
)
    requires
        call_ensures(NewHeads::reconnected, (heads, sent, data), step),
    ensures
        ({
            let params = value_text(JsonView::Array(seq![JsonView::Text("newHeads"@)]));
            let (slot, id) = data@.incoming[params];
            &&& !sent ==> step is Stop
            &&& sent && !data@.incoming.contains_key(params) ==> step is Wait
            &&& sent && data@.incoming.contains_key(params) ==> {
                &&& step is Move
                &&& data@.known_at(id, step->Move_0) || data@.served_at(id, step->Move_0)
                &&& (forall|n: usize| data@.known_at(id, n) || data@.served_at(id, n) ==> n == slot)
                    ==> step->Move_0 == slot
            }
        }),
{
}

} // verus!
