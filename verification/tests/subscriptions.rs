use rpsee::balancer::processing::CacheArgs;
use rpsee::json::{parse, Json};
use rpsee::rpc::method::EthRpcMethod;
use rpsee::websocket::client::{execute_ws_call, RequestIds, WsStep, FIRST_REQUEST_ID};
use rpsee::websocket::error::WsError;
use rpsee::websocket::subscription_manager::{
    receive_failed, subscription_dispatcher, Dispatched, Migration, MigrationEvent,
    MigrationStep, FIRST_MIGRATION_ID,
};
use rpsee::websocket::types::{
    Dispatch, IncomingResponse, RequestResult, SubscriptionData, WsconnMessage,
};

fn json(text: &str) -> Json {
    parse(text).unwrap()
}

fn new_heads() -> Json {
    json(r#"{"jsonrpc":"2.0","id": 2, "params": ["newHeads"]}"#)
        .put("method", Json::text(EthRpcMethod::Subscribe.as_str()))
}

fn response(node_id: usize, content: Json) -> IncomingResponse {
    IncomingResponse { content, node_id }
}

fn setup_user_and_subscription_data() -> (SubscriptionData, u32) {
    let user_id = 100;
    let mut subscription_data = SubscriptionData::new();
    subscription_data.add_user(user_id);
    (subscription_data, user_id)
}

fn is_subscribed(data: &SubscriptionData, node_id: usize, id: &str, user_id: u32) -> bool {
    data.get_node_from_id(id) == Some(node_id)
        && data.get_users_for_subscription(id).contains(&user_id)
}

#[test]
fn test_add_and_remove_user() {
    let (mut subscription_data, user_id) = setup_user_and_subscription_data();
    assert!(subscription_data.has_user(user_id));
    subscription_data.remove_user(user_id);
    assert!(!subscription_data.has_user(user_id));
}

#[test]
fn test_get_node_from_id() {
    let mut subscription_data = SubscriptionData::new();
    let node_id = 42;
    let subscription_id = "sub123".to_string();
    subscription_data.register_subscription(&new_heads(), subscription_id.clone(), node_id);
    assert_eq!(
        subscription_data.get_node_from_id(&subscription_id),
        Some(node_id),
        "get_node_from_id should return the correct node_id"
    );
    assert_eq!(
        subscription_data.get_node_from_id("nonexistent"),
        None,
        "get_node_from_id should return None for a non-existent subscription_id"
    );
}

#[test]
fn test_subscribe_and_unsubscribe_user() {
    let (mut subscription_data, user_id) = setup_user_and_subscription_data();
    let subscription_id = "200".to_string();
    let node_id = 1;
    subscription_data.register_subscription(&new_heads(), subscription_id.clone(), node_id);
    assert!(subscription_data
        .subscribe_user(user_id, &new_heads())
        .is_ok());
    assert!(is_subscribed(
        &subscription_data,
        node_id,
        &subscription_id,
        user_id
    ));
    subscription_data.unsubscribe_user(user_id, &subscription_id);
    assert!(!is_subscribed(
        &subscription_data,
        node_id,
        &subscription_id,
        user_id
    ));
}

#[test]
fn test_unsubscribe_user_from_all() {
    let (mut subscription_data, user_id) = setup_user_and_subscription_data();
    let subscription_id = "200".to_string();
    let node_id = 1;
    subscription_data.register_subscription(&new_heads(), subscription_id.clone(), node_id);
    assert!(subscription_data
        .subscribe_user(user_id, &new_heads())
        .is_ok());
    assert!(is_subscribed(
        &subscription_data,
        node_id,
        &subscription_id,
        user_id
    ));
    subscription_data.unsubscribe_user_from_all(user_id);
    assert!(!is_subscribed(
        &subscription_data,
        node_id,
        &subscription_id,
        user_id
    ));
}

#[test]
fn test_dispatch_to_subscribers() {
    let (mut subscription_data, user_id) = setup_user_and_subscription_data();
    let subscription_id = "300".to_string();
    let node_id = 1;
    let message = RequestResult::Subscription(Json::text("test message"));
    subscription_data.register_subscription(&new_heads(), subscription_id.clone(), node_id);
    assert!(subscription_data
        .subscribe_user(user_id, &new_heads())
        .is_ok());
    match subscription_data.dispatch_to_subscribers(&subscription_id, node_id, &message) {
        Ok(Dispatch::Deliver {
            message,
            users,
            client_id,
        }) => {
            assert_eq!(message.as_str(), Some("test message"));
            assert_eq!(users, vec![user_id]);
            assert_eq!(client_id, subscription_id);
        }
        _ => panic!("Expected to receive a subscription message"),
    }
}

#[test]
fn test_remove_nonexistent_user() {
    let (mut subscription_data, user_id) = setup_user_and_subscription_data();
    let non_existent_user_id = 999;
    assert!(!subscription_data.has_user(non_existent_user_id));
    subscription_data.remove_user(non_existent_user_id);
    assert!(!subscription_data.has_user(non_existent_user_id));
    assert!(subscription_data.has_user(user_id));
}

#[test]
fn test_unsubscribe_nonexistent_subscription() {
    let (mut subscription_data, user_id) = setup_user_and_subscription_data();
    let nonexistent_subscription_id = "sub400".to_string();
    let nonexistent_node_id = 10000;
    subscription_data.unsubscribe_user(user_id, &nonexistent_subscription_id);
    assert!(subscription_data
        .get_users_for_subscription(&nonexistent_subscription_id)
        .is_empty());
    assert!(matches!(
        subscription_data.dispatch_to_subscribers(
            &nonexistent_subscription_id,
            nonexistent_node_id,
            &RequestResult::Subscription(Json::Null)
        ),
        Ok(Dispatch::Ignore)
    ));
}

#[test]
fn test_get_sub_id_by_node() {
    let mut subscription_data = SubscriptionData::new();
    let node_id = 10;
    let subscription_id = "sub123".to_string();
    let subscription_request = json(r#"{"params": ["newHeads"]}"#);
    subscription_data.register_subscription(
        &subscription_request,
        subscription_id.clone(),
        node_id,
    );
    let sub_ids = subscription_data.get_sub_id_by_node(node_id);
    assert_eq!(sub_ids, vec![subscription_id]);
    let sub_ids_for_nonexistent_node = subscription_data.get_sub_id_by_node(999);
    assert!(sub_ids_for_nonexistent_node.is_empty());
}

#[test]
fn test_get_sub_id_by_node_with_multiple_subscriptions() {
    let mut subscription_data = SubscriptionData::new();
    let node_id = 10;
    let subscription_request_1 = json(r#"{"params": ["newHeads"]}"#);
    let subscription_request_2 = json(r#"{"params": ["logs"]}"#);
    subscription_data.register_subscription(
        &subscription_request_1,
        "sub123".to_string(),
        node_id,
    );
    subscription_data.register_subscription(
        &subscription_request_2,
        "sub456".to_string(),
        node_id,
    );
    let sub_ids = subscription_data.get_sub_id_by_node(node_id);
    assert_eq!(sub_ids.len(), 2);
    assert!(sub_ids.contains(&"sub123".to_string()));
    assert!(sub_ids.contains(&"sub456".to_string()));
}

#[test]
fn test_get_subscription_by_node() {
    let mut subscription_data = SubscriptionData::new();
    let node_id = 20;
    let subscription_request_str = r#"["newHeads"]"#.to_string();
    let subscription_request = json(r#"{"params": ["newHeads"]}"#);
    subscription_data.register_subscription(
        &subscription_request,
        "sub456".to_string(),
        node_id,
    );
    let subscriptions = subscription_data.get_subscription_by_node(node_id);
    assert_eq!(subscriptions, vec![subscription_request_str]);
    let subscriptions_for_nonexistent_node = subscription_data.get_subscription_by_node(999);
    assert!(subscriptions_for_nonexistent_node.is_empty());
}

#[test]
fn test_get_sub_id_by_params() {
    let mut sub_data = SubscriptionData::new();
    let params = "newHeads";
    let subscription_id = "sub123";
    let node_id = 1;
    sub_data.raw_register(params.to_string(), subscription_id.to_string(), node_id);
    let result = sub_data.get_sub_id_by_params(params);
    assert_eq!(
        result,
        Some(subscription_id.to_string()),
        "Should return the correct subscription ID for existing params"
    );
    let non_existing_params = "logs";
    let result = sub_data.get_sub_id_by_params(non_existing_params);
    assert_eq!(result, None, "Should return None for non-existing params");
}

#[test]
fn test_get_subscription_by_node_with_multiple_subscriptions() {
    let mut subscription_data = SubscriptionData::new();
    let node_id = 20;
    let subscription_request_str_1 = r#"["newHeads"]"#.to_string();
    let subscription_request_str_2 = r#"["logs","adasdas"]"#.to_string();
    let subscription_request_1 = json(r#"{"params": ["newHeads"]}"#);
    let subscription_request_2 = json(r#"{"params": ["logs", "adasdas"]}"#);
    subscription_data.register_subscription(
        &subscription_request_1,
        "sub789".to_string(),
        node_id,
    );
    subscription_data.register_subscription(
        &subscription_request_2,
        "sub101112".to_string(),
        node_id,
    );
    let subscriptions = subscription_data.get_subscription_by_node(node_id);
    assert_eq!(subscriptions.len(), 2);
    assert!(subscriptions.contains(&subscription_request_str_1));
    assert!(subscriptions.contains(&subscription_request_str_2));
}

#[test]
fn types_test_move_subscriptions() {
    let mut subscription_data = SubscriptionData::new();
    let source_node_id = 30;
    let target_node_id = 31;
    let subscription_request = json(r#"{"params": ["oldHeads"]}"#);
    let subscription_id = "sub789".to_string();
    let user_id = 123;
    subscription_data.register_subscription(
        &subscription_request,
        subscription_id.clone(),
        source_node_id,
    );
    subscription_data.add_user(user_id);
    assert!(subscription_data
        .subscribe_user(user_id, &subscription_request)
        .is_ok());
    assert!(subscription_data
        .move_subscriptions(
            target_node_id,
            &r#"["oldHeads"]"#.to_string(),
            subscription_id.clone()
        )
        .is_ok());
    // Check if user is subscribed to the new node
    assert!(is_subscribed(
        &subscription_data,
        target_node_id,
        &subscription_id,
        user_id
    ));
    // Check if subscription has been moved from the old node
    assert!(matches!(
        subscription_data.dispatch_to_subscribers(
            &subscription_id,
            source_node_id,
            &RequestResult::Subscription(Json::Null)
        ),
        Ok(Dispatch::Ignore)
    ));
}

#[test]
fn test_move_subscriptions_with_no_subscribers() {
    let mut subscription_data = SubscriptionData::new();
    let source_node_id = 30;
    let target_node_id = 31;
    let subscription_request = "oldHeads".to_string();
    let subscription_id = "sub789".to_string();
    subscription_data.raw_register(
        subscription_request.clone(),
        subscription_id.clone(),
        source_node_id,
    );
    let moved = subscription_data.move_subscriptions(
        target_node_id,
        &subscription_request,
        subscription_id.clone(),
    );
    assert!(matches!(moved, Err(WsError::EmptyList(_))));
    assert_eq!(
        subscription_data.get_sub_id_by_params(&subscription_request),
        Some(subscription_id.clone())
    );
    // Ensure there are no subscribers to the moved subscription
    assert!(subscription_data
        .get_users_for_subscription(&subscription_id)
        .is_empty());
}

#[test]
fn test_dispatch_to_empty_subscription_list() {
    let mut subscription_data = SubscriptionData::new();
    let empty_subscription_id = "500".to_string();
    let empty_node_id = 10000;
    let message = RequestResult::Subscription(Json::text("empty test message"));
    // No users are subscribed to this subscription
    subscription_data.register_subscription(
        &new_heads(),
        empty_subscription_id.clone(),
        empty_node_id,
    );
    let dispatch_result = subscription_data.dispatch_to_subscribers(
        &empty_subscription_id,
        empty_node_id,
        &message,
    );
    assert!(dispatch_result.is_ok()); // Should succeed even though there are no subscribers
}

#[test]
fn test_get_users_for_subscription() {
    let (mut subscription_data, user_id) = setup_user_and_subscription_data();
    let subscription_id = "200".to_string();
    let node_id = 1;
    subscription_data.register_subscription(&new_heads(), subscription_id.clone(), node_id);
    assert!(subscription_data
        .subscribe_user(user_id, &new_heads())
        .is_ok());
    let users = subscription_data.get_users_for_subscription(&subscription_id);
    assert_eq!(users.len(), 1);
    assert!(users.contains(&user_id));
    let non_existent_subscription_id = "nonexistent".to_string();
    let empty_users = subscription_data.get_users_for_subscription(&non_existent_subscription_id);
    assert!(empty_users.is_empty());
}

#[test]
fn test_dispatch_to_nonexistent_subscription() {
    let mut subscription_data = SubscriptionData::new();
    let nonexistent_subscription_id = "600".to_string();
    let nonexistent_node_id = 10000;
    let message = RequestResult::Subscription(Json::text("nonexistent subscription message"));
    let dispatch_result = subscription_data.dispatch_to_subscribers(
        &nonexistent_subscription_id,
        nonexistent_node_id,
        &message,
    );
    assert!(dispatch_result.is_ok()); // Should succeed as it should handle subscriptions with no users gracefully
}

#[test]
fn calls_are_not_dispatched() {
    let mut data = SubscriptionData::new();
    match data.dispatch_to_subscribers("1", 1, &RequestResult::Call(Json::Null)) {
        Err(error) => assert_eq!(
            error.message(),
            "Invalid data: Trying to send a call as a subscription!"
        ),
        Ok(_) => panic!("a call is no notification"),
    }
}

#[test]
fn subscriptions_that_nobody_knows_cannot_be_joined_or_moved() {
    let mut data = SubscriptionData::new();
    for request in ["{}", r#"{"params":[]}"#, r#"{"params":{}}"#, r#"{"params":["logs"]}"#] {
        assert!(matches!(
            data.subscribe_user(1, &json(request)),
            Err(WsError::FailedParsing())
        ));
    }
    assert!(matches!(
        data.move_subscriptions(1, &"[]".to_string(), "id".to_string()),
        Err(WsError::MissingSubscription())
    ));
}

#[test]
fn messages_hold_their_values() {
    let call: Json = RequestResult::Call(Json::unsigned(1)).into();
    assert_eq!(call.to_text(), "1");
    let subscription: Json = RequestResult::Subscription(Json::unsigned(2)).into();
    assert_eq!(subscription.to_text(), "2");
    let message: Json = WsconnMessage::Message(Json::unsigned(3), Some(1)).into();
    assert_eq!(message.to_text(), "3");
    let reconnect: Json = WsconnMessage::Reconnect().into();
    assert_eq!(reconnect.to_text(), "null");
}

#[test]
fn users_who_are_not_connected_get_no_notification() {
    let (mut data, user_id) = setup_user_and_subscription_data();
    data.register_subscription(&new_heads(), "id".to_string(), 1);
    assert!(data.subscribe_user(user_id, &new_heads()).is_ok());
    assert!(data.subscribe_user(7, &new_heads()).is_ok());
    let message = RequestResult::Subscription(Json::Null);
    match data.dispatch_to_subscribers("id", 1, &message) {
        Ok(Dispatch::Deliver { users, .. }) => assert_eq!(users, vec![user_id]),
        _ => panic!("somebody shares the subscription"),
    }
}

#[test]
fn test_subscription_dispatcher() {
    let mut sub_data = SubscriptionData::new();
    let user_id = 1;
    let subscription_id = "sub123";
    sub_data.add_user(user_id);
    let subscription_request = new_heads().put("id", Json::unsigned(1));
    sub_data.register_subscription(&subscription_request, subscription_id.to_string(), 0);
    assert!(sub_data
        .subscribe_user(user_id, &subscription_request)
        .is_ok());
    let subscription_content = Json::object()
        .put("method", Json::text(EthRpcMethod::Subscription.as_str()))
        .put(
            "params",
            Json::object().put("subscription", Json::text(subscription_id)),
        );
    match subscription_dispatcher(response(0, subscription_content.clone()), &mut sub_data) {
        Dispatched::Deliver { message, users, .. } => {
            assert_eq!(users, vec![user_id]);
            assert_eq!(message.to_text(), subscription_content.to_text());
        }
        _ => panic!("User did not receive the expected message."),
    }
    sub_data.unsubscribe_user(user_id, subscription_id);
    match subscription_dispatcher(response(0, subscription_content.clone()), &mut sub_data) {
        Dispatched::Unsubscribe(WsconnMessage::Message(request, slot)) => {
            assert_eq!(
                request.to_text(),
                r#"{"id":2,"jsonrpc":"2.0","method":"eth_unsubscribe","params":["sub123"]}"#
            );
            assert_eq!(slot, Some(0));
        }
        _ => panic!("nobody shares the subscription"),
    }
    for content in [
        subscription_content.clone(),
        subscription_content.clone().put("method", Json::text("m")),
        subscription_content.put("params", Json::object()),
    ] {
        assert!(matches!(
            subscription_dispatcher(response(0, content), &mut sub_data),
            Dispatched::Skip
        ));
    }
    assert!(matches!(receive_failed(true), WsError::ReceiverLagged()));
    assert!(matches!(receive_failed(false), WsError::ChannelClosed()));
}

#[test]
fn subscription_manager_test_move_subscriptions() {
    let mut sub_data = SubscriptionData::new();
    let node_id = 1;
    let user_id = 2;
    sub_data.register_subscription(&new_heads(), "sub789".to_string(), node_id);
    assert!(sub_data.subscribe_user(user_id, &new_heads()).is_ok());

    let mut ids = RequestIds::new(FIRST_MIGRATION_ID);
    let start = Migration::move_subscriptions(&sub_data, node_id, &mut ids);
    assert!(start.complete);
    let mut migration = start.migration;
    let mut done = migration.is_done();
    for message in start.subscribe {
        let request: Json = message.into();
        let answer = json(r#"{"jsonrpc": "2.0"}"#)
            .put("id", request.member("id"))
            .put("result", Json::text("12345"));
        let step = migration.received(&response(2, answer), &mut sub_data);
        done = matches!(step, MigrationStep::Done);
    }
    assert!(done, "move_subscriptions should succeed");

    let og_subs = sub_data.get_subscription_by_node(1);
    assert!(
        og_subs.is_empty(),
        "Subscriptions should have been moved to the new node"
    );
    let moved_subs = sub_data.get_subscription_by_node(2); // new node ID
    assert!(
        !moved_subs.is_empty(),
        "Subscriptions should have been moved to the new node"
    );
}

#[test]
fn migration_preserves_filter_and_uses_new_upstream_subscription_id() {
    let mut subscriptions = SubscriptionData::new();
    subscriptions.add_user(1);
    let params = json(r#"["logs", {"address": "0x1234", "topics": []}]"#);
    let request = Json::object().put("params", params.clone());
    subscriptions.register_subscription(&request, "old".to_string(), 1);
    assert!(subscriptions.subscribe_user(1, &request).is_ok());

    let mut ids = RequestIds::new(FIRST_MIGRATION_ID);
    let start = Migration::move_subscriptions(&subscriptions, 1, &mut ids);
    let mut migration = start.migration;
    assert_eq!(start.unsubscribe.len(), 1);
    let unsubscribe: Json = start.unsubscribe.into_iter().next().unwrap().into();
    assert_eq!(
        unsubscribe.to_text(),
        r#"{"id":2,"jsonrpc":"2.0","method":"eth_unsubscribe","params":["old"]}"#
    );
    assert_eq!(start.subscribe.len(), 1);
    for message in start.subscribe {
        let message: Json = message.into();
        assert_eq!(message.member("method").as_str(), Some("eth_subscribe"));
        assert_eq!(message.member("params").to_text(), params.to_text());
        assert_eq!(message.member("id").as_u64(), Some(FIRST_MIGRATION_ID));
        let unrelated = json(r#"{"method": "eth_subscription", "params": {}}"#);
        assert!(matches!(
            migration.received(&response(3, unrelated), &mut subscriptions),
            MigrationStep::Wait
        ));
        let answer = Json::object()
            .put("id", message.member("id"))
            .put("result", Json::text("new"));
        assert!(matches!(
            migration.received(&response(2, answer), &mut subscriptions),
            MigrationStep::Done
        ));
    }
    assert!(subscriptions.get_sub_id_by_node(1).is_empty());
    assert_eq!(subscriptions.get_sub_id_by_node(2), vec!["new"]);
    assert!(subscriptions.get_users_for_subscription("old").is_empty());
    let notification = json(r#"{"params": {"subscription": "new", "result": "event"}}"#);
    let dispatched = subscriptions.dispatch_to_subscribers(
        "new",
        2,
        &RequestResult::Subscription(notification.clone()),
    );
    match dispatched {
        Ok(Dispatch::Deliver { message, users, .. }) => {
            assert_eq!(users, vec![1]);
            let params = message.member("params");
            assert_eq!(params.member("subscription").as_str(), Some("old"));
            assert_eq!(params.member("result").as_str(), Some("event"));
        }
        _ => panic!("expected migrated notification"),
    }
    assert_eq!(subscriptions.get_node_from_id("old"), Some(2));
    let joined = subscriptions.subscribe_user(
        2,
        &json(r#"{"params":["logs", {"address":"0x1234", "topics":[]}]}"#),
    );
    assert!(joined.is_ok_and(|id| id == "old"));
    let args = CacheArgs::default();
    let step = execute_ws_call(
        json(r#"{"jsonrpc":"2.0", "id":17, "method":"eth_unsubscribe", "params":["old"]}"#),
        1,
        &mut subscriptions,
        &args.named_numbers,
        args.algorithm,
    );
    let call = match step {
        WsStep::ReadCache(call) => call,
        _ => panic!("the cache is read first"),
    };
    let mut request_ids = RequestIds::new(FIRST_REQUEST_ID);
    match call.cache_read(None, &mut subscriptions, &mut request_ids) {
        WsStep::Reply(reply, None) => assert_eq!(
            json(&reply).to_text(),
            json(r#"{"jsonrpc":"2.0", "id":17, "result":true}"#).to_text()
        ),
        _ => panic!("the subscription exists"),
    }
    subscriptions.unsubscribe_user(2, "old");
    assert!(matches!(
        subscriptions.dispatch_to_subscribers(
            "new",
            2,
            &RequestResult::Subscription(notification)
        ),
        Ok(Dispatch::Unsubscribe)
    ));
    assert_eq!(subscriptions.get_node_from_id("old"), None);
}

#[test]
fn unanswered_migration_times_out_without_losing_subscribers() {
    let mut subscriptions = SubscriptionData::new();
    let request = json(r#"{"params": ["newHeads"]}"#);
    subscriptions.register_subscription(&request, "old".to_string(), 1);
    assert!(subscriptions.subscribe_user(7, &request).is_ok());
    let mut ids = RequestIds::new(FIRST_MIGRATION_ID);
    let start = Migration::move_subscriptions(&subscriptions, 1, &mut ids);
    assert!(matches!(start.sent(true), MigrationStep::Wait));
    assert!(!start.migration.is_done());
    let result: Result<(), WsError> = Err(Migration::failed(MigrationEvent::TimedOut));
    assert!(matches!(result, Err(WsError::NoWsResponse)));
    assert_eq!(subscriptions.get_users_for_subscription("old"), vec![7]);
    assert_eq!(subscriptions.get_sub_id_by_node(1), vec!["old"]);
}

#[test]
fn migrations_fail_where_a_node_refuses_or_nobody_is_left() {
    for (answer, expected) in [
        (r#"{"error":"no"}"#, "Invalid data: Upstream rejected subscription"),
        (r#"{"result":"new"}"#, "Empty list: User list empty!"),
    ] {
        let mut data = SubscriptionData::new();
        data.register_subscription(&new_heads(), "old".to_string(), 1);
        let mut ids = RequestIds::new(FIRST_MIGRATION_ID);
        let mut migration = Migration::move_subscriptions(&data, 1, &mut ids).migration;
        let content = json(answer).put("id", Json::unsigned(FIRST_MIGRATION_ID));
        match migration.received(&response(2, content), &mut data) {
            MigrationStep::Fail(error) => assert_eq!(error.message(), expected),
            _ => panic!("the migration fails"),
        }
    }
}

#[test]
fn migrations_stop_at_parameters_that_cannot_be_read() {
    let mut data = SubscriptionData::new();
    data.raw_register("not JSON".to_string(), "id".to_string(), 1);
    let mut ids = RequestIds::new(FIRST_MIGRATION_ID);
    let start = Migration::move_subscriptions(&data, 1, &mut ids);
    assert!(!start.complete);
    assert!(matches!(
        start.sent(true),
        MigrationStep::Fail(WsError::FailedParsing())
    ));
    assert!(matches!(
        start.sent(false),
        MigrationStep::Fail(WsError::ChannelClosed())
    ));
    assert_eq!(start.unsubscribe.len(), 1);
    assert!(start.subscribe.is_empty());
    assert_eq!(ids.take(), FIRST_MIGRATION_ID + 1);
}

#[test]
fn migrations_fail_by_what_ended_them() {
    for (event, expected) in [
        (MigrationEvent::NotSent, WsError::ChannelClosed()),
        (MigrationEvent::Unreadable, WsError::FailedParsing()),
        (MigrationEvent::TimedOut, WsError::NoWsResponse),
        (
            MigrationEvent::NotReceived { lagged: true },
            WsError::ReceiverLagged(),
        ),
        (
            MigrationEvent::NotReceived { lagged: false },
            WsError::ChannelClosed(),
        ),
    ] {
        assert_eq!(Migration::failed(event).message(), expected.message());
    }
    let mut ids = RequestIds::new(FIRST_MIGRATION_ID);
    let start = Migration::move_subscriptions(&SubscriptionData::new(), 1, &mut ids);
    assert!(matches!(start.sent(true), MigrationStep::Done));
}
