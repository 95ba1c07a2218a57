use rpsee::health::check::{
    dropped_listener, escape_poverty, head_check, make_poverty, send_dropped_to_poverty,
    HeadResult, HealthState, LiveReadyUpdate,
};
use rpsee::health::error::HealthError;
use rpsee::health::head_cache::{handle_reorg, remove_stale, HeadCache, HeadFollower};
use rpsee::health::safe_block::{
    get_safe_block, number_of_head, send_newheads_sub_message, HeadStep, NamedBlocknumbers,
    NewHeads,
};
use rpsee::json::{parse, Json};
use rpsee::rpc::endpoint::Endpoint;
use rpsee::rpc::types::Rpc;
use rpsee::websocket::error::WsError;
use rpsee::websocket::types::{RequestResult, SubscriptionData, WsChannelErr, WsconnMessage};
use std::collections::HashMap;

fn json(text: &str) -> Json {
    parse(text).unwrap()
}

fn mock_rpc(number: u32) -> Rpc {
    Rpc::new(
        Endpoint::parse(&format!("https://example.com/{number}")).unwrap(),
        None,
        1,
        0,
        1,
    )
}

fn head(rpc: &Rpc, is_syncing: bool, reported_head: u64) -> HeadResult {
    HeadResult {
        rpc: rpc.clone(),
        is_syncing,
        reported_head,
    }
}

fn dummy_head_check() -> Vec<HeadResult> {
    vec![
        head(&mock_rpc(1), false, 18177557),
        head(&mock_rpc(2), false, 18193012),
        head(&mock_rpc(3), false, 0),
    ]
}

#[test]
fn test_poverty() {
    let mut rpc_list = vec![mock_rpc(1), mock_rpc(2), mock_rpc(3)];
    let mut poverty_list = vec![];

    let highest = make_poverty(&mut rpc_list, &mut poverty_list, &dummy_head_check());
    assert_eq!(highest, 18193012);

    // Only 1 RPC should be in the rpc list
    assert_eq!(rpc_list.len(), 1);
    // The poverty list should now contain 2 RPCs
    assert_eq!(poverty_list.len(), 2);
    assert!(rpc_list[0].same_endpoint(&mock_rpc(2)));
    assert!(poverty_list.iter().all(|rpc| rpc.is_erroring()));
}

#[test]
fn test_escape() {
    let mut rpc1 = mock_rpc(1);
    rpc1.status.is_erroring = true;
    let rpc2 = mock_rpc(2);
    let mut rpc3 = mock_rpc(3);
    rpc3.status.is_erroring = true;

    let mut rpc_list = vec![rpc2.clone()];
    let mut poverty_list = vec![rpc1.clone(), rpc3.clone()];
    let heads = vec![head(&rpc1, false, 18177557), head(&rpc3, false, 18193012)];

    poverty_list.swap(0, 1);
    let update = escape_poverty(&mut rpc_list, &mut poverty_list, &heads, 18193012);
    assert!(update == LiveReadyUpdate::Health(HealthState::MissingRpcs));

    // RPC3 should have escaped poverty
    assert_eq!(rpc_list.len(), 2);
    // The poverty list should have 1 RPC
    assert_eq!(poverty_list.len(), 1);
    assert!(poverty_list[0].same_endpoint(&rpc1));
    assert!(rpc_list.iter().any(|rpc| rpc.same_endpoint(&rpc3)));
    assert!(!rpc_list[1].is_erroring());
}

#[test]
fn test_escape_sync() {
    let mut rpc1 = mock_rpc(1);
    rpc1.status.is_erroring = true;
    let rpc2 = mock_rpc(2);
    let mut rpc3 = mock_rpc(3);
    rpc3.status.is_erroring = true;

    let mut rpc_list = vec![rpc2.clone()];
    let mut poverty_list = vec![rpc1.clone(), rpc3.clone()];
    let heads = vec![head(&rpc1, false, 18193012), head(&rpc3, true, 18193012)];

    escape_poverty(&mut rpc_list, &mut poverty_list, &heads, 18193012);

    assert_eq!(rpc_list.len(), 2);
    // The poverty list should have 1 RPC
    assert_eq!(poverty_list.len(), 1);
    assert!(poverty_list[0].same_endpoint(&rpc3));
}

#[test]
fn timed_out_health_probe_closes_connection_and_evicts_endpoint() {
    let rpc = mock_rpc(1);
    let mut rpc_list = vec![rpc.clone()];
    let replacement = mock_rpc(2);
    rpc_list.insert(0, replacement.clone());
    let heads = vec![head_check(rpc, None)];
    assert!(heads[0].is_syncing);

    let mut poverty_list = Vec::new();
    make_poverty(&mut rpc_list, &mut poverty_list, &heads);
    assert_eq!(rpc_list.len(), 1);
    assert!(rpc_list[0].same_endpoint(&replacement));
    assert!(poverty_list[0].status.is_erroring);
    make_poverty(&mut rpc_list, &mut poverty_list, &heads);
    assert_eq!(rpc_list.len(), 1);
    assert_eq!(poverty_list.len(), 1);
}

#[test]
fn failed_finality_probe_preserves_last_finalized_block() {
    let mut finalized = 42;
    let mut numbers = NamedBlocknumbers {
        finalized: 42,
        ..NamedBlocknumbers::default()
    };
    let (safe, changed) = get_safe_block(&vec![None], &mut finalized, &mut numbers);
    assert_eq!(safe, 42);
    assert!(!changed);
    assert_eq!(finalized, 42);
    assert_eq!(numbers.finalized, 42);
}

#[test]
fn the_highest_finalized_block_counts() {
    let mut finalized = 0;
    let mut numbers = NamedBlocknumbers::defualt();
    let answers = vec![Some(5), None, Some(9), Some(7)];
    assert_eq!(
        get_safe_block(&answers, &mut finalized, &mut numbers),
        (9, true)
    );
    assert_eq!(finalized, 9);
    assert_eq!(
        numbers,
        NamedBlocknumbers {
            finalized: 9,
            ..NamedBlocknumbers::defualt()
        }
    );
    assert_eq!(
        get_safe_block(&answers, &mut finalized, &mut numbers),
        (9, false)
    );
}

#[test]
fn probes_without_an_answer_count_against_the_node() {
    for (probe, reported_head, is_syncing) in [
        (None, 0, true),
        (Some((None, None)), 0, true),
        (Some((Some(5), None)), 5, true),
        (Some((None, Some(false))), 0, false),
        (Some((Some(5), Some(true))), 5, true),
        (Some((Some(5), Some(false))), 5, false),
    ] {
        let head = head_check(mock_rpc(1), probe);
        assert_eq!(head.reported_head, reported_head);
        assert_eq!(head.is_syncing, is_syncing);
    }
}

#[test]
fn heads_of_nodes_that_are_not_listed_do_not_count() {
    let mut rpc_list = vec![mock_rpc(1)];
    let mut poverty_list = vec![];
    let heads = vec![head(&mock_rpc(1), false, 5), head(&mock_rpc(2), false, 9)];
    assert_eq!(make_poverty(&mut rpc_list, &mut poverty_list, &heads), 5);
    assert_eq!((rpc_list.len(), poverty_list.len()), (1, 0));
}

#[test]
fn the_state_of_the_nodes_is_reported() {
    for (active, poor, state) in [
        (1, 0, HealthState::Healthy),
        (1, 1, HealthState::MissingRpcs),
        (0, 1, HealthState::Unhealthy),
        (0, 0, HealthState::Unhealthy),
    ] {
        let mut rpc_list = vec![mock_rpc(1); active];
        let mut poverty_list = vec![mock_rpc(2); poor];
        let update = escape_poverty(&mut rpc_list, &mut poverty_list, &vec![], 0);
        assert!(update == LiveReadyUpdate::Health(state));
    }
}

#[test]
fn a_node_whose_connection_ended_is_moved() {
    let mut rpc_list = vec![mock_rpc(1), mock_rpc(2)];
    let mut poverty_list = vec![];
    for left in [1, 1] {
        let dropped = WsChannelErr::Closed(7, mock_rpc(1));
        let step = send_dropped_to_poverty(&mut rpc_list, &mut poverty_list, &dropped);
        assert!(matches!(step.order, WsconnMessage::Reconnect()));
        assert!(matches!(step.ordered(true), Ok(7)));
        assert!(matches!(
            step.ordered(false),
            Err(HealthError::Unresponsive)
        ));
        assert!(step.moved(Ok(())).is_ok());
        assert!(matches!(
            step.moved(Err(WsError::NoWsResponse)),
            Err(HealthError::Websocket(WsError::NoWsResponse))
        ));
        assert_eq!((rpc_list.len(), poverty_list.len()), (left, 1));
        assert!(rpc_list[0].same_endpoint(&mock_rpc(2)));
        assert!(poverty_list[0].is_erroring());
    }
}

#[test]
fn reports_of_ended_connections_do_not_end() {
    let report = WsChannelErr::Closed(3, mock_rpc(1));
    assert!(matches!(
        dropped_listener(Some(report)),
        Ok(WsChannelErr::Closed(3, _))
    ));
    assert!(matches!(
        dropped_listener(None),
        Err(HealthError::InvalidResponse(text)) if text == "Expected WsChannelErr!"
    ));
}

fn holding(blocks: &[(u64, &[&str])]) -> HeadCache {
    let mut cache = HeadCache::new();
    for (number, keys) in blocks {
        for key in *keys {
            cache.track(*number, key.as_bytes().to_vec());
        }
    }
    cache
}

fn store(keys: &[&str], value: &str) -> HashMap<Vec<u8>, String> {
    keys.iter()
        .map(|key| (key.as_bytes().to_vec(), value.to_string()))
        .collect()
}

fn delete(db: &mut HashMap<Vec<u8>, String>, batch: Vec<Vec<u8>>) {
    for key in batch {
        db.remove(&key);
    }
}

#[test]
fn finalization_prunes_tracking_without_head_notifications() {
    let mut head_cache = holding(&[(4, &["finalized"]), (5, &["pending"])]);
    remove_stale(&mut head_cache, 4);
    assert!(
        !head_cache.contains_key(4),
        "finalized tracking retained without a new head"
    );
    assert!(head_cache.contains_key(5));
}

#[test]
fn test_handle_reorg() {
    let mut head_cache = holding(&[(1, &["key1"]), (2, &["key2"]), (3, &["key3"])]);
    let mut db = store(&["key1", "key2", "key3"], "value");

    let batch = handle_reorg(&mut head_cache, 3, 2);
    delete(&mut db, batch);

    assert!(
        head_cache.contains_key(1),
        "head cache does not contain key1"
    );
    assert!(
        !head_cache.contains_key(2),
        "head cache should not contain key2"
    );
    assert!(
        !head_cache.contains_key(3),
        "head cache should not contain key3"
    );
    assert!(
        db.contains_key("key1".as_bytes()),
        "failed to get key1 from db"
    );
    assert!(
        !db.contains_key("key2".as_bytes()),
        "successfully got key2 from db which should have failed"
    );
    assert!(
        !db.contains_key("key3".as_bytes()),
        "successfully got key3 from db which should have failed"
    );
}

#[test]
fn same_height_reorg_removes_all_responses_after_parent_finalizes() {
    for finalize_parent in [false, true] {
        let mut head_cache = holding(&[(1, &["parent"]), (2, &["head_a", "head_b"])]);
        let mut db = store(&["parent", "head_a", "head_b"], "cached response");

        if finalize_parent {
            remove_stale(&mut head_cache, 1);
        }
        let batch = handle_reorg(&mut head_cache, 2, 2);
        delete(&mut db, batch);

        assert!(db.contains_key(b"parent".as_slice()));
        for key in [b"head_a".as_slice(), b"head_b"] {
            assert!(!db.contains_key(key));
        }
        assert!(!head_cache.contains_key(2));
        assert_eq!(head_cache.contains_key(1), !finalize_parent);
    }
}

#[test]
fn test_remove_stale() {
    let mut head_cache = holding(&[(1, &["key1"]), (2, &["key2"])]);
    remove_stale(&mut head_cache, 1);
    assert!(!head_cache.contains_key(1));
    assert!(head_cache.contains_key(2));
}

#[test]
fn finalizing_maximum_block_number_prunes_all_tracking() {
    let mut head_cache = holding(&[(u64::MAX - 1, &["parent"]), (u64::MAX, &["head"])]);
    remove_stale(&mut head_cache, u64::MAX);
    assert!(head_cache.is_empty());
}

#[test]
fn keys_are_listed_once_per_block() {
    let head_cache = holding(&[(1, &["a", "b", "a"]), (2, &["a"])]);
    assert_eq!(head_cache.count(1), 2);
    assert_eq!(head_cache.count(2), 1);
    assert_eq!(head_cache.count(3), 0);
}

#[test]
fn only_heads_that_are_not_above_the_last_one_reorganize() {
    let mut head_cache = holding(&[(4, &["four"]), (5, &["five"]), (6, &["six"])]);
    let mut follower = HeadFollower::new();
    assert!(follower.new_head(&mut head_cache, 5).is_none());
    assert!(follower.new_head(&mut head_cache, 6).is_none());
    let batch = follower.new_head(&mut head_cache, 5).unwrap();
    assert_eq!(batch.len(), 2);
    assert!(batch.contains(&b"five".to_vec()));
    assert!(batch.contains(&b"six".to_vec()));
    assert_eq!(follower.block_number, 5);
    assert_eq!(follower.new_head(&mut head_cache, 5), Some(vec![]));
    assert!(head_cache.contains_key(4));
}

#[test]
fn new_heads_are_asked_for_and_followed() {
    assert_eq!(
        send_newheads_sub_message().to_text(),
        r#"{"id":"1","jsonrpc":"2.0","method":"eth_subscribe","params":["newHeads"]}"#
    );
    let mut sub_data = SubscriptionData::new();
    let heads = NewHeads::subscribe_to_new_heads(&mut sub_data);
    assert!(sub_data.has_user(heads.user_id));
    assert!(matches!(
        heads.subscribed(false, &mut sub_data),
        HeadStep::Retry
    ));
    assert!(matches!(
        heads.subscribed(true, &mut sub_data),
        HeadStep::Retry
    ));
    assert!(matches!(heads.retried(true), HeadStep::Subscribe));
    assert!(matches!(heads.retried(false), HeadStep::Stop));
    assert!(matches!(
        heads.reconnected(true, &sub_data),
        HeadStep::Wait
    ));
    sub_data.register_subscription(&send_newheads_sub_message(), "heads".to_string(), 3);
    assert!(matches!(
        heads.subscribed(true, &mut sub_data),
        HeadStep::Wait
    ));
    assert_eq!(
        sub_data.get_users_for_subscription("heads"),
        vec![heads.user_id]
    );

    let mut numbers = NamedBlocknumbers::defualt();
    let notification = r#"{"params":{"subscription":"heads","result":{"number":"0x2a"}}}"#;
    assert_eq!(number_of_head(&json(notification)), Some(42));
    let step = heads.received(
        Some(RequestResult::Subscription(json(notification))),
        &mut numbers,
    );
    assert!(matches!(step, HeadStep::Publish(42)));
    assert_eq!(numbers.latest, 42);
    for message in [
        RequestResult::Subscription(json("{}")),
        RequestResult::Subscription(json(r#"{"params":{"result":{"number":"?"}}}"#)),
        RequestResult::Call(json(notification)),
    ] {
        assert!(matches!(
            heads.received(Some(message), &mut numbers),
            HeadStep::Wait
        ));
        assert_eq!(numbers.latest, 42);
    }
    assert!(matches!(
        heads.received(None, &mut numbers),
        HeadStep::Stop
    ));
    assert!(matches!(
        heads.timed_out(&mut numbers),
        HeadStep::Reconnect
    ));
    assert_eq!(numbers.latest, 0);
    let logs = json(r#"{"params":["logs"]}"#);
    sub_data.register_subscription(&logs, "logs".to_string(), 2);
    assert!(matches!(
        heads.reconnected(true, &sub_data),
        HeadStep::Move(3)
    ));
    assert!(matches!(
        heads.reconnected(false, &sub_data),
        HeadStep::Stop
    ));
}
