use rpsee::balancer::processing::CacheArgs;
use rpsee::json::{parse, Json};
use rpsee::rpc::endpoint::Endpoint;
use rpsee::rpc::method::EthRpcMethod;
use rpsee::rpc::latency::Latency;
use rpsee::rpc::types::Rpc;
use rpsee::websocket::client::{
    call_response, calls, execute_ws_call, execute_ws_request, listen_for_response, notified,
    CallOutcome, RequestIds, WsStep, FIRST_REQUEST_ID,
};
use rpsee::websocket::connections::{
    candidates, destination, has_sender, is_listed, open_routes, settle_ws_connections,
    undelivered, update_ws_connections, write_back, Link, Upstream, UpstreamAction, UpstreamFrame,
    WsConnection,
};
use rpsee::websocket::error::WsError;
use rpsee::websocket::server::{ClientFrame, ReadStep, Session, WriteStep};
use rpsee::websocket::types::{
    Dispatch, IncomingResponse, RequestResult, SubscriptionData, WsChannelErr, WsconnMessage,
};
use std::collections::HashMap;

fn json(text: &str) -> Json {
    parse(text).unwrap()
}

fn mock_rpc(url: &str) -> Rpc {
    Rpc::new(
        Endpoint::parse(&format!("http://{url}")).unwrap(),
        Endpoint::parse(&format!("ws://{url}")),
        10000,
        1,
        10,
    )
}

fn slot(rpc: &Rpc, sender: Link) -> WsConnection {
    WsConnection {
        rpc: rpc.clone(),
        sender,
    }
}

struct Balancer {
    sub_data: SubscriptionData,
    args: CacheArgs,
    ids: RequestIds,
    cache: HashMap<Vec<u8>, Vec<u8>>,
    sent: Vec<Json>,
}

impl Balancer {
    fn new() -> Self {
        Balancer {
            sub_data: SubscriptionData::new(),
            args: CacheArgs::default(),
            ids: RequestIds::new(FIRST_REQUEST_ID),
            cache: HashMap::new(),
            sent: Vec::new(),
        }
    }

    fn call(
        &mut self,
        call: Json,
        user_id: u32,
        upstream: &dyn Fn(&Json) -> Option<Json>,
    ) -> CallOutcome {
        let mut step = execute_ws_call(
            call,
            user_id,
            &mut self.sub_data,
            &self.args.named_numbers,
            self.args.algorithm,
        );
        loop {
            step = match step {
                WsStep::Reply(reply, write) => {
                    if let Some(write) = write {
                        self.cache.insert(write.key, write.value);
                    }
                    return CallOutcome::Answered(reply);
                }
                WsStep::Fail(error) => return CallOutcome::Failed(error),
                WsStep::Notify(message) => {
                    self.sent.push(message);
                    notified(true)
                }
                WsStep::ReadCache(call) => {
                    let cached = self.cache.get(call.key().as_slice()).cloned();
                    call.cache_read(cached, &mut self.sub_data, &mut self.ids)
                }
                WsStep::Send(call) => {
                    self.sent.push(call.request().clone());
                    let answer = match upstream(call.request()) {
                        Some(content) => IncomingResponse {
                            content,
                            node_id: 0,
                        },
                        None => return CallOutcome::TimedOut,
                    };
                    assert!(call.is_answer(&answer));
                    call.received(answer, &mut self.sub_data, &mut self.args)
                }
            };
        }
    }

    fn reply(
        &mut self,
        call: Json,
        user_id: u32,
        upstream: &dyn Fn(&Json) -> Option<Json>,
    ) -> String {
        match self.call(call, user_id, upstream) {
            CallOutcome::Answered(reply) => reply,
            _ => panic!("a reply was expected"),
        }
    }

    fn request(&mut self, request: Json, upstream: &dyn Fn(&Json) -> Option<Json>) -> Option<String> {
        let outcomes = calls(request.clone())
            .into_iter()
            .map(|call| self.call(call, 1, upstream))
            .collect();
        execute_ws_request(&request, outcomes)
    }
}

fn answer(request: &Json, result: Json) -> Option<Json> {
    Some(
        json(r#"{"jsonrpc":"2.0"}"#)
            .put("id", request.member("id"))
            .put("result", result),
    )
}

#[test]
fn test_handle_incoming_message() {
    let rpc_list = vec![mock_rpc("test1"), mock_rpc("test2")];
    let ws_handles = vec![slot(&rpc_list[0], Link::Open)];
    let incoming = json(r#"{"type": "test"}"#);
    let target = destination(Some(0), &vec![], None);
    assert_eq!(target, Some(0));
    assert!(has_sender(&ws_handles, target));
    let connection = Upstream {
        rpc: rpc_list[0].clone(),
        index: 0,
    };
    match connection.outgoing(Some(incoming.clone())) {
        UpstreamAction::Send(text) => assert_eq!(text, incoming.to_text()),
        _ => panic!("the message is sent"),
    }
}

#[test]
fn test_ws_conn_handling_error() {
    let rpc_list = vec![mock_rpc("node1.example.com"), mock_rpc("node2.example.com")];
    let invalid_message = json(r#"{"invalid": "message"}"#);
    match WsconnMessage::Message(invalid_message, None) {
        WsconnMessage::Message(message, specified) => {
            let routes = open_routes(&rpc_list, &vec![]);
            let target = destination(specified, &routes, None);
            assert!(!has_sender(&vec![], target));
            assert!(undelivered(&message, target).content.member("id").is_null());
        }
        WsconnMessage::Reconnect() => panic!("a message was expected"),
    }
}

#[test]
fn test_execute_ws_subscription_and_call() {
    let mut balancer = Balancer::new();
    for method in [EthRpcMethod::Subscribe, EthRpcMethod::BlockNumber] {
        let call = json(r#"{"jsonrpc":"2.0", "id":1, "params":["newHeads"]}"#)
            .put("method", Json::text(method.as_str()));
        let result = balancer.reply(call, 1, &|request| {
            answer(request, Json::text("0x1a2b3c"))
        });
        assert_eq!(
            result,
            "{\"id\":1,\"jsonrpc\":\"2.0\",\"result\":\"0x1a2b3c\"}"
        );
    }
    assert_eq!(balancer.sent.len(), 2);
    assert_eq!(
        balancer.sub_data.get_users_for_subscription("0x1a2b3c"),
        vec![1]
    );
}

#[test]
fn batch_timeout_does_not_misroute_a_late_response() {
    let mut balancer = Balancer::new();
    let batch = json(
        r#"[
            {"jsonrpc":"2.0", "id":"first", "method":"eth_chainId"},
            {"jsonrpc":"2.0", "id":"second", "method":"eth_chainId"}
        ]"#,
    );
    let response = balancer
        .request(batch, &|request| {
            let id = request.member("id").as_u64().unwrap();
            if id == FIRST_REQUEST_ID {
                return None;
            }
            let late = IncomingResponse {
                node_id: 0,
                content: json(r#"{"jsonrpc":"2.0", "result":"late"}"#)
                    .put("id", Json::unsigned(FIRST_REQUEST_ID)),
            };
            assert!(!listen_for_response(id, &late));
            answer(request, Json::text("current"))
        })
        .unwrap();
    assert_ne!(
        balancer.sent[0].member("id").to_text(),
        balancer.sent[1].member("id").to_text()
    );
    let response = json(&response);
    let first = response.at(0).unwrap();
    let second = response.at(1).unwrap();
    assert_eq!(first.member("id").as_str(), Some("first"));
    assert_eq!(first.member("error").member("code").to_text(), "-32001");
    assert_eq!(second.member("id").as_str(), Some("second"));
    assert_eq!(second.member("result").as_str(), Some("current"));
}

#[test]
fn invalid_ws_requests_return_errors_without_dispatch() {
    let mut balancer = Balancer::new();
    for call in [
        json("[]"),
        json("null"),
        json("false"),
        json("{}"),
        json(r#"{"jsonrpc":"2.0","id":"original","method":false}"#),
    ] {
        let response = balancer.reply(call.clone(), 1, &|_| None);
        let response = json(&response);
        assert_eq!(response.member("error").member("code").to_text(), "-32600");
        assert_eq!(response.member("id").to_text(), call.member("id").to_text());
        assert!(balancer.sent.is_empty());
    }
}

#[test]
fn cached_ws_calls_follow_head_and_preserve_ids() {
    let mut balancer = Balancer::new();
    for (id, head, expected_calls) in [
        (Json::text("first"), 16, 1),
        (Json::integer(-7), 16, 1),
        (Json::text("third"), 17, 2),
    ] {
        balancer.args.named_numbers.latest = head;
        let call = json(
            r#"{"jsonrpc": "2.0", "method": "eth_getBalance", "params": ["0x1", "latest"]}"#,
        )
        .put("id", id.clone());
        let response = balancer.reply(call, 1, &|request| {
            answer(request, request.member("params").at(1).unwrap().clone())
        });
        let response = json(&response);
        assert_eq!(response.member("id").to_text(), id.to_text());
        assert_eq!(
            response.member("result").as_str(),
            Some(format!("0x{head:x}").as_str())
        );
        assert_eq!(balancer.sent.len(), expected_calls);
    }
}

#[test]
fn test_listen_for_response() {
    let content = r#"{"jsonrpc": "2.0", "id": 1, "result": "0x1a2b3c"}"#;
    let response = IncomingResponse {
        content: json(content),
        node_id: 0,
    };
    assert!(listen_for_response(1, &response));
    assert_eq!(response.content.to_text(), json(content).to_text());
    assert!(!listen_for_response(2, &response));
    for other in ["{}", r#"{"id":"1"}"#, r#"{"id":-1}"#, "[]"] {
        let response = IncomingResponse {
            content: json(other),
            node_id: 0,
        };
        assert!(!listen_for_response(1, &response));
    }
}

#[test]
fn stalled_handshake_is_cancelled_and_socket_is_closed() {
    let rpcs = vec![mock_rpc("127.0.0.1:8545")];
    let mut handles = Vec::new();
    let plan = update_ws_connections(&rpcs, &mut handles);
    assert_eq!(plan.reconnect.len(), 1);
    let attempts = plan
        .reconnect
        .into_iter()
        .map(|(index, rpc)| (index, rpc, false))
        .collect();
    settle_ws_connections(&rpcs, &mut handles, &attempts);
    assert!(handles[0].sender == Link::Absent);
}

#[test]
fn replacing_sender_closes_socket_after_ping_and_response() {
    let rpcs = vec![mock_rpc("127.0.0.1:8545")];
    let mut handles = Vec::new();
    let plan = update_ws_connections(&rpcs, &mut handles);
    let attempts = plan
        .reconnect
        .into_iter()
        .map(|(index, rpc)| (index, rpc, true))
        .collect();
    settle_ws_connections(&rpcs, &mut handles, &attempts);
    assert!(handles[0].sender != Link::Absent);
    let connection = Upstream {
        rpc: rpcs[0].clone(),
        index: 0,
    };
    assert_eq!(connection.url(), Some("ws://127.0.0.1:8545/"));
    match connection.frame(UpstreamFrame::Ping(vec![1])) {
        UpstreamAction::Pong(payload) => assert_eq!(payload, vec![1]),
        _ => panic!("a ping is answered"),
    }
    let text = br#"{"jsonrpc": "2.0", "id": 7, "result": true}"#.to_vec();
    match connection.frame(UpstreamFrame::Text(text)) {
        UpstreamAction::Publish(response) => {
            assert_eq!(response.content.member("id").as_u64(), Some(7));
            assert_eq!(response.node_id, 0);
        }
        _ => panic!("the answer is passed on"),
    }
    assert!(matches!(connection.outgoing(None), UpstreamAction::Stop));
}

#[test]
fn only_lost_links_are_renewed() {
    let mut handles = Vec::new();
    let all: Vec<Rpc> = ["open", "lost", "gone", "late"].map(mock_rpc).into();
    update_ws_connections(&all, &mut handles);
    handles[0].sender = Link::Open;
    handles[1].sender = Link::Closed;
    handles[2].sender = Link::Open;
    handles[3].sender = Link::Closed;
    let rpcs = vec![
        all[1].clone(),
        all[0].clone(),
        all[3].clone(),
        mock_rpc("new"),
    ];
    let plan = update_ws_connections(&rpcs, &mut handles);
    let slots: Vec<usize> = plan.reconnect.iter().map(|(slot, _)| *slot).collect();
    assert_eq!(slots, vec![1, 3, 4]);
    let attempts = plan
        .reconnect
        .into_iter()
        .map(|(slot, rpc)| (slot, rpc, slot != 3))
        .collect();
    settle_ws_connections(&rpcs, &mut handles, &attempts);
    let links: Vec<bool> = handles.iter().map(|slot| slot.sender == Link::Open).collect();
    assert_eq!(links, vec![true, true, false, false, true]);
    assert!(handles[2].sender == Link::Absent);
    assert!(handles[3].sender == Link::Absent);
    for (handle, rpc) in handles.iter().zip(&all) {
        assert!(handle.rpc.same_endpoint(rpc));
    }
}

#[test]
fn reconnect_preserves_healthy_subscription_and_stable_slot() {
    let failed = mock_rpc("127.0.0.1:8545");
    let healthy = mock_rpc("127.0.0.1:8546");
    let mut rpcs = vec![failed.clone(), healthy.clone()];
    let mut handles = Vec::new();
    let plan = update_ws_connections(&rpcs, &mut handles);
    let attempts = plan
        .reconnect
        .into_iter()
        .map(|(index, rpc)| (index, rpc, true))
        .collect();
    settle_ws_connections(&rpcs, &mut handles, &attempts);
    let request =
        json(r#"{"jsonrpc":"2.0", "id":7, "method":"eth_subscribe", "params":["newHeads"]}"#);
    let target = destination(Some(1), &open_routes(&rpcs, &handles), None);
    assert_eq!(target, Some(1));
    assert!(has_sender(&handles, target));
    let connection = Upstream {
        rpc: healthy.clone(),
        index: 1,
    };
    let answer = answer(&request, Json::text("healthy-sub")).unwrap();
    let subscribed = match connection.frame(UpstreamFrame::Text(answer.to_text().into_bytes())) {
        UpstreamAction::Publish(response) => response,
        _ => panic!("the answer is passed on"),
    };
    assert_eq!(subscribed.node_id, 1);
    assert_eq!(
        subscribed.content.member("result").as_str(),
        Some("healthy-sub")
    );
    let mut subscriptions = SubscriptionData::new();
    subscriptions.add_user(1);
    subscriptions.register_subscription(&request, "healthy-sub".to_owned(), 1);
    assert!(subscriptions.subscribe_user(1, &request).is_ok());

    rpcs.remove(0);
    let plan = update_ws_connections(&rpcs, &mut handles);
    assert_eq!(plan.closed.len(), 1);
    assert_eq!(plan.closed[0].0, 0);
    assert!(plan.closed[0].1.same_endpoint(&failed));
    assert!(plan.reconnect.is_empty());
    assert!(handles[0].sender == Link::Absent);
    assert!(handles[1].sender == Link::Open);
    assert!(handles[1].rpc.same_endpoint(&healthy));
    let routes = open_routes(&rpcs, &handles);
    assert_eq!(routes, vec![(0, 1)]);
    assert_eq!(destination(None, &routes, Some(0)), Some(1));
    let notification = json(
        r#"{"jsonrpc":"2.0", "method":"eth_subscription", "params":{"subscription":"healthy-sub", "result":"after-reconnect"}}"#,
    );
    let frame = UpstreamFrame::Binary(notification.to_text().into_bytes());
    let notification = match connection.frame(frame) {
        UpstreamAction::Publish(response) => response,
        _ => panic!("the notification is passed on"),
    };
    assert_eq!(notification.node_id, 1);
    let dispatched = subscriptions.dispatch_to_subscribers(
        "healthy-sub",
        notification.node_id,
        &RequestResult::Subscription(notification.content),
    );
    match dispatched {
        Ok(Dispatch::Deliver { message, users, .. }) => {
            assert_eq!(users, vec![1]);
            let params = message.member("params");
            assert_eq!(params.member("subscription").as_str(), Some("healthy-sub"));
            assert_eq!(params.member("result").as_str(), Some("after-reconnect"));
        }
        _ => panic!("the notification goes to the user"),
    }
}

#[test]
fn unavailable_upstream_returns_error_without_buffering_subscriptions() {
    let rpcs = Vec::new();
    let handles = Vec::new();
    let request = json(
        r#"{"jsonrpc": "2.0", "id": 7, "method": "eth_subscribe", "params": ["newHeads"]}"#,
    );
    let target = destination(None, &open_routes(&rpcs, &handles), None);
    assert!(!has_sender(&handles, target));
    let response = undelivered(&request, target);
    assert_eq!(response.node_id, usize::MAX);
    assert_eq!(response.content.member("id").as_u64(), Some(7));
    assert_eq!(
        response.content.member("error").member("code").to_text(),
        "-32000"
    );
}

#[test]
fn requests_skip_endpoints_without_live_websockets() {
    let node = |url: &str| Rpc::new(Endpoint::parse(url).unwrap(), None, 1, 0, 1);
    let failed = node("http://localhost/failed");
    let healthy = node("http://localhost/healthy");
    let mut rpcs = vec![failed.clone(), healthy.clone()];
    let mut handles = vec![slot(&failed, Link::Absent), slot(&healthy, Link::Open)];
    let request = json(r#"{"jsonrpc":"2.0", "id":7, "method":"eth_blockNumber"}"#);
    let routes = open_routes(&rpcs, &handles);
    assert_eq!(routes, vec![(1, 1)]);
    let mut picked = candidates(&rpcs, &routes);
    assert_eq!(picked.len(), 1);
    assert!(picked[0].same_endpoint(&healthy));
    picked[0].consecutive = 5;
    write_back(&mut rpcs, &routes, &picked);
    assert_eq!((rpcs[0].consecutive, rpcs[1].consecutive), (0, 5));
    let target = destination(None, &routes, Some(0));
    assert!(has_sender(&handles, target));
    assert_eq!(rpcs.len(), 2);
    handles[1].sender = Link::Closed;
    let routes = open_routes(&rpcs, &handles);
    assert!(routes.is_empty());
    let target = destination(None, &routes, None);
    assert!(!has_sender(&handles, target));
    assert_eq!(
        undelivered(&request, target)
            .content
            .member("error")
            .member("code")
            .to_text(),
        "-32000"
    );
}

#[test]
fn slots_of_closed_links_are_connected_again() {
    let rpcs = vec![mock_rpc("a"), mock_rpc("b"), mock_rpc("a")];
    let mut handles = vec![
        slot(&mock_rpc("c"), Link::Closed),
        slot(&rpcs[0], Link::Closed),
    ];
    assert!(has_sender(&handles, Some(1)));
    assert!(!has_sender(&handles, Some(2)));
    let plan = update_ws_connections(&rpcs, &mut handles);
    assert!(plan.closed.is_empty());
    let slots: Vec<usize> = plan.reconnect.iter().map(|(slot, _)| *slot).collect();
    assert_eq!(slots, vec![1, 2, 1]);
    assert_eq!(handles.len(), 3);
    assert!(handles[0].sender == Link::Absent);
    let attempts = vec![(0, mock_rpc("c"), true), (2, mock_rpc("b"), true)];
    settle_ws_connections(&rpcs, &mut handles, &attempts);
    assert!(handles[0].sender == Link::Absent);
    assert!(handles[2].sender == Link::Open);
    assert!(is_listed(&rpcs, &mock_rpc("b")));
    assert!(!is_listed(&rpcs, &mock_rpc("c")));
}

#[test]
fn connections_end_with_a_report_where_they_break() {
    let connection = Upstream {
        rpc: mock_rpc("a"),
        index: 4,
    };
    for action in [
        connection.sent(false),
        connection.frame(UpstreamFrame::Ended),
    ] {
        match action {
            UpstreamAction::Close(WsChannelErr::Closed(slot, rpc)) => {
                assert_eq!(slot, 4);
                assert!(rpc.same_endpoint(&mock_rpc("a")));
            }
            _ => panic!("the connection ends"),
        }
    }
    for action in [
        connection.sent(true),
        connection.frame(UpstreamFrame::Pong),
        connection.frame(UpstreamFrame::Text(b"{".to_vec())),
        connection.publish(None),
    ] {
        assert!(matches!(action, UpstreamAction::Wait));
    }
    let silent = Upstream {
        rpc: Rpc::default(),
        index: 0,
    };
    assert!(silent.url().is_none());
}

#[test]
fn latencies_are_recorded_for_the_first_node_at_the_address() {
    let connection = Upstream {
        rpc: mock_rpc("b"),
        index: 0,
    };
    let mut rpcs = vec![mock_rpc("a"), mock_rpc("b"), mock_rpc("b")];
    connection.record_latency(&mut rpcs, 8);
    let latencies: Vec<Latency> = rpcs.iter().map(|rpc| rpc.latency()).collect();
    assert_eq!(latencies, [0, 8, 0].map(Latency::of));
}

#[test]
fn websocket_batches_return_one_frame_and_suppress_notifications() {
    let mut balancer = Balancer::new();
    let session = Session::serve_websocket(1, &mut balancer.sub_data);
    assert!(balancer.sub_data.has_user(1));
    let upstream = |request: &Json| answer(request, request.member("params"));
    let mut frame = |text: &str| -> Option<String> {
        let entry = match session.read(ClientFrame::Text(text.to_string())) {
            ReadStep::Queue(entry) => entry,
            _ => panic!("a text is queued"),
        };
        match session.write(entry) {
            WriteStep::Execute(request) => balancer.request(request, &upstream),
            WriteStep::Send(text) => Some(text),
        }
    };
    let batch = r#"[
        {"jsonrpc":"2.0", "id":"one", "method":"eth_chainId", "params":[1]},
        {"jsonrpc":"2.0", "method":"notify", "params":[]},
        false,
        {"jsonrpc":"2.0", "id":null, "method":"eth_chainId", "params":[2]},
        {"jsonrpc":"2.0", "id":-2, "method":"eth_chainId", "params":[3]}
    ]"#;
    let responses = json(&frame(batch).unwrap());
    let responses = responses.as_array().unwrap();
    assert_eq!(responses.len(), 4);
    assert_eq!(responses[0].member("id").as_str(), Some("one"));
    assert_eq!(responses[0].member("result").to_text(), "[1]");
    assert_eq!(
        responses[1].member("error").member("code").to_text(),
        "-32600"
    );
    assert!(responses[2].member("id").is_null());
    assert_eq!(responses[2].member("result").to_text(), "[2]");
    assert_eq!(responses[3].member("id").to_text(), "-2");
    for (payload, code) in [("[]", -32600), ("{", -32700)] {
        let error = json(&frame(payload).unwrap());
        assert_eq!(
            error.member("error").member("code").to_text(),
            code.to_string()
        );
    }
    assert!(frame(
        r#"[{"jsonrpc":"2.0","method":"notify"},{"jsonrpc":"2.0","method":"notify"}]"#
    )
    .is_none());
    assert!(frame(r#"{"jsonrpc":"2.0","method":"notify"}"#).is_none());
    let response =
        frame(r#"{"jsonrpc":"2.0","id":"barrier","method":"eth_chainId","params":[]}"#).unwrap();
    assert_eq!(json(&response).member("id").as_str(), Some("barrier"));
    let notifications = balancer
        .sent
        .iter()
        .filter(|request| request.get("id").is_none())
        .count();
    assert_eq!(notifications, 4);
    session.finish(&mut balancer.sub_data);
    assert!(!balancer.sub_data.has_user(1));
}

#[test]
fn sessions_end_with_their_users() {
    let mut data = SubscriptionData::new();
    let session = Session::serve_websocket(9, &mut data);
    assert!(matches!(
        session.read(ClientFrame::Close),
        ReadStep::Finish(Ok(()))
    ));
    assert!(matches!(session.read(ClientFrame::Other), ReadStep::Skip));
    match session.read(ClientFrame::Failed("broken".to_string())) {
        ReadStep::Finish(Err(error)) => assert_eq!(error.message(), "Reception failed: broken"),
        _ => panic!("the session ends"),
    }
    let request = json(r#"{"params":["newHeads"]}"#);
    data.register_subscription(&request, "id".to_string(), 1);
    assert!(data.subscribe_user(9, &request).is_ok());
    match session.send_failed(false, "broken".to_string(), &mut data) {
        Err(error) => assert_eq!(error.message(), "Sending failed: broken"),
        Ok(()) => panic!("a notification got lost"),
    }
    assert!(!data.has_user(9));
    assert!(data.get_users_for_subscription("id").is_empty());
    assert!(session
        .send_failed(true, "broken".to_string(), &mut data)
        .is_ok());
}

#[test]
fn ends_of_subscriptions_are_answered() {
    let mut balancer = Balancer::new();
    let subscribe = r#"{"jsonrpc":"2.0","id":1,"method":"eth_subscribe","params":["newHeads"]}"#;
    let upstream = |request: &Json| answer(request, Json::text("0xa"));
    balancer.reply(json(subscribe), 1, &upstream);
    assert_eq!(
        balancer.reply(json(subscribe).put("id", Json::text("x")), 2, &|_| None),
        r#"{"jsonrpc":"2.0","id":"x","result":"0xa"}"#
    );
    assert_eq!(balancer.sent.len(), 1);
    let end = r#"{"jsonrpc":"2.0","id":5,"method":"eth_unsubscribe"}"#;
    assert_eq!(
        balancer.reply(json(end), 1, &|_| None),
        r#"{"jsonrpc":"2.0", "id":5, "error": "Bad Subscription ID!"}"#
    );
    assert_eq!(
        balancer.reply(json(end).put("params", json(r#"["0xb"]"#)), 1, &|_| None),
        r#"{"jsonrpc":"2.0", "id":5, "error": "false"}"#
    );
    assert_eq!(
        balancer.reply(json(end).put("params", json(r#"["0xa"]"#)), 1, &|_| None),
        r#"{"jsonrpc":"2.0","id":5,"result":true}"#
    );
    assert_eq!(balancer.sub_data.get_users_for_subscription("0xa"), vec![2]);
    let silent = r#"{"jsonrpc":"2.0","method":"eth_unsubscribe","params":["0xa"]}"#;
    assert_eq!(balancer.reply(json(silent), 2, &|_| None), "");
    assert!(balancer
        .sub_data
        .get_users_for_subscription("0xa")
        .is_empty());
}

#[test]
fn subscriptions_that_a_node_refuses_are_not_registered() {
    let mut balancer = Balancer::new();
    let subscribe = r#"{"jsonrpc":"2.0","id":1,"method":"eth_subscribe","params":["newHeads"]}"#;
    let reply = balancer.reply(json(subscribe), 1, &|request| answer(request, Json::Null));
    assert_eq!(
        reply,
        r#""jsonrpc":"2.0", "id":1, "error": "Bad Subscription ID!""#
    );
    assert!(balancer.sub_data.get_sub_id_by_node(0).is_empty());
    let empty = json(subscribe).put("params", json("[]"));
    assert!(matches!(
        balancer.call(empty, 1, &|request| answer(request, Json::text("0xa"))),
        CallOutcome::Failed(WsError::FailedParsing())
    ));
}

#[test]
fn failures_are_answered_under_the_id_of_the_call() {
    let call = json(r#"{"jsonrpc":"2.0","id":"x","method":"m"}"#);
    let text = |outcome: CallOutcome, parsed| {
        call_response(&call, &outcome, parsed).unwrap().to_text()
    };
    assert_eq!(
        text(CallOutcome::Answered(String::new()), None),
        r#"{"error":{"code":-32603,"message":"Invalid upstream response"},"id":"x","jsonrpc":"2.0"}"#
    );
    assert_eq!(
        text(CallOutcome::Answered("1".to_string()), Some(json("1"))),
        "1"
    );
    assert_eq!(
        text(CallOutcome::Failed(WsError::NoWsResponse), None),
        r#"{"error":{"code":-32603,"message":"No response over WebSocket"},"id":"x","jsonrpc":"2.0"}"#
    );
    assert_eq!(
        text(CallOutcome::TimedOut, None),
        r#"{"error":{"code":-32001,"message":"Request timed out"},"id":"x","jsonrpc":"2.0"}"#
    );
    assert!(matches!(
        notified(false),
        WsStep::Fail(WsError::ChannelClosed())
    ));
}

#[test]
fn requests_that_get_no_answer_fail() {
    for sent in [true, false] {
        let mut balancer = Balancer::new();
        let step = execute_ws_call(
            json(r#"{"jsonrpc":"2.0","id":1,"method":"eth_chainId"}"#),
            1,
            &mut balancer.sub_data,
            &balancer.args.named_numbers,
            balancer.args.algorithm,
        );
        let call = match step {
            WsStep::ReadCache(call) => call,
            _ => panic!("the cache is read first"),
        };
        let call = match call.not_cached(&mut balancer.sub_data, &mut balancer.ids) {
            WsStep::Send(call) => call,
            _ => panic!("the call is sent"),
        };
        match call.unanswered(sent) {
            WsStep::Fail(WsError::NoWsResponse) => assert!(sent),
            WsStep::Fail(WsError::ChannelClosed()) => assert!(!sent),
            _ => panic!("the call fails"),
        }
    }
}

#[test]
fn ids_of_requests_differ() {
    let mut ids = RequestIds::new(u64::MAX - 1);
    assert_eq!(ids.take(), u64::MAX - 1);
    assert_eq!(ids.take(), u64::MAX);
    assert_eq!(ids.take(), 0);
    assert_eq!(FIRST_REQUEST_ID, u32::MAX as u64 + 1);
}

#[test]
fn errors_say_what_went_wrong() {
    for (error, text) in [
        (WsError::ChannelClosed(), "WebSocket channel closed"),
        (WsError::ReceiverLagged(), "WebSocket receiver lagged behind"),
        (WsError::FailedParsing(), "Failed to parse WebSocket message"),
        (WsError::MissingSubscription(), "Missing subscription"),
    ] {
        assert_eq!(error.message(), text);
    }
}
