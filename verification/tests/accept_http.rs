use rpsee::balancer::accept_http::{
    accept_request, batch_reply, check_header, forward_body, forward_call, plan_body, response,
    upgrade_failed, upstream_reply, Admission, BatchRun, BatchStep, BodyPlan, CacheRead,
    ForwardStep, Reply, RequestParams, Sent, MAX_CONCURRENT_CALLS,
};
use rpsee::balancer::processing::CacheArgs;
use rpsee::balancer::response_errors::HttpReply;
use rpsee::config::settings::{deadline, AdminSettings, Settings};
use rpsee::json::{parse, Json};
use rpsee::rpc::endpoint::Endpoint;
use rpsee::rpc::latency::Latency;
use rpsee::rpc::types::Rpc;
use std::cell::Cell;
use std::collections::{HashMap, VecDeque};

fn json(text: &str) -> Json {
    parse(text).unwrap()
}

fn params(max_retries: u32) -> RequestParams {
    RequestParams {
        ttl: 1000,
        max_retries,
        header_check: true,
    }
}

fn settings() -> Settings {
    Settings {
        address: "127.0.0.1:3000".to_string(),
        do_clear: false,
        health_check: true,
        admin: AdminSettings {
            enabled: true,
            readonly: false,
            jwt: false,
            key: b"some-key".to_vec(),
        },
        ttl: 1000,
        health_check_ttl: 2000,
        is_ws: true,
        max_retries: 32,
        header_check: true,
        supress_rpc_check: true,
    }
}

struct Proxy {
    cache: HashMap<Vec<u8>, Vec<u8>>,
    args: CacheArgs,
    rpcs: Vec<Rpc>,
    params: RequestParams,
    sent: usize,
}

impl Proxy {
    fn new(max_retries: u32) -> Self {
        let url = Endpoint::parse("http://127.0.0.1:1").unwrap();
        Proxy {
            cache: HashMap::new(),
            args: CacheArgs::default(),
            rpcs: vec![Rpc::new(url, None, 1, 0, 1)],
            params: params(max_retries),
            sent: 0,
        }
    }

    fn call(&mut self, request: Json, upstream: &dyn Fn(&Json) -> Sent) -> Reply {
        let mut step = forward_call(
            request,
            &self.args.named_numbers,
            self.args.algorithm,
            self.params,
        );
        loop {
            step = match step {
                ForwardStep::Finish(reply, write) => {
                    if let Some(write) = write {
                        self.cache.insert(write.key, write.value);
                    }
                    return reply;
                }
                ForwardStep::ReadCache(call) => {
                    let read = match self.cache.get(call.key().as_slice()) {
                        Some(bytes) => CacheRead::Found(bytes.clone()),
                        None => CacheRead::Missing,
                    };
                    call.cache_read(read)
                }
                ForwardStep::Pick(call) => {
                    let position = if self.rpcs.is_empty() { None } else { Some(0) };
                    call.picked(position)
                }
                ForwardStep::Send(call, millis) => {
                    assert_eq!(millis, 1000);
                    self.sent += 1;
                    let sent = upstream(call.request());
                    call.sent(&mut self.rpcs, 0, 5, sent, &mut self.args)
                }
            };
        }
    }
}

/// Runs a batch; gives the reply, and how many calls were under way at most.
fn run(
    proxy: &mut Proxy,
    calls: Vec<Json>,
    upstream: &dyn Fn(&Json) -> Sent,
) -> (HttpReply, usize) {
    let mut batch = BatchRun::new(calls);
    let mut active = VecDeque::new();
    let mut peak = 0;
    loop {
        match batch.step() {
            BatchStep::Start(call) => {
                active.push_back(call);
                peak = peak.max(active.len());
            }
            BatchStep::Await => {
                let call = active.pop_front().unwrap();
                batch.finished(proxy.call(call, upstream));
            }
            BatchStep::Finish(reply) => return (reply, peak),
        }
    }
}

fn text_of(value: Option<Json>) -> String {
    value.unwrap().to_text()
}

#[test]
fn cached_http_calls_preserve_ids_and_follow_head() {
    let mut proxy = Proxy::new(0);
    proxy.args.named_numbers.latest = 16;
    let upstream = |request: &Json| {
        let place = if request.member("method").as_str() == Some("eth_getBlockByNumber") {
            0
        } else {
            1
        };
        let block = request.member("params").at(place).unwrap().as_str().unwrap().to_string();
        let answer = json(r#"{"jsonrpc": "2.0"}"#)
            .put("id", request.member("id"))
            .put("result", Json::Text(format!("{block}:\n\"quoted\"")));
        Sent::Answered(answer.to_text())
    };
    for (case, (method, tag)) in [
        ("eth_getBalance", "latest"),
        ("eth_getBlockByNumber", "latest"),
        ("eth_getBlockByNumber", "finalized"),
    ]
    .into_iter()
    .enumerate()
    {
        for (id, head, expected_calls) in [
            (Json::text("first"), 16, 1),
            (Json::integer(-7), 16, 1),
            (Json::text("third"), 17, 2),
        ] {
            let head = head + case as u64 * 10;
            proxy.args.named_numbers.latest = head;
            proxy.args.named_numbers.finalized = head;
            let params = if method == "eth_getBlockByNumber" {
                Json::array(vec![Json::text(tag), Json::Bool(false)])
            } else {
                Json::array(vec![Json::text("0x1"), Json::text(tag)])
            };
            let request = json(r#"{"jsonrpc": "2.0"}"#)
                .put("id", id.clone())
                .put("method", Json::text(method))
                .put("params", params);
            let reply = proxy.call(request, &upstream);
            assert_eq!(reply.status, 200);
            let response = reply.value.unwrap();
            assert_eq!(response.member("id").to_text(), id.to_text());
            assert_eq!(
                response.member("result").as_str(),
                Some(format!("0x{head:x}:\n\"quoted\"").as_str())
            );
            assert_eq!(proxy.sent, case * 2 + expected_calls);
        }
    }
}

#[test]
fn http_batches_preserve_requests_omit_notifications_and_bound_concurrency() {
    let mut proxy = Proxy::new(0);
    let mut batch = vec![
        json(r#"{"jsonrpc":"2.0", "id":"estimate", "method":"eth_estimateGas", "params":[{"data":"0x1234"}]}"#),
        json(r#"{"jsonrpc":"2.0", "id":-7, "method":"eth_sendRawTransaction", "params":["0x1234"]}"#),
        json(r#"{"jsonrpc":"2.0", "id":null, "method":"eth_chainId", "params":[]}"#),
        json(r#"{"jsonrpc":"2.0", "method":"notify", "params":[]}"#),
        json("5"),
        json("[]"),
    ];
    batch.extend((0..32).map(|id| {
        json(&format!(
            r#"{{"jsonrpc":"2.0", "id":{id}, "method":"eth_chainId", "params":[{id}]}}"#
        ))
    }));
    let notifications = Cell::new(0);
    let upstream = |request: &Json| {
        if request.get("id").is_none() {
            notifications.set(notifications.get() + 1);
            return Sent::Answered(String::new());
        }
        let answer = json(r#"{"jsonrpc":"2.0"}"#)
            .put("id", request.member("id"))
            .put("result", request.member("params"));
        Sent::Answered(answer.to_text())
    };
    let body = Json::array(batch.clone()).to_text().into_bytes();
    let calls = match forward_body(body) {
        BodyPlan::Batch(calls) => calls,
        _ => panic!("a batch was expected"),
    };
    let (reply, peak) = run(&mut proxy, calls, &upstream);
    assert_eq!(reply.status, 200);
    let result = json(&reply.body);
    let responses = result.as_array().unwrap();
    assert_eq!(responses.len(), batch.len() - 1);
    for (response, request) in responses
        .iter()
        .zip(batch.iter().filter(|request| !request.member("method").is("notify")))
    {
        if request.is_object() {
            assert_eq!(response.member("id").to_text(), request.member("id").to_text());
            assert_eq!(
                response.member("result").to_text(),
                request.member("params").to_text()
            );
        } else {
            assert_eq!(response.member("error").member("code").to_text(), "-32600");
            assert!(response.member("id").is_null());
        }
    }
    assert!((2..=16).contains(&peak));
    for payload in [
        r#"{"jsonrpc":"2.0", "method":"notify"}"#,
        r#"[{"jsonrpc":"2.0", "method":"notify"}, {"jsonrpc":"2.0", "method":"notify"}]"#,
    ] {
        let reply = match forward_body(payload.as_bytes().to_vec()) {
            BodyPlan::Batch(calls) => run(&mut proxy, calls, &upstream).0,
            BodyPlan::Single(call) => {
                let reply = proxy.call(call, &upstream);
                response(reply.status, reply.value)
            }
            BodyPlan::Refuse(_) => panic!("a notification is no error"),
        };
        assert_eq!(reply.status, 204);
        assert!(reply.body.is_empty());
    }
    assert_eq!(notifications.get(), 4);
}

#[test]
fn members_of_a_batch_start_in_order_and_not_too_many_at_a_time() {
    let mut batch = BatchRun::new((0..40u64).map(Json::unsigned).collect());
    let mut started = 0;
    let mut finished = 0;
    let reply = loop {
        match batch.step() {
            BatchStep::Start(call) => {
                assert_eq!(call.as_u64(), Some(started));
                started += 1;
            }
            BatchStep::Await => {
                let under_way = started - finished;
                assert!(under_way as usize == MAX_CONCURRENT_CALLS || started == 40);
                batch.finished(Reply {
                    status: 200,
                    value: if finished % 2 == 0 { Some(Json::unsigned(finished)) } else { None },
                });
                finished += 1;
            }
            BatchStep::Finish(reply) => break reply,
        }
    };
    assert_eq!((started, finished), (40, 40));
    let expected: Vec<Json> = (0..20u64).map(|half| Json::unsigned(2 * half)).collect();
    assert_eq!(reply.body, Json::array(expected).to_text());
    let replies = vec![
        Reply { status: 200, value: None },
        Reply { status: 200, value: Some(Json::unsigned(1)) },
    ];
    assert_eq!(batch_reply(&replies).body, "[1]");
}

#[test]
fn invalid_http_requests_return_structured_errors() {
    let mut proxy = Proxy::new(0);
    for (body, code, id) in [
        (b"{".as_slice(), -32700, "null"),
        (b"\xff".as_slice(), -32700, "null"),
        (b"[]".as_slice(), -32600, "null"),
        (b"null".as_slice(), -32600, "null"),
        (b"42".as_slice(), -32600, "null"),
        (b"{}".as_slice(), -32600, "null"),
        (
            br#"{"jsonrpc":"2.0","id":"original","method":false}"#.as_slice(),
            -32600,
            "\"original\"",
        ),
        (
            br#"{"jsonrpc":"2.0","id":true,"method":"eth_blockNumber"}"#.as_slice(),
            -32600,
            "null",
        ),
    ] {
        assert!(check_header(true, Some("application/json")).is_none());
        let reply = match forward_body(body.to_vec()) {
            BodyPlan::Refuse(reply) => reply,
            BodyPlan::Single(call) => {
                let reply = proxy.call(call, &|_| Sent::Failed);
                response(reply.status, reply.value)
            }
            BodyPlan::Batch(_) => panic!("no batch was sent"),
        };
        assert_eq!(reply.status, 400);
        let error = json(&reply.body);
        assert_eq!(error.member("jsonrpc").as_str(), Some("2.0"));
        assert_eq!(
            error.member("error").member("code").to_text(),
            code.to_string()
        );
        assert_eq!(error.member("id").to_text(), id);
        assert!(error.get("result").is_none());
    }
    assert_eq!(proxy.sent, 0);
}

#[test]
fn upstream_connection_failure_returns_a_response_without_retrying_forever() {
    for (retries, sent) in [(0, Sent::Failed), (3, Sent::TimedOut)] {
        let mut proxy = Proxy::new(retries);
        let timed_out = matches!(sent, Sent::TimedOut);
        let request =
            json(r#"{"jsonrpc": "2.0", "id": 1, "method": "eth_blockNumber", "params": []}"#);
        let reply = proxy.call(request, &|_| {
            if timed_out {
                Sent::TimedOut
            } else {
                Sent::Failed
            }
        });
        assert_eq!(reply.status, 408);
        let error = reply.value.unwrap();
        assert_eq!(error.member("id").as_u64(), Some(1));
        assert_eq!(error.member("error").member("code").to_text(), "-32001");
        assert_eq!(proxy.sent, retries as usize + 1);
    }
}

#[test]
fn notifications_are_sent_without_reading_the_cache_and_get_no_answer() {
    let notification = r#"{"jsonrpc":"2.0","method":"notify"}"#;
    let mut proxy = Proxy::new(1);
    let reply = proxy.call(json(notification), &|request| {
        assert_eq!(request.to_text(), r#"{"jsonrpc":"2.0","method":"notify"}"#);
        Sent::Answered("anything".to_string())
    });
    assert_eq!(reply.status, 204);
    assert!(reply.value.is_none());
    let reply = proxy.call(json(notification), &|_| Sent::Failed);
    assert_eq!(reply.status, 408);
    assert!(reply.value.is_none());
    proxy.rpcs.clear();
    let reply = proxy.call(json(notification), &|_| Sent::Failed);
    assert_eq!(reply.status, 500);
    assert!(reply.value.is_none());
}

#[test]
fn failures_are_told_apart() {
    let request = r#"{"jsonrpc":"2.0","id":"x","method":"eth_chainId"}"#;
    let call = match forward_call(
        json(request),
        &CacheArgs::default().named_numbers,
        CacheArgs::default().algorithm,
        params(0),
    ) {
        ForwardStep::ReadCache(call) => call,
        _ => panic!("the cache is read first"),
    };
    match call.cache_read(CacheRead::Failed) {
        ForwardStep::Finish(reply, None) => {
            assert_eq!(reply.status, 500);
            assert_eq!(
                text_of(reply.value),
                r#"{"error":{"code":-32003,"message":"Cache error"},"id":"x","jsonrpc":"2.0"}"#
            );
        }
        _ => panic!("the call ends"),
    }
    let mut proxy = Proxy::new(0);
    let reply = proxy.call(json(request), &|_| Sent::Answered("[1]".to_string()));
    assert_eq!(reply.status, 502);
    assert_eq!(
        text_of(reply.value),
        r#"{"error":{"code":-32603,"message":"Invalid upstream response"},"id":"x","jsonrpc":"2.0"}"#
    );
    proxy.rpcs.clear();
    let reply = proxy.call(json(request), &|_| Sent::Failed);
    assert_eq!(reply.status, 500);
    assert_eq!(
        text_of(reply.value),
        r#"{"error":{"code":-32002,"message":"No working RPC available"},"id":"x","jsonrpc":"2.0"}"#
    );
    assert_eq!(upstream_reply(None, Json::Null).status, 502);
    assert_eq!(
        upstream_reply(Some(json("{}")), Json::Null).status,
        200
    );
}

#[test]
fn unusable_cached_values_are_passed_over() {
    for bytes in [b"not JSON".to_vec(), b"[1]".to_vec()] {
        let call = match forward_call(
            json(r#"{"jsonrpc":"2.0","id":3,"method":"eth_chainId"}"#),
            &CacheArgs::default().named_numbers,
            CacheArgs::default().algorithm,
            params(0),
        ) {
            ForwardStep::ReadCache(call) => call,
            _ => panic!("the cache is read first"),
        };
        match call.cache_read(CacheRead::Found(bytes)) {
            ForwardStep::Pick(call) => assert_eq!(
                call.request().to_text(),
                r#"{"id":3,"jsonrpc":"2.0","method":"eth_chainId"}"#
            ),
            _ => panic!("the call goes on"),
        }
    }
}

#[test]
fn calls_are_timed() {
    let mut proxy = Proxy::new(0);
    proxy.call(
        json(r#"{"jsonrpc":"2.0","id":3,"method":"eth_chainId"}"#),
        &|_| Sent::Failed,
    );
    assert_eq!(proxy.rpcs[0].latency(), Latency::of(5));
}

#[test]
fn replies_carry_their_headers() {
    let reply = response(200, Some(Json::Bool(true)));
    assert_eq!(reply.status, 200);
    assert_eq!(reply.body, "true");
    assert_eq!(
        reply.headers,
        vec![
            ("Content-Type", "application/json"),
            ("Access-Control-Allow-Origin", "*")
        ]
    );
    let empty = response(200, None);
    assert_eq!(empty.status, 204);
    assert_eq!(empty.body, "");
}

#[test]
fn content_types_are_checked_where_that_is_wanted() {
    assert!(check_header(false, None).is_none());
    assert!(check_header(true, Some("application/json")).is_none());
    for content_type in [None, Some("text/plain")] {
        let reply = check_header(true, content_type).unwrap();
        assert_eq!(reply.status, 400);
        assert_eq!(
            reply.body,
            r#"{"error":{"code":-32600,"message":"Improper content-type header"},"id":null,"jsonrpc":"2.0"}"#
        );
    }
}

#[test]
fn bodies_are_told_apart() {
    assert!(matches!(plan_body(None), BodyPlan::Refuse(_)));
    assert!(matches!(plan_body(Some(json("[]"))), BodyPlan::Refuse(_)));
    assert!(matches!(plan_body(Some(json("[1]"))), BodyPlan::Batch(_)));
    assert!(matches!(plan_body(Some(json("1"))), BodyPlan::Single(_)));
}

#[test]
fn connections_are_upgraded_where_that_is_wanted() {
    let mut config = settings();
    match accept_request(false, &config) {
        Admission::Forward(params) => {
            assert_eq!(params.ttl, 1000);
            assert_eq!(params.max_retries, 32);
            assert!(params.header_check);
        }
        _ => panic!("a plain request is forwarded"),
    }
    assert!(matches!(
        accept_request(true, &config),
        Admission::Upgrade(1000)
    ));
    config.is_ws = false;
    match accept_request(true, &config) {
        Admission::Refuse(reply) => {
            assert_eq!(reply.status, 500);
            assert!(reply.headers.is_empty());
            assert_eq!(
                reply.body,
                "{code:-32005, message:\"error: WebSockets are disabled!\"}"
            );
        }
        _ => panic!("WebSockets are disabled"),
    }
    assert_eq!(
        upgrade_failed().body,
        "{code:-32004, message:\"error: Websocket upgrade error! Try again later...\"}"
    );
    assert_eq!(upgrade_failed().status, 500);
}

#[test]
fn deadlines_are_cut_off() {
    assert_eq!(deadline(1000), 1000);
    assert_eq!(deadline(u64::MAX as u128), u64::MAX);
    assert_eq!(deadline(u128::MAX), u64::MAX);
}
