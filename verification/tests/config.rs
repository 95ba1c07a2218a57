use rpsee::balancer::accept_http::{forward_call, CacheRead, ForwardStep, RequestParams};
use rpsee::balancer::processing::{hash_request, CacheArgs, HashAlgorithm};
use rpsee::config::cache_setup::{marker, other_marker, setup_data};
use rpsee::config::error::ConfigError;
use rpsee::config::setup::{probe_again, set_starting_latency, sort_by_latency, Probe};
use rpsee::json::{parse, parse_bytes, Json};
use rpsee::rpc::endpoint::Endpoint;
use rpsee::rpc::error::RpcError;
use rpsee::rpc::latency::{from_times, Latency};
use rpsee::rpc::types::Rpc;
use std::collections::HashMap;

const VERSION_STR: &str = "1.2.3";

fn node(name: &str) -> Rpc {
    let url = format!("http://{name}");
    Rpc::new(Endpoint::parse(&url).unwrap(), None, 1, 0, 1)
}

fn identity_request(method: &str) -> Json {
    parse(r#"{"id": null, "jsonrpc": "2.0", "params": []}"#)
        .unwrap()
        .put("method", Json::text(method))
}

#[test]
fn startup_identity_uses_request_cache_hash() {
    for algorithm in [HashAlgorithm::Blake3, HashAlgorithm::Xxhash] {
        let mut cache: HashMap<Vec<u8>, Vec<u8>> = HashMap::new();
        for write in setup_data(VERSION_STR, algorithm) {
            cache.insert(write.key, write.value);
        }
        assert_eq!(
            cache.get(marker(algorithm).as_bytes()),
            Some(&b"true".to_vec())
        );
        assert!(!cache.contains_key(other_marker(algorithm).as_bytes()));

        for method in ["rpsee_is_lb", "web3_clientVersion"] {
            let key = hash_request(&identity_request(method), algorithm);
            let stored = cache.get(key.as_slice()).unwrap();
            let response = parse_bytes(stored.clone()).unwrap();
            assert_eq!(
                response.member("result").as_str(),
                Some(format!("rpsee {VERSION_STR}").as_str())
            );
        }
    }
}

#[test]
fn markers_tell_the_algorithms_apart() {
    assert_eq!(marker(HashAlgorithm::Blake3), "blake3");
    assert_eq!(marker(HashAlgorithm::Xxhash), "xxhash");
    assert_eq!(other_marker(HashAlgorithm::Blake3), "xxhash");
    assert_eq!(other_marker(HashAlgorithm::Xxhash), "blake3");
}

#[test]
fn the_identity_is_found_under_any_id() {
    let args = CacheArgs::default();
    let writes = setup_data(VERSION_STR, args.algorithm);
    let request = identity_request("web3_clientVersion").put("id", Json::text("asked"));
    let params = RequestParams {
        ttl: 1,
        max_retries: 0,
        header_check: false,
    };
    let call = match forward_call(request, &args.named_numbers, args.algorithm, params) {
        ForwardStep::ReadCache(call) => call,
        _ => panic!("the cache is read first"),
    };
    let found = writes
        .into_iter()
        .find(|write| write.key == call.key().as_slice())
        .unwrap();
    match call.cache_read(CacheRead::Found(found.value)) {
        ForwardStep::Finish(reply, None) => assert_eq!(
            reply.value.unwrap().to_text(),
            r#"{"id":"asked","jsonrpc":"2.0","result":"rpsee 1.2.3"}"#
        ),
        _ => panic!("the identity is cached"),
    }
}

#[test]
fn startup_keeps_healthy_rpc_and_cancels_stalled_probe() {
    let mut rpcs = vec![node("healthy"), node("stalled")];
    let results = vec![
        set_starting_latency(&mut rpcs[0], vec![Probe::Answered(false, 5)]),
        set_starting_latency(&mut rpcs[1], vec![Probe::TimedOut]),
    ];
    let (active, failed) = sort_by_latency(rpcs, Vec::new(), &results);
    assert_eq!(active.len(), 1);
    assert_eq!(failed.len(), 1);
    assert!(failed[0].status.is_erroring);
    assert_eq!(active[0].name, "http://healthy/");
    assert_eq!(active[0].latency(), Latency::of(5));
}

#[test]
fn the_last_probe_decides() {
    let good = |time| Probe::Answered(false, time);
    let mut rpc = node("a");
    let result = set_starting_latency(&mut rpc, vec![good(10), good(20), good(31)]);
    assert!(result.is_ok());
    let mean = Latency::mean(&from_times(&vec![10, 20, 31]));
    assert_eq!(rpc.latency(), mean);
    assert_eq!(rpc.status.latency_data, vec![mean]);
    for (last, expected) in [
        (Probe::TimedOut, Some("Startup probe timed out")),
        (
            Probe::Failed(RpcError::SendError("refused".to_string())),
            Some("refused"),
        ),
        (Probe::Answered(true, 5), None),
    ] {
        assert!(!last.is_good());
        let mut rpc = node("a");
        match set_starting_latency(&mut rpc, vec![good(10), last]) {
            Err(ConfigError::Rpc(RpcError::SendError(text))) => {
                assert_eq!(Some(text.as_str()), expected)
            }
            Err(ConfigError::Syncing) => assert!(expected.is_none()),
            _ => panic!("the node failed"),
        }
        assert!(rpc.status.latency_data.is_empty());
    }
}

#[test]
fn nodes_start_by_latency_and_in_order_where_they_are_as_fast() {
    let mut rpcs = Vec::new();
    let mut results = Vec::new();
    for (name, time) in [("c", 30), ("a", 10), ("b", 30), ("d", 20)] {
        let mut rpc = node(name);
        results.push(set_starting_latency(
            &mut rpc,
            vec![Probe::Answered(false, time)],
        ));
        rpcs.push(rpc);
    }
    rpcs.push(node("e"));
    results.push(Err(ConfigError::Syncing));
    let (active, failed) = sort_by_latency(rpcs, vec![node("f")], &results);
    let names: Vec<&str> = active.iter().map(|rpc| rpc.name()).collect();
    assert_eq!(names, ["http://a/", "http://d/", "http://c/", "http://b/"]);
    assert_eq!(failed.len(), 2);
    assert_eq!(failed[1].name(), "http://e/");
    assert!(!failed[0].is_erroring());
    assert!(failed[1].is_erroring());
}

#[test]
fn nodes_start_in_order_below_a_nanosecond() {
    let mut rpcs = Vec::new();
    let mut results = Vec::new();
    for (name, times) in [("b", [1, 2]), ("a", [1, 1]), ("c", [2, 1])] {
        let mut rpc = node(name);
        let probes = Vec::from(times.map(|time| Probe::Answered(false, time)));
        results.push(set_starting_latency(&mut rpc, probes));
        rpcs.push(rpc);
    }
    let (active, _) = sort_by_latency(rpcs, Vec::new(), &results);
    let names: Vec<&str> = active.iter().map(|rpc| rpc.name()).collect();
    assert_eq!(names, ["http://a/", "http://b/", "http://c/"]);
}

#[test]
fn nodes_are_probed_until_one_fails_or_there_are_enough() {
    let good = || Probe::Answered(false, 1);
    for (probes, window, again) in [
        (vec![], 0, false),
        (vec![], 1, true),
        (vec![good()], 0, false),
        (vec![good()], 1, false),
        (vec![good()], 2, true),
        (vec![good(), good()], 2, false),
        (vec![good(), Probe::TimedOut], 9, false),
        (vec![Probe::Answered(true, 1)], 9, false),
    ] {
        assert_eq!(probe_again(&probes, window), again);
    }
}

#[test]
fn without_a_window_nodes_start_unprobed_and_in_order() {
    let mut rpcs = Vec::new();
    let mut results = Vec::new();
    for name in ["b", "a"] {
        let mut rpc = node(name);
        let probes = Vec::new();
        assert!(!probe_again(&probes, 0));
        results.push(set_starting_latency(&mut rpc, probes));
        assert_eq!(rpc.latency(), Latency::mean(&Vec::new()));
        assert_eq!(rpc.status.latency_data.len(), 1);
        rpcs.push(rpc);
    }
    let (active, failed) = sort_by_latency(rpcs, Vec::new(), &results);
    let names: Vec<&str> = active.iter().map(|rpc| rpc.name()).collect();
    assert_eq!(names, ["http://b/", "http://a/"]);
    assert!(failed.is_empty());
    let mut first = active.into_iter().next().unwrap();
    first.update_latency(4);
    assert_eq!(first.latency(), Latency::of(4));
}
