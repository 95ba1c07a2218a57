use rpsee::balancer::processing::{
    can_cache, cache_entry, cache_query, hash_request, key_bytes, padded, read_cached, reply_from,
    update_rpc_latency, CacheArgs, HashAlgorithm,
};
use rpsee::health::safe_block::NamedBlocknumbers;
use rpsee::json::{parse, Json};
use rpsee::rpc::endpoint::Endpoint;
use rpsee::rpc::method::EthRpcMethod;
use rpsee::rpc::latency::Latency;
use rpsee::rpc::types::Rpc;
use rpsee::text::{contains, same};

fn json(text: &str) -> Json {
    parse(text).unwrap()
}

fn test_rpc(url: &str, ws_url: &str) -> Rpc {
    Rpc::new(
        Endpoint::parse(url).unwrap(),
        Endpoint::parse(ws_url),
        0,
        0,
        1,
    )
}

fn by_number() -> Json {
    Json::object()
        .put("method", Json::text(EthRpcMethod::GetBlockByNumber.as_str()))
        .put("params", json(r#"["0x10", false]"#))
}

const INFURA_ERROR: &str = r#"{ "code": -32005, "data": { "see": "https://infura.io/dashboard" }, "message": "daily request count exceeded, request rate limited" }, payload={ "id": 12449, "jsonrpc": "2.0", "method": "eth_blockNumber", "params": [  ] }"#;

#[test]
fn test_can_cache() {
    assert!(can_cache(
        EthRpcMethod::GetBlockByNumber.as_str(),
        r#"{"result": "0x1"}"#
    ));
    assert!(!can_cache(
        EthRpcMethod::Subscribe.as_str(),
        r#"{"result": "0x1"}"#
    ));
}

#[test]
fn test_dont_cache_infura_err() {
    assert!(!can_cache(
        r#"{"method": "eth_getBlockByNumber", "params": ["0x10", false]}"#,
        r#"{ "code": -32005, "data": { "see": "https://infura.io/dashboard" }, "message": "daily request count exceeded, request rate limited" }, payload={ "id": 12449, "jsonrpc": "2.0", "method": "eth_blockNumber", "params": [  ] }"#
    ));
}

#[test]
fn test_cache_query() {
    let mut cache_args = CacheArgs::default();
    let rx = r#"{"jsonrpc":"2.0","result":"line\n\"quoted\"","id":1}"#.to_string();
    let method = by_number();
    let tx_hash = hash_request(&method, HashAlgorithm::Blake3);

    let write = cache_query(&rx, &method, &tx_hash, &mut cache_args).unwrap();

    assert_eq!(write.key, key_bytes(&tx_hash));
    let cached_str = std::str::from_utf8(&write.value).unwrap();
    assert_eq!(
        cached_str,
        r#"{"id":null,"jsonrpc":"2.0","result":"line\n\"quoted\""}"#
    );
    assert_eq!(
        rx,
        r#"{"jsonrpc":"2.0","result":"line\n\"quoted\"","id":1}"#
    );
}

#[test]
fn test_cache_infura_error_query() {
    let mut cache_args = CacheArgs::default();
    let method = by_number();
    let tx_hash = hash_request(&method, HashAlgorithm::Blake3);
    let write = cache_query(INFURA_ERROR, &method, &tx_hash, &mut cache_args);
    assert!(
        write.is_none(),
        "got cached value for transaction that should have failed"
    );
}

#[test]
fn malformed_responses_are_not_cached() {
    let mut cache_args = CacheArgs::default();
    let request = json(r#"{"method": "eth_getBalance", "params": ["0x1", "0x10"]}"#);
    let hash = hash_request(&request, HashAlgorithm::Blake3);
    for response in ["not JSON", r#"{"result":"0x1"}"#] {
        assert!(cache_query(response, &request, &hash, &mut cache_args).is_none());
    }
    assert!(cache_args.head_cache.is_empty());
}

#[test]
fn repeated_cache_writes_track_each_key_once() {
    let mut cache_args = CacheArgs::default();
    let request = json(r#"{"method": "eth_getBlockByNumber", "params": ["0x10", false]}"#);
    let hash = hash_request(&request, HashAlgorithm::Blake3);
    for _ in 0..3 {
        let write = cache_query(
            r#"{"jsonrpc":"2.0","id":1,"result":{"number":"0x10"}}"#,
            &request,
            &hash,
            &mut cache_args,
        );
        assert!(write.is_some());
    }
    assert_eq!(cache_args.head_cache.count(16), 1);
}

#[test]
fn test_update_rpc_latency() {
    let mut rpcs = vec![test_rpc("http://test_rpc", "ws://test_rpc")];
    rpcs[0].last_used = 12345;
    update_rpc_latency(&mut rpcs, 0, 100);
    assert_eq!(rpcs[0].status.latency, Latency::of(100));
    assert_eq!(rpcs[0].last_used, 12345);
}

#[test]
fn test_update_rpc_latency_with_multiple_rpcs() {
    let mut rpcs = vec![
        test_rpc("http://test_rpc1", "ws://test_rpc1"),
        test_rpc("http://test_rpc2", "ws://test_rpc2"),
    ];
    update_rpc_latency(&mut rpcs, 1, 200);
    assert_eq!(rpcs[1].status.latency, Latency::of(200));
    assert_eq!(rpcs[0].status.latency, Latency::of(0));
}

#[test]
fn test_update_rpc_latency_with_invalid_position() {
    let mut rpcs = vec![test_rpc("http://test_rpc", "ws://test_rpc")];
    update_rpc_latency(&mut rpcs, 10, 300);
    // Since the position is invalid, it should update the last available RPC
    assert_eq!(rpcs[0].status.latency, Latency::of(300));
}

#[test]
fn test_update_rpc_latency_with_empty_rpc_list() {
    let mut rpcs = Vec::new();
    update_rpc_latency(&mut rpcs, 0, 400);
    // With an empty RPC list, there should be no panic and no update
    assert!(rpcs.is_empty());
}

#[test]
fn test_update_rpc_latency_edge_cases() {
    let mut rpcs = vec![
        test_rpc("http://test_rpc1", "ws://test_rpc1"),
        test_rpc("http://test_rpc2", "ws://test_rpc2"),
    ];
    // Test edge case where rpc_position is equal to rpc_list length
    update_rpc_latency(&mut rpcs, 2, 500);
    assert_eq!(
        rpcs[1].status.latency,
        Latency::of(500),
        "Should update the last RPC in the list"
    );
}

#[test]
fn keys_are_digests_of_the_text() {
    let request = json(r#"{"method":"m","id":null}"#);
    let text = r#"{"id":null,"method":"m"}"#;
    assert_eq!(
        hash_request(&request, HashAlgorithm::Blake3),
        *blake3::hash(text.as_bytes()).as_bytes()
    );
    let key = hash_request(&request, HashAlgorithm::Xxhash);
    assert_eq!(
        key[..16],
        xxhash_rust::xxh3::xxh3_128(text.as_bytes()).to_le_bytes()
    );
    assert_eq!(key[16..], [0; 16]);
    assert_eq!(padded(0x0102)[..3], [2, 1, 0]);
}

#[test]
fn cached_answers_come_back_under_the_id_of_whoever_asks() {
    let mut cache_args = CacheArgs::default();
    let request = by_number();
    let hash = hash_request(&request, HashAlgorithm::Blake3);
    let response = r#"{"jsonrpc":"2.0","id":1,"result":["0x1",{"x":-5}]}"#;
    let write = cache_query(response, &request, &hash, &mut cache_args).unwrap();
    for id in [Json::text("other"), Json::Null, Json::integer(-7)] {
        let reply = read_cached(write.value.clone(), id.clone()).unwrap();
        let expected = json(response).put("id", id);
        assert_eq!(reply.to_text(), expected.to_text());
    }
    assert!(read_cached(b"not JSON".to_vec(), Json::Null).is_none());
    assert!(read_cached(b"[1]".to_vec(), Json::Null).is_none());
    assert!(reply_from(None, Json::Null).is_none());
    assert!(reply_from(Some(Json::unsigned(1)), Json::Null).is_none());
}

#[test]
fn keys_of_final_blocks_are_not_tracked() {
    for (finalized, count) in [(15, 1), (16, 0), (17, 0)] {
        let mut cache_args = CacheArgs::default();
        cache_args.finalized = finalized;
        let request = by_number();
        let hash = hash_request(&request, HashAlgorithm::Blake3);
        let response = r#"{"jsonrpc":"2.0","id":1,"result":"0x1"}"#;
        assert!(cache_query(response, &request, &hash, &mut cache_args).is_some());
        assert_eq!(cache_args.head_cache.count(16), count);
    }
}

#[test]
fn what_is_cached_depends_on_request_and_answer() {
    let numbers = NamedBlocknumbers::defualt();
    let answer = r#"{"id":1,"result":"0x1"}"#;
    let entry = |request: &Json, text: &str, response: &str, parsed: Option<Json>| {
        cache_entry(request, text, response, parsed, &numbers)
    };
    let (number, stored) =
        entry(&by_number(), "eth_getBlockByNumber", answer, Some(json(answer))).unwrap();
    assert_eq!(number, 16);
    assert_eq!(stored.to_text(), r#"{"id":null,"result":"0x1"}"#);
    assert!(entry(&by_number(), "eth_subscribe", answer, Some(json(answer))).is_none());
    assert!(entry(&by_number(), "m", "\"error\"", Some(json(answer))).is_none());
    assert!(entry(&by_number(), "m", answer, None).is_none());
    assert!(entry(&by_number(), "m", answer, Some(json("{}"))).is_none());
    assert!(entry(&by_number(), "m", answer, Some(json("[1]"))).is_none());
    assert!(entry(&json(r#"{"method":"eth_chainId"}"#), "m", answer, Some(json(answer))).is_none());
}

#[test]
fn texts_are_found_in_others() {
    for (whole, part, found) in [
        ("abcabd", "abd", true),
        ("abcabd", "abcabd", true),
        ("abcabd", "", true),
        ("", "", true),
        ("", "a", false),
        ("ab", "abc", false),
        ("aab", "ab", true),
        ("a\u{20ac}b", "\u{20ac}b", true),
        ("abc", "ac", false),
    ] {
        assert_eq!(contains(whole, part), found, "{whole} {part}");
        assert_eq!(same(whole, part), whole == part);
    }
}
