use rpsee::json::{parse, Json};
use rpsee::number::{decimal, hex, parse_hex, HexError};
use rpsee::rpc::endpoint::{sanitize_url, Endpoint};
use rpsee::rpc::error::RpcError;
use rpsee::rpc::method::EthRpcMethod;
use rpsee::rpc::latency::{from_times, Latency};
use rpsee::rpc::types::{
    extract_finalized_block, extract_number, extract_sync, hex_to_decimal, Rpc,
};

fn url(text: &str) -> Endpoint {
    Endpoint::parse(text).unwrap()
}

fn written(text: &str) -> String {
    parse(text).unwrap().to_text()
}

#[test]
fn invalid_block_number_is_an_error() {
    for number in ["0xnope", "0x10000000000000000", ""] {
        let answer = Json::object().put("result", Json::text(number));
        assert!(extract_number(&answer.to_text()).is_err());
    }
}

#[test]
fn default_rpc_records_latency() {
    let mut rpc = Rpc::default();
    rpc.update_latency(10);
    rpc.update_latency(20);
    assert_eq!(rpc.status.latency, Latency::of(20));
    assert_eq!(rpc.status.latency_data, vec![Latency::of(20)]);
}

#[test]
fn test_extract_sync_syncing() {
    let input_str = written(
        r#"{
            "id": 1,
            "jsonrpc": "2.0",
            "result": {
                "startingBlock": "0x384",
                "currentBlock": "0x386",
                "highestBlock": "0x454"
            }
        }"#,
    );
    let result = extract_sync(&input_str);
    assert!(result.is_ok_and(|syncing| syncing));
}

#[test]
fn test_extract_sync_not_syncing() {
    let input_str = written(
        r#"{
            "id": 1,
            "jsonrpc": "2.0",
            "result": false
        }"#,
    );
    let result = extract_sync(&input_str);
    assert!(result.is_ok_and(|syncing| !syncing));
}

#[test]
fn test_extract_sync_invalid() {
    let input_str = written(
        r#"{
            "id": 1,
            "jsonrpc": "2.0",
            "wrong_key": {
                "startingBlock": "0x384",
                "currentBlock": "0x386",
                "highestBlock": "0x454"
            }
        }"#,
    );
    let result = extract_sync(&input_str);
    assert!(result.is_err());
}

#[test]
fn test_extract_number_success() {
    let input_str = written(r#"{"result": "0x1b4"}"#);
    let result = extract_number(&input_str);
    assert!(result.is_ok_and(|number| number == 436)); // 0x1b4 in decimal
}

#[test]
fn test_extract_number_failure() {
    let input_str = written(r#"{"wrong_field": "0x1b4"}"#);
    let result = extract_number(&input_str);
    assert!(result.is_err());
}

#[test]
fn answers_that_are_no_json_are_malformed() {
    assert!(matches!(extract_number("{"), Err(RpcError::Malformed)));
    assert!(matches!(extract_sync("{"), Err(RpcError::Malformed)));
    assert!(matches!(
        extract_finalized_block("{"),
        Err(RpcError::Malformed)
    ));
}

#[test]
fn errors_of_answers_say_what_is_wrong() {
    let text = |result: Result<u64, RpcError>| match result {
        Err(RpcError::InvalidResponse(text)) => text,
        _ => panic!("an invalid response was expected"),
    };
    assert_eq!(
        text(extract_number("{}")),
        "error: Extracting response from request failed!"
    );
    assert_eq!(
        text(extract_number(r#"{"result":""}"#)),
        "cannot parse integer from empty string"
    );
    assert_eq!(
        text(extract_number(r#"{"result":"0xnope"}"#)),
        "invalid digit found in string"
    );
    assert_eq!(
        text(extract_number(r#"{"result":"0x10000000000000000"}"#)),
        "number too large to fit in target type"
    );
    assert_eq!(
        text(extract_finalized_block(r#"{"result":{}}"#)),
        "error: Can't get finalized block!"
    );
    assert!(extract_finalized_block(r#"{"result":{"number":"0x2a"}}"#)
        .is_ok_and(|number| number == 42));
}

#[test]
fn hexadecimal_numbers_are_read() {
    assert!(hex_to_decimal("0x1b4").is_ok_and(|n| n == 436));
    assert!(hex_to_decimal("\"0x1b4\"").is_ok_and(|n| n == 436));
    assert!(hex_to_decimal("0x0x1b4").is_ok_and(|n| n == 436));
    assert!(hex_to_decimal("FF").is_ok_and(|n| n == 255));
    assert!(parse_hex("+ff").is_ok_and(|n| n == 255));
    assert!(parse_hex("ffffffffffffffff").is_ok_and(|n| n == u64::MAX));
    assert!(matches!(parse_hex(""), Err(HexError::Empty)));
    assert!(matches!(parse_hex("+"), Err(HexError::InvalidDigit)));
    assert!(matches!(parse_hex("-1"), Err(HexError::InvalidDigit)));
    assert!(matches!(parse_hex("€"), Err(HexError::InvalidDigit)));
    assert!(matches!(
        parse_hex("10000000000000000"),
        Err(HexError::Overflow)
    ));
    assert!(matches!(
        parse_hex("10000000000000000g"),
        Err(HexError::Overflow)
    ));
    assert!(matches!(
        parse_hex("1000000000000000g0"),
        Err(HexError::InvalidDigit)
    ));
    for text in ["", "+", "-1", "12g", "10000000000000000", "ff", "+0"] {
        let expected = u64::from_str_radix(text, 16);
        match (parse_hex(text), expected) {
            (Ok(number), Ok(wanted)) => assert_eq!(number, wanted),
            (Err(error), Err(wanted)) => assert_eq!(error.message(), wanted.to_string()),
            _ => panic!("{text} is read differently"),
        }
    }
}

#[test]
fn numbers_are_written() {
    for n in [0, 9, 10, 15, 16, 255, 436, u64::MAX] {
        assert_eq!(hex(n), format!("0x{n:x}"));
        assert_eq!(decimal(n), n.to_string());
        assert!(parse_hex(&hex(n)[2..]).is_ok_and(|read| read == n));
    }
}

#[test]
fn names_hide_paths_and_queries() {
    let rpc = Rpc::new(
        url("https://eth-mainnet.g.alchemy.com/v2/api-key"),
        None,
        1,
        0,
        1,
    );
    assert_eq!(rpc.name, "https://eth-mainnet.g.alchemy.com/");
    let other = Rpc::new(
        url("https://eth-mainnet.g.alchemy.com/v3/other?key=SECRET-REDACTED"),
        None,
        1,
        0,
        1,
    );
    assert_eq!(other.name, rpc.name);
    assert_eq!(
        sanitize_url(&url("http://localhost:8545/path")).unwrap(),
        "http://localhost:8545/"
    );
    assert_eq!(
        Rpc::new(url("mailto:someone"), None, 1, 0, 1).name,
        "mailto://"
    );
}

#[test]
fn addresses_are_brought_into_normal_form() {
    assert_eq!(url("HTTP://Example.com").as_str(), "http://example.com/");
    assert_eq!(url("http://example.com").scheme(), "http");
    assert!(url("http://example.com").has_host());
    assert!(!url("mailto:someone").has_host());
    assert!(Endpoint::parse("invalid").is_none());
    assert_eq!(
        Rpc::default().get_url().as_str(),
        url("https://eth.merkle.io").as_str()
    );
    assert_eq!(
        Rpc::default().get_url().scheme(),
        url("https://eth.merkle.io").scheme()
    );
}

#[test]
fn endpoints_differ_by_either_address() {
    let plain = Rpc::new(url("http://a/1"), None, 1, 0, 1);
    let socket = Rpc::new(url("http://a/1"), Some(url("ws://a/1")), 1, 0, 1);
    let other = Rpc::new(url("http://a/2"), None, 1, 0, 1);
    assert!(plain.same_endpoint(&plain.clone()));
    assert!(socket.same_endpoint(&socket.clone()));
    assert!(!plain.same_endpoint(&socket));
    assert!(!plain.same_endpoint(&other));
}

#[test]
fn latencies_are_averaged_over_the_window() {
    let mut rpc = Rpc::new(url("http://a"), None, 1, 0, 3);
    for time in [10, 20, 30, 40, 50] {
        rpc.update_latency(time);
    }
    assert_eq!(rpc.status.latency_data, [30, 40, 50].map(Latency::of));
    assert_eq!(rpc.latency(), Latency::of(40));
    rpc.update_latency(51);
    assert_eq!(rpc.latency(), mean(&[40, 50, 51]));
    assert_eq!(rpc.latency(), mean(&[141, 0, 0]));
    let mut two = Rpc::new(url("http://a"), None, 1, 0, 2);
    two.update_latency(1);
    two.update_latency(2);
    assert_eq!(two.latency(), mean(&[3, 0]));
    assert_ne!(two.latency(), Latency::of(1));
    assert_ne!(two.latency(), Latency::of(2));
    assert_eq!(mean(&[u64::MAX; 5]), Latency::of(u64::MAX));
}

#[test]
fn the_mean_of_the_probes_counts_as_it_is() {
    let mut rpc = Rpc::new(url("http://a"), None, 1, 0, 4);
    rpc.start_latency(&vec![10, 20, 31]);
    assert_eq!(rpc.latency(), mean(&[61, 0, 0]));
    rpc.update_latency(9);
    // 61/3 and 9 make up 88/3 over two calls.
    assert_eq!(rpc.latency(), mean(&[88, 0, 0, 0, 0, 0]));
    assert_eq!(rpc.status.latency_data, vec![mean(&[10, 20, 31]), Latency::of(9)]);
}

#[test]
fn there_is_no_mean_of_no_calls() {
    let none = Latency::mean(&Vec::new());
    let mut rpc = Rpc::new(url("http://a"), None, 1, 0, 2);
    rpc.start_latency(&Vec::new());
    assert_eq!(rpc.latency(), none);
    rpc.update_latency(5);
    assert_eq!(rpc.latency(), none);
    rpc.update_latency(7);
    assert_eq!(rpc.latency(), Latency::of(6));
    assert!(none.exceeds(&Latency::of(u64::MAX)));
    assert!(!Latency::of(u64::MAX).exceeds(&none));
    assert!(!none.exceeds(&none.clone()));
}

fn mean(times: &[u64]) -> Latency {
    Latency::mean(&from_times(&times.to_vec()))
}

#[test]
fn latencies_compare_below_a_nanosecond() {
    for (slow, fast) in [
        (mean(&[1, 2]), mean(&[1])),
        (mean(&[2]), mean(&[1, 2])),
        (mean(&[1, 1, 2]), mean(&[1, 1, 1, 2])),
        (mean(&[u64::MAX]), mean(&[u64::MAX, u64::MAX - 1])),
        (mean(&[1]), Latency::of(0)),
        (mean(&[0, u64::MAX, u64::MAX]), mean(&[u64::MAX, 0])),
    ] {
        assert!(slow.exceeds(&fast));
        assert!(!fast.exceeds(&slow));
    }
    assert!(!mean(&[2, 4]).exceeds(&mean(&[3])));
    assert!(!mean(&[3]).exceeds(&mean(&[2, 4])));
}

#[test]
fn probes_ask_for_what_they_should() {
    assert_eq!(
        Rpc::block_number_request().to_text(),
        r#"{"id":1,"jsonrpc":"2.0","method":"eth_blockNumber","params":null}"#
    );
    assert_eq!(
        Rpc::syncing_request().to_text(),
        r#"{"id":1,"jsonrpc":"2.0","method":"eth_syncing","params":null}"#
    );
    assert_eq!(
        Rpc::finalized_block_request().to_text(),
        r#"{"id":1,"jsonrpc":"2.0","method":"eth_getBlockByNumber","params":["finalized",false]}"#
    );
}

#[test]
fn block_positions_depend_on_the_method() {
    for (method, position) in [
        (EthRpcMethod::GetBlockByNumber, Some(0)),
        (EthRpcMethod::GetBlockTransactionCountByNumber, Some(0)),
        (EthRpcMethod::GetBalance, Some(1)),
        (EthRpcMethod::GetTransactionCount, Some(1)),
        (EthRpcMethod::GetStorageAt, Some(2)),
        (EthRpcMethod::BlockNumber, None),
        (EthRpcMethod::Subscribe, None),
    ] {
        assert_eq!(EthRpcMethod::get_position(Some(method.as_str())), position);
    }
    assert_eq!(EthRpcMethod::get_position(None), None);
}
