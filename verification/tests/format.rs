use rpsee::balancer::format::{
    get_block_number_from_request, has_named_number, incoming_to_value, replace_block_tags,
    validate_request, NamedNumber,
};
use rpsee::health::safe_block::NamedBlocknumbers;
use rpsee::json::{parse, Json};
use rpsee::rpc::method::EthRpcMethod;

fn json(text: &str) -> Json {
    parse(text).unwrap()
}

fn dummy_named_blocknumbers() -> NamedBlocknumbers {
    NamedBlocknumbers {
        latest: 10,
        earliest: 2,
        safe: 3,
        finalized: 4,
        pending: 5,
    }
}

fn request(method: EthRpcMethod, params: &str) -> Json {
    json(r#"{"id": 1, "jsonrpc": "2.0"}"#)
        .put("method", Json::text(method.as_str()))
        .put("params", json(params))
}

fn bare(method: EthRpcMethod, params: &str) -> Json {
    Json::object()
        .put("method", Json::text(method.as_str()))
        .put("params", json(params))
}

#[test]
fn has_named_number_test() {
    assert_eq!(has_named_number("latest"), NamedNumber::Latest);
    assert_eq!(has_named_number("earliest"), NamedNumber::Earliest);
    assert_eq!(has_named_number("safe"), NamedNumber::Safe);
    assert_eq!(has_named_number("finalized"), NamedNumber::Finalized);
    assert_eq!(has_named_number("pending"), NamedNumber::Pending);
    assert_eq!(has_named_number("0x1"), NamedNumber::Null);
    assert_eq!(has_named_number("0x"), NamedNumber::Null);
    assert_eq!(has_named_number("0"), NamedNumber::Null);
}

#[test]
fn malformed_block_parameters_are_not_cacheable() {
    let named_numbers = dummy_named_blocknumbers();
    for block in [
        Json::text(""),
        Json::text("0"),
        Json::text("€"),
        Json::text("latest-invalid"),
        Json::unsigned(1),
        json(r#"{"blockHash": "0x1"}"#),
    ] {
        let request = Json::object()
            .put("method", Json::text("eth_getBalance"))
            .put("params", Json::array(vec![Json::text("0x1"), block]));
        assert_eq!(get_block_number_from_request(&request, &named_numbers), None);
        assert_eq!(
            replace_block_tags(&mut request.clone(), &named_numbers).to_text(),
            request.to_text()
        );
    }
}

#[test]
fn get_block_number_from_request_test() {
    let named_blocknumbers = dummy_named_blocknumbers();
    let account = "0x407d73d8a49eeb85d32cf465507dd71d507100c1";
    for (method, params, number) in [
        (EthRpcMethod::GetBalance, format!(r#"["{account}", "latest"]"#), Some(10)),
        (
            EthRpcMethod::GetBalance,
            format!(r#"["{account}", "adiuasiudagbdiad"]"#),
            None,
        ),
        (EthRpcMethod::GetBalance, format!(r#"["{account}", "0x1"]"#), Some(1)),
        (EthRpcMethod::GetBalance, format!(r#"["{account}"]"#), None),
        (
            EthRpcMethod::GetStorageAt,
            format!(r#"["{account}", "0x0", "latest"]"#),
            Some(10),
        ),
        (
            EthRpcMethod::GetStorageAt,
            format!(r#"["{account}", "0x0", "0x1"]"#),
            Some(1),
        ),
        (EthRpcMethod::GetStorageAt, format!(r#"["{account}", "0x0"]"#), None),
        (
            EthRpcMethod::GetTransactionCount,
            format!(r#"["{account}", "latest"]"#),
            Some(10),
        ),
        (
            EthRpcMethod::GetTransactionCount,
            format!(r#"["{account}", "safe"]"#),
            Some(3),
        ),
        (
            EthRpcMethod::GetTransactionCount,
            format!(r#"["{account}", "finalized"]"#),
            Some(4),
        ),
        (
            EthRpcMethod::GetTransactionCount,
            format!(r#"["{account}", "pending"]"#),
            Some(5),
        ),
        (
            EthRpcMethod::GetTransactionCount,
            format!(r#"["{account}", "0x1"]"#),
            Some(1),
        ),
        (EthRpcMethod::GetTransactionCount, format!(r#"["{account}"]"#), None),
        (
            EthRpcMethod::GetBlockTransactionCountByNumber,
            r#"["latest"]"#.to_string(),
            Some(10),
        ),
        (
            EthRpcMethod::GetBlockTransactionCountByNumber,
            r#"["0x1"]"#.to_string(),
            Some(1),
        ),
        (
            EthRpcMethod::GetBlockTransactionCountByNumber,
            "[]".to_string(),
            None,
        ),
    ] {
        assert_eq!(
            get_block_number_from_request(&request(method, &params), &named_blocknumbers),
            number
        );
    }
}

#[test]
fn replace_named_block_number_test() {
    let named_blocknumbers = dummy_named_blocknumbers();
    let mut tx = bare(
        EthRpcMethod::GetBalance,
        r#"["0x407d73d8a49eeb85d32cf465507dd71d507100c1", "latest"]"#,
    );
    let expected = bare(
        EthRpcMethod::GetBalance,
        r#"["0x407d73d8a49eeb85d32cf465507dd71d507100c1", "0xa"]"#,
    );
    assert_eq!(
        replace_block_tags(&mut tx, &named_blocknumbers).to_text(),
        expected.to_text()
    );
    assert_eq!(tx.to_text(), expected.to_text());
}

#[test]
fn keep_hex_block_number_test() {
    let named_blocknumbers = dummy_named_blocknumbers();
    let mut tx = bare(
        EthRpcMethod::GetBalance,
        r#"["0x407d73d8a49eeb85d32cf465507dd71d507100c1", "0x1"]"#,
    );
    let before = tx.to_text();
    assert_eq!(
        replace_block_tags(&mut tx, &named_blocknumbers).to_text(),
        before
    );
}

#[test]
fn handle_invalid_block_number_test() {
    let named_blocknumbers = dummy_named_blocknumbers();
    let mut tx = bare(
        EthRpcMethod::GetBalance,
        r#"["0x407d73d8a49eeb85d32cf465507dd71d507100c1", "invalid"]"#,
    );
    let before = tx.to_text();
    assert_eq!(
        replace_block_tags(&mut tx, &named_blocknumbers).to_text(),
        before
    );
}

#[test]
fn replace_block_number_different_methods_test() {
    let named_blocknumbers = dummy_named_blocknumbers();
    let methods = vec![EthRpcMethod::GetBalance, EthRpcMethod::GetTransactionCount];
    for method in methods {
        let mut tx = bare(
            method,
            r#"["0x407d73d8a49eeb85d32cf465507dd71d507100c1", "latest"]"#,
        );
        let expected = bare(
            method,
            r#"["0x407d73d8a49eeb85d32cf465507dd71d507100c1", "0xa"]"#,
        );
        let a = replace_block_tags(&mut tx, &named_blocknumbers);
        assert_eq!(a.to_text(), expected.to_text());
    }
}

#[test]
fn handle_missing_or_empty_params_test() {
    let named_blocknumbers = dummy_named_blocknumbers();
    let mut tx_no_params =
        Json::object().put("method", Json::text(EthRpcMethod::GetBalance.as_str()));
    let mut tx_empty_params = bare(EthRpcMethod::GetBalance, "[]");
    let no_params = tx_no_params.to_text();
    let empty_params = tx_empty_params.to_text();
    assert_eq!(
        replace_block_tags(&mut tx_no_params, &named_blocknumbers).to_text(),
        no_params
    );
    assert_eq!(
        replace_block_tags(&mut tx_empty_params, &named_blocknumbers).to_text(),
        empty_params
    );
}

#[test]
fn handle_zero_blocknumber() {
    let mut named_blocknumbers = dummy_named_blocknumbers();
    named_blocknumbers.latest = 0;
    let mut tx = bare(
        EthRpcMethod::GetTransactionCount,
        r#"["0x407d73d8a49eeb85d32cf465507dd71d507100c1", "latest"]"#,
    );
    let expected = bare(
        EthRpcMethod::GetTransactionCount,
        r#"["0x407d73d8a49eeb85d32cf465507dd71d507100c1", "latest"]"#,
    );
    assert_eq!(
        replace_block_tags(&mut tx, &named_blocknumbers).to_text(),
        expected.to_text()
    );
}

#[test]
fn handle_non_string_block_number_test() {
    let named_blocknumbers = dummy_named_blocknumbers();
    let mut tx = bare(
        EthRpcMethod::GetBalance,
        r#"["0x407d73d8a49eeb85d32cf465507dd71d507100c1", 100]"#,
    );
    let before = tx.to_text();
    assert_eq!(
        replace_block_tags(&mut tx, &named_blocknumbers).to_text(),
        before
    );
}

#[test]
fn finalized_is_replaced_and_the_other_tags_stay() {
    let numbers = dummy_named_blocknumbers();
    for (tag, expected) in [
        ("finalized", "0x4"),
        ("safe", "safe"),
        ("earliest", "earliest"),
        ("pending", "pending"),
    ] {
        let mut tx = bare(EthRpcMethod::GetBlockByNumber, &format!(r#"["{tag}", false]"#));
        let before = get_block_number_from_request(&tx, &numbers);
        let replaced = replace_block_tags(&mut tx, &numbers);
        assert_eq!(
            replaced.member("params").at(0).unwrap().as_str(),
            Some(expected)
        );
        assert_eq!(get_block_number_from_request(&replaced, &numbers), before);
    }
}

#[test]
fn tags_have_names() {
    for (tag, name) in [
        (NamedNumber::Latest, "latest"),
        (NamedNumber::Earliest, "earliest"),
        (NamedNumber::Safe, "safe"),
        (NamedNumber::Finalized, "finalized"),
        (NamedNumber::Pending, "pending"),
        (NamedNumber::Null, "null"),
    ] {
        assert_eq!(tag.as_ref(), name);
    }
}

#[test]
fn invalid_requests_are_answered_under_their_id() {
    assert!(validate_request(&json(r#"{"jsonrpc":"2.0","method":"m"}"#)).is_ok());
    assert!(validate_request(&json(r#"{"jsonrpc":"2.0","method":"m","id":1.5}"#)).is_ok());
    for (request, id) in [
        ("null", "null"),
        ("[]", "null"),
        ("{}", "null"),
        (r#"{"jsonrpc":"1.0","method":"m","id":7}"#, "7"),
        (r#"{"jsonrpc":"2.0","method":false,"id":"x"}"#, r#""x""#),
        (r#"{"jsonrpc":"2.0","method":"m","id":true}"#, "null"),
        (r#"{"jsonrpc":"2.0","method":"m","id":{}}"#, "null"),
    ] {
        match validate_request(&json(request)) {
            Ok(()) => panic!("{request} is no request"),
            Err(error) => assert_eq!(
                error.to_text(),
                format!(
                    r#"{{"error":{{"code":-32600,"message":"Invalid Request"}},"id":{id},"jsonrpc":"2.0"}}"#
                )
            ),
        }
    }
}

#[test]
fn bodies_are_read_without_altering_texts() {
    let value = incoming_to_value(br#"{"text":"line\n\"quoted\""}"#.to_vec()).unwrap();
    assert_eq!(value.member("text").as_str(), Some("line\n\"quoted\""));
    assert!(incoming_to_value(b"{".to_vec()).is_none());
}
