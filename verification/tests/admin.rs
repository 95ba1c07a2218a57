use rpsee::admin::accept::{
    accept_admin_request, admin_path, authorize, conclude, flushed, forward_body,
    request_of_claims, token_text, AdminAccess, AdminPath, AdminStep,
};
use rpsee::admin::claims::has_repeated_claim;
use rpsee::admin::error::AdminError;
use rpsee::admin::methods::{
    admin_add_rpc, admin_flush_cache, admin_list_rpc, admin_remove_rpc, execute_method,
    unknown_method, AdminOutcome, Error, RpseeRpcMethod,
};
use rpsee::config::settings::{AdminSettings, Settings};
use rpsee::json::{parse, Json};
use rpsee::rpc::endpoint::Endpoint;
use rpsee::rpc::latency::Latency;
use rpsee::rpc::types::Rpc;

fn json(text: &str) -> Json {
    parse(text).unwrap()
}

fn rpc(url: &str, max_consecutive: u32, ma_length: u64) -> Rpc {
    Rpc::new(
        Endpoint::parse(url).unwrap(),
        None,
        max_consecutive,
        1000,
        ma_length,
    )
}

fn create_test_rpc_list() -> Vec<Rpc> {
    vec![rpc("http://example.com", 5, 5)]
}

fn create_test_poverty_list() -> Vec<Rpc> {
    vec![rpc("http://poverty.com", 2, 1)]
}

fn create_test_settings_config() -> Settings {
    Settings {
        address: "127.0.0.1:3000".to_string(),
        do_clear: true,
        health_check: true,
        admin: AdminSettings {
            enabled: true,
            readonly: false,
            jwt: false,
            key: b"some-key".to_vec(),
        },
        ttl: 1000,
        health_check_ttl: 2000,
        is_ws: true,
        max_retries: 32,
        header_check: true,
        supress_rpc_check: true,
    }
}

fn call(method: RpseeRpcMethod) -> Json {
    json(r#"{ "id":1 }"#).put("method", Json::text(method.as_str()))
}

fn call_with(method: RpseeRpcMethod, params: &str) -> Json {
    call(method).put("params", json(params))
}

fn execute(tx: &Json) -> Result<AdminOutcome, AdminError> {
    execute_method(
        tx,
        &mut create_test_rpc_list(),
        &mut create_test_poverty_list(),
        &mut create_test_settings_config(),
        &create_test_settings_config(),
    )
}

fn reply_of(result: Result<AdminOutcome, AdminError>) -> String {
    match result {
        Ok(AdminOutcome::Reply(reply)) => reply.to_text(),
        _ => panic!("a reply was expected"),
    }
}

#[test]
fn test_execute_method_rpsee_rpc_list() {
    let result = execute(&call(RpseeRpcMethod::RpcList));
    assert!(result.is_ok());
    assert_eq!(
        reply_of(result),
        r#"{"id":null,"jsonrpc":"2.0","result":[{"last_error":0,"max_consecutive":5,"name":"http://example.com/"}]}"#
    );
}

#[test]
fn test_execute_method_rpsee_flush_cache() {
    let result = execute(&call(RpseeRpcMethod::FlushCache));
    assert!(result.is_ok()); // Verify that flushing the cache doesn't produce an error
    assert!(matches!(result, Ok(AdminOutcome::Flush)));
    assert_eq!(
        admin_flush_cache("1.5ms").to_text(),
        r#"{"id":null,"jsonrpc":"2.0","result":"Cache flushed in 1.5ms"}"#
    );
}

#[test]
fn test_execute_method_rpsee_config() {
    let result = execute(&call(RpseeRpcMethod::Config));
    assert!(result.is_ok());
    assert_eq!(
        reply_of(result),
        r#"{"id":null,"jsonrpc":"2.0","result":{"address":"127.0.0.1:3000","admin":{"enabled":true,"readonly":false},"do_clear":true,"health_check":true,"health_check_ttl":2000,"ttl":1000}}"#
    );
}

#[test]
fn test_execute_method_rpsee_poverty_list() {
    let result = execute(&call(RpseeRpcMethod::PovertyList));
    assert!(result.is_ok());
    assert_eq!(
        reply_of(result),
        r#"{"id":null,"jsonrpc":"2.0","result":[{"last_error":0,"max_consecutive":2,"name":"http://poverty.com/"}]}"#
    );
}

#[test]
fn test_execute_method_rpsee_ttl() {
    let result = execute(&call(RpseeRpcMethod::Ttl));
    assert!(result.is_ok());
    assert_eq!(
        reply_of(result),
        r#"{"id":null,"jsonrpc":"2.0","result":1000}"#
    );
}

#[test]
fn test_execute_method_rpsee_health_check_ttl() {
    let result = execute(&call(RpseeRpcMethod::HealthCheckTtl));
    assert!(result.is_ok());
    assert_eq!(
        reply_of(result),
        r#"{"id":null,"jsonrpc":"2.0","result":2000}"#
    );
}

#[test]
fn test_execute_method_invalid_method() {
    let result = execute(&json(r#"{ "id":1,"method": "invalid_method" }"#));
    assert!(result.is_err());
    assert!(matches!(result, Err(AdminError::InvalidMethod(_))));
}

#[test]
fn test_execute_method_add_to_rpc_list() {
    let tx = call_with(
        RpseeRpcMethod::AddToRpcList,
        r#"["http://example.com", "ws://example.com", 5, 10, 5.0]"#,
    );
    let mut rpc_list = create_test_rpc_list();
    let len = rpc_list.len();
    let result = execute_method(
        &tx,
        &mut rpc_list,
        &mut create_test_poverty_list(),
        &mut create_test_settings_config(),
        &create_test_settings_config(),
    );
    assert!(result.is_ok());
    assert!(rpc_list.len() == len + 1);
    assert_eq!(
        reply_of(result),
        r#"{"id":null,"jsonrpc":"2.0","result":"RPC: http://example.com/, max_consecutive: 5, ma: 5"}"#
    );
    assert_eq!(rpc_list[1].min_time_delta, 100_000);
    assert_eq!(rpc_list[1].ws_address(), Some("ws://example.com/"));
}

#[test]
fn test_execute_method_add_to_rpc_list_no_ws() {
    let tx = call_with(
        RpseeRpcMethod::AddToRpcList,
        r#"["http://example.com", null, 5, 10, 5.0]"#,
    );
    let mut rpc_list = create_test_rpc_list();
    let len = rpc_list.len();
    let result = execute_method(
        &tx,
        &mut rpc_list,
        &mut create_test_poverty_list(),
        &mut create_test_settings_config(),
        &create_test_settings_config(),
    );
    assert!(result.is_ok());
    assert!(rpc_list.len() == len + 1);
    assert!(rpc_list[1].ws_url.is_none());
}

#[test]
fn test_execute_method_remove_from_rpc_list() {
    // purposefully out of bounds
    let tx = call_with(RpseeRpcMethod::RemoveFromRpcList, "[10]");
    let mut rpc_list = create_test_rpc_list();
    rpc_list.push(rpc("http://example.com", 5, 5));
    let len = rpc_list.len();
    let result = execute_method(
        &tx,
        &mut rpc_list,
        &mut create_test_poverty_list(),
        &mut create_test_settings_config(),
        &create_test_settings_config(),
    );
    assert!(result.is_err());

    let tx = call_with(RpseeRpcMethod::RemoveFromRpcList, "[0]");
    let result = execute_method(
        &tx,
        &mut rpc_list,
        &mut create_test_poverty_list(),
        &mut create_test_settings_config(),
        &create_test_settings_config(),
    );
    assert!(result.is_ok());
    assert!(rpc_list.len() == len - 1);
}

#[test]
fn test_execute_method_rpsee_set_ttl() {
    let tx = call_with(RpseeRpcMethod::SetTtl, "[9001]");
    let mut config = create_test_settings_config();
    let ttl = config.ttl;
    let result = execute_method(
        &tx,
        &mut create_test_rpc_list(),
        &mut create_test_poverty_list(),
        &mut config,
        &create_test_settings_config(),
    );
    assert!(result.is_ok());
    assert!(config.ttl != ttl);
    assert!(config.ttl == 9001)
}

#[test]
fn test_execute_method_rpsee_set_health_check_ttl() {
    let tx = call_with(RpseeRpcMethod::SetHealthCheckTtl, "[9001]");
    let mut config = create_test_settings_config();
    let health_check_ttl = config.health_check_ttl;
    let result = execute_method(
        &tx,
        &mut create_test_rpc_list(),
        &mut create_test_poverty_list(),
        &mut config,
        &create_test_settings_config(),
    );
    assert!(result.is_ok());
    assert!(config.health_check_ttl != health_check_ttl);
    assert!(config.health_check_ttl == 9001)
}

#[test]
fn test_rw_protection() {
    let tx = call_with(RpseeRpcMethod::SetHealthCheckTtl, "[9001]");
    let mut config = create_test_settings_config();
    config.admin.readonly = true;
    let result = execute_method(
        &tx,
        &mut create_test_rpc_list(),
        &mut create_test_poverty_list(),
        &mut config,
        &create_test_settings_config(),
    );
    assert!(result.is_err());

    // Also check that we can read
    let result = execute_method(
        &call(RpseeRpcMethod::HealthCheckTtl),
        &mut create_test_rpc_list(),
        &mut create_test_poverty_list(),
        &mut config,
        &create_test_settings_config(),
    );
    assert!(result.is_ok());
}

#[test]
fn rpc_list_returns_an_array_and_escapes_names() {
    let mut rpc_list = create_test_rpc_list();
    rpc_list.push(Rpc::default());
    rpc_list[1].name = "a\"b".to_string();
    let response = admin_list_rpc(&rpc_list);
    assert_eq!(response.member("result").as_array().unwrap().len(), 2);
    assert_eq!(
        response.member("result").at(1).unwrap().member("name").as_str(),
        Some("a\"b")
    );
    assert_eq!(json(&response.to_text()).to_text(), response.to_text());
}

#[test]
fn malformed_rpc_parameters_do_not_mutate_or_poison_the_list() {
    let mut rpc_list = create_test_rpc_list();
    for params in [
        r#"["invalid", null, 5, 10, 5]"#,
        r#"["http://example.com", "invalid", 5, 10, 5]"#,
        r#"["file:///tmp/rpc", null, 5, 10, 5]"#,
        r#"["http://example.com", "http://example.com", 5, 10, 5]"#,
        r#"["http://example.com", null, -1, 10, 5]"#,
        r#"["http://example.com", null, 5, "invalid", 5]"#,
        r#"["http://example.com", null, 5, 10, 0]"#,
    ] {
        let params = json(params);
        assert!(admin_add_rpc(&mut rpc_list, params.as_array()).is_err());
        assert_eq!(rpc_list.len(), 1);
    }
}

#[test]
fn forward_body_preserves_ids_and_reports_rpc_errors() {
    let mut settings = create_test_settings_config();
    let started = create_test_settings_config();
    for id in [Json::text("request-1"), Json::unsigned(7), Json::Null] {
        let request = json(r#"{"jsonrpc": "2.0", "params": []}"#)
            .put("id", id.clone())
            .put("method", Json::text(RpseeRpcMethod::Ttl.as_str()));
        let step = forward_body(&request, &mut vec![], &mut vec![], &mut settings, &started);
        let reply = match step {
            AdminStep::Reply(reply) => reply,
            _ => panic!("a reply was expected"),
        };
        assert_eq!(reply.status, 200);
        assert_eq!(reply.headers, vec![("content-type", "application/json")]);
        let response = json(&reply.body);
        assert_eq!(response.member("id").to_text(), id.to_text());
        assert_eq!(response.member("result").as_u64(), Some(settings.ttl as u64));
    }
    let set_ttl = RpseeRpcMethod::SetTtl.as_str();
    for (request, code) in [
        (
            json(r#"{"id": "unknown", "jsonrpc": "2.0", "method": "missing"}"#),
            -32601,
        ),
        (
            json(r#"{"id": "invalid", "jsonrpc": "2.0", "params": []}"#)
                .put("method", Json::text(set_ttl)),
            -32602,
        ),
        (Json::Null, -32600),
    ] {
        let id = request.member("id");
        let step = forward_body(&request, &mut vec![], &mut vec![], &mut settings, &started);
        let reply = match step {
            AdminStep::Reply(reply) => reply,
            _ => panic!("a reply was expected"),
        };
        let response = json(&reply.body);
        assert_eq!(response.member("id").to_text(), id.to_text());
        assert_eq!(
            response.member("error").member("code").to_text(),
            code.to_string()
        );
        assert!(response.get("result").is_none());
    }
}

#[test]
fn every_method_that_writes_is_refused_while_read_only() {
    for (method, params) in [
        (RpseeRpcMethod::Quit, "[]"),
        (RpseeRpcMethod::FlushCache, "[]"),
        (RpseeRpcMethod::SetTtl, "[1]"),
        (RpseeRpcMethod::SetHealthCheckTtl, "[1]"),
        (RpseeRpcMethod::AddToRpcList, r#"["http://a",null,1,1,1]"#),
        (RpseeRpcMethod::AddToPovertyList, r#"["http://a",null,1,1,1]"#),
        (RpseeRpcMethod::RemoveFromRpcList, "[0]"),
        (RpseeRpcMethod::RemoveFromPovertyList, "[0]"),
    ] {
        let mut rpcs = create_test_rpc_list();
        let mut poverty = create_test_poverty_list();
        let mut config = create_test_settings_config();
        config.admin.readonly = true;
        let result = execute_method(
            &call_with(method, params),
            &mut rpcs,
            &mut poverty,
            &mut config,
            &create_test_settings_config(),
        );
        assert!(matches!(result, Err(AdminError::WriteProtectionEnabled)));
        assert_eq!(rpcs.len(), 1);
        assert_eq!(poverty.len(), 1);
        assert_eq!(config.ttl, 1000);
        assert_eq!(config.health_check_ttl, 2000);
    }
    assert!(matches!(
        execute(&call(RpseeRpcMethod::Quit)),
        Ok(AdminOutcome::Quit)
    ));
}

#[test]
fn the_poverty_list_is_changed_apart() {
    let mut rpcs = create_test_rpc_list();
    let mut poverty = create_test_poverty_list();
    let mut config = create_test_settings_config();
    let started = create_test_settings_config();
    let add = call_with(
        RpseeRpcMethod::AddToPovertyList,
        r#"["https://a.example/key", "wss://a.example", 1, 0, 4294967295]"#,
    );
    let result = execute_method(&add, &mut rpcs, &mut poverty, &mut config, &started);
    assert_eq!(
        reply_of(result),
        r#"{"id":null,"jsonrpc":"2.0","result":"RPC: https://a.example/, max_consecutive: 1, ma: 4294967295"}"#
    );
    assert_eq!((rpcs.len(), poverty.len()), (1, 2));
    assert_eq!(poverty[1].min_time_delta, 0);
    let remove = call_with(RpseeRpcMethod::RemoveFromPovertyList, "[1]");
    let result = execute_method(&remove, &mut rpcs, &mut poverty, &mut config, &started);
    assert_eq!(
        reply_of(result),
        r#"{"id":null,"jsonrpc":"2.0","result":"https://a.example/key"}"#
    );
    assert_eq!((rpcs.len(), poverty.len()), (1, 1));
    assert_eq!(poverty[0].name, "http://poverty.com/");
}

#[test]
fn latency_windows_are_limited() {
    for (window, accepted) in [
        ("1", true),
        ("1.0", true),
        ("0.99", false),
        ("4294967295", true),
        ("4294967295.0", true),
        ("4294967295.5", false),
        ("4294967296", false),
        ("1e300", false),
        ("-1", false),
        ("-1.5", false),
        ("\"5\"", false),
        ("null", false),
    ] {
        let mut rpcs = vec![];
        let params = json(&format!(r#"["http://a", null, 1, 1, {window}]"#));
        assert_eq!(
            admin_add_rpc(&mut rpcs, params.as_array()).is_ok(),
            accepted,
            "{window}"
        );
        assert_eq!(rpcs.len(), accepted as usize);
    }
    let mut rpcs = vec![];
    let params = json(r#"["http://a", null, 1, 1, 2.5]"#);
    let reply = admin_add_rpc(&mut rpcs, params.as_array());
    assert!(reply.is_ok_and(|reply| {
        reply.member("result").as_str() == Some("RPC: http://a/, max_consecutive: 1, ma: 2.5")
    }));
    for time in [1, 2, 3] {
        rpcs[0].update_latency(time);
    }
    assert_eq!(rpcs[0].status.latency_data, [2, 3].map(Latency::of));
}

#[test]
fn wrong_parameters_are_told_apart() {
    let mut rpcs = create_test_rpc_list();
    assert!(matches!(
        admin_add_rpc(&mut rpcs, None),
        Err(AdminError::InvalidParams)
    ));
    assert!(matches!(
        admin_add_rpc(&mut rpcs, json("[1]").as_array()),
        Err(AdminError::InvalidLen)
    ));
    let too_many = json(r#"["http://a", null, 4294967296, 1, 1]"#);
    assert!(matches!(
        admin_add_rpc(&mut rpcs, too_many.as_array()),
        Err(AdminError::ParseError)
    ));
    assert!(matches!(
        admin_remove_rpc(&mut rpcs, None),
        Err(AdminError::InvalidParams)
    ));
    assert!(matches!(
        admin_remove_rpc(&mut rpcs, json("[]").as_array()),
        Err(AdminError::InvalidLen)
    ));
    assert!(matches!(
        admin_remove_rpc(&mut rpcs, json("[-1]").as_array()),
        Err(AdminError::ParseError)
    ));
    assert!(matches!(
        admin_remove_rpc(&mut rpcs, json("[1]").as_array()),
        Err(AdminError::OutOfBounds)
    ));
    let invalid = |method, params: &str| execute(&call_with(method, params));
    assert!(matches!(
        invalid(RpseeRpcMethod::SetHealthCheckTtl, "[0]"),
        Err(AdminError::InvalidParams)
    ));
    assert!(matches!(
        invalid(RpseeRpcMethod::SetTtl, "{}"),
        Err(AdminError::InvalidParams)
    ));
    assert!(matches!(
        invalid(RpseeRpcMethod::SetTtl, "[]"),
        Err(AdminError::InvalidLen)
    ));
    assert!(matches!(
        invalid(RpseeRpcMethod::SetTtl, "[1.5]"),
        Err(AdminError::ParseError)
    ));
    assert!(invalid(RpseeRpcMethod::SetTtl, "[0]").is_ok());
}

#[test]
fn errors_have_codes_and_texts() {
    for (error, code, text) in [
        (AdminError::WriteProtectionEnabled, -32000, "Write protection is enabled"),
        (AdminError::InvalidParams, -32602, "Invalid params"),
        (AdminError::InvalidLen, -32602, "Invalid number of params"),
        (AdminError::ParseError, -32602, "Failed to parse params"),
        (AdminError::OutOfBounds, -32602, "Index out of bounds"),
        (AdminError::Inaccessible, -32603, "List is inaccessible"),
    ] {
        assert_eq!(error.code(), code);
        assert_eq!(error.message(), text);
    }
    let names = [
        "rpsee_quit",
        "rpsee_rpc_list",
        "rpsee_flush_cache",
        "rpsee_config",
        "rpsee_poverty_list",
        "rpsee_ttl",
        "rpsee_health_check_ttl",
        "rpsee_set_ttl",
        "rpsee_set_health_check_ttl",
        "rpsee_add_to_rpc_list",
        "rpsee_add_to_poverty_list",
        "rpsee_remove_from_rpc_list",
        "rpsee_remove_from_poverty_list",
    ];
    let method = Some("a\"b".to_string());
    let expected = format!(
        "failed to convert method to `RpseeRpcMethod`:\n\ngot: {:?}\nexpected:\n{:#?}",
        method, names
    );
    assert_eq!(Error::new(method.clone()).message(), expected);
    let error = AdminError::InvalidMethod(Error::new(method));
    assert_eq!(error.code(), -32601);
    assert_eq!(error.message(), expected);
    assert_eq!(
        unknown_method("None"),
        Error::new(None::<String>).message()
    );
}

#[test]
fn methods_are_found_by_their_names() {
    for name in RpseeRpcMethod::all() {
        match RpseeRpcMethod::try_from(Some(name)) {
            Ok(method) => assert_eq!(method.as_str(), name),
            Err(_) => panic!("{name} is a method"),
        }
    }
    assert_eq!(RpseeRpcMethod::all().len(), 13);
    assert!(RpseeRpcMethod::try_from(Some("eth_chainId")).is_err());
    assert!(RpseeRpcMethod::try_from(None).is_err());
}

#[test]
fn replies_to_flushing_keep_the_id() {
    match conclude(Ok(AdminOutcome::Flush), Json::text("x")) {
        AdminStep::Flush(id) => assert_eq!(
            flushed(id, "2ms").body,
            r#"{"id":"x","jsonrpc":"2.0","result":"Cache flushed in 2ms"}"#
        ),
        _ => panic!("the cache is flushed"),
    }
    assert!(matches!(
        conclude(Ok(AdminOutcome::Quit), Json::Null),
        AdminStep::Quit
    ));
}

#[test]
fn paths_are_told_apart() {
    assert!(matches!(admin_path("/ready"), AdminPath::Ready));
    assert!(matches!(admin_path("/health"), AdminPath::Health));
    assert!(matches!(admin_path("/"), AdminPath::Request));
    assert!(matches!(admin_path("/readyx"), AdminPath::Request));
}

fn claims(exp: u64) -> Json {
    json(r#"{"id":7,"jsonrpc":"1.0","method":"rpsee_ttl","params":[]}"#)
        .put("exp", Json::unsigned(exp))
}

fn token(claims: &Json, secret: &[u8]) -> String {
    let claims: serde_json::Value = serde_json::from_str(&claims.to_text()).unwrap();
    jsonwebtoken::encode(
        &jsonwebtoken::Header::default(),
        &claims,
        &jsonwebtoken::EncodingKey::from_secret(secret),
    )
    .unwrap()
}

fn access(body: &Json) -> AdminAccess {
    let mut config = create_test_settings_config();
    config.admin.jwt = true;
    accept_admin_request(body.to_text().into_bytes(), &config)
}

#[test]
fn tokens_are_asked_for_where_that_is_wanted() {
    let far = 4_000_000_000;
    let good = Json::object().put("token", Json::Text(token(&claims(far), b"some-key")));
    match access(&good) {
        AdminAccess::Accept(request) => assert_eq!(
            request.to_text(),
            r#"{"id":7,"jsonrpc":"2.0","method":"rpsee_ttl","params":[]}"#
        ),
        AdminAccess::Refuse(_) => panic!("the token is valid"),
    }
    let incomplete = json(r#"{"id":7,"exp":4000000000}"#);
    for refused in [
        Json::object(),
        Json::Null,
        Json::object().put("token", Json::Text(token(&claims(far), b"other-key"))),
        Json::object().put("token", Json::Text(token(&claims(1), b"some-key"))),
        Json::object().put("token", Json::Text(token(&incomplete, b"some-key"))),
    ] {
        match access(&refused) {
            AdminAccess::Refuse(reply) => {
                assert_eq!(reply.status, 401);
                assert_eq!(reply.body, "Unauthorized or invalid token");
            }
            AdminAccess::Accept(_) => panic!("the token is not valid"),
        }
    }
}

#[test]
fn without_tokens_the_body_is_the_request() {
    let config = create_test_settings_config();
    match accept_admin_request(br#"{"id":1}"#.to_vec(), &config) {
        AdminAccess::Accept(request) => assert_eq!(request.to_text(), r#"{"id":1}"#),
        AdminAccess::Refuse(_) => panic!("no token is asked for"),
    }
    match accept_admin_request(b"{".to_vec(), &config) {
        AdminAccess::Refuse(reply) => {
            assert_eq!(reply.status, 401);
            assert_eq!(reply.body, "Invalid admin request format");
        }
        AdminAccess::Accept(_) => panic!("the body is no JSON"),
    }
}

#[test]
fn claims_make_a_request_where_they_are_complete() {
    assert_eq!(
        request_of_claims(&claims(5)).unwrap().to_text(),
        r#"{"id":7,"jsonrpc":"2.0","method":"rpsee_ttl","params":[]}"#
    );
    for missing in ["id", "jsonrpc", "method", "params", "exp"] {
        let complete = claims(5);
        let mut rest = Json::object();
        for key in ["id", "jsonrpc", "method", "params", "exp"] {
            if key != missing {
                rest.insert(key, complete.member(key));
            }
        }
        assert!(request_of_claims(&rest).is_none(), "{missing}");
    }
    assert!(request_of_claims(&claims(5).put("exp", json("1.5"))).is_none());
    assert_eq!(
        request_of_claims(&json(r#"["x","1.0","rpsee_ttl",[1],5]"#))
            .unwrap()
            .to_text(),
        r#"{"id":"x","jsonrpc":"2.0","method":"rpsee_ttl","params":[1]}"#
    );
    for other in [r#"["x","1.0","rpsee_ttl",[1]]"#, "[]", "null", r#""text""#] {
        assert!(request_of_claims(&json(other)).is_none());
    }
    assert!(matches!(authorize("a.b.c", None), AdminAccess::Refuse(_)));
    assert!(matches!(
        authorize("a.b.c", Some(claims(5))),
        AdminAccess::Accept(_)
    ));
}

fn base64(bytes: &[u8]) -> String {
    let alphabet = b"ABCDEFGHIJKLMNOPQRSTUVWXYZabcdefghijklmnopqrstuvwxyz0123456789-_";
    let mut text = String::new();
    for group in bytes.chunks(3) {
        let mut bits: u32 = 0;
        for place in 0..3 {
            bits = bits * 256 + group.get(place).copied().unwrap_or(0) as u32;
        }
        for place in 0..group.len() + 1 {
            text.push(alphabet[(bits >> (18 - 6 * place)) as usize % 64] as char);
        }
    }
    text
}

fn signed(claims: &str) -> String {
    let message = format!(
        "{}.{}",
        base64(br#"{"typ":"JWT","alg":"HS256"}"#),
        base64(claims.as_bytes())
    );
    let signature = jsonwebtoken::crypto::sign(
        message.as_bytes(),
        &jsonwebtoken::EncodingKey::from_secret(b"some-key"),
        jsonwebtoken::Algorithm::HS256,
    )
    .unwrap();
    format!("{message}.{signature}")
}

#[test]
fn tokens_that_repeat_a_claim_are_refused() {
    let whole = r#""id":7,"jsonrpc":"2.0","method":"rpsee_ttl","params":[],"exp":4000000000"#;
    for accepted in [
        format!("{{{whole}}}"),
        format!(" {{ {whole} , \"other\" : {{ \"id\" : 1 , \"id\" : 2 }} }} "),
        format!("{{{whole},\"other\":1,\"other\":\"id\"}}"),
        format!("{{{whole},\"a\":[\"id\",\"method\"],\"b\":\"\\\"id\\\":\"}}"),
        format!("{{{whole},\"Id\":1,\"\":2,\"i\\\\\":3}}"),
        format!("{{{whole},\"large\":123456789012345678901234567890}}"),
    ] {
        let token = signed(&accepted);
        assert!(!has_repeated_claim(&token), "{accepted}");
        match access(&Json::object().put("token", Json::Text(token))) {
            AdminAccess::Accept(request) => assert_eq!(
                request.to_text(),
                r#"{"id":7,"jsonrpc":"2.0","method":"rpsee_ttl","params":[]}"#
            ),
            AdminAccess::Refuse(_) => panic!("{accepted}"),
        }
    }
    for refused in [
        format!("{{{whole},\"id\":7}}"),
        format!("{{\"id\" \n: 8,{whole}}}"),
        format!("{{{whole},\"\\u0069d\":7}}"),
        format!("{{{whole},\"jsonrpc\":\"2.0\"}}"),
        format!("{{{whole},\"method\":\"rpsee_quit\"}}"),
        format!("{{{whole},\"params\":[1]}}"),
        format!("{{{whole},\"exp\":4000000001}}"),
        format!("{{{whole},\"large\":123456789012345678901234567890,\"id\":7}}"),
    ] {
        let token = signed(&refused);
        assert!(has_repeated_claim(&token), "{refused}");
        match access(&Json::object().put("token", Json::Text(token.clone()))) {
            AdminAccess::Refuse(reply) => {
                assert_eq!(reply.status, 401);
                assert_eq!(reply.body, "Unauthorized or invalid token");
            }
            AdminAccess::Accept(_) => panic!("{refused}"),
        }
        assert!(matches!(
            authorize(&token, Some(claims(5))),
            AdminAccess::Refuse(_)
        ));
    }
    for token in ["", "a", "a.b", "..", "a.!.c", "a.b.c", "a.bcdef.g"] {
        assert!(!has_repeated_claim(token));
    }
}

#[test]
fn tokens_are_taken_out_of_their_quotes() {
    assert_eq!(token_text(&json(r#"{"token":"a.b.c"}"#)), "a.b.c");
    assert_eq!(token_text(&json("{}")), "null");
    assert_eq!(token_text(&json(r#"{"token":""}"#)), "");
}

#[test]
fn the_settings_at_the_start_are_shown() {
    let mut started = create_test_settings_config();
    started.ttl = 300;
    let mut config = create_test_settings_config();
    config.ttl = 300;
    let mut reply = |tx: Json| {
        reply_of(execute_method(
            &tx,
            &mut vec![],
            &mut vec![],
            &mut config,
            &started,
        ))
    };
    reply(call_with(RpseeRpcMethod::SetTtl, "[9001]"));
    reply(call_with(RpseeRpcMethod::SetHealthCheckTtl, "[7]"));
    assert_eq!(
        json(&reply(call(RpseeRpcMethod::Ttl))).member("result").as_u64(),
        Some(9001)
    );
    let shown = json(&reply(call(RpseeRpcMethod::Config))).member("result");
    assert_eq!(shown.member("ttl").as_u64(), Some(300));
    assert_eq!(shown.member("health_check_ttl").as_u64(), Some(2000));
}

#[test]
fn the_address_of_a_removed_node_is_told() {
    let mut rpcs = vec![
        rpc("https://example.com/1", 1, 1),
        rpc("https://example.com/2", 1, 1),
    ];
    let reply = admin_remove_rpc(&mut rpcs, json("[0]").as_array());
    assert!(reply.is_ok_and(|reply| {
        reply.member("result").as_str() == Some("https://example.com/1")
    }));
    assert_eq!(rpcs.len(), 1);
    assert_eq!(rpcs[0].get_url().as_str(), "https://example.com/2");
}
