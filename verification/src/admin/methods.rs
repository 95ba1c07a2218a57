//! The methods of the admin interface.

use crate::admin::error::AdminError;
use crate::config::settings::Settings;
use crate::json::{empty_object, integer, items_view, Json, JsonView, Numeric};
use crate::number::{decimal, decimal_text};
use crate::rpc::endpoint::{url_of, Endpoint, EndpointView};
use crate::rpc::types::{endpoint_view, new_rpc, rpcs_view, Rpc, RpcView};
use crate::text::same;
use vstd::prelude::*;

verus! {

/// A method that is none of the admin interface.
pub struct Error<Method> {
    method: Method,
}

impl<Method> Error<Method> {
    /// What stood in place of a method.
    pub closed spec fn method(&self) -> Method {
        self.method
    }

    pub fn new(method: Method) -> (error: Self)
        ensures
            error.method() == method,
    {
        Error { method }
    }
}

/// How `Debug` writes an optional text.
pub uninterp spec fn debug_text(text: Option<Seq<char>>) -> Seq<char>;

/// What an optional text says.
pub open spec fn text_view(text: Option<String>) -> Option<Seq<char>> {
    match text {
        Some(text) => Some(text@),
        None => None,
    }
}

/// `format!` with `{:?}` on an `Option<String>`: what is written is a function of the text.
#[verifier::external_body]
fn debug(text: &Option<String>) -> (written: String)
    ensures
        written@ == debug_text(text_view(*text)),
{
    format!("{:?}", text)
}

/// A list of texts over several lines, each in quotes.
pub open spec fn listing(names: Seq<Seq<char>>) -> Seq<char>
    decreases names.len(),
{
    if names.len() == 0 {
        "[\n"@
    } else {
        listing(names.drop_last()) + "    \""@ + names.last() + "\",\n"@
    }
}

/// What is said of a method that is none of the admin interface; `got` is how it is written.
pub open spec fn unknown_method_text(got: Seq<char>) -> Seq<char> {
    "failed to convert method to `RpseeRpcMethod`:\n\ngot: "@ + got + "\nexpected:\n"@ + listing(
        RpseeRpcMethod::names(),
    ) + "]"@
}

/// What is said of a method that is none of the admin interface; `got` is how it is written.
pub fn unknown_method(got: &str) -> (text: String)
    ensures
        text@ == unknown_method_text(got@),
{
    let mut list: String = "[\n".to_owned();
    let names = RpseeRpcMethod::all();
    let ghost views = RpseeRpcMethod::names();
    let mut i: usize = 0;
    while i < names.len()
        invariant
            i <= names@.len(),
            names@.len() == views.len(),
            forall|j: int| 0 <= j < names@.len() ==> (#[trigger] names@[j])@ == views[j],
            list@ == listing(views.take(i as int)),
        decreases names@.len() - i,
    {
        proof {
            assert(views.take(i + 1).drop_last() =~= views.take(i as int));
        }
        list.append("    \"");
        list.append(names[i]);
        list.append("\",\n");
        i = i + 1;
    }
    proof {
        assert(views.take(i as int) =~= views);
    }
    "failed to convert method to `RpseeRpcMethod`:\n\ngot: ".to_owned().concat(got).concat(
        "\nexpected:\n",
    ).concat(list.as_str()).concat("]")
}

impl Error<Option<String>> {
    pub open spec fn text(self) -> Seq<char> {
        unknown_method_text(debug_text(text_view(self.method())))
    }

    /// What is wrong, in words.
    pub fn message(&self) -> (text: String)
        ensures
            text@ == self.text(),
    {
        unknown_method(debug(&self.method).as_str())
    }
}

/// A method of the admin interface.
#[derive(Debug, Clone, Copy, PartialEq, Eq, Structural)]
pub enum RpseeRpcMethod {
    Quit,
    RpcList,
    FlushCache,
    Config,
    PovertyList,
    Ttl,
    HealthCheckTtl,
    SetTtl,
    SetHealthCheckTtl,
    AddToRpcList,
    AddToPovertyList,
    RemoveFromRpcList,
    RemoveFromPovertyList,
}

impl RpseeRpcMethod {
    /// The name of the method.
    pub open spec fn name(self) -> Seq<char> {
        match self {
            RpseeRpcMethod::Quit => "rpsee_quit"@,
            RpseeRpcMethod::RpcList => "rpsee_rpc_list"@,
            RpseeRpcMethod::FlushCache => "rpsee_flush_cache"@,
            RpseeRpcMethod::Config => "rpsee_config"@,
            RpseeRpcMethod::PovertyList => "rpsee_poverty_list"@,
            RpseeRpcMethod::Ttl => "rpsee_ttl"@,
            RpseeRpcMethod::HealthCheckTtl => "rpsee_health_check_ttl"@,
            RpseeRpcMethod::SetTtl => "rpsee_set_ttl"@,
            RpseeRpcMethod::SetHealthCheckTtl => "rpsee_set_health_check_ttl"@,
            RpseeRpcMethod::AddToRpcList => "rpsee_add_to_rpc_list"@,
            RpseeRpcMethod::AddToPovertyList => "rpsee_add_to_poverty_list"@,
            RpseeRpcMethod::RemoveFromRpcList => "rpsee_remove_from_rpc_list"@,
            RpseeRpcMethod::RemoveFromPovertyList => "rpsee_remove_from_poverty_list"@,
        }
    }

    /// The names of all methods.
    pub open spec fn names() -> Seq<Seq<char>> {
        seq![
            RpseeRpcMethod::Quit.name(),
            RpseeRpcMethod::RpcList.name(),
            RpseeRpcMethod::FlushCache.name(),
            RpseeRpcMethod::Config.name(),
            RpseeRpcMethod::PovertyList.name(),
            RpseeRpcMethod::Ttl.name(),
            RpseeRpcMethod::HealthCheckTtl.name(),
            RpseeRpcMethod::SetTtl.name(),
            RpseeRpcMethod::SetHealthCheckTtl.name(),
            RpseeRpcMethod::AddToRpcList.name(),
            RpseeRpcMethod::AddToPovertyList.name(),
            RpseeRpcMethod::RemoveFromRpcList.name(),
            RpseeRpcMethod::RemoveFromPovertyList.name(),
        ]
    }

    /// The names of all methods.
    pub fn all() -> (names: Vec<&'static str>)
        ensures
            names@.len() == RpseeRpcMethod::names().len(),
            forall|i: int|
                0 <= i < names@.len() ==> (#[trigger] names@[i])@ == RpseeRpcMethod::names()[i],
    {
        let mut names: Vec<&'static str> = Vec::new();
        names.push(RpseeRpcMethod::Quit.as_str());
        names.push(RpseeRpcMethod::RpcList.as_str());
        names.push(RpseeRpcMethod::FlushCache.as_str());
        names.push(RpseeRpcMethod::Config.as_str());
        names.push(RpseeRpcMethod::PovertyList.as_str());
        names.push(RpseeRpcMethod::Ttl.as_str());
        names.push(RpseeRpcMethod::HealthCheckTtl.as_str());
        names.push(RpseeRpcMethod::SetTtl.as_str());
        names.push(RpseeRpcMethod::SetHealthCheckTtl.as_str());
        names.push(RpseeRpcMethod::AddToRpcList.as_str());
        names.push(RpseeRpcMethod::AddToPovertyList.as_str());
        names.push(RpseeRpcMethod::RemoveFromRpcList.as_str());
        names.push(RpseeRpcMethod::RemoveFromPovertyList.as_str());
        names
    }

    /// The name of the method.
    pub fn as_str(&self) -> (name: &'static str)
        ensures
            name@ == self.name(),
    {
        match self {
            RpseeRpcMethod::Quit => "rpsee_quit",
            RpseeRpcMethod::RpcList => "rpsee_rpc_list",
            RpseeRpcMethod::FlushCache => "rpsee_flush_cache",
            RpseeRpcMethod::Config => "rpsee_config",
            RpseeRpcMethod::PovertyList => "rpsee_poverty_list",
            RpseeRpcMethod::Ttl => "rpsee_ttl",
            RpseeRpcMethod::HealthCheckTtl => "rpsee_health_check_ttl",
            RpseeRpcMethod::SetTtl => "rpsee_set_ttl",
            RpseeRpcMethod::SetHealthCheckTtl => "rpsee_set_health_check_ttl",
            RpseeRpcMethod::AddToRpcList => "rpsee_add_to_rpc_list",
            RpseeRpcMethod::AddToPovertyList => "rpsee_add_to_poverty_list",
            RpseeRpcMethod::RemoveFromRpcList => "rpsee_remove_from_rpc_list",
            RpseeRpcMethod::RemoveFromPovertyList => "rpsee_remove_from_poverty_list",
        }
    }

    /// Whether the method changes something.
    pub open spec fn writes(self) -> bool {
        match self {
            RpseeRpcMethod::RpcList => false,
            RpseeRpcMethod::Config => false,
            RpseeRpcMethod::PovertyList => false,
            RpseeRpcMethod::Ttl => false,
            RpseeRpcMethod::HealthCheckTtl => false,
            _ => true,
        }
    }

    /// The method with a name.
    pub fn try_from(value: Option<&str>) -> (method: Result<
        RpseeRpcMethod,
        Error<Option<String>>,
    >)
        ensures
            match method {
                Ok(method) => value is Some && method_named(value->0@) == Some(method),
                Err(error) => {
                    &&& value is None || method_named(value->0@) is None
                    &&& text_view(error.method()) == match value {
                        Some(name) => Some(name@),
                        None => None,
                    }
                },
            },
    {
        let name = match value {
            Some(name) => name,
            None => {
                return Err(Error::new(None));
            },
        };
        if same(name, "rpsee_quit") {
            Ok(RpseeRpcMethod::Quit)
        } else if same(name, "rpsee_rpc_list") {
            Ok(RpseeRpcMethod::RpcList)
        } else if same(name, "rpsee_flush_cache") {
            Ok(RpseeRpcMethod::FlushCache)
        } else if same(name, "rpsee_config") {
            Ok(RpseeRpcMethod::Config)
        } else if same(name, "rpsee_poverty_list") {
            Ok(RpseeRpcMethod::PovertyList)
        } else if same(name, "rpsee_ttl") {
            Ok(RpseeRpcMethod::Ttl)
        } else if same(name, "rpsee_health_check_ttl") {
            Ok(RpseeRpcMethod::HealthCheckTtl)
        } else if same(name, "rpsee_set_ttl") {
            Ok(RpseeRpcMethod::SetTtl)
        } else if same(name, "rpsee_set_health_check_ttl") {
            Ok(RpseeRpcMethod::SetHealthCheckTtl)
        } else if same(name, "rpsee_add_to_rpc_list") {
            Ok(RpseeRpcMethod::AddToRpcList)
        } else if same(name, "rpsee_add_to_poverty_list") {
            Ok(RpseeRpcMethod::AddToPovertyList)
        } else if same(name, "rpsee_remove_from_rpc_list") {
            Ok(RpseeRpcMethod::RemoveFromRpcList)
        } else if same(name, "rpsee_remove_from_poverty_list") {
            Ok(RpseeRpcMethod::RemoveFromPovertyList)
        } else {
            Err(Error::new(Some(name.to_owned())))
        }
    }
}

/// The method with a name.
pub open spec fn method_named(name: Seq<char>) -> Option<RpseeRpcMethod> {
    if name == RpseeRpcMethod::Quit.name() {
        Some(RpseeRpcMethod::Quit)
    } else if name == RpseeRpcMethod::RpcList.name() {
        Some(RpseeRpcMethod::RpcList)
    } else if name == RpseeRpcMethod::FlushCache.name() {
        Some(RpseeRpcMethod::FlushCache)
    } else if name == RpseeRpcMethod::Config.name() {
        Some(RpseeRpcMethod::Config)
    } else if name == RpseeRpcMethod::PovertyList.name() {
        Some(RpseeRpcMethod::PovertyList)
    } else if name == RpseeRpcMethod::Ttl.name() {
        Some(RpseeRpcMethod::Ttl)
    } else if name == RpseeRpcMethod::HealthCheckTtl.name() {
        Some(RpseeRpcMethod::HealthCheckTtl)
    } else if name == RpseeRpcMethod::SetTtl.name() {
        Some(RpseeRpcMethod::SetTtl)
    } else if name == RpseeRpcMethod::SetHealthCheckTtl.name() {
        Some(RpseeRpcMethod::SetHealthCheckTtl)
    } else if name == RpseeRpcMethod::AddToRpcList.name() {
        Some(RpseeRpcMethod::AddToRpcList)
    } else if name == RpseeRpcMethod::AddToPovertyList.name() {
        Some(RpseeRpcMethod::AddToPovertyList)
    } else if name == RpseeRpcMethod::RemoveFromRpcList.name() {
        Some(RpseeRpcMethod::RemoveFromRpcList)
    } else if name == RpseeRpcMethod::RemoveFromPovertyList.name() {
        Some(RpseeRpcMethod::RemoveFromPovertyList)
    } else {
        None
    }
}

/// The method that a request calls.
pub open spec fn requested_method(request: JsonView) -> Option<RpseeRpcMethod> {
    match request.member("method"@).text() {
        Some(name) => method_named(name),
        None => None,
    }
}

/// A reply with a result. The id of the request takes the place of null later.
pub open spec fn result_reply(result: JsonView) -> JsonView {
    empty_object().with("id"@, JsonView::Null).with("jsonrpc"@, JsonView::Text("2.0"@)).with(
        "result"@,
        result,
    )
}

fn reply(result: Json) -> (reply: Json)
    ensures
        reply@ == result_reply(result@),
{
    Json::object().put("id", Json::Null).put("jsonrpc", Json::text("2.0")).put("result", result)
}

/// The reply once the cache has been flushed, `elapsed` being how long it took, in words.
pub fn admin_flush_cache(elapsed: &str) -> (reply: Json)
    ensures
        reply@ == result_reply(JsonView::Text("Cache flushed in "@ + elapsed@)),
{
    self::reply(Json::Text("Cache flushed in ".to_owned().concat(elapsed)))
}

/// What the settings say, as far as they are shown.
pub open spec fn config_view(config: Settings) -> JsonView {
    empty_object().with("address"@, JsonView::Text(config.address@)).with(
        "do_clear"@,
        JsonView::Bool(config.do_clear),
    ).with("health_check"@, JsonView::Bool(config.health_check)).with(
        "admin"@,
        empty_object().with("enabled"@, JsonView::Bool(config.admin.enabled)).with(
            "readonly"@,
            JsonView::Bool(config.admin.readonly),
        ),
    ).with("ttl"@, integer(config.ttl as int)).with(
        "health_check_ttl"@,
        integer(config.health_check_ttl as int),
    )
}

/// Shows the settings that the balancer was started with.
pub fn admin_config(started: &Settings) -> (reply: Json)
    requires
        started.ttl <= u64::MAX,
    ensures
        reply@ == result_reply(config_view(*started)),
{
    let admin = Json::object().put("enabled", Json::Bool(started.admin.enabled)).put(
        "readonly",
        Json::Bool(started.admin.readonly),
    );
    let shown = Json::object().put("address", Json::text(started.address.as_str())).put(
        "do_clear",
        Json::Bool(started.do_clear),
    ).put("health_check", Json::Bool(started.health_check)).put("admin", admin).put(
        "ttl",
        Json::unsigned(started.ttl as u64),
    ).put("health_check_ttl", Json::unsigned(started.health_check_ttl));
    reply(shown)
}

/// What is shown of a node.
pub open spec fn entry_view(rpc: RpcView) -> JsonView {
    empty_object().with("name"@, JsonView::Text(rpc.name)).with(
        "max_consecutive"@,
        integer(rpc.max_consecutive as int),
    ).with("last_error"@, integer(rpc.status.last_error as int))
}

/// What is shown of the nodes of a list.
pub open spec fn list_view(rpcs: Seq<RpcView>) -> JsonView {
    JsonView::Array(Seq::new(rpcs.len(), |i: int| entry_view(rpcs[i])))
}

/// Lists nodes.
pub fn admin_list_rpc(rpc_list: &Vec<Rpc>) -> (reply: Json)
    ensures
        reply@ == result_reply(list_view(rpcs_view(rpc_list@))),
{
    let mut entries: Vec<Json> = Vec::new();
    let mut i: usize = 0;
    while i < rpc_list.len()
        invariant
            i <= rpc_list@.len(),
            entries@.len() == i,
            forall|j: int|
                0 <= j < i ==> (#[trigger] entries@[j])@ == entry_view(rpc_list@[j]@),
        decreases rpc_list@.len() - i,
    {
        let rpc = &rpc_list[i];
        entries.push(
            Json::object().put("name", Json::text(rpc.name())).put(
                "max_consecutive",
                Json::unsigned(rpc.max_consecutive() as u64),
            ).put("last_error", Json::unsigned(rpc.last_error())),
        );
        i = i + 1;
    }
    proof {
        assert(items_view(entries@) =~= list_view(rpcs_view(rpc_list@))->Array_0);
    }
    reply(Json::array(entries))
}

/// The address that a parameter names, where its scheme is one of two and it has a host.
pub open spec fn address_in(
    param: JsonView,
    scheme: Seq<char>,
    secure: Seq<char>,
) -> Option<EndpointView> {
    match param.text() {
        Some(text) => match url_of(text) {
            Some(url) => if (url.scheme == scheme || url.scheme == secure) && url.host is Some {
                Some(url)
            } else {
                None
            },
            None => None,
        },
        None => None,
    }
}

fn address(param: &Json, scheme: &str, secure: &str) -> (url: Option<Endpoint>)
    ensures
        endpoint_view(url) == address_in(param@, scheme@, secure@),
{
    match param.as_str() {
        Some(text) => match Endpoint::parse(text) {
            Some(url) => if (same(url.scheme(), scheme) || same(url.scheme(), secure))
                && url.has_host() {
                Some(url)
            } else {
                None
            },
            None => None,
        },
        None => None,
    }
}

/// The latency window that a parameter asks for, and how it is written: a number from one to the
/// most that a `u32` holds, of which the whole part counts.
pub open spec fn window_in(param: JsonView) -> Option<(u64, Seq<char>)> {
    match param {
        JsonView::Number(Numeric::Unsigned(n)) => if 1 <= n <= u32::MAX {
            Some((n, decimal_text(n as nat)))
        } else {
            None
        },
        JsonView::Number(Numeric::Fraction(d)) => match d.amount() {
            Some((whole, text)) => if 1 <= whole && (whole < u32::MAX || (whole == u32::MAX && text
                == "4294967295"@)) {
                Some((whole, text))
            } else {
                None
            },
            None => None,
        },
        _ => None,
    }
}

fn latency_window(param: &Json) -> (window: Option<(u64, String)>)
    ensures
        match window {
            Some((length, text)) => window_in(param@) == Some((length, text@)),
            None => window_in(param@) is None,
        },
{
    match param {
        Json::Number(Numeric::Unsigned(n)) => if 1 <= *n && *n <= u32::MAX as u64 {
            Some((*n, decimal(*n)))
        } else {
            None
        },
        Json::Number(Numeric::Negative(n)) => if 1 <= *n && *n <= u32::MAX as i64 {
            Some((*n as u64, decimal(*n as u64)))
        } else {
            None
        },
        Json::Number(Numeric::Fraction(d)) => match d.size() {
            Some((whole, text)) => if 1 <= whole && (whole < u32::MAX as u64 || (whole
                == u32::MAX as u64 && same(text.as_str(), "4294967295"))) {
                Some((whole, text))
            } else {
                None
            },
            None => None,
        },
        _ => None,
    }
}

/// How many microseconds lie between two calls at `rate` calls a second; none at no limit.
pub open spec fn time_delta(rate: u64) -> u128 {
    if rate == 0 {
        0
    } else {
        (1_000_000u64 / rate) as u128
    }
}

/// The node that five parameters describe, and how its latency window is written: address,
/// address of the WebSocket or null, calls in a row, calls a second, latency window.
pub open spec fn described_rpc(params: Seq<JsonView>) -> Option<(RpcView, Seq<char>)> {
    let url = address_in(params[0], "http"@, "https"@);
    let ws_url = address_in(params[1], "ws"@, "wss"@);
    match (url, params[2].unsigned(), params[3].unsigned(), window_in(params[4])) {
        (Some(url), Some(max), Some(rate), Some((length, text))) => if (params[1] is Null || ws_url
            is Some) && max <= u32::MAX {
            Some(
                (
                    new_rpc(
                        url,
                        if params[1] is Null {
                            None
                        } else {
                            ws_url
                        },
                        max as u32,
                        time_delta(rate),
                        length,
                    ),
                    text,
                ),
            )
        } else {
            None
        },
        _ => None,
    }
}

/// What an optional list of parameters says.
pub open spec fn params_view(params: Option<&Vec<Json>>) -> Option<Seq<JsonView>> {
    match params {
        Some(params) => Some(items_view(params@)),
        None => None,
    }
}

/// Whether a result is the reply `reply`.
pub open spec fn grants(result: Result<Json, AdminError>, reply: JsonView) -> bool {
    result matches Ok(value) && value@ == reply
}

/// Adding a node to a list: the list afterwards, and what it is answered.
pub open spec fn adds(
    before: Seq<RpcView>,
    after: Seq<RpcView>,
    params: Option<Seq<JsonView>>,
    result: Result<Json, AdminError>,
) -> bool {
    match params {
        None => after == before && result == Err::<Json, AdminError>(AdminError::InvalidParams),
        Some(params) => if params.len() != 5 {
            after == before && result == Err::<Json, AdminError>(AdminError::InvalidLen)
        } else {
            match described_rpc(params) {
                None => after == before && result == Err::<Json, AdminError>(
                    AdminError::ParseError,
                ),
                Some((rpc, window)) => {
                    &&& after == before.push(rpc)
                    &&& grants(
                        result,
                        result_reply(
                            JsonView::Text(
                                "RPC: "@ + rpc.name + ", max_consecutive: "@ + decimal_text(
                                    rpc.max_consecutive as nat,
                                ) + ", ma: "@ + window,
                            ),
                        ),
                    )
                },
            }
        },
    }
}

/// Adds a node to a list. Parameters: address, address of the WebSocket or null, calls in a row,
/// calls a second, latency window.
pub fn admin_add_rpc(rpc_list: &mut Vec<Rpc>, params: Option<&Vec<Json>>) -> (result: Result<
    Json,
    AdminError,
>)
    ensures
        adds(
            rpcs_view(old(rpc_list)@),
            rpcs_view(final(rpc_list)@),
            params_view(params),
            result,
        ),
{
    let params = match params {
        Some(params) => params,
        None => {
            return Err(AdminError::InvalidParams);
        },
    };
    if params.len() != 5 {
        return Err(AdminError::InvalidLen);
    }
    let ghost views = items_view(params@);
    proof {
        assert(views[0] == params@[0]@ && views[1] == params@[1]@ && views[2] == params@[2]@
            && views[3] == params@[3]@ && views[4] == params@[4]@);
    }
    let url = match address(&params[0], "http", "https") {
        Some(url) => url,
        None => {
            return Err(AdminError::ParseError);
        },
    };
    let ws_url = if params[1].is_null() {
        None
    } else {
        match address(&params[1], "ws", "wss") {
            Some(url) => Some(url),
            None => {
                return Err(AdminError::ParseError);
            },
        }
    };
    let max_consecutive: u32 = match params[2].as_u64() {
        Some(n) => if n <= u32::MAX as u64 {
            n as u32
        } else {
            return Err(AdminError::ParseError);
        },
        None => {
            return Err(AdminError::ParseError);
        },
    };
    let rate: u64 = match params[3].as_u64() {
        Some(rate) => rate,
        None => {
            return Err(AdminError::ParseError);
        },
    };
    let (ma_length, ma_text) = match latency_window(&params[4]) {
        Some(window) => window,
        None => {
            return Err(AdminError::ParseError);
        },
    };
    let delta: u128 = if rate == 0 {
        0
    } else {
        (1_000_000u64 / rate) as u128
    };
    let ghost before = rpcs_view(rpc_list@);
    let rpc = Rpc::new(url, ws_url, max_consecutive, delta, ma_length);
    let text = "RPC: ".to_owned().concat(rpc.name()).concat(", max_consecutive: ").concat(
        decimal(max_consecutive as u64).as_str(),
    ).concat(", ma: ").concat(ma_text.as_str());
    rpc_list.push(rpc);
    proof {
        assert(rpcs_view(rpc_list@) =~= before.push(rpc@));
    }
    Ok(reply(Json::Text(text)))
}

/// Removing a node from a list: the list afterwards, and what it is answered.
pub open spec fn removes(
    before: Seq<RpcView>,
    after: Seq<RpcView>,
    params: Option<Seq<JsonView>>,
    result: Result<Json, AdminError>,
) -> bool {
    match params {
        None => after == before && result == Err::<Json, AdminError>(AdminError::InvalidParams),
        Some(params) => if params.len() != 1 {
            after == before && result == Err::<Json, AdminError>(AdminError::InvalidLen)
        } else {
            match params[0].unsigned() {
                None => after == before && result == Err::<Json, AdminError>(
                    AdminError::ParseError,
                ),
                Some(index) => if index > usize::MAX {
                    after == before && result == Err::<Json, AdminError>(AdminError::ParseError)
                } else if index >= before.len() {
                    after == before && result == Err::<Json, AdminError>(AdminError::OutOfBounds)
                } else {
                    &&& after == before.remove(index as int)
                    &&& grants(result, result_reply(JsonView::Text(before[index as int].url.text)))
                },
            }
        },
    }
}

/// Removes the node at an index from a list, and answers with its address: names do not tell nodes
/// of one host apart. Parameter: the index.
pub fn admin_remove_rpc(rpc_list: &mut Vec<Rpc>, params: Option<&Vec<Json>>) -> (result: Result<
    Json,
    AdminError,
>)
    ensures
        removes(
            rpcs_view(old(rpc_list)@),
            rpcs_view(final(rpc_list)@),
            params_view(params),
            result,
        ),
{
    let params = match params {
        Some(params) => params,
        None => {
            return Err(AdminError::InvalidParams);
        },
    };
    if params.len() != 1 {
        return Err(AdminError::InvalidLen);
    }
    let ghost views = items_view(params@);
    proof {
        assert(views[0] == params@[0]@);
    }
    let index: usize = match params[0].as_u64() {
        Some(index) => if index <= usize::MAX as u64 {
            index as usize
        } else {
            return Err(AdminError::ParseError);
        },
        None => {
            return Err(AdminError::ParseError);
        },
    };
    if index >= rpc_list.len() {
        return Err(AdminError::OutOfBounds);
    }
    let ghost before = rpcs_view(rpc_list@);
    let removed = rpc_list.remove(index);
    proof {
        assert(rpcs_view(rpc_list@) =~= before.remove(index as int));
    }
    Ok(reply(Json::text(removed.get_url().as_str())))
}

/// Shows how many milliseconds pass between two health checks.
pub fn admin_rpsee_health_check_ttl(config: &Settings) -> (reply: Json)
    ensures
        reply@ == result_reply(integer(config.health_check_ttl as int)),
{
    self::reply(Json::unsigned(config.health_check_ttl))
}

/// Shows how many milliseconds a request may take.
pub fn admin_rpsee_ttl(config: &Settings) -> (reply: Json)
    requires
        config.ttl <= u64::MAX,
    ensures
        reply@ == result_reply(integer(config.ttl as int)),
{
    self::reply(Json::unsigned(config.ttl as u64))
}

/// The number that a list of one parameter holds, or what is wrong with it.
pub open spec fn only_number(params: Option<Seq<JsonView>>) -> Result<u64, AdminError> {
    match params {
        None => Err(AdminError::InvalidParams),
        Some(params) => if params.len() != 1 {
            Err(AdminError::InvalidLen)
        } else {
            match params[0].unsigned() {
                Some(number) => Ok(number),
                None => Err(AdminError::ParseError),
            }
        },
    }
}

fn single_number(params: Option<&Vec<Json>>) -> (number: Result<u64, AdminError>)
    ensures
        number == only_number(params_view(params)),
{
    let params = match params {
        Some(params) => params,
        None => {
            return Err(AdminError::InvalidParams);
        },
    };
    if params.len() != 1 {
        return Err(AdminError::InvalidLen);
    }
    proof {
        assert(items_view(params@)[0] == params@[0]@);
    }
    match params[0].as_u64() {
        Some(number) => Ok(number),
        None => Err(AdminError::ParseError),
    }
}

/// Setting how many milliseconds pass between two health checks: the settings afterwards, and
/// what it is answered.
pub open spec fn sets_health_check_ttl(
    before: Settings,
    after: Settings,
    params: Option<Seq<JsonView>>,
    result: Result<Json, AdminError>,
) -> bool {
    match only_number(params) {
        Err(error) => after == before && result == Err::<Json, AdminError>(error),
        Ok(number) => if number == 0 {
            after == before && result == Err::<Json, AdminError>(AdminError::InvalidParams)
        } else {
            &&& after == (Settings { health_check_ttl: number, ..before })
            &&& grants(result, result_reply(integer(number as int)))
        },
    }
}

/// Sets how many milliseconds pass between two health checks. Parameter: that number, not zero.
pub fn admin_rpsee_set_health_check_ttl(config: &mut Settings, params: Option<&Vec<Json>>) -> (
result: Result<Json, AdminError>)
    ensures
        sets_health_check_ttl(*old(config), *final(config), params_view(params), result),
{
    match single_number(params) {
        Err(error) => Err(error),
        Ok(number) => {
            if number == 0 {
                return Err(AdminError::InvalidParams);
            }
            config.health_check_ttl = number;
            Ok(reply(Json::unsigned(number)))
        },
    }
}

/// Setting how many milliseconds a request may take: the settings afterwards, and what it is
/// answered.
pub open spec fn sets_ttl(
    before: Settings,
    after: Settings,
    params: Option<Seq<JsonView>>,
    result: Result<Json, AdminError>,
) -> bool {
    match only_number(params) {
        Err(error) => after == before && result == Err::<Json, AdminError>(error),
        Ok(number) => {
            &&& after == (Settings { ttl: number as u128, ..before })
            &&& grants(result, result_reply(integer(number as int)))
        },
    }
}

/// Sets how many milliseconds a request may take. Parameter: that number.
pub fn admin_rpsee_set_ttl(config: &mut Settings, params: Option<&Vec<Json>>) -> (result: Result<
    Json,
    AdminError,
>)
    ensures
        sets_ttl(*old(config), *final(config), params_view(params), result),
{
    match single_number(params) {
        Err(error) => Err(error),
        Ok(number) => {
            config.ttl = number as u128;
            Ok(reply(Json::unsigned(number)))
        },
    }
}

/// What becomes of a request.
pub enum AdminOutcome {
    Reply(Json),
    /// Flush the cache, and then reply.
    Flush,
    /// Flush the cache and end.
    Quit,
}

/// Nodes and settings, as far as a request changes them.
pub struct AdminState {
    pub rpcs: Seq<RpcView>,
    pub poverty: Seq<RpcView>,
    pub config: Settings,
}

/// Whether an outcome is what a result says.
pub open spec fn outcome_of(
    outcome: Result<AdminOutcome, AdminError>,
    result: Result<Json, AdminError>,
) -> bool {
    match result {
        Ok(reply) => outcome == Ok::<AdminOutcome, AdminError>(AdminOutcome::Reply(reply)),
        Err(error) => outcome == Err::<AdminOutcome, AdminError>(error),
    }
}

/// The parameters of a request, where they are an array.
pub open spec fn params_of(request: JsonView) -> Option<Seq<JsonView>> {
    match request.member("params"@) {
        JsonView::Array(params) => Some(params),
        _ => None,
    }
}

/// Whether an outcome is a reply with `result`.
pub open spec fn shows(outcome: Result<AdminOutcome, AdminError>, result: JsonView) -> bool {
    outcome matches Ok(AdminOutcome::Reply(reply)) && reply@ == result_reply(result)
}

/// What a request does, and what it is answered, where the balancer was started with `started`.
pub open spec fn executes(
    request: JsonView,
    started: Settings,
    before: AdminState,
    after: AdminState,
    outcome: Result<AdminOutcome, AdminError>,
) -> bool {
    match requested_method(request) {
        None => {
            &&& after == before
            &&& outcome matches Err(AdminError::InvalidMethod(error)) && text_view(error.method())
                == request.member("method"@).text()
        },
        Some(method) => if method.writes() && before.config.admin.readonly {
            &&& after == before
            &&& outcome == Err::<AdminOutcome, AdminError>(AdminError::WriteProtectionEnabled)
        } else {
            allowed(method, params_of(request), started, before, after, outcome)
        },
    }
}

/// What an allowed method does, and what it is answered.
pub open spec fn allowed(
    method: RpseeRpcMethod,
    params: Option<Seq<JsonView>>,
    started: Settings,
    before: AdminState,
    after: AdminState,
    outcome: Result<AdminOutcome, AdminError>,
) -> bool {
    match method {
        RpseeRpcMethod::Quit => after == before && outcome == Ok::<AdminOutcome, AdminError>(
            AdminOutcome::Quit,
        ),
        RpseeRpcMethod::FlushCache => after == before && outcome == Ok::<AdminOutcome, AdminError>(
            AdminOutcome::Flush,
        ),
        RpseeRpcMethod::RpcList => after == before && shows(outcome, list_view(before.rpcs)),
        RpseeRpcMethod::PovertyList => after == before && shows(
            outcome,
            list_view(before.poverty),
        ),
        RpseeRpcMethod::Config => after == before && shows(outcome, config_view(started)),
        RpseeRpcMethod::Ttl => after == before && shows(
            outcome,
            integer(before.config.ttl as int),
        ),
        RpseeRpcMethod::HealthCheckTtl => after == before && shows(
            outcome,
            integer(before.config.health_check_ttl as int),
        ),
        RpseeRpcMethod::SetTtl => {
            &&& after.rpcs == before.rpcs
            &&& after.poverty == before.poverty
            &&& exists|result: Result<Json, AdminError>| #[trigger]
                outcome_of(outcome, result) && sets_ttl(
                    before.config,
                    after.config,
                    params,
                    result,
                )
        },
        RpseeRpcMethod::SetHealthCheckTtl => {
            &&& after.rpcs == before.rpcs
            &&& after.poverty == before.poverty
            &&& exists|result: Result<Json, AdminError>| #[trigger]
                outcome_of(outcome, result) && sets_health_check_ttl(
                    before.config,
                    after.config,
                    params,
                    result,
                )
        },
        RpseeRpcMethod::AddToRpcList => {
            &&& after.poverty == before.poverty
            &&& after.config == before.config
            &&& exists|result: Result<Json, AdminError>| #[trigger]
                outcome_of(outcome, result) && adds(before.rpcs, after.rpcs, params, result)
        },
        RpseeRpcMethod::AddToPovertyList => {
            &&& after.rpcs == before.rpcs
            &&& after.config == before.config
            &&& exists|result: Result<Json, AdminError>| #[trigger]
                outcome_of(outcome, result) && adds(
                    before.poverty,
                    after.poverty,
                    params,
                    result,
                )
        },
        RpseeRpcMethod::RemoveFromRpcList => {
            &&& after.poverty == before.poverty
            &&& after.config == before.config
            &&& exists|result: Result<Json, AdminError>| #[trigger]
                outcome_of(outcome, result) && removes(before.rpcs, after.rpcs, params, result)
        },
        RpseeRpcMethod::RemoveFromPovertyList => {
            &&& after.rpcs == before.rpcs
            &&& after.config == before.config
            &&& exists|result: Result<Json, AdminError>| #[trigger]
                outcome_of(outcome, result) && removes(
                    before.poverty,
                    after.poverty,
                    params,
                    result,
                )
        },
    }
}

fn outcome(result: Result<Json, AdminError>) -> (outcome: Result<AdminOutcome, AdminError>)
    ensures
        outcome_of(outcome, result),
{
    match result {
        Ok(reply) => Ok(AdminOutcome::Reply(reply)),
        Err(error) => Err(error),
    }
}

/// Does what a request asks for, unless it changes something and that is not allowed. `config`
/// holds the settings as they are now, `started` those that the balancer was started with.
pub fn execute_method(
    tx: &Json,
    rpc_list: &mut Vec<Rpc>,
    poverty_list: &mut Vec<Rpc>,
    config: &mut Settings,
    started: &Settings,
) -> (outcome: Result<AdminOutcome, AdminError>)
    requires
        requested_method(tx@) == Some(RpseeRpcMethod::Ttl) ==> old(config).ttl <= u64::MAX,
        requested_method(tx@) == Some(RpseeRpcMethod::Config) ==> started.ttl <= u64::MAX,
    ensures
        executes(
            tx@,
            *started,
            AdminState {
                rpcs: rpcs_view(old(rpc_list)@),
                poverty: rpcs_view(old(poverty_list)@),
                config: *old(config),
            },
            AdminState {
                rpcs: rpcs_view(final(rpc_list)@),
                poverty: rpcs_view(final(poverty_list)@),
                config: *final(config),
            },
            outcome,
        ),
{
    let name = match tx.get("method") {
        Some(name) => name.as_str(),
        None => None,
    };
    let method = match RpseeRpcMethod::try_from(name) {
        Ok(method) => method,
        Err(error) => {
            return Err(AdminError::InvalidMethod(error));
        },
    };
    let params = match tx.get("params") {
        Some(params) => params.as_array(),
        None => None,
    };
    let reads = match method {
        RpseeRpcMethod::RpcList => true,
        RpseeRpcMethod::Config => true,
        RpseeRpcMethod::PovertyList => true,
        RpseeRpcMethod::Ttl => true,
        RpseeRpcMethod::HealthCheckTtl => true,
        _ => false,
    };
    if !reads && config.admin.readonly {
        return Err(AdminError::WriteProtectionEnabled);
    }
    match method {
        RpseeRpcMethod::Quit => Ok(AdminOutcome::Quit),
        RpseeRpcMethod::FlushCache => Ok(AdminOutcome::Flush),
        RpseeRpcMethod::RpcList => Ok(AdminOutcome::Reply(admin_list_rpc(rpc_list))),
        RpseeRpcMethod::PovertyList => Ok(AdminOutcome::Reply(admin_list_rpc(poverty_list))),
        RpseeRpcMethod::Config => Ok(AdminOutcome::Reply(admin_config(started))),
        RpseeRpcMethod::Ttl => Ok(AdminOutcome::Reply(admin_rpsee_ttl(config))),
        RpseeRpcMethod::HealthCheckTtl => Ok(
            AdminOutcome::Reply(admin_rpsee_health_check_ttl(config)),
        ),
        RpseeRpcMethod::SetTtl => self::outcome(admin_rpsee_set_ttl(config, params)),
        RpseeRpcMethod::SetHealthCheckTtl => self::outcome(
            admin_rpsee_set_health_check_ttl(config, params),
        ),
        RpseeRpcMethod::AddToRpcList => self::outcome(admin_add_rpc(rpc_list, params)),
        RpseeRpcMethod::AddToPovertyList => self::outcome(admin_add_rpc(poverty_list, params)),
        RpseeRpcMethod::RemoveFromRpcList => self::outcome(admin_remove_rpc(rpc_list, params)),
        RpseeRpcMethod::RemoveFromPovertyList => self::outcome(
            admin_remove_rpc(poverty_list, params),
        ),
    }
}

/// Each method is found by its name.
pub proof fn law_methods_are_found_by_name(method: RpseeRpcMethod)
    ensures
        method_named(method.name()) == Some(method),
{
    reveal_strlit("rpsee_quit");
    reveal_strlit("rpsee_rpc_list");
    reveal_strlit("rpsee_flush_cache");
    reveal_strlit("rpsee_config");
    reveal_strlit("rpsee_poverty_list");
    reveal_strlit("rpsee_ttl");
    reveal_strlit("rpsee_health_check_ttl");
    reveal_strlit("rpsee_set_ttl");
    reveal_strlit("rpsee_set_health_check_ttl");
    reveal_strlit("rpsee_add_to_rpc_list");
    reveal_strlit("rpsee_add_to_poverty_list");
    reveal_strlit("rpsee_remove_from_rpc_list");
    reveal_strlit("rpsee_remove_from_poverty_list");
    assert("rpsee_quit"@.len() == 10);
    assert("rpsee_rpc_list"@.len() == 14);
    assert("rpsee_flush_cache"@.len() == 17);
    assert("rpsee_config"@.len() == 12);
    assert("rpsee_poverty_list"@.len() == 18);
    assert("rpsee_ttl"@.len() == 9);
    assert("rpsee_health_check_ttl"@.len() == 22);
    assert("rpsee_set_ttl"@.len() == 13);
    assert("rpsee_set_health_check_ttl"@.len() == 26);
    assert("rpsee_add_to_rpc_list"@.len() == 21);
    assert("rpsee_add_to_poverty_list"@.len() == 25);
    assert("rpsee_remove_from_rpc_list"@.len() == 26);
    assert("rpsee_remove_from_poverty_list"@.len() == 30);
    assert("rpsee_set_health_check_ttl"@[6] == 's');
    assert("rpsee_remove_from_rpc_list"@[6] == 'r');
}

/// While the interface is read-only, a request changes nothing, and each one that would is
/// refused.
pub proof fn law_readonly_changes_nothing(
    request: JsonView,
    started: Settings,
    before: AdminState,
    after: AdminState,
    outcome: Result<AdminOutcome, AdminError>,
)
    requires
        before.config.admin.readonly,
        executes(request, started, before, after, outcome),
    ensures
        after == before,
        requested_method(request) matches Some(method) && method.writes() ==> outcome == Err::<
            AdminOutcome,
            AdminError,
        >(AdminError::WriteProtectionEnabled),
{
}

/// A request that is refused changes nothing.
pub proof fn law_refused_requests_change_nothing(
    request: JsonView,
    started: Settings,
    before: AdminState,
    after: AdminState,
    outcome: Result<AdminOutcome, AdminError>,
)
    requires
        executes(request, started, before, after, outcome),
        outcome is Err,
    ensures
        after == before,
{
}

/// A time limit that was set is the one that is shown.
pub proof fn law_set_ttl_is_shown(
    set: JsonView,
    show: JsonView,
    started: Settings,
    before: AdminState,
    between: AdminState,
    after: AdminState,
    first: Result<AdminOutcome, AdminError>,
    second: Result<AdminOutcome, AdminError>,
)
    requires
        requested_method(set) == Some(RpseeRpcMethod::SetTtl),
        requested_method(show) == Some(RpseeRpcMethod::Ttl),
        executes(set, started, before, between, first),
        executes(show, started, between, after, second),
        first is Ok,
    ensures
        params_of(set) is Some,
        params_of(set)->0.len() == 1,
        params_of(set)->0[0].unsigned() is Some,
        shows(second, integer(params_of(set)->0[0].unsigned()->0 as int)),
{
}

/// Setting a time limit changes the one that is shown for requests, and not the settings that the
/// balancer was started with.
pub proof fn law_set_ttl_leaves_config(
    set: JsonView,
    show: JsonView,
    config: JsonView,
    started: Settings,
    before: AdminState,
    between: AdminState,
    after: AdminState,
    end: AdminState,
    first: Result<AdminOutcome, AdminError>,
    second: Result<AdminOutcome, AdminError>,
    third: Result<AdminOutcome, AdminError>,
)
    requires
        requested_method(set) == Some(RpseeRpcMethod::SetTtl),
        requested_method(show) == Some(RpseeRpcMethod::Ttl),
        requested_method(config) == Some(RpseeRpcMethod::Config),
        executes(set, started, before, between, first),
        executes(show, started, between, after, second),
        executes(config, started, after, end, third),
        first is Ok,
    ensures
        between.config.ttl == params_of(set)->0[0].unsigned()->0,
        shows(second, integer(between.config.ttl as int)),
        shows(third, config_view(started)),
{
}

/// A node that was added is the last one that is listed, after those that were listed before.
pub proof fn law_added_node_is_listed(
    add: JsonView,
    list: JsonView,
    started: Settings,
    before: AdminState,
    between: AdminState,
    after: AdminState,
    first: Result<AdminOutcome, AdminError>,
    second: Result<AdminOutcome, AdminError>,
)
    requires
        requested_method(add) == Some(RpseeRpcMethod::AddToRpcList),
        requested_method(list) == Some(RpseeRpcMethod::RpcList),
        executes(add, started, before, between, first),
        executes(list, started, between, after, second),
        first is Ok,
    ensures
        params_of(add) is Some,
        described_rpc(params_of(add)->0) matches Some((rpc, _)) && shows(
            second,
            JsonView::Array(list_view(before.rpcs)->Array_0.push(entry_view(rpc))),
        ),
{
    let params = params_of(add)->0;
    if let Some((rpc, _)) = described_rpc(params) {
        assert(list_view(before.rpcs.push(rpc))->Array_0 =~= list_view(before.rpcs)->Array_0.push(
            entry_view(rpc),
        ));
    }
}

/// Removing the node that was added last restores the list.
pub proof fn law_remove_undoes_add(
    before: Seq<RpcView>,
    between: Seq<RpcView>,
    after: Seq<RpcView>,
    add: Option<Seq<JsonView>>,
    remove: Option<Seq<JsonView>>,
    added: Result<Json, AdminError>,
    removed: Result<Json, AdminError>,
)
    requires
        adds(before, between, add, added),
        added is Ok,
        remove is Some,
        remove->0.len() == 1,
        remove->0[0].unsigned() is Some,
        remove->0[0].unsigned()->0 == before.len(),
        before.len() <= usize::MAX,
        removes(between, after, remove, removed),
    ensures
        removed is Ok,
        after == before,
{
    assert(between.remove(before.len() as int) =~= before);
}

/// Methods are found by their names: each name below is that of one method, and any other text, or
/// none, is that of no method and comes back with the error.
pub proof fn law_names_are_those_of_methods(
    value: Option<&str>,
    method: Result<RpseeRpcMethod, Error<Option<String>>>,
)
    requires
        call_ensures(RpseeRpcMethod::try_from, (value,), method),
    ensures
        method matches Ok(method) ==> value is Some && value->0@ == match method {
            RpseeRpcMethod::Quit => "rpsee_quit"@,
            RpseeRpcMethod::RpcList => "rpsee_rpc_list"@,
            RpseeRpcMethod::FlushCache => "rpsee_flush_cache"@,
            RpseeRpcMethod::Config => "rpsee_config"@,
            RpseeRpcMethod::PovertyList => "rpsee_poverty_list"@,
            RpseeRpcMethod::Ttl => "rpsee_ttl"@,
            RpseeRpcMethod::HealthCheckTtl => "rpsee_health_check_ttl"@,
            RpseeRpcMethod::SetTtl => "rpsee_set_ttl"@,
            RpseeRpcMethod::SetHealthCheckTtl => "rpsee_set_health_check_ttl"@,
            RpseeRpcMethod::AddToRpcList => "rpsee_add_to_rpc_list"@,
            RpseeRpcMethod::AddToPovertyList => "rpsee_add_to_poverty_list"@,
            RpseeRpcMethod::RemoveFromRpcList => "rpsee_remove_from_rpc_list"@,
            RpseeRpcMethod::RemoveFromPovertyList => "rpsee_remove_from_poverty_list"@,
        },
        method matches Err(error) ==> {
            &&& value is Some ==> {
                let name = value->0@;
                &&& error.method() is Some && error.method()->0@ == name
                &&& name != "rpsee_quit"@ && name != "rpsee_rpc_list"@ && name
                    != "rpsee_flush_cache"@ && name != "rpsee_config"@ && name
                    != "rpsee_poverty_list"@ && name != "rpsee_ttl"@ && name
                    != "rpsee_health_check_ttl"@ && name != "rpsee_set_ttl"@
                &&& name != "rpsee_set_health_check_ttl"@ && name != "rpsee_add_to_rpc_list"@
                    && name != "rpsee_add_to_poverty_list"@ && name
                    != "rpsee_remove_from_rpc_list"@ && name
                    != "rpsee_remove_from_poverty_list"@
            }
            &&& value is None ==> error.method() is None
        },
{
}

/// Each method shows the name that it is found by.
pub proof fn law_shown_name_finds_the_method(
    method: &RpseeRpcMethod,
    name: &'static str,
    value: &str,
    found: Result<RpseeRpcMethod, Error<Option<String>>>,
    names: Vec<&'static str>,
)
    requires
        call_ensures(RpseeRpcMethod::as_str, (method,), name),
        value@ == name@,
        call_ensures(RpseeRpcMethod::try_from, (Some(value),), found),
        call_ensures(RpseeRpcMethod::all, (), names),
    ensures
        found matches Ok(same) && same == *method,
        names@.len() == 13,
        exists|i: int| 0 <= i < names@.len() && (#[trigger] names@[i])@ == name@,
{
    law_methods_are_found_by_name(*method);
    let i: int = match *method {
        RpseeRpcMethod::Quit => 0,
        RpseeRpcMethod::RpcList => 1,
        RpseeRpcMethod::FlushCache => 2,
        RpseeRpcMethod::Config => 3,
        RpseeRpcMethod::PovertyList => 4,
        RpseeRpcMethod::Ttl => 5,
        RpseeRpcMethod::HealthCheckTtl => 6,
        RpseeRpcMethod::SetTtl => 7,
        RpseeRpcMethod::SetHealthCheckTtl => 8,
        RpseeRpcMethod::AddToRpcList => 9,
        RpseeRpcMethod::AddToPovertyList => 10,
        RpseeRpcMethod::RemoveFromRpcList => 11,
        RpseeRpcMethod::RemoveFromPovertyList => 12,
    };
    assert(RpseeRpcMethod::names().len() == 13);
    assert(names@[i]@ == RpseeRpcMethod::names()[i]);
}

proof fn lemma_reply_members(result: JsonView)
    ensures
        result_reply(result).member("result"@) == result,
        result_reply(result).member("jsonrpc"@) == JsonView::Text("2.0"@),
        result_reply(result).has("id"@),
        result_reply(result).member("id"@) == JsonView::Null,
        !result_reply(result).has("error"@),
{
    reveal_strlit("id");
    reveal_strlit("jsonrpc");
    reveal_strlit("result");
    reveal_strlit("error");
    assert("id"@.len() == 2 && "jsonrpc"@.len() == 7 && "result"@.len() == 6 && "error"@.len()
        == 5);
}

/// What the methods that only show something show: the time limits as they are, the settings that
/// the balancer was started with but for the secret, and how long flushing took.
pub proof fn law_settings_are_shown(
    config: &Settings,
    ttl: Json,
    health: Json,
    shown: Json,
    elapsed: &str,
    flushed: Json,
)
    requires
        config.ttl <= u64::MAX,
        call_ensures(admin_rpsee_ttl, (config,), ttl),
        call_ensures(admin_rpsee_health_check_ttl, (config,), health),
        call_ensures(admin_config, (config,), shown),
        call_ensures(admin_flush_cache, (elapsed,), flushed),
    ensures
        ttl@.member("result"@) == integer(config.ttl as int),
        health@.member("result"@) == integer(config.health_check_ttl as int),
        flushed@.member("result"@) == JsonView::Text("Cache flushed in "@ + elapsed@),
        ({
            let result = shown@.member("result"@);
            &&& result.member("address"@) == JsonView::Text(config.address@)
            &&& result.member("do_clear"@) == JsonView::Bool(config.do_clear)
            &&& result.member("health_check"@) == JsonView::Bool(config.health_check)
            &&& result.member("ttl"@) == integer(config.ttl as int)
            &&& result.member("health_check_ttl"@) == integer(config.health_check_ttl as int)
            &&& result.member("admin"@).member("enabled"@) == JsonView::Bool(config.admin.enabled)
            &&& result.member("admin"@).member("readonly"@) == JsonView::Bool(
                config.admin.readonly,
            )
            &&& forall|key: Seq<char>| #[trigger]
                result.member("admin"@).has(key) ==> key == "enabled"@ || key == "readonly"@
            &&& forall|key: Seq<char>| #[trigger]
                result.has(key) ==> key == "address"@ || key == "do_clear"@ || key
                    == "health_check"@ || key == "admin"@ || key == "ttl"@ || key
                    == "health_check_ttl"@
        }),
        ttl@.member("jsonrpc"@) == JsonView::Text("2.0"@),
        health@.member("jsonrpc"@) == JsonView::Text("2.0"@),
        shown@.member("jsonrpc"@) == JsonView::Text("2.0"@),
{
    lemma_reply_members(integer(config.ttl as int));
    lemma_reply_members(integer(config.health_check_ttl as int));
    lemma_reply_members(config_view(*config));
    lemma_reply_members(JsonView::Text("Cache flushed in "@ + elapsed@));
    reveal_strlit("address");
    reveal_strlit("do_clear");
    reveal_strlit("health_check");
    reveal_strlit("admin");
    reveal_strlit("ttl");
    reveal_strlit("health_check_ttl");
    reveal_strlit("enabled");
    reveal_strlit("readonly");
    assert("address"@.len() == 7 && "do_clear"@.len() == 8 && "health_check"@.len() == 12);
    assert("admin"@.len() == 5 && "ttl"@.len() == 3 && "health_check_ttl"@.len() == 16);
    assert("enabled"@.len() == 7 && "readonly"@.len() == 8);
}

/// Listing nodes shows each of them, in order: its name, how often it may be called in a row, and
/// when it last failed; not its address.
pub proof fn law_listing_shows_each_node(rpcs: &Vec<Rpc>, reply: Json, i: int)
    requires
        call_ensures(admin_list_rpc, (rpcs,), reply),
    ensures
        ({
            let result = reply@.member("result"@);
            &&& result is Array
            &&& result->Array_0.len() == rpcs@.len()
            &&& 0 <= i < rpcs@.len() ==> {
                let entry = result->Array_0[i];
                &&& entry.member("name"@) == JsonView::Text(rpcs@[i]@.name)
                &&& entry.member("max_consecutive"@) == integer(rpcs@[i]@.max_consecutive as int)
                &&& entry.member("last_error"@) == integer(rpcs@[i]@.status.last_error as int)
                &&& forall|key: Seq<char>| #[trigger]
                    entry.has(key) ==> key == "name"@ || key == "max_consecutive"@ || key
                        == "last_error"@
            }
        }),
{
    lemma_reply_members(list_view(rpcs_view(rpcs@)));
    reveal_strlit("name");
    reveal_strlit("max_consecutive");
    reveal_strlit("last_error");
    assert("name"@.len() == 4 && "max_consecutive"@.len() == 15 && "last_error"@.len() == 10);
    assert(rpcs_view(rpcs@).len() == rpcs@.len());
    if 0 <= i < rpcs@.len() {
        assert(rpcs_view(rpcs@)[i] == rpcs@[i]@);
    }
}

/// Setting a time limit sets that limit to the one number that is given, shows it, and leaves all
/// other settings. Anything but one number is refused and changes nothing; for health checks zero
/// is refused too.
pub proof fn law_time_limits_are_set(
    a: &mut Settings,
    b: &mut Settings,
    params: Option<&Vec<Json>>,
    ttl: Result<Json, AdminError>,
    health: Result<Json, AdminError>,
)
    requires
        call_ensures(admin_rpsee_set_ttl, (a, params), ttl),
        call_ensures(admin_rpsee_set_health_check_ttl, (b, params), health),
    ensures
        ({
            let one = params is Some && params->0@.len() == 1;
            let number = params->0@[0]@;
            let given = one && number is Number && number->Number_0 is Unsigned;
            let value = number->Number_0->Unsigned_0;
            &&& params is None ==> ttl == Err::<Json, AdminError>(AdminError::InvalidParams)
                && health == Err::<Json, AdminError>(AdminError::InvalidParams)
            &&& params is Some && !one ==> ttl == Err::<Json, AdminError>(AdminError::InvalidLen)
                && health == Err::<Json, AdminError>(AdminError::InvalidLen)
            &&& one && !given ==> ttl == Err::<Json, AdminError>(AdminError::ParseError) && health
                == Err::<Json, AdminError>(AdminError::ParseError)
            &&& ttl is Err ==> *final(a) == *old(a)
            &&& health is Err ==> *final(b) == *old(b)
            &&& given ==> {
                &&& ttl is Ok && ttl->Ok_0@.member("result"@) == integer(value as int)
                &&& *final(a) == (Settings { ttl: value as u128, ..*old(a) })
            }
            &&& given && value == 0 ==> health == Err::<Json, AdminError>(
                AdminError::InvalidParams,
            )
            &&& given && value > 0 ==> {
                &&& health is Ok && health->Ok_0@.member("result"@) == integer(value as int)
                &&& *final(b) == (Settings { health_check_ttl: value, ..*old(b) })
            }
        }),
{
    if params is Some && params->0@.len() == 1 {
        let number = params->0@[0]@;
        assert(items_view(params->0@).len() == 1);
        assert(items_view(params->0@)[0] == number);
        if number is Number && number->Number_0 is Unsigned {
            lemma_reply_members(integer(number->Number_0->Unsigned_0 as int));
        }
    } else if params is Some {
        assert(items_view(params->0@).len() == params->0@.len());
    }
}

/// Removing takes exactly the node at the index out of the list and shows its address; the others
/// keep their order. Anything but one index within the list is refused and changes nothing.
pub proof fn law_removing_takes_one_node(
    rpcs: &mut Vec<Rpc>,
    params: Option<&Vec<Json>>,
    result: Result<Json, AdminError>,
)
    requires
        call_ensures(admin_remove_rpc, (rpcs, params), result),
    ensures
        ({
            let before = rpcs_view(old(rpcs)@);
            let after = rpcs_view(final(rpcs)@);
            let one = params is Some && params->0@.len() == 1;
            let number = params->0@[0]@;
            let given = one && number is Number && number->Number_0 is Unsigned;
            let index = number->Number_0->Unsigned_0;
            &&& result is Ok <==> given && index < before.len() && index <= usize::MAX
            &&& result is Err ==> after == before
            &&& given && index <= usize::MAX && index >= before.len() ==> result == Err::<
                Json,
                AdminError,
            >(AdminError::OutOfBounds)
            &&& result is Ok ==> {
                &&& after.len() == before.len() - 1
                &&& forall|i: int| 0 <= i < index ==> #[trigger] after[i] == before[i]
                &&& forall|i: int| index <= i < after.len() ==> #[trigger] after[i] == before[i + 1]
                &&& result->Ok_0@.member("result"@) == JsonView::Text(before[index as int].url.text)
            }
        }),
{
    if params is Some {
        assert(items_view(params->0@).len() == params->0@.len());
        if params->0@.len() == 1 {
            let number = params->0@[0]@;
            assert(items_view(params->0@)[0] == number);
            if number is Number && number->Number_0 is Unsigned && number->Number_0->Unsigned_0
                < old(rpcs)@.len() {
                lemma_reply_members(
                    JsonView::Text(
                        rpcs_view(old(rpcs)@)[number->Number_0->Unsigned_0 as int].url.text,
                    ),
                );
            }
        }
    }
}

/// Adding puts one new node behind those of the list, with the addresses and limits that the five
/// parameters give: an address over HTTP, one for WebSockets or null, how often it may be called
/// in a row, how often a second, and over how many calls its latency is taken. What does not
/// describe a node is refused and changes nothing.
pub proof fn law_adding_puts_one_node_last(
    rpcs: &mut Vec<Rpc>,
    params: Option<&Vec<Json>>,
    result: Result<Json, AdminError>,
)
    requires
        call_ensures(admin_add_rpc, (rpcs, params), result),
    ensures
        ({
            let before = rpcs_view(old(rpcs)@);
            let after = rpcs_view(final(rpcs)@);
            let given = params->0@;
            &&& params is None ==> result == Err::<Json, AdminError>(AdminError::InvalidParams)
            &&& params is Some && given.len() != 5 ==> result == Err::<Json, AdminError>(
                AdminError::InvalidLen,
            )
            &&& params is Some && given.len() == 5 && result is Err ==> result == Err::<
                Json,
                AdminError,
            >(AdminError::ParseError)
            &&& result is Err ==> after == before
            &&& result is Ok ==> {
                let node = after.last();
                let rate = given[3]@->Number_0->Unsigned_0;
                &&& given.len() == 5
                &&& after.len() == before.len() + 1
                &&& forall|i: int| 0 <= i < before.len() ==> #[trigger] after[i] == before[i]
                &&& given[0]@ is Text && url_of(given[0]@->Text_0) == Some(node.url)
                &&& node.url.scheme == "http"@ || node.url.scheme == "https"@
                &&& node.url.host is Some
                &&& given[1]@ is Null ==> node.ws_url is None
                &&& !(given[1]@ is Null) ==> {
                    &&& node.ws_url is Some
                    &&& given[1]@ is Text && url_of(given[1]@->Text_0) == node.ws_url
                    &&& node.ws_url->0.scheme == "ws"@ || node.ws_url->0.scheme == "wss"@
                    &&& node.ws_url->0.host is Some
                }
                &&& given[2]@ == integer(node.max_consecutive as int)
                &&& given[3]@ == integer(rate as int)
                &&& rate == 0 ==> node.min_time_delta == 0
                &&& rate > 0 ==> node.min_time_delta == 1_000_000u64 / rate
                &&& 1 <= node.status.ma_length <= u32::MAX
                &&& given[4]@ matches JsonView::Number(Numeric::Unsigned(length)) ==> {
                    &&& length == node.status.ma_length
                    &&& result->Ok_0@.member("result"@) == JsonView::Text(
                        "RPC: "@ + node.name + ", max_consecutive: "@ + decimal_text(
                            node.max_consecutive as nat,
                        ) + ", ma: "@ + decimal_text(length as nat),
                    )
                }
                &&& given[4]@ matches JsonView::Number(Numeric::Fraction(number)) ==> {
                    &&& number.amount() is Some
                    &&& (number.amount()->0).0 == node.status.ma_length
                    &&& result->Ok_0@.member("result"@) == JsonView::Text(
                        "RPC: "@ + node.name + ", max_consecutive: "@ + decimal_text(
                            node.max_consecutive as nat,
                        ) + ", ma: "@ + (number.amount()->0).1,
                    )
                }
                &&& given[4]@ is Number && !(given[4]@->Number_0 is Negative)
                &&& !node.status.is_erroring && node.status.latency_data.len() == 0
            }
        }),
{
    if params is Some {
        assert(items_view(params->0@).len() == params->0@.len());
        if params->0@.len() == 5 {
            assert(items_view(params->0@)[0] == params->0@[0]@);
            assert(items_view(params->0@)[1] == params->0@[1]@);
            assert(items_view(params->0@)[2] == params->0@[2]@);
            assert(items_view(params->0@)[3] == params->0@[3]@);
            assert(items_view(params->0@)[4] == params->0@[4]@);
            if let Some((rpc, window)) = described_rpc(items_view(params->0@)) {
                lemma_reply_members(
                    JsonView::Text(
                        "RPC: "@ + rpc.name + ", max_consecutive: "@ + decimal_text(
                            rpc.max_consecutive as nat,
                        ) + ", ma: "@ + window,
                    ),
                );
            }
        }
    }
}

/// Parameters that describe a node are not refused.
pub proof fn law_described_nodes_are_added(
    rpcs: &mut Vec<Rpc>,
    params: &Vec<Json>,
    result: Result<Json, AdminError>,
)
    requires
        call_ensures(admin_add_rpc, (rpcs, Some(params)), result),
        params@.len() == 5,
        params@[0]@ is Text,
        url_of(params@[0]@->Text_0) is Some,
        url_of(params@[0]@->Text_0)->0.host is Some,
        url_of(params@[0]@->Text_0)->0.scheme == "http"@ || url_of(
            params@[0]@->Text_0,
        )->0.scheme == "https"@,
        params@[1]@ is Null || (params@[1]@ is Text && url_of(params@[1]@->Text_0) is Some
            && url_of(params@[1]@->Text_0)->0.host is Some && (url_of(
            params@[1]@->Text_0,
        )->0.scheme == "ws"@ || url_of(params@[1]@->Text_0)->0.scheme == "wss"@)),
        params@[2]@ matches JsonView::Number(Numeric::Unsigned(max)) && max <= u32::MAX,
        params@[3]@ matches JsonView::Number(Numeric::Unsigned(_)),
        params@[4]@ matches JsonView::Number(Numeric::Unsigned(length)) && 1 <= length <= u32::MAX,
    ensures
        result is Ok,
        rpcs_view(final(rpcs)@).len() == old(rpcs)@.len() + 1,
{
    assert(items_view(params@).len() == params@.len());
    assert(items_view(params@)[0] == params@[0]@);
    assert(items_view(params@)[1] == params@[1]@);
    assert(items_view(params@)[2] == params@[2]@);
    assert(items_view(params@)[3] == params@[3]@);
    assert(items_view(params@)[4] == params@[4]@);
}

/// The state and the outcome of one request, by the name of its method: what is listed or shown is
/// shown and changes nothing, and each method that changes something changes its own part alone.
pub proof fn law_each_method_does_its_own(
    tx: &Json,
    rpcs: &mut Vec<Rpc>,
    poverty: &mut Vec<Rpc>,
    config: &mut Settings,
    started: &Settings,
    outcome: Result<AdminOutcome, AdminError>,
    method: Result<RpseeRpcMethod, Error<Option<String>>>,
    name: Option<&str>,
)
    requires
        name is Some <==> tx@.member("method"@) is Text,
        name is Some ==> name->0@ == tx@.member("method"@)->Text_0,
        call_ensures(RpseeRpcMethod::try_from, (name,), method),
        call_ensures(execute_method, (tx, rpcs, poverty, config, started), outcome),
    ensures
        ({
            let same_rpcs = rpcs_view(final(rpcs)@) == rpcs_view(old(rpcs)@);
            let same_poverty = rpcs_view(final(poverty)@) == rpcs_view(old(poverty)@);
            let same_config = *final(config) == *old(config);
            let reply = outcome->Ok_0->Reply_0@.member("result"@);
            let replied = outcome is Ok && outcome->Ok_0 is Reply;
            match method {
                Err(_) => same_rpcs && same_poverty && same_config && outcome matches Err(
                    AdminError::InvalidMethod(_),
                ),
                Ok(method) => {
                    let shows = method is RpcList || method is Config || method is PovertyList
                        || method is Ttl || method is HealthCheckTtl;
                    &&& !shows && old(config).admin.readonly ==> same_rpcs && same_poverty
                        && same_config && outcome == Err::<AdminOutcome, AdminError>(
                        AdminError::WriteProtectionEnabled,
                    )
                    &&& shows || method is FlushCache || method is Quit ==> same_rpcs
                        && same_poverty && same_config
                    &&& method is RpcList ==> replied && reply == list_view(rpcs_view(old(rpcs)@))
                    &&& method is PovertyList ==> replied && reply == list_view(
                        rpcs_view(old(poverty)@),
                    )
                    &&& method is Config ==> replied && reply == config_view(*started)
                    &&& method is Ttl ==> replied && reply == integer(old(config).ttl as int)
                    &&& method is HealthCheckTtl ==> replied && reply == integer(
                        old(config).health_check_ttl as int,
                    )
                    &&& method is Quit && !old(config).admin.readonly ==> outcome == Ok::<
                        AdminOutcome,
                        AdminError,
                    >(AdminOutcome::Quit)
                    &&& method is FlushCache && !old(config).admin.readonly ==> outcome == Ok::<
                        AdminOutcome,
                        AdminError,
                    >(AdminOutcome::Flush)
                    &&& method is SetTtl || method is SetHealthCheckTtl ==> same_rpcs
                        && same_poverty
                    &&& method is AddToRpcList || method is RemoveFromRpcList ==> same_poverty
                        && same_config
                    &&& method is AddToPovertyList || method is RemoveFromPovertyList ==> same_rpcs
                        && same_config
                    &&& method is SetTtl && outcome is Ok ==> replied && reply == integer(
                        final(config).ttl as int,
                    ) && *final(config) == (Settings { ttl: final(config).ttl, ..*old(config) })
                    &&& method is SetHealthCheckTtl && outcome is Ok ==> replied && reply
                        == integer(final(config).health_check_ttl as int) && *final(config) == (
                    Settings {
                        health_check_ttl: final(config).health_check_ttl,
                        ..*old(config)
                    })
                    &&& method is AddToRpcList && outcome is Ok ==> final(rpcs)@.len() == old(
                        rpcs,
                    )@.len() + 1 && rpcs_view(old(rpcs)@).is_prefix_of(rpcs_view(final(rpcs)@))
                    &&& method is AddToPovertyList && outcome is Ok ==> final(poverty)@.len()
                        == old(poverty)@.len() + 1 && rpcs_view(old(poverty)@).is_prefix_of(
                        rpcs_view(final(poverty)@),
                    )
                    &&& method is RemoveFromRpcList && outcome is Ok ==> final(rpcs)@.len() == old(
                        rpcs,
                    )@.len() - 1
                    &&& method is RemoveFromPovertyList && outcome is Ok ==> final(poverty)@.len()
                        == old(poverty)@.len() - 1
                },
            }
        }),
{
    lemma_reply_members(list_view(rpcs_view(old(rpcs)@)));
    lemma_reply_members(list_view(rpcs_view(old(poverty)@)));
    lemma_reply_members(config_view(*started));
    lemma_reply_members(integer(old(config).ttl as int));
    lemma_reply_members(integer(old(config).health_check_ttl as int));
    lemma_reply_members(integer(final(config).ttl as int));
    lemma_reply_members(integer(final(config).health_check_ttl as int));
    assert(rpcs_view(old(rpcs)@).len() == old(rpcs)@.len());
    assert(rpcs_view(final(rpcs)@).len() == final(rpcs)@.len());
    assert(rpcs_view(old(poverty)@).len() == old(poverty)@.len());
    assert(rpcs_view(final(poverty)@).len() == final(poverty)@.len());
}

proof fn lemma_listing(names: Seq<Seq<char>>, i: int) -> (parts: (Seq<char>, Seq<char>))
    requires
        0 <= i < names.len(),
    ensures
        listing(names) == parts.0 + ("\""@ + names[i] + "\""@) + parts.1,
    decreases names.len(),
{
    reveal_strlit("\"");
    reveal_strlit("    \"");
    reveal_strlit("\",\n");
    let before = listing(names.drop_last());
    let last = names.last();
    if i == names.len() - 1 {
        let front = before + "    \""@.take(4);
        let back = "\",\n"@.skip(1);
        assert("    \""@ =~= "    \""@.take(4) + "\""@);
        assert("\",\n"@ =~= "\""@ + back);
        assert(before + "    \""@ + last + "\",\n"@ =~= front + ("\""@ + last + "\""@) + back);
        (front, back)
    } else {
        let (front, back) = lemma_listing(names.drop_last(), i);
        assert(names.drop_last()[i] == names[i]);
        let more = back + "    \""@ + last + "\",\n"@;
        assert(before + "    \""@ + last + "\",\n"@ =~= front + ("\""@ + names[i] + "\""@) + more);
        (front, more)
    }
}

/// What is said of a method that there is none of says what stood in its place, and the name of
/// every method that there is.
pub proof fn law_unknown_method_is_told_the_known_ones(
    got: &str,
    text: String,
    method: RpseeRpcMethod,
)
    requires
        call_ensures(unknown_method, (got,), text),
    ensures
        exists|before: Seq<char>, after: Seq<char>| text@ == #[trigger] (before + got@ + after),
        exists|before: Seq<char>, after: Seq<char>|
            text@ == #[trigger] (before + ("\""@ + method.name() + "\""@) + after),
{
    let first = "failed to convert method to `RpseeRpcMethod`:\n\ngot: "@;
    let rest = "\nexpected:\n"@ + listing(RpseeRpcMethod::names()) + "]"@;
    assert(text@ =~= first + got@ + rest);
    let i: int = match method {
        RpseeRpcMethod::Quit => 0,
        RpseeRpcMethod::RpcList => 1,
        RpseeRpcMethod::FlushCache => 2,
        RpseeRpcMethod::Config => 3,
        RpseeRpcMethod::PovertyList => 4,
        RpseeRpcMethod::Ttl => 5,
        RpseeRpcMethod::HealthCheckTtl => 6,
        RpseeRpcMethod::SetTtl => 7,
        RpseeRpcMethod::SetHealthCheckTtl => 8,
        RpseeRpcMethod::AddToRpcList => 9,
        RpseeRpcMethod::AddToPovertyList => 10,
        RpseeRpcMethod::RemoveFromRpcList => 11,
        RpseeRpcMethod::RemoveFromPovertyList => 12,
    };
    let (front, back) = lemma_listing(RpseeRpcMethod::names(), i);
    assert(RpseeRpcMethod::names()[i] == method.name());
    let before = first + got@ + "\nexpected:\n"@ + front;
    let after = back + "]"@;
    assert(text@ =~= before + ("\""@ + method.name() + "\""@) + after);
}

} // verus!
