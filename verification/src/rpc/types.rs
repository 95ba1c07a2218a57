//! Upstream nodes: their state, what they are asked, and what their answers say.

use crate::json::{bytes_value, empty_object, integer, parse_bytes, Json, JsonView};
use crate::number::{hex_number, parse_hex, HexError};
use crate::rpc::endpoint::{
    merkle, public_name, sanitize_url, Endpoint, EndpointView,
};
use crate::rpc::error::RpcError;
use crate::rpc::latency::{
    copy_latencies, from_times, latencies_view, mean, whole, Latency,
};
use crate::rpc::method::EthRpcMethod;
use crate::text::{remove_char, same, strip_hex_prefixes, without, without_hex_prefixes};
use vstd::prelude::*;
use vstd::utf8::encode_utf8;

verus! {

/// How a node has been doing.
pub struct Status {
    /// Whether the node is unavailable.
    pub is_erroring: bool,
    pub last_error: u64,
    /// The mean of the last calls.
    pub latency: Latency,
    /// The latencies of the last calls.
    pub latency_data: Vec<Latency>,
    /// How many calls the mean is taken over; zero counts as one.
    ma_length: u64,
}

#[verifier::ext_equal]
pub struct StatusView {
    pub is_erroring: bool,
    pub last_error: u64,
    /// In nanoseconds; none where it is a mean of no calls.
    pub latency: Option<real>,
    pub latency_data: Seq<Option<real>>,
    pub ma_length: u64,
}

impl Status {
    pub closed spec fn view(&self) -> StatusView {
        StatusView {
            is_erroring: self.is_erroring,
            last_error: self.last_error,
            latency: self.latency@,
            latency_data: latencies_view(self.latency_data@),
            ma_length: self.ma_length,
        }
    }
}

impl Clone for Status {
    fn clone(&self) -> (copy: Self)
        ensures
            copy@ == self@,
    {
        let latency_data = copy_latencies(&self.latency_data);
        Status {
            is_erroring: self.is_erroring,
            last_error: self.last_error,
            latency: self.latency.clone(),
            latency_data,
            ma_length: self.ma_length,
        }
    }
}

/// The status of a node that has not been called yet.
pub open spec fn fresh_status(ma_length: u64) -> StatusView {
    StatusView {
        is_erroring: false,
        last_error: 0,
        latency: Some(0 as real),
        latency_data: Seq::empty(),
        ma_length,
    }
}

/// An upstream node.
pub struct Rpc {
    /// The name for logs, which holds no secrets of the address.
    pub name: String,
    url: Endpoint,
    pub ws_url: Option<Endpoint>,
    pub status: Status,
    /// How often the node may be called in a row.
    pub max_consecutive: u32,
    pub consecutive: u32,
    /// When the node was last called.
    pub last_used: u128,
    /// How many microseconds must pass between two calls.
    pub min_time_delta: u128,
}

#[verifier::ext_equal]
pub struct RpcView {
    pub name: Seq<char>,
    pub url: EndpointView,
    pub ws_url: Option<EndpointView>,
    pub status: StatusView,
    pub max_consecutive: u32,
    pub consecutive: u32,
    pub last_used: u128,
    pub min_time_delta: u128,
}

impl RpcView {
    /// Whether two nodes stand at one address.
    pub open spec fn same_endpoint(self, other: RpcView) -> bool {
        &&& self.url.text == other.url.text
        &&& match (self.ws_url, other.ws_url) {
            (Some(a), Some(b)) => a.text == b.text,
            (None, None) => true,
            _ => false,
        }
    }

    /// The node with `is_erroring` set.
    pub open spec fn erroring(self, is_erroring: bool) -> RpcView {
        RpcView { status: StatusView { is_erroring, ..self.status }, ..self }
    }

    /// The node after one more latency.
    pub open spec fn recorded(self, latest: Option<real>) -> RpcView {
        let data = window(self.status.latency_data, self.status.ma_length, latest);
        RpcView {
            status: StatusView { latency: mean(data), latency_data: data, ..self.status },
            ..self
        }
    }

    /// The node after a call that took `latest` nanoseconds.
    pub open spec fn timed(self, latest: u64) -> RpcView {
        self.recorded(Some(latest as int as real))
    }

    /// The node after probes that took `times` nanoseconds. Their mean counts as one call.
    pub open spec fn probed(self, times: Seq<u64>) -> RpcView {
        self.recorded(mean(whole(times)))
    }
}

/// What the nodes of a list say, in order.
pub open spec fn rpcs_view(rpcs: Seq<Rpc>) -> Seq<RpcView> {
    Seq::new(rpcs.len(), |i: int| rpcs[i]@)
}

/// The latencies after one more: the oldest goes where the window is full.
pub open spec fn window(
    data: Seq<Option<real>>,
    length: u64,
    latest: Option<real>,
) -> Seq<Option<real>> {
    if data.len() >= length && data.len() >= 1 {
        data.drop_first().push(latest)
    } else {
        data.push(latest)
    }
}

impl Default for Rpc {
    fn default() -> (rpc: Self)
        ensures
            rpc@ == (RpcView {
                name: Seq::empty(),
                url: merkle(),
                ws_url: None,
                status: fresh_status(0),
                max_consecutive: 0,
                consecutive: 0,
                last_used: 0,
                min_time_delta: 0,
            }),
    {
        Rpc {
            name: String::new(),
            url: Endpoint::merkle(),
            ws_url: None,
            status: Status {
                is_erroring: false,
                last_error: 0,
                latency: Latency::of(0),
                latency_data: Vec::new(),
                ma_length: 0,
            },
            max_consecutive: 0,
            consecutive: 0,
            last_used: 0,
            min_time_delta: 0,
        }
    }
}

impl Clone for Rpc {
    fn clone(&self) -> (copy: Self)
        ensures
            copy@ == self@,
    {
        Rpc {
            name: self.name.clone(),
            url: self.url.clone(),
            ws_url: match &self.ws_url {
                Some(url) => Some(url.clone()),
                None => None,
            },
            status: self.status.clone(),
            max_consecutive: self.max_consecutive,
            consecutive: self.consecutive,
            last_used: self.last_used,
            min_time_delta: self.min_time_delta,
        }
    }
}

/// A node as it is first made.
pub open spec fn new_rpc(
    url: EndpointView,
    ws_url: Option<EndpointView>,
    max_consecutive: u32,
    min_time_delta: u128,
    ma_length: u64,
) -> RpcView {
    RpcView {
        name: public_name(url),
        url,
        ws_url,
        status: fresh_status(ma_length),
        max_consecutive,
        consecutive: 0,
        last_used: 0,
        min_time_delta,
    }
}

/// What an optional address says.
pub open spec fn endpoint_view(endpoint: Option<Endpoint>) -> Option<EndpointView> {
    match endpoint {
        Some(endpoint) => Some(endpoint@),
        None => None,
    }
}

impl Rpc {
    pub closed spec fn view(&self) -> RpcView {
        RpcView {
            name: self.name@,
            url: self.url@,
            ws_url: endpoint_view(self.ws_url),
            status: self.status@,
            max_consecutive: self.max_consecutive,
            consecutive: self.consecutive,
            last_used: self.last_used,
            min_time_delta: self.min_time_delta,
        }
    }

    /// A node that has not been called yet.
    pub fn new(
        url: Endpoint,
        ws_url: Option<Endpoint>,
        max_consecutive: u32,
        min_time_delta: u128,
        ma_length: u64,
    ) -> (rpc: Self)
        ensures
            rpc@ == new_rpc(
                url@,
                endpoint_view(ws_url),
                max_consecutive,
                min_time_delta,
                ma_length,
            ),
    {
        let name = match sanitize_url(&url) {
            Some(name) => name,
            None => url.as_str().to_owned(),
        };
        Rpc {
            name,
            url,
            ws_url,
            status: Status {
                is_erroring: false,
                last_error: 0,
                latency: Latency::of(0),
                latency_data: Vec::new(),
                ma_length,
            },
            max_consecutive,
            consecutive: 0,
            last_used: 0,
            min_time_delta,
        }
    }

    /// Whether two nodes stand at one address.
    pub fn same_endpoint(&self, other: &Rpc) -> (same: bool)
        ensures
            same == self@.same_endpoint(other@),
    {
        same(self.url.as_str(), other.url.as_str()) && match (&self.ws_url, &other.ws_url) {
            (Some(a), Some(b)) => same(a.as_str(), b.as_str()),
            (None, None) => true,
            _ => false,
        }
    }

    /// The address that requests go to. It may hold credentials.
    pub fn get_url(&self) -> (url: &Endpoint)
        ensures
            url@ == self@.url,
    {
        &self.url
    }

    pub fn name(&self) -> (name: &str)
        ensures
            name@ == self@.name,
    {
        self.name.as_str()
    }

    pub fn max_consecutive(&self) -> (max_consecutive: u32)
        ensures
            max_consecutive == self@.max_consecutive,
    {
        self.max_consecutive
    }

    /// The mean of the last calls.
    pub fn latency(&self) -> (latency: Latency)
        ensures
            latency@ == self@.status.latency,
    {
        self.status.latency.clone()
    }

    pub fn last_error(&self) -> (last_error: u64)
        ensures
            last_error == self@.status.last_error,
    {
        self.status.last_error
    }

    /// The address of the WebSocket, where there is one.
    pub fn ws_address(&self) -> (url: Option<&str>)
        ensures
            match url {
                Some(url) => self@.ws_url is Some && url@ == self@.ws_url->0.text,
                None => self@.ws_url is None,
            },
    {
        match &self.ws_url {
            Some(url) => Some(url.as_str()),
            None => None,
        }
    }

    /// Sets whether the node is unavailable.
    pub fn set_erroring(&mut self, is_erroring: bool)
        ensures
            final(self)@ == old(self)@.erroring(is_erroring),
    {
        self.status.is_erroring = is_erroring;
    }

    /// Whether the node is unavailable.
    pub fn is_erroring(&self) -> (is_erroring: bool)
        ensures
            is_erroring == self@.status.is_erroring,
    {
        self.status.is_erroring
    }

    /// Takes in one more latency.
    fn record(&mut self, latest: Latency)
        ensures
            final(self)@ == old(self)@.recorded(latest@),
    {
        let length = self.status.latency_data.len() as u64;
        if length >= self.status.ma_length && length >= 1 {
            self.status.latency_data.remove(0);
        }
        self.status.latency_data.push(latest);
        proof {
            assert(latencies_view(self.status.latency_data@) =~= window(
                latencies_view(old(self).status.latency_data@),
                old(self).status.ma_length,
                latest@,
            ));
        }
        self.status.latency = Latency::mean(&self.status.latency_data);
    }

    /// Takes in how many nanoseconds the latest call took.
    pub fn update_latency(&mut self, latest: u64)
        ensures
            final(self)@ == old(self)@.timed(latest),
    {
        self.record(Latency::of(latest));
    }

    /// Takes in how many nanoseconds the probes of a node took.
    pub fn start_latency(&mut self, times: &Vec<u64>)
        ensures
            final(self)@ == old(self)@.probed(times@),
    {
        self.record(Latency::mean(&from_times(times)));
    }

    /// Asks for the number of the newest block.
    pub fn block_number_request() -> (request: Json)
        ensures
            request@ == probe(EthRpcMethod::BlockNumber, JsonView::Null),
    {
        probe_request(EthRpcMethod::BlockNumber, Json::Null)
    }

    /// Asks whether the node is still catching up.
    pub fn syncing_request() -> (request: Json)
        ensures
            request@ == probe(EthRpcMethod::Syncing, JsonView::Null),
    {
        probe_request(EthRpcMethod::Syncing, Json::Null)
    }

    /// Asks for the newest finalized block.
    pub fn finalized_block_request() -> (request: Json)
        ensures
            request@ == probe(
                EthRpcMethod::GetBlockByNumber,
                JsonView::Array(seq![JsonView::Text("finalized"@), JsonView::Bool(false)]),
            ),
    {
        let mut params: Vec<Json> = Vec::new();
        params.push(Json::text("finalized"));
        params.push(Json::Bool(false));
        proof {
            assert(crate::json::items_view(params@) =~= seq![
                JsonView::Text("finalized"@),
                JsonView::Bool(false),
            ]);
        }
        probe_request(EthRpcMethod::GetBlockByNumber, Json::array(params))
    }
}

/// A request that the balancer makes on its own account.
pub open spec fn probe(method: EthRpcMethod, params: JsonView) -> JsonView {
    empty_object().with("method"@, JsonView::Text(method.name())).with("params"@, params).with(
        "id"@,
        integer(1),
    ).with("jsonrpc"@, JsonView::Text("2.0"@))
}

fn probe_request(method: EthRpcMethod, params: Json) -> (request: Json)
    ensures
        request@ == probe(method, params@),
{
    Json::object().put("method", Json::text(method.as_str())).put("params", params).put(
        "id",
        Json::unsigned(1),
    ).put("jsonrpc", Json::text("2.0"))
}

/// What `eth_syncing` gives: whether the node is catching up, or what is wrong with the answer.
pub open spec fn sync_in(answer: JsonView) -> Result<bool, Seq<char>> {
    match answer.member("result"@) {
        JsonView::Bool(syncing) => Ok(syncing),
        JsonView::Object(_) => Ok(true),
        _ => Err("Unexpected result format"@),
    }
}

/// The block number in the result of `eth_blockNumber`, or what is wrong with the answer.
pub open spec fn number_in(answer: JsonView) -> Result<u64, Seq<char>> {
    number_at(answer.member("result"@), "error: Extracting response from request failed!"@)
}

/// The number of the block in the result of `eth_getBlockByNumber`, or what is wrong with the
/// answer.
pub open spec fn finalized_in(answer: JsonView) -> Result<u64, Seq<char>> {
    number_at(answer.member("result"@).member("number"@), "error: Can't get finalized block!"@)
}

/// The number that a value writes out in hexadecimal, `missing` where the value is no text.
pub open spec fn number_at(value: JsonView, missing: Seq<char>) -> Result<u64, Seq<char>> {
    match value.text() {
        None => Err(missing),
        Some(text) => match block_number_of(text) {
            Ok(number) => Ok(number),
            Err(error) => Err(error.text()),
        },
    }
}

/// The number that a text writes out in hexadecimal; quotes anywhere and `0x` in front, however
/// often, do not count.
pub open spec fn block_number_of(text: Seq<char>) -> Result<u64, HexError> {
    hex_number(without_hex_prefixes(without(text, '"')))
}

/// The number that a text writes out in hexadecimal.
pub fn hex_to_decimal(hex_string: &str) -> (number: Result<u64, HexError>)
    ensures
        number == block_number_of(hex_string@),
{
    let unquoted = remove_char(hex_string, '"');
    let digits = strip_hex_prefixes(unquoted.as_str());
    parse_hex(digits.as_str())
}

/// Whether `result` is what `expected` says, with the error's text in `InvalidResponse`.
pub open spec fn says<T>(result: Result<T, RpcError>, expected: Result<T, Seq<char>>) -> bool {
    match result {
        Ok(value) => expected == Ok::<T, Seq<char>>(value),
        Err(RpcError::InvalidResponse(text)) => expected == Err::<T, Seq<char>>(text@),
        Err(_) => false,
    }
}

fn read_number(value: Option<&Json>, missing: &str) -> (number: Result<u64, RpcError>)
    ensures
        says(
            number,
            number_at(
                match value {
                    Some(value) => value@,
                    None => JsonView::Null,
                },
                missing@,
            ),
        ),
{
    let text = match value {
        Some(value) => value.as_str(),
        None => None,
    };
    match text {
        None => Err(RpcError::InvalidResponse(missing.to_owned())),
        Some(text) => match hex_to_decimal(text) {
            Ok(number) => Ok(number),
            Err(error) => Err(RpcError::InvalidResponse(error.message().to_owned())),
        },
    }
}

/// Whether a parsed answer to `eth_syncing` says that the node is catching up.
pub fn sync_of(answer: &Json) -> (syncing: Result<bool, RpcError>)
    ensures
        says(syncing, sync_in(answer@)),
{
    match answer.get("result") {
        Some(Json::Bool(syncing)) => Ok(*syncing),
        Some(Json::Object(_)) => Ok(true),
        _ => Err(RpcError::InvalidResponse("Unexpected result format".to_owned())),
    }
}

/// The number in a parsed answer to `eth_blockNumber`.
pub fn number_of(answer: &Json) -> (number: Result<u64, RpcError>)
    ensures
        says(number, number_in(answer@)),
{
    read_number(answer.get("result"), "error: Extracting response from request failed!")
}

/// The number of the block in a parsed answer to `eth_getBlockByNumber`.
pub fn finalized_of(answer: &Json) -> (number: Result<u64, RpcError>)
    ensures
        says(number, finalized_in(answer@)),
{
    match answer.get("result") {
        Some(block) => read_number(block.get("number"), "error: Can't get finalized block!"),
        None => read_number(None, "error: Can't get finalized block!"),
    }
}

/// Whether the text of an answer to `eth_syncing` says that the node is catching up.
pub fn extract_sync(rx: &str) -> (syncing: Result<bool, RpcError>)
    ensures
        match bytes_value(encode_utf8(rx@)) {
            Some(answer) => says(syncing, sync_in(answer)),
            None => syncing == Err::<bool, RpcError>(RpcError::Malformed),
        },
{
    match parse_bytes(rx.as_bytes_vec()) {
        Some(answer) => sync_of(&answer),
        None => Err(RpcError::Malformed),
    }
}

/// The number in the text of an answer to `eth_blockNumber`.
pub fn extract_number(rx: &str) -> (number: Result<u64, RpcError>)
    ensures
        match bytes_value(encode_utf8(rx@)) {
            Some(answer) => says(number, number_in(answer)),
            None => number == Err::<u64, RpcError>(RpcError::Malformed),
        },
{
    match parse_bytes(rx.as_bytes_vec()) {
        Some(answer) => number_of(&answer),
        None => Err(RpcError::Malformed),
    }
}

/// The number of the block in the text of an answer to `eth_getBlockByNumber`.
pub fn extract_finalized_block(rx: &str) -> (number: Result<u64, RpcError>)
    ensures
        match bytes_value(encode_utf8(rx@)) {
            Some(answer) => says(number, finalized_in(answer)),
            None => number == Err::<u64, RpcError>(RpcError::Malformed),
        },
{
    match parse_bytes(rx.as_bytes_vec()) {
        Some(answer) => finalized_of(&answer),
        None => Err(RpcError::Malformed),
    }
}

/// The last calls of a history, as many as the window is long; it holds one at least.
pub open spec fn last_calls(history: Seq<Option<real>>, length: u64) -> Seq<Option<real>> {
    let size = if length == 0 {
        1
    } else {
        length as int
    };
    if history.len() <= size {
        history
    } else {
        history.skip(history.len() - size)
    }
}

/// A node after one latency after the other.
pub open spec fn after_calls(rpc: RpcView, history: Seq<Option<real>>) -> RpcView
    decreases history.len(),
{
    if history.len() == 0 {
        rpc
    } else {
        after_calls(rpc, history.drop_last()).recorded(history.last())
    }
}

/// The latency of a node is the mean of its last calls, as many as the window is long.
pub proof fn law_latency_is_mean_of_last_calls(rpc: RpcView, history: Seq<Option<real>>)
    requires
        rpc.status.latency_data.len() == 0,
        history.len() > 0,
    ensures
        ({
            let calls = last_calls(history, rpc.status.ma_length);
            after_calls(rpc, history) == (RpcView {
                status: StatusView { latency: mean(calls), latency_data: calls, ..rpc.status },
                ..rpc
            })
        }),
    decreases history.len(),
{
    let length = rpc.status.ma_length;
    let shorter = history.drop_last();
    if shorter.len() == 0 {
        assert(after_calls(rpc, shorter) == rpc);
        assert(rpc.status.latency_data =~= shorter);
    } else {
        law_latency_is_mean_of_last_calls(rpc, shorter);
    }
    assert(window(last_calls(shorter, length), length, history.last()) =~= last_calls(
        history,
        length,
    ));
}

/// Two nodes stand at one address exactly where their addresses are the same, and so are those of
/// their WebSockets, which both have or both lack.
pub proof fn law_same_address_is_same_texts(a: &Rpc, b: &Rpc, same: bool)
    requires
        call_ensures(Rpc::same_endpoint, (a, b), same),
    ensures
        same <==> a@.url.text == b@.url.text && (a@.ws_url is Some <==> b@.ws_url is Some) && (
        a@.ws_url is Some ==> a@.ws_url->0.text == b@.ws_url->0.text),
{
}

/// Marking a node changes nothing but the mark.
pub proof fn law_marking_changes_the_mark_alone(rpc: &mut Rpc, is_erroring: bool)
    requires
        call_ensures(Rpc::set_erroring, (rpc, is_erroring), ()),
    ensures
        final(rpc)@.status.is_erroring == is_erroring,
        final(rpc)@.status.last_error == old(rpc)@.status.last_error,
        final(rpc)@.status.latency == old(rpc)@.status.latency,
        final(rpc)@.status.latency_data == old(rpc)@.status.latency_data,
        final(rpc)@.status.ma_length == old(rpc)@.status.ma_length,
        final(rpc)@.name == old(rpc)@.name,
        final(rpc)@.url == old(rpc)@.url,
        final(rpc)@.ws_url == old(rpc)@.ws_url,
        final(rpc)@.max_consecutive == old(rpc)@.max_consecutive,
        final(rpc)@.consecutive == old(rpc)@.consecutive,
        final(rpc)@.last_used == old(rpc)@.last_used,
        final(rpc)@.min_time_delta == old(rpc)@.min_time_delta,
{
}

/// A call adds its time behind the latencies that are kept, and takes away the oldest where as many
/// are kept already as the window is long; one is always kept. The latency is the mean of what is
/// kept then, and nothing else of the node changes.
pub proof fn law_call_adds_its_time(rpc: &mut Rpc, latest: u64)
    requires
        call_ensures(Rpc::update_latency, (rpc, latest), ()),
    ensures
        ({
            let before = old(rpc)@.status.latency_data;
            let after = final(rpc)@.status.latency_data;
            let length = old(rpc)@.status.ma_length;
            let full = before.len() >= 1 && before.len() >= length;
            &&& after.len() == before.len() + if full {
                0int
            } else {
                1int
            }
            &&& after.len() > 0
            &&& after.last() == Some(latest as int as real)
            &&& forall|i: int|
                0 <= i < after.len() - 1 ==> #[trigger] after[i] == before[if full {
                    i + 1
                } else {
                    i
                }]
            &&& final(rpc)@.status.latency == mean(after)
            &&& final(rpc)@ == (RpcView {
                status: StatusView {
                    latency: final(rpc)@.status.latency,
                    latency_data: after,
                    ..old(rpc)@.status
                },
                ..old(rpc)@
            })
        }),
{
}

/// The probes of a node count as one call, which took as long as they took in the mean: it is kept
/// and counted as any other call is.
pub proof fn law_probes_count_as_one_call(rpc: &mut Rpc, times: &Vec<u64>)
    requires
        call_ensures(Rpc::start_latency, (rpc, times), ()),
    ensures
        ({
            let before = old(rpc)@.status.latency_data;
            let after = final(rpc)@.status.latency_data;
            let length = old(rpc)@.status.ma_length;
            let full = before.len() >= 1 && before.len() >= length;
            &&& after.len() == before.len() + if full {
                0int
            } else {
                1int
            }
            &&& after.len() > 0
            &&& after.last() == mean(whole(times@))
            &&& forall|i: int|
                0 <= i < after.len() - 1 ==> #[trigger] after[i] == before[if full {
                    i + 1
                } else {
                    i
                }]
            &&& final(rpc)@.status.latency == mean(after)
            &&& before.len() == 0 ==> final(rpc)@.status.latency == mean(whole(times@))
            &&& final(rpc)@ == (RpcView {
                status: StatusView {
                    latency: final(rpc)@.status.latency,
                    latency_data: after,
                    ..old(rpc)@.status
                },
                ..old(rpc)@
            })
        }),
{
    let data = final(rpc)@.status.latency_data;
    let time = mean(whole(times@));
    if old(rpc)@.status.latency_data.len() == 0 {
        assert(data =~= seq![time]);
        assert(data.drop_last() =~= Seq::<Option<real>>::empty());
        assert(crate::rpc::latency::sum(Seq::<Option<real>>::empty()) == Some(0 as real));
        if let Some(x) = time {
            assert(crate::rpc::latency::sum(data) == Some(0 as real + x));
            assert((0 as real + x) / (1nat as int as real) == x) by (nonlinear_arith);
        }
    }
}

/// A node that nothing is said about stands at the default address, has no WebSocket and no limits,
/// and has not been called.
pub proof fn law_default_node(rpc: Rpc)
    requires
        call_ensures(Rpc::default, (), rpc),
    ensures
        rpc@.url.text == "https://eth.merkle.io/"@,
        rpc@.url.scheme == "https"@,
        rpc@.url.host == Some("eth.merkle.io"@),
        rpc@.url.port is None,
        rpc@.ws_url is None,
        rpc@.name.len() == 0,
        rpc@.max_consecutive == 0 && rpc@.consecutive == 0 && rpc@.last_used == 0
            && rpc@.min_time_delta == 0 && rpc@.status.ma_length == 0,
        !rpc@.status.is_erroring,
        rpc@.status.latency_data.len() == 0,
{
}

/// A new node has the addresses and the limits that it is made with. It has not been called, is not
/// marked, and its name is that of its address.
pub proof fn law_new_node_is_as_it_is_made(
    url: Endpoint,
    ws_url: Option<Endpoint>,
    max_consecutive: u32,
    min_time_delta: u128,
    ma_length: u64,
    rpc: Rpc,
)
    requires
        call_ensures(Rpc::new, (url, ws_url, max_consecutive, min_time_delta, ma_length), rpc),
    ensures
        rpc@.url == url@,
        rpc@.ws_url is Some <==> ws_url is Some,
        ws_url is Some ==> rpc@.ws_url->0 == ws_url->0@,
        rpc@.max_consecutive == max_consecutive,
        rpc@.min_time_delta == min_time_delta,
        rpc@.status.ma_length == ma_length,
        rpc@.consecutive == 0,
        rpc@.last_used == 0,
        !rpc@.status.is_erroring,
        rpc@.status.last_error == 0,
        rpc@.status.latency == Some(0 as real),
        rpc@.status.latency_data.len() == 0,
        rpc@.name == public_name(url@),
{
}

/// What a node's answer to whether it is catching up says: what a boolean says, yes for an object,
/// and nothing for anything else.
pub proof fn law_syncing_is_read(answer: &Json, syncing: Result<bool, RpcError>)
    requires
        call_ensures(sync_of, (answer,), syncing),
    ensures
        ({
            let result = answer@.member("result"@);
            &&& result is Bool ==> syncing == Ok::<bool, RpcError>(result->Bool_0)
            &&& result is Object ==> syncing == Ok::<bool, RpcError>(true)
            &&& !(result is Bool) && !(result is Object) ==> (syncing matches Err(
                RpcError::InvalidResponse(text),
            ) && text@ == "Unexpected result format"@)
        }),
{
}

/// The number of a block is read from where the answer has it: the result itself, or its member
/// `number`. What is no text there is an error, and so is a text that is no number.
pub proof fn law_block_numbers_are_read(
    answer: &Json,
    number: Result<u64, RpcError>,
    finalized: Result<u64, RpcError>,
)
    requires
        call_ensures(number_of, (answer,), number),
        call_ensures(finalized_of, (answer,), finalized),
    ensures
        ({
            let result = answer@.member("result"@);
            let inner = result.member("number"@);
            &&& !(result is Text) ==> (number matches Err(RpcError::InvalidResponse(text)) && text@
                == "error: Extracting response from request failed!"@)
            &&& result is Text ==> match block_number_of(result->Text_0) {
                Ok(read) => number == Ok::<u64, RpcError>(read),
                Err(_) => number is Err,
            }
            &&& !(inner is Text) ==> (finalized matches Err(RpcError::InvalidResponse(text))
                && text@ == "error: Can't get finalized block!"@)
            &&& inner is Text ==> match block_number_of(inner->Text_0) {
                Ok(read) => finalized == Ok::<u64, RpcError>(read),
                Err(_) => finalized is Err,
            }
        }),
{
}

/// The text of an answer is read as JSON, and then as its value is.
pub proof fn law_answers_are_read_as_text(
    rx: &str,
    bytes: Vec<u8>,
    answer: Option<Json>,
    value: &Json,
    syncing: Result<bool, RpcError>,
    number: Result<u64, RpcError>,
    finalized: Result<u64, RpcError>,
    syncing_of_value: Result<bool, RpcError>,
    number_of_value: Result<u64, RpcError>,
    finalized_of_value: Result<u64, RpcError>,
)
    requires
        bytes@ == encode_utf8(rx@),
        call_ensures(parse_bytes, (bytes,), answer),
        answer is Some ==> *value == answer->0,
        call_ensures(extract_sync, (rx,), syncing),
        call_ensures(extract_number, (rx,), number),
        call_ensures(extract_finalized_block, (rx,), finalized),
        call_ensures(sync_of, (value,), syncing_of_value),
        call_ensures(number_of, (value,), number_of_value),
        call_ensures(finalized_of, (value,), finalized_of_value),
    ensures
        answer is None ==> syncing == Err::<bool, RpcError>(RpcError::Malformed) && number == Err::<
            u64,
            RpcError,
        >(RpcError::Malformed) && finalized == Err::<u64, RpcError>(RpcError::Malformed),
        answer is Some ==> {
            &&& syncing is Ok <==> syncing_of_value is Ok
            &&& syncing is Ok ==> syncing == syncing_of_value
            &&& number is Ok <==> number_of_value is Ok
            &&& number is Ok ==> number == number_of_value
            &&& finalized is Ok <==> finalized_of_value is Ok
            &&& finalized is Ok ==> finalized == finalized_of_value
        },
{
}

/// A number in hexadecimal is read with any quotes left out and with any `0x` in front left out:
/// what the balancer writes is read back.
pub proof fn law_hex_numbers_of_nodes_are_read(
    text: &str,
    number: Result<u64, HexError>,
    unquoted: String,
    inner: &str,
    digits: String,
    row: &str,
    read: Result<u64, HexError>,
)
    requires
        call_ensures(hex_to_decimal, (text,), number),
        call_ensures(remove_char, (text, '"'), unquoted),
        inner@ == unquoted@,
        call_ensures(strip_hex_prefixes, (inner,), digits),
        row@ == digits@,
        call_ensures(parse_hex, (row,), read),
    ensures
        number == read,
{
}

/// What the balancer asks of nodes on its own account.
pub proof fn law_own_requests_ask_for_what_they_should(
    block_number: Json,
    syncing: Json,
    finalized: Json,
)
    requires
        call_ensures(Rpc::block_number_request, (), block_number),
        call_ensures(Rpc::syncing_request, (), syncing),
        call_ensures(Rpc::finalized_block_request, (), finalized),
    ensures
        block_number@.member("method"@) == JsonView::Text("eth_blockNumber"@),
        syncing@.member("method"@) == JsonView::Text("eth_syncing"@),
        finalized@.member("method"@) == JsonView::Text("eth_getBlockByNumber"@),
        finalized@.member("params"@) == JsonView::Array(
            seq![JsonView::Text("finalized"@), JsonView::Bool(false)],
        ),
        block_number@.member("params"@) == JsonView::Null,
        syncing@.member("params"@) == JsonView::Null,
        block_number@.member("jsonrpc"@) == JsonView::Text("2.0"@),
        syncing@.member("jsonrpc"@) == JsonView::Text("2.0"@),
        finalized@.member("jsonrpc"@) == JsonView::Text("2.0"@),
        block_number@.member("id"@) == integer(1),
        syncing@.member("id"@) == integer(1),
        finalized@.member("id"@) == integer(1),
{
    reveal_strlit("method");
    reveal_strlit("params");
    reveal_strlit("id");
    reveal_strlit("jsonrpc");
    assert("method"@.len() == 6 && "params"@.len() == 6 && "id"@.len() == 2 && "jsonrpc"@.len()
        == 7);
    assert("method"@[0] == 'm' && "params"@[0] == 'p');
}

/// A node shows what it holds.
pub proof fn law_node_shows_what_it_holds(
    rpc: &Rpc,
    url: &Endpoint,
    name: &str,
    max_consecutive: u32,
    last_error: u64,
    is_erroring: bool,
    latency: Latency,
    ws: Option<&str>,
    copy: Rpc,
)
    requires
        call_ensures(Rpc::get_url, (rpc,), url),
        call_ensures(Rpc::name, (rpc,), name),
        call_ensures(Rpc::max_consecutive, (rpc,), max_consecutive),
        call_ensures(Rpc::last_error, (rpc,), last_error),
        call_ensures(Rpc::is_erroring, (rpc,), is_erroring),
        call_ensures(Rpc::latency, (rpc,), latency),
        call_ensures(Rpc::ws_address, (rpc,), ws),
        call_ensures(Rpc::clone, (rpc,), copy),
    ensures
        url@ == rpc@.url,
        name@ == rpc@.name,
        max_consecutive == rpc@.max_consecutive,
        last_error == rpc@.status.last_error,
        is_erroring == rpc@.status.is_erroring,
        latency@ == rpc@.status.latency,
        ws is Some <==> rpc@.ws_url is Some,
        ws is Some ==> ws->0@ == rpc@.ws_url->0.text,
        copy@ == rpc@,
{
}

} // verus!
