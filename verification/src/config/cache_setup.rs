//! What the cache holds from the start.

use crate::balancer::accept_http::{started, RequestParams};
use crate::balancer::processing::{
    hash_request, key_bytes, request_key, CacheWrite, HashAlgorithm,
};
use crate::health::safe_block::NamedBlocknumbers;
use crate::json::{empty_object, items_view, Json, JsonView};
use vstd::prelude::*;
use vstd::utf8::encode_utf8;

verus! {

/// A request for the balancer's identity, without an id.
pub open spec fn identity_request(method: Seq<char>) -> JsonView {
    empty_object().with("id"@, JsonView::Null).with("jsonrpc"@, JsonView::Text("2.0"@)).with(
        "method"@,
        JsonView::Text(method),
    ).with("params"@, JsonView::Array(Seq::empty()))
}

/// The text that is cached for it.
pub open spec fn identity_text(version: Seq<char>) -> Seq<char> {
    "{\"jsonrpc\":\"2.0\",\"id\":1,\"result\":\"rpsee "@ + version + "\"}"@
}

/// The name under which the cache says how its keys are made.
pub open spec fn marker_view(algorithm: HashAlgorithm) -> Seq<char> {
    match algorithm {
        HashAlgorithm::Blake3 => "blake3"@,
        HashAlgorithm::Xxhash => "xxhash"@,
    }
}

/// The name under which the cache says how its keys are made.
pub fn marker(algorithm: HashAlgorithm) -> (name: &'static str)
    ensures
        name@ == marker_view(algorithm),
{
    match algorithm {
        HashAlgorithm::Blake3 => "blake3",
        HashAlgorithm::Xxhash => "xxhash",
    }
}

/// The name that stands in a cache with keys of the other kind.
pub fn other_marker(algorithm: HashAlgorithm) -> (name: &'static str)
    ensures
        name@ == match algorithm {
            HashAlgorithm::Blake3 => marker_view(HashAlgorithm::Xxhash),
            HashAlgorithm::Xxhash => marker_view(HashAlgorithm::Blake3),
        },
{
    match algorithm {
        HashAlgorithm::Blake3 => "xxhash",
        HashAlgorithm::Xxhash => "blake3",
    }
}

/// Whether a write puts the balancer's identity under the key of a request for it.
pub open spec fn writes_identity(
    write: CacheWrite,
    method: Seq<char>,
    version: Seq<char>,
    algorithm: HashAlgorithm,
) -> bool {
    &&& write.key@ == request_key(identity_request(method), algorithm)
    &&& write.value@ == encode_utf8(identity_text(version))
}

fn identity_write(method: &str, text: &str, algorithm: HashAlgorithm) -> (write: CacheWrite)
    ensures
        write.key@ == request_key(identity_request(method@), algorithm),
        write.value@ == encode_utf8(text@),
{
    let params: Vec<Json> = Vec::new();
    proof {
        assert(items_view(params@) =~= Seq::<JsonView>::empty());
    }
    let request = Json::object().put("id", Json::Null).put("jsonrpc", Json::text("2.0")).put(
        "method",
        Json::text(method),
    ).put("params", Json::array(params));
    CacheWrite {
        key: key_bytes(&hash_request(&request, algorithm)),
        value: text.as_bytes_vec(),
    }
}

/// What is written into the cache at the start, once it has been cleared where that is wanted:
/// the balancer's identity for those who ask for it, and how the keys are made.
pub fn setup_data(version: &str, algorithm: HashAlgorithm) -> (writes: Vec<CacheWrite>)
    ensures
        writes@.len() == 3,
        writes_identity(writes@[0], "rpsee_is_lb"@, version@, algorithm),
        writes_identity(writes@[1], "web3_clientVersion"@, version@, algorithm),
        writes@[2].key@ == encode_utf8(marker_view(algorithm)),
        writes@[2].value@ == encode_utf8("true"@),
{
    let text = "{\"jsonrpc\":\"2.0\",\"id\":1,\"result\":\"rpsee ".to_owned().concat(
        version,
    ).concat("\"}");
    let mut writes: Vec<CacheWrite> = Vec::new();
    writes.push(identity_write("rpsee_is_lb", text.as_str(), algorithm));
    writes.push(identity_write("web3_clientVersion", text.as_str(), algorithm));
    writes.push(
        CacheWrite { key: marker(algorithm).as_bytes_vec(), value: "true".as_bytes_vec() },
    );
    writes
}

/// Whoever asks for the balancer's identity, under whatever id, finds what was written at the
/// start.
pub proof fn law_identity_is_found(
    id: JsonView,
    numbers: NamedBlocknumbers,
    algorithm: HashAlgorithm,
    params: RequestParams,
)
    ensures
        started(
            identity_request("rpsee_is_lb"@).with("id"@, id),
            numbers,
            algorithm,
            params,
        ).key == request_key(identity_request("rpsee_is_lb"@), algorithm),
        started(
            identity_request("web3_clientVersion"@).with("id"@, id),
            numbers,
            algorithm,
            params,
        ).key == request_key(identity_request("web3_clientVersion"@), algorithm),
{
    lemma_identity_key("rpsee_is_lb"@, id, numbers, algorithm, params);
    lemma_identity_key("web3_clientVersion"@, id, numbers, algorithm, params);
}

proof fn lemma_identity_key(
    method: Seq<char>,
    id: JsonView,
    numbers: NamedBlocknumbers,
    algorithm: HashAlgorithm,
    params: RequestParams,
)
    ensures
        started(identity_request(method).with("id"@, id), numbers, algorithm, params).key
            == request_key(identity_request(method), algorithm),
{
    let request = identity_request(method);
    let asked = request.with("id"@, id);
    reveal_strlit("id");
    reveal_strlit("jsonrpc");
    reveal_strlit("method");
    reveal_strlit("params");
    assert("id"@.len() == 2);
    assert("jsonrpc"@.len() == 7);
    assert("method"@.len() == 6);
    assert("params"@.len() == 6);
    assert("method"@[0] != "params"@[0]);
    let entries = request->Object_0;
    assert(entries.insert("id"@, id).insert("id"@, JsonView::Null) =~= entries);
    assert(asked.with("id"@, JsonView::Null) == request);
}

/// What the cache holds from the start: under the keys of two requests, each without parameters and
/// with null for its id, the name and the version of the balancer; and the name of the way in which
/// keys are made. The other way goes by another name.
pub proof fn law_identity_is_cached_from_the_start(
    version: &str,
    algorithm: HashAlgorithm,
    writes: Vec<CacheWrite>,
    request: &Json,
    key: [u8; 32],
    name: &'static str,
    other: &'static str,
)
    requires
        call_ensures(setup_data, (version, algorithm), writes),
        call_ensures(hash_request, (request, algorithm), key),
        call_ensures(marker, (algorithm,), name),
        call_ensures(other_marker, (algorithm,), other),
        request@ is Object,
        forall|member: Seq<char>| #[trigger]
            request@.has(member) <==> member == "id"@ || member == "jsonrpc"@ || member
                == "method"@ || member == "params"@,
        request@.member("id"@) == JsonView::Null,
        request@.member("jsonrpc"@) == JsonView::Text("2.0"@),
        request@.member("params"@) == JsonView::Array(Seq::empty()),
    ensures
        writes@.len() == 3,
        ({
            let text = "{\"jsonrpc\":\"2.0\",\"id\":1,\"result\":\"rpsee "@ + version@ + "\"}"@;
            &&& writes@[0].value@ == encode_utf8(text)
            &&& writes@[1].value@ == encode_utf8(text)
            &&& request@.member("method"@) == JsonView::Text("rpsee_is_lb"@) ==> writes@[0].key@
                == key@
            &&& request@.member("method"@) == JsonView::Text("web3_clientVersion"@)
                ==> writes@[1].key@ == key@
        }),
        writes@[2].key@ == encode_utf8(name@),
        writes@[2].value@ == encode_utf8("true"@),
        algorithm == HashAlgorithm::Blake3 ==> name@ == "blake3"@ && other@ == "xxhash"@,
        algorithm == HashAlgorithm::Xxhash ==> name@ == "xxhash"@ && other@ == "blake3"@,
{
    reveal_strlit("method");
    reveal_strlit("params");
    reveal_strlit("id");
    reveal_strlit("jsonrpc");
    assert("method"@.len() == 6 && "params"@.len() == 6 && "id"@.len() == 2 && "jsonrpc"@.len()
        == 7);
    assert("method"@[0] == 'm' && "params"@[0] == 'p');
    assert(request@.has("method"@));
    if request@.member("method"@) is Text {
        let asked = identity_request(request@.member("method"@)->Text_0);
        let (a, b) = (request@->Object_0, asked->Object_0);
        assert forall|member: Seq<char>| #[trigger]
            a.dom().contains(member) <==> b.dom().contains(member) by {
            assert(request@.has(member) <==> a.contains_key(member));
        }
        assert(request@.has("id"@) && request@.has("jsonrpc"@) && request@.has("params"@));
        assert(a =~= b);
        assert(request@ == asked);
    }
}

} // verus!
