//! The cache: its keys, what goes into it and what comes out of it.

use crate::balancer::cache_rules::{cache_method, cache_result, method_cacheable, result_cacheable};
use crate::balancer::format::{get_block_number_from_request, requested_block};
use crate::health::head_cache::{tracking, HeadCache};
use crate::health::safe_block::NamedBlocknumbers;
use crate::json::{bytes_value, parse, parse_bytes, text_value, value_text, Json, JsonView};
use crate::rpc::types::{rpcs_view, Rpc};
use vstd::bytes::{spec_u128_to_le_bytes, u128_to_le_bytes};
use vstd::prelude::*;
use vstd::utf8::encode_utf8;

verus! {

/// How the key of a request is made.
#[derive(Debug, Clone, Copy, PartialEq, Eq, Structural)]
pub enum HashAlgorithm {
    Blake3,
    Xxhash,
}

/// What the caching of answers goes by.
pub struct CacheArgs {
    /// The newest finalized block.
    pub finalized: u64,
    pub named_numbers: NamedBlocknumbers,
    pub head_cache: HeadCache,
    pub algorithm: HashAlgorithm,
}

impl CacheArgs {
    pub open spec fn wf(&self) -> bool {
        self.head_cache.wf()
    }

    /// The same but for what is tracked.
    pub open spec fn agrees(&self, other: CacheArgs) -> bool {
        &&& self.finalized == other.finalized
        &&& self.named_numbers == other.named_numbers
        &&& self.algorithm == other.algorithm
    }
}

impl Default for CacheArgs {
    fn default() -> (args: Self)
        ensures
            args.wf(),
            args.finalized == 0,
            args.named_numbers == NamedBlocknumbers::unknown(),
            args.head_cache@ == Map::<u64, Set<Seq<u8>>>::empty(),
            args.algorithm == HashAlgorithm::Blake3,
    {
        CacheArgs {
            finalized: 0,
            named_numbers: NamedBlocknumbers::defualt(),
            head_cache: HeadCache::new(),
            algorithm: HashAlgorithm::Blake3,
        }
    }
}

/// Whether an answer may be cached, by the texts of request and answer.
pub open spec fn cacheable(method: Seq<char>, result: Seq<char>) -> bool {
    method_cacheable(method) && result_cacheable(result)
}

/// Whether an answer may be cached, by the texts of request and answer.
pub fn can_cache(method: &str, result: &str) -> (can: bool)
    ensures
        can == cacheable(method@, result@),
{
    cache_method(method) && cache_result(result)
}

/// The digest that `blake3` gives.
pub uninterp spec fn blake3_digest(bytes: Seq<u8>) -> Seq<u8>;

/// The digest of 128 bits that `xxh3` gives.
pub uninterp spec fn xxh3_digest(bytes: Seq<u8>) -> u128;

/// `blake3::hash`: the digest is a function of the bytes.
#[verifier::external_body]
fn blake3_hash(bytes: &[u8]) -> (digest: [u8; 32])
    ensures
        digest@ == blake3_digest(bytes@),
{
    *blake3::hash(bytes).as_bytes()
}

/// `xxhash_rust::xxh3::xxh3_128`: the digest is a function of the bytes.
#[verifier::external_body]
fn xxh3_hash(bytes: &[u8]) -> (digest: u128)
    ensures
        digest == xxh3_digest(bytes@),
{
    xxhash_rust::xxh3::xxh3_128(bytes)
}

/// The key made from the text of a request. A digest of 128 bits fills the first half, the lowest
/// byte first.
pub open spec fn key_of_text(text: Seq<char>, algorithm: HashAlgorithm) -> Seq<u8> {
    match algorithm {
        HashAlgorithm::Blake3 => blake3_digest(encode_utf8(text)),
        HashAlgorithm::Xxhash => spec_u128_to_le_bytes(xxh3_digest(encode_utf8(text))) + Seq::new(
            16,
            |i: int| 0u8,
        ),
    }
}

/// The key under which the answer to a request is cached.
pub open spec fn request_key(request: JsonView, algorithm: HashAlgorithm) -> Seq<u8> {
    key_of_text(value_text(request), algorithm)
}

/// The bytes of a digest of 128 bits, the lowest first, and as many zeros.
pub fn padded(digest: u128) -> (key: [u8; 32])
    ensures
        key@ == spec_u128_to_le_bytes(digest) + Seq::new(16, |i: int| 0u8),
{
    let low = u128_to_le_bytes(digest);
    let mut key: [u8; 32] = [0u8; 32];
    let mut i: usize = 0;
    while i < 16
        invariant
            i <= 16,
            low@ == spec_u128_to_le_bytes(digest),
            low@.len() == 16,
            key@.len() == 32,
            forall|j: int| 0 <= j < i ==> key@[j] == low@[j],
            forall|j: int| i <= j < 32 ==> key@[j] == 0,
        decreases 16 - i,
    {
        key[i] = low[i];
        i = i + 1;
    }
    proof {
        assert(key@ =~= spec_u128_to_le_bytes(digest) + Seq::new(16, |i: int| 0u8));
    }
    key
}

/// The key under which the answer to a request is cached.
pub fn hash_request(request: &Json, algorithm: HashAlgorithm) -> (key: [u8; 32])
    ensures
        key@ == request_key(request@, algorithm),
{
    let text = request.to_text();
    match algorithm {
        HashAlgorithm::Blake3 => blake3_hash(text.as_str().as_bytes()),
        HashAlgorithm::Xxhash => padded(xxh3_hash(text.as_str().as_bytes())),
    }
}

/// A copy of a key.
pub fn key_bytes(key: &[u8; 32]) -> (bytes: Vec<u8>)
    ensures
        bytes@ == key@,
{
    let mut bytes: Vec<u8> = Vec::new();
    let mut i: usize = 0;
    while i < 32
        invariant
            i <= 32,
            bytes@ == key@.take(i as int),
        decreases 32 - i,
    {
        bytes.push(key[i]);
        proof {
            assert(key@.take(i as int).push(key@[i as int]) =~= key@.take(i + 1));
        }
        i = i + 1;
    }
    proof {
        assert(key@.take(32) =~= key@);
    }
    bytes
}

/// What an answer is cached as, and for which block: not where request or answer rule it out,
/// where the request asks about no block, or where the answer is no object with an id.
pub open spec fn cache_decision(
    request: JsonView,
    request_text: Seq<char>,
    response: Seq<char>,
    parsed: Option<JsonView>,
    numbers: NamedBlocknumbers,
) -> Option<(u64, JsonView)> {
    match (requested_block(request, numbers), parsed) {
        (Some(number), Some(answer)) => if cacheable(request_text, response) && answer.has("id"@) {
            Some((number, answer.with("id"@, JsonView::Null)))
        } else {
            None
        },
        _ => None,
    }
}

/// What an answer is cached as, and for which block.
pub fn cache_entry(
    request: &Json,
    request_text: &str,
    response: &str,
    parsed: Option<Json>,
    numbers: &NamedBlocknumbers,
) -> (entry: Option<(u64, Json)>)
    ensures
        match cache_decision(
            request@,
            request_text@,
            response@,
            json_view(parsed),
            *numbers,
        ) {
            Some((number, answer)) => entry matches Some((n, a)) && n == number && a@ == answer,
            None => entry is None,
        },
{
    if !can_cache(request_text, response) {
        return None;
    }
    match (get_block_number_from_request(request, numbers), parsed) {
        (Some(number), Some(answer)) => {
            if answer.get("id").is_none() {
                return None;
            }
            Some((number, answer.put("id", Json::Null)))
        },
        _ => None,
    }
}

/// What an optional value says.
pub open spec fn json_view(value: Option<Json>) -> Option<JsonView> {
    match value {
        Some(value) => Some(value@),
        None => None,
    }
}

/// Something to be written into the cache.
pub struct CacheWrite {
    pub key: Vec<u8>,
    pub value: Vec<u8>,
}

/// What a cached value gives in reply to the request `id`: nothing where it is no object.
pub open spec fn cached_reply(cached: Option<JsonView>, id: JsonView) -> Option<JsonView> {
    match cached {
        Some(JsonView::Object(entries)) => Some(JsonView::Object(entries).with("id"@, id)),
        _ => None,
    }
}

/// What a cached value gives in reply to the request `id`.
pub fn reply_from(cached: Option<Json>, id: Json) -> (reply: Option<Json>)
    ensures
        json_view(reply) == cached_reply(json_view(cached), id@),
{
    match cached {
        Some(cached) => if cached.is_object() {
            Some(cached.put("id", id))
        } else {
            None
        },
        None => None,
    }
}

/// What the bytes of a cached value give in reply to the request `id`.
pub fn read_cached(bytes: Vec<u8>, id: Json) -> (reply: Option<Json>)
    ensures
        json_view(reply) == cached_reply(bytes_value(bytes@), id@),
{
    reply_from(parse_bytes(bytes), id)
}

proof fn lemma_plain_more(value: JsonView, levels: nat, more: nat)
    requires
        value.plain(levels),
        levels <= more,
    ensures
        value.plain(more),
    decreases levels,
{
    match value {
        JsonView::Array(items) => {
            assert forall|i: int| 0 <= i < items.len() implies (#[trigger] items[i]).plain(
                (more - 1) as nat,
            ) by {
                lemma_plain_more(items[i], (levels - 1) as nat, (more - 1) as nat);
            }
        },
        JsonView::Object(entries) => {
            assert forall|k: Seq<char>| entries.contains_key(k) implies (
            #[trigger] entries[k]).plain((more - 1) as nat) by {
                lemma_plain_more(entries[k], (levels - 1) as nat, (more - 1) as nat);
            }
        },
        _ => {},
    }
}

proof fn lemma_plain_without_id(answer: JsonView, levels: nat)
    requires
        answer.has("id"@),
        answer.plain(levels),
    ensures
        answer.with("id"@, JsonView::Null).plain(levels),
{
    let entries = answer->Object_0;
    let stored = entries.insert("id"@, JsonView::Null);
    assert forall|k: Seq<char>| stored.contains_key(k) implies (#[trigger] stored[k]).plain(
        (levels - 1) as nat,
    ) by {
        if k != "id"@ {
            assert(entries[k].plain((levels - 1) as nat));
        }
    }
}

proof fn lemma_read_back(answer: JsonView, bytes: Seq<u8>)
    requires
        answer.has("id"@),
        bytes_value(bytes) == Some(answer.with("id"@, JsonView::Null)),
    ensures
        forall|id: JsonView| #[trigger]
            cached_reply(bytes_value(bytes), id) == Some(answer.with("id"@, id)),
{
    let entries = answer->Object_0;
    assert forall|id: JsonView| #[trigger]
        cached_reply(bytes_value(bytes), id) == Some(answer.with("id"@, id)) by {
        assert(entries.insert("id"@, JsonView::Null).insert("id"@, id) =~= entries.insert(
            "id"@,
            id,
        ));
    }
}

/// What was written for the answer `response` gives that answer again, under the id of whoever
/// asks: where its numbers are integers and what was written is within the length that the reader
/// takes.
pub open spec fn reads_back(response: Seq<char>, written: Seq<u8>) -> bool {
    text_value(response)->0.plain(127) && written.len() <= u32::MAX ==> forall|id: JsonView|
        #[trigger]
        cached_reply(bytes_value(written), id) == Some(text_value(response)->0.with("id"@, id))
}

/// Decides whether an answer is cached. Where it is, the answer without its id is to be written
/// under the key of the request; the key is tracked until the block is final.
pub fn cache_query(
    response: &str,
    request: &Json,
    request_hash: &[u8; 32],
    cache_args: &mut CacheArgs,
) -> (write: Option<CacheWrite>)
    requires
        old(cache_args).wf(),
    ensures
        final(cache_args).wf(),
        final(cache_args).agrees(*old(cache_args)),
        match cache_decision(
            request@,
            value_text(request@),
            response@,
            text_value(response@),
            old(cache_args).named_numbers,
        ) {
            Some((number, answer)) => {
                &&& write is Some
                &&& write->0.key@ == request_hash@
                &&& write->0.value@ == encode_utf8(value_text(answer))
                &&& final(cache_args).head_cache@ == if number > old(cache_args).finalized {
                    tracking(old(cache_args).head_cache@, number, request_hash@)
                } else {
                    old(cache_args).head_cache@
                }
            },
            None => write is None && final(cache_args).head_cache@ == old(cache_args).head_cache@,
        },
        write is Some ==> reads_back(response@, write->0.value@),
{
    let request_text = request.to_text();
    let parsed = parse(response);
    let ghost answer = json_view(parsed);
    match cache_entry(
        request,
        request_text.as_str(),
        response,
        parsed,
        &cache_args.named_numbers,
    ) {
        None => None,
        Some((number, stored)) => {
            if number > cache_args.finalized {
                cache_args.head_cache.track(number, key_bytes(request_hash));
            }
            let text = stored.to_text();
            proof {
                if answer->0.plain(127) {
                    lemma_plain_without_id(answer->0, 127);
                    lemma_plain_more(stored@, 127, 1024);
                    if encode_utf8(text@).len() <= u32::MAX {
                        lemma_read_back(answer->0, encode_utf8(text@));
                    }
                }
            }
            Some(CacheWrite { key: key_bytes(request_hash), value: text.as_str().as_bytes_vec() })
        },
    }
}

/// Which node of a list of `length` a latency counts for: the last one where there is none at
/// `position`.
pub open spec fn timed_position(length: nat, position: nat) -> int {
    if position >= length {
        length - 1
    } else {
        position as int
    }
}

/// Takes in how many nanoseconds a call of the node at `rpc_position` took. Where the list has
/// become shorter, the last node takes it.
pub fn update_rpc_latency(rpc_list: &mut Vec<Rpc>, rpc_position: usize, time: u64)
    ensures
        rpcs_view(final(rpc_list)@) == if old(rpc_list)@.len() == 0 {
            rpcs_view(old(rpc_list)@)
        } else {
            let at = timed_position(old(rpc_list)@.len(), rpc_position as nat);
            rpcs_view(old(rpc_list)@).update(at, old(rpc_list)@[at]@.timed(time))
        },
{
    if rpc_list.len() > 0 {
        let index: usize = if rpc_position >= rpc_list.len() {
            rpc_list.len() - 1
        } else {
            rpc_position
        };
        let ghost before = rpc_list@;
        rpc_list[index].update_latency(time);
        proof {
            assert(rpcs_view(rpc_list@) =~= rpcs_view(before).update(
                index as int,
                before[index as int]@.timed(time),
            ));
        }
    }
}

/// The key of a request is the digest of the whole text of the request. A digest of 128 bits fills
/// the first half of the key, and zeros the second.
pub proof fn law_key_is_digest_of_whole_text(
    request: &Json,
    algorithm: HashAlgorithm,
    key: [u8; 32],
    text: String,
)
    requires
        call_ensures(hash_request, (request, algorithm), key),
        call_ensures(Json::to_text, (request,), text),
    ensures
        algorithm == HashAlgorithm::Blake3 ==> key@ == blake3_digest(encode_utf8(text@)),
        algorithm == HashAlgorithm::Xxhash ==> key@ == spec_u128_to_le_bytes(
            xxh3_digest(encode_utf8(text@)),
        ) + Seq::new(16, |i: int| 0u8),
{
}

/// Two requests that differ in a member or a parameter are digested from different texts: only a
/// request with the same method and all the same parameters is sure to find what was cached. This
/// holds of requests whose numbers are integers and which are not nested too deep.
pub proof fn law_keys_tell_requests_apart(
    a: &Json,
    b: &Json,
    algorithm: HashAlgorithm,
    first: [u8; 32],
    second: [u8; 32],
    text: String,
    other: String,
)
    requires
        call_ensures(hash_request, (a, algorithm), first),
        call_ensures(hash_request, (b, algorithm), second),
        call_ensures(Json::to_text, (a,), text),
        call_ensures(Json::to_text, (b,), other),
        a@.plain(127),
        b@.plain(127),
    ensures
        a@ == b@ ==> first@ == second@,
        a@ != b@ ==> encode_utf8(text@) != encode_utf8(other@),
        algorithm == HashAlgorithm::Blake3 ==> first@ == blake3_digest(encode_utf8(text@))
            && second@ == blake3_digest(encode_utf8(other@)),
        algorithm == HashAlgorithm::Xxhash ==> first@.take(16) == spec_u128_to_le_bytes(
            xxh3_digest(encode_utf8(text@)),
        ) && second@.take(16) == spec_u128_to_le_bytes(xxh3_digest(encode_utf8(other@))),
{
    vstd::utf8::encode_utf8_decode_utf8(text@);
    vstd::utf8::encode_utf8_decode_utf8(other@);
    vstd::bytes::lemma_auto_spec_u128_to_from_le_bytes();
    if algorithm == HashAlgorithm::Xxhash {
        let x = spec_u128_to_le_bytes(xxh3_digest(encode_utf8(text@)));
        let y = spec_u128_to_le_bytes(xxh3_digest(encode_utf8(other@)));
        assert(x.len() == 16 && y.len() == 16);
        assert(first@.take(16) =~= x);
        assert(second@.take(16) =~= y);
    }
}

/// No two digests of 128 bits make one key, and the second half of such a key is zeros.
pub proof fn law_padding_loses_nothing(a: u128, b: u128, first: [u8; 32], second: [u8; 32])
    requires
        call_ensures(padded, (a,), first),
        call_ensures(padded, (b,), second),
    ensures
        first@ == second@ <==> a == b,
        forall|i: int| 16 <= i < 32 ==> #[trigger] first@[i] == 0,
{
    vstd::bytes::lemma_auto_spec_u128_to_from_le_bytes();
    let x = spec_u128_to_le_bytes(a);
    let y = spec_u128_to_le_bytes(b);
    assert(x.len() == 16 && y.len() == 16);
    assert(first@.take(16) =~= x);
    assert(second@.take(16) =~= y);
}

/// Whether an answer is cached, and as what: exactly where the request asks about a block, neither
/// request nor answer is ruled out, and the answer is an object with an id. It is cached for that
/// block as it is, but for its id, which is null.
pub proof fn law_what_is_cached(
    request: &Json,
    request_text: &str,
    response: &str,
    parsed: Option<Json>,
    numbers: &NamedBlocknumbers,
    block: Option<u64>,
    allowed: bool,
    entry: Option<(u64, Json)>,
    key: Seq<char>,
)
    requires
        call_ensures(get_block_number_from_request, (request, numbers), block),
        call_ensures(can_cache, (request_text, response), allowed),
        call_ensures(cache_entry, (request, request_text, response, parsed, numbers), entry),
    ensures
        entry is Some <==> block is Some && allowed && parsed is Some && parsed->0@ is Object
            && parsed->0@->Object_0.contains_key("id"@),
        allowed <==> method_cacheable(request_text@) && result_cacheable(response@),
        entry matches Some((number, answer)) ==> {
            &&& Some(number) == block
            &&& answer@ is Object
            &&& answer@->Object_0.contains_key(key) <==> parsed->0@->Object_0.contains_key(key)
            &&& answer@->Object_0["id"@] == JsonView::Null
            &&& key != "id"@ && answer@->Object_0.contains_key(key) ==> answer@->Object_0[key]
                == parsed->0@->Object_0[key]
        },
{
}

/// What an answer that is cached does: it is written under the key of the request, and the key is
/// tracked under the block exactly where that is not final. Nothing else changes.
pub proof fn law_cached_answer_is_tracked(
    response: &str,
    request: &Json,
    request_hash: &[u8; 32],
    cache_args: &mut CacheArgs,
    block: Option<u64>,
    write: Option<CacheWrite>,
    number: u64,
    key: Seq<u8>,
)
    requires
        call_ensures(
            get_block_number_from_request,
            (request, &old(cache_args).named_numbers),
            block,
        ),
        call_ensures(cache_query, (response, request, request_hash, cache_args), write),
    ensures
        final(cache_args).finalized == old(cache_args).finalized,
        final(cache_args).named_numbers == old(cache_args).named_numbers,
        final(cache_args).algorithm == old(cache_args).algorithm,
        write is Some <==> block is Some && method_cacheable(value_text(request@))
            && result_cacheable(response@) && text_value(response@) is Some && text_value(
            response@,
        )->0.has("id"@),
        write is Some ==> write->0.key@ == request_hash@ && write->0.value@ == encode_utf8(
            value_text(text_value(response@)->0.with("id"@, JsonView::Null)),
        ),
        ({
            let before = old(cache_args).head_cache@;
            let after = final(cache_args).head_cache@;
            let listed = |held: Map<u64, Set<Seq<u8>>>|
                held.contains_key(number) && held[number].contains(key);
            listed(after) <==> listed(before) || (write is Some && number == block->0 && number
                > old(cache_args).finalized && key == request_hash@)
        }),
{
}

/// A cached answer is given as it was cached, but for its id, which is that of whoever asks. What
/// is no object is not given.
pub proof fn law_cached_answer_is_given(
    cached: Option<Json>,
    id: Json,
    reply: Option<Json>,
    key: Seq<char>,
)
    requires
        call_ensures(reply_from, (cached, id), reply),
    ensures
        reply is Some <==> cached is Some && cached->0@ is Object,
        reply is Some ==> {
            let old = cached->0@->Object_0;
            let new = reply->0@->Object_0;
            &&& reply->0@ is Object
            &&& new.contains_key("id"@)
            &&& new["id"@] == id@
            &&& key != "id"@ ==> (new.contains_key(key) <==> old.contains_key(key))
            &&& key != "id"@ && new.contains_key(key) ==> new[key] == old[key]
        },
{
}

/// The same holds of the bytes of a cached answer, once they are read.
pub proof fn law_cached_bytes_are_given(
    bytes: Vec<u8>,
    id: Json,
    reply: Option<Json>,
    cached: Option<Json>,
    same: Option<Json>,
)
    requires
        call_ensures(read_cached, (bytes, id), reply),
        call_ensures(parse_bytes, (bytes,), cached),
        call_ensures(reply_from, (cached, id), same),
    ensures
        reply is Some <==> same is Some,
        reply is Some ==> reply->0@ == same->0@,
{
}

/// The answer that a request got is what the next one who asks is given from the cache, under the
/// id of whoever asks: as long as the answer's numbers are integers and it is within the limits of
/// depth and length.
pub proof fn law_cache_gives_back_the_answer(
    response: &str,
    request: &Json,
    request_hash: &[u8; 32],
    cache_args: &mut CacheArgs,
    write: Option<CacheWrite>,
    id: Json,
    reply: Option<Json>,
    answer: Option<Json>,
    key: Seq<char>,
)
    requires
        call_ensures(cache_query, (response, request, request_hash, cache_args), write),
        write is Some,
        call_ensures(read_cached, (write->0.value, id), reply),
        call_ensures(parse, (response,), answer),
        answer is Some ==> answer->0@.plain(127),
        write->0.value@.len() <= u32::MAX,
    ensures
        answer is Some && answer->0@ is Object,
        reply is Some && reply->0@ is Object,
        reply->0@->Object_0["id"@] == id@,
        key != "id"@ ==> {
            &&& reply->0@->Object_0.contains_key(key) <==> answer->0@->Object_0.contains_key(key)
            &&& reply->0@->Object_0.contains_key(key) ==> reply->0@->Object_0[key]
                == answer->0@->Object_0[key]
        },
{
    let written = bytes_value(write->0.value@);
    assert(cached_reply(written, id@) == Some(text_value(response@)->0.with("id"@, id@)));
}

/// How long a call took counts for the node at its place in the list, or for the last one where
/// the list has become shorter, and for no other; an empty list stays empty.
pub proof fn law_latency_counts_for_one_node(
    rpc_list: &mut Vec<Rpc>,
    position: usize,
    time: u64,
    i: int,
)
    requires
        call_ensures(update_rpc_latency, (rpc_list, position, time), ()),
    ensures
        final(rpc_list)@.len() == old(rpc_list)@.len(),
        0 <= i < old(rpc_list)@.len() ==> final(rpc_list)@[i]@ == if i == position || (position
            >= old(rpc_list)@.len() && i == old(rpc_list)@.len() - 1) {
            old(rpc_list)@[i]@.timed(time)
        } else {
            old(rpc_list)@[i]@
        },
{
    let before = rpcs_view(old(rpc_list)@);
    let after = rpcs_view(final(rpc_list)@);
    assert(before.len() == old(rpc_list)@.len());
    assert(after.len() == final(rpc_list)@.len());
    if 0 <= i < before.len() {
        assert(before[i] == old(rpc_list)@[i]@);
        assert(after[i] == final(rpc_list)@[i]@);
    }
}

/// The bytes of a key are the key.
pub proof fn law_key_bytes_are_the_key(key: &[u8; 32], bytes: Vec<u8>)
    requires
        call_ensures(key_bytes, (key,), bytes),
    ensures
        bytes@ == key@,
        bytes@.len() == 32,
{
}

} // verus!
