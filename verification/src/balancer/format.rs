//! The form of a request: whether it is valid, and which block it asks about.

use crate::balancer::response_errors::{error_reply, law_errors_say_what_is_wrong, request_error};
use crate::health::safe_block::NamedBlocknumbers;
use crate::json::{bytes_value, integer, items_view, parse_bytes, Json, JsonView};
use crate::number::{digits, hex, hex_number, hex_text, law_hex_round_trip, parse_hex};
use crate::rpc::method::{block_position, EthRpcMethod};
use crate::text::{after_prefix, same, strip_hex_prefix};
use vstd::prelude::*;

verus! {

/// A block tag.
#[derive(Debug, Clone, Copy, PartialEq, Eq, Structural)]
pub enum NamedNumber {
    Latest,
    Earliest,
    Safe,
    Finalized,
    Pending,
    Null,
}

impl NamedNumber {
    pub open spec fn name(self) -> Seq<char> {
        match self {
            NamedNumber::Latest => "latest"@,
            NamedNumber::Earliest => "earliest"@,
            NamedNumber::Safe => "safe"@,
            NamedNumber::Finalized => "finalized"@,
            NamedNumber::Pending => "pending"@,
            NamedNumber::Null => "null"@,
        }
    }

    /// The tag as text.
    pub fn as_ref(&self) -> (name: &'static str)
        ensures
            name@ == self.name(),
    {
        match self {
            NamedNumber::Latest => "latest",
            NamedNumber::Earliest => "earliest",
            NamedNumber::Safe => "safe",
            NamedNumber::Finalized => "finalized",
            NamedNumber::Pending => "pending",
            NamedNumber::Null => "null",
        }
    }
}

/// The tag that a text is, `Null` where it is none.
pub open spec fn tag_of(param: Seq<char>) -> NamedNumber {
    if param == NamedNumber::Latest.name() {
        NamedNumber::Latest
    } else if param == NamedNumber::Earliest.name() {
        NamedNumber::Earliest
    } else if param == NamedNumber::Safe.name() {
        NamedNumber::Safe
    } else if param == NamedNumber::Finalized.name() {
        NamedNumber::Finalized
    } else if param == NamedNumber::Pending.name() {
        NamedNumber::Pending
    } else {
        NamedNumber::Null
    }
}

/// The tag that a text is, `Null` where it is none.
pub fn has_named_number(param: &str) -> (tag: NamedNumber)
    ensures
        tag == tag_of(param@),
{
    if same(param, "latest") {
        NamedNumber::Latest
    } else if same(param, "earliest") {
        NamedNumber::Earliest
    } else if same(param, "safe") {
        NamedNumber::Safe
    } else if same(param, "finalized") {
        NamedNumber::Finalized
    } else if same(param, "pending") {
        NamedNumber::Pending
    } else {
        NamedNumber::Null
    }
}

/// The number of the block that a parameter names: by a tag, or in hexadecimal behind `0x`.
pub open spec fn block_of(param: Seq<char>, numbers: NamedBlocknumbers) -> Option<u64> {
    match tag_of(param) {
        NamedNumber::Latest => Some(numbers.latest),
        NamedNumber::Earliest => Some(numbers.earliest),
        NamedNumber::Safe => Some(numbers.safe),
        NamedNumber::Finalized => Some(numbers.finalized),
        NamedNumber::Pending => Some(numbers.pending),
        NamedNumber::Null => match after_prefix(param, "0x"@) {
            Some(digits) => match hex_number(digits) {
                Ok(number) => Some(number),
                Err(_) => None,
            },
            None => None,
        },
    }
}

/// The parameter that names a block, where the method has one and the parameter is a text.
pub open spec fn block_param(request: JsonView) -> Option<Seq<char>> {
    match block_position(request.member("method"@).text()) {
        Some(position) => request.member("params"@).item(position as int).text(),
        None => None,
    }
}

/// The number of the block that a request asks about.
pub open spec fn requested_block(request: JsonView, numbers: NamedBlocknumbers) -> Option<u64> {
    match block_param(request) {
        Some(param) => block_of(param, numbers),
        None => None,
    }
}

/// The position of the parameter that names a block, where that parameter is a text.
fn block_param_position(request: &Json) -> (position: Option<usize>)
    ensures
        match position {
            Some(position) => {
                &&& block_position(request@.member("method"@).text()) == Some(position)
                &&& block_param(request@) is Some
            },
            None => block_param(request@) is None,
        },
{
    let method = match request.get("method") {
        Some(method) => method.as_str(),
        None => None,
    };
    let position: usize = match EthRpcMethod::get_position(method) {
        Some(position) => position,
        None => {
            return None;
        },
    };
    match request.get("params") {
        Some(params) => match params.at(position) {
            Some(param) => match param.as_str() {
                Some(_) => Some(position),
                None => None,
            },
            None => None,
        },
        None => None,
    }
}

/// The number of the block that a request asks about, where its method has a block parameter.
pub fn get_block_number_from_request(
    tx: &Json,
    named_blocknumbers: &NamedBlocknumbers,
) -> (number: Option<u64>)
    ensures
        number == requested_block(tx@, *named_blocknumbers),
{
    let position: usize = match block_param_position(tx) {
        Some(position) => position,
        None => {
            return None;
        },
    };
    let param = match tx.get("params") {
        Some(params) => match params.at(position) {
            Some(param) => param.as_str(),
            None => None,
        },
        None => None,
    };
    match param {
        None => None,
        Some(param) => match has_named_number(param) {
            NamedNumber::Latest => Some(named_blocknumbers.latest),
            NamedNumber::Earliest => Some(named_blocknumbers.earliest),
            NamedNumber::Safe => Some(named_blocknumbers.safe),
            NamedNumber::Finalized => Some(named_blocknumbers.finalized),
            NamedNumber::Pending => Some(named_blocknumbers.pending),
            NamedNumber::Null => match strip_hex_prefix(param) {
                Some(digits) => match parse_hex(digits.as_str()) {
                    Ok(number) => Some(number),
                    Err(_) => None,
                },
                None => None,
            },
        },
    }
}

/// The number that is written in place of a tag, where one is.
pub open spec fn replacement(param: Seq<char>, numbers: NamedBlocknumbers) -> Option<u64> {
    match tag_of(param) {
        NamedNumber::Latest => if numbers.latest != 0 {
            Some(numbers.latest)
        } else {
            None
        },
        NamedNumber::Finalized => if numbers.finalized != 0 {
            Some(numbers.finalized)
        } else {
            None
        },
        _ => None,
    }
}

/// A request with `value` as its parameter at `position`.
pub open spec fn with_param(request: JsonView, position: int, value: JsonView) -> JsonView {
    request.with(
        "params"@,
        JsonView::Array(request.member("params"@)->Array_0.update(position, value)),
    )
}

/// A request with the tags `latest` and `finalized` replaced by the numbers that they stand for,
/// where these are known.
pub open spec fn untagged(request: JsonView, numbers: NamedBlocknumbers) -> JsonView {
    match block_param(request) {
        Some(param) => match replacement(param, numbers) {
            Some(number) => with_param(
                request,
                block_position(request.member("method"@).text())->0 as int,
                JsonView::Text(hex_text(number as nat)),
            ),
            None => request,
        },
        None => request,
    }
}

/// Writes `value` as the parameter of a request at `position`.
fn set_param(request: &mut Json, position: usize, value: Json)
    requires
        old(request)@.member("params"@) is Array,
        position < old(request)@.member("params"@)->Array_0.len(),
    ensures
        final(request)@ == with_param(old(request)@, position as int, value@),
{
    let params = request.member("params");
    match params {
        Json::Array(items) => {
            let mut items = items;
            let ghost before = items_view(items@);
            items.set(position, value);
            proof {
                assert(items_view(items@) =~= before.update(position as int, value@));
                assert(params@->Array_0 =~= before);
            }
            request.insert("params", Json::array(items));
        },
        _ => {},
    }
}

/// Replaces the tags `latest` and `finalized` by the numbers that they stand for, where these are
/// known, and gives the request back.
pub fn replace_block_tags(tx: &mut Json, named_blocknumbers: &NamedBlocknumbers) -> (request: Json)
    ensures
        final(tx)@ == untagged(old(tx)@, *named_blocknumbers),
        request@ == final(tx)@,
{
    if let Some(position) = block_param_position(tx) {
        let tag = match tx.get("params") {
            Some(params) => match params.at(position) {
                Some(param) => match param.as_str() {
                    Some(param) => has_named_number(param),
                    None => NamedNumber::Null,
                },
                None => NamedNumber::Null,
            },
            None => NamedNumber::Null,
        };
        let number: u64 = match tag {
            NamedNumber::Latest => named_blocknumbers.latest,
            NamedNumber::Finalized => named_blocknumbers.finalized,
            _ => 0,
        };
        if number != 0 {
            set_param(tx, position, Json::Text(hex(number)));
        }
    }
    tx.clone()
}

/// Whether a value may stand as the id of a request.
pub open spec fn valid_id(id: JsonView) -> bool {
    id is Null || id is Text || id is Number
}

/// Whether a value is a JSON-RPC request.
pub open spec fn valid_request(request: JsonView) -> bool {
    &&& request is Object
    &&& request.member("jsonrpc"@) == JsonView::Text("2.0"@)
    &&& request.member("method"@) is Text
    &&& valid_id(request.member("id"@))
}

/// What an invalid request is answered.
pub open spec fn invalid_request(request: JsonView) -> JsonView {
    error_reply(
        if valid_id(request.member("id"@)) {
            request.member("id"@)
        } else {
            JsonView::Null
        },
        -32600,
        "Invalid Request"@,
    )
}

/// Whether a value is a JSON-RPC request; the answer to it where it is not.
pub fn validate_request(request: &Json) -> (valid: Result<(), Json>)
    ensures
        match valid {
            Ok(()) => valid_request(request@),
            Err(error) => !valid_request(request@) && error@ == invalid_request(request@),
        },
{
    let id = request.member("id");
    let valid_id = match &id {
        Json::Null => true,
        Json::Text(_) => true,
        Json::Number(_) => true,
        _ => false,
    };
    let version = match request.get("jsonrpc") {
        Some(version) => version.is("2.0"),
        None => false,
    };
    let method = match request.get("method") {
        Some(method) => method.as_str().is_some(),
        None => false,
    };
    if request.is_object() && version && method && valid_id {
        return Ok(());
    }
    Err(
        request_error(
            if valid_id {
                id
            } else {
                Json::Null
            },
            -32600,
            "Invalid Request",
        ),
    )
}

/// Reads the body of a request.
pub fn incoming_to_value(body: Vec<u8>) -> (value: Option<Json>)
    ensures
        match value {
            Some(value) => bytes_value(body@) == Some(value@),
            None => bytes_value(body@) is None,
        },
{
    parse_bytes(body)
}

/// Replacing the tags of a request does not change which block it asks about.
pub proof fn law_untagged_keeps_block(request: JsonView, numbers: NamedBlocknumbers)
    ensures
        requested_block(untagged(request, numbers), numbers) == requested_block(request, numbers),
{
    if let Some(param) = block_param(request) {
        if let Some(number) = replacement(param, numbers) {
            let text = hex_text(number as nat);
            reveal_strlit("0x");
            reveal_strlit("latest");
            reveal_strlit("earliest");
            reveal_strlit("safe");
            reveal_strlit("finalized");
            reveal_strlit("pending");
            reveal_strlit("method");
            reveal_strlit("params");
            assert("method"@[0] != "params"@[0]);
            assert(text[0] == '0');
            assert(tag_of(text) == NamedNumber::Null);
            assert("0x"@.is_prefix_of(text)) by {
                assert(text.take(2) =~= "0x"@);
            }
            assert(text.skip(2) =~= digits(number as nat, 16));
            law_hex_round_trip(number);
        }
    }
}

/// Replacing the tags of a request a second time changes nothing.
pub proof fn law_untagged_twice(request: JsonView, numbers: NamedBlocknumbers)
    ensures
        untagged(untagged(request, numbers), numbers) == untagged(request, numbers),
{
    if let Some(param) = block_param(request) {
        if let Some(number) = replacement(param, numbers) {
            let text = hex_text(number as nat);
            reveal_strlit("0x");
            reveal_strlit("latest");
            reveal_strlit("finalized");
            reveal_strlit("method");
            reveal_strlit("params");
            assert("method"@[0] != "params"@[0]);
            assert(text[0] == '0');
            assert(replacement(text, numbers) is None);
        }
    }
}

/// Where a tag's number is not known, the request goes on as it is.
pub proof fn law_unknown_numbers_keep_tags(request: JsonView, numbers: NamedBlocknumbers)
    requires
        numbers.latest == 0,
        numbers.finalized == 0,
    ensures
        untagged(request, numbers) == request,
{
}

proof fn lemma_tags_differ()
    ensures
        "latest"@ == seq!['l', 'a', 't', 'e', 's', 't'],
        "finalized"@ == seq!['f', 'i', 'n', 'a', 'l', 'i', 'z', 'e', 'd'],
        "earliest"@ == seq!['e', 'a', 'r', 'l', 'i', 'e', 's', 't'],
        "safe"@ == seq!['s', 'a', 'f', 'e'],
        "pending"@ == seq!['p', 'e', 'n', 'd', 'i', 'n', 'g'],
        "latest"@.len() == 6,
        "finalized"@.len() == 9,
        "earliest"@.len() == 8,
        "safe"@.len() == 4,
        "pending"@.len() == 7,
{
    reveal_strlit("latest");
    reveal_strlit("finalized");
    reveal_strlit("earliest");
    reveal_strlit("safe");
    reveal_strlit("pending");
    assert("latest"@ =~= seq!['l', 'a', 't', 'e', 's', 't']);
    assert("finalized"@ =~= seq!['f', 'i', 'n', 'a', 'l', 'i', 'z', 'e', 'd']);
    assert("earliest"@ =~= seq!['e', 'a', 'r', 'l', 'i', 'e', 's', 't']);
    assert("safe"@ =~= seq!['s', 'a', 'f', 'e']);
    assert("pending"@ =~= seq!['p', 'e', 'n', 'd', 'i', 'n', 'g']);
}

/// Replacing the tags of a request changes nothing but the parameter that names a block: every
/// other member stays, the parameters stay as many, and each but that one stays as it was. That
/// one changes only where it is `latest` or `finalized` and the number is known, and is then the
/// number in hexadecimal.
pub proof fn law_only_the_tag_is_replaced(
    tx: &mut Json,
    numbers: &NamedBlocknumbers,
    request: Json,
)
    requires
        call_ensures(replace_block_tags, (tx, numbers), request),
    ensures
        request@ == final(tx)@,
        !(old(tx)@ is Object) ==> final(tx)@ == old(tx)@,
        forall|key: Seq<char>|
            {
                &&& (#[trigger] final(tx)@.has(key) <==> old(tx)@.has(key))
                &&& key != "params"@ ==> final(tx)@.member(key) == old(tx)@.member(key)
            },
        ({
            let before = old(tx)@.member("params"@);
            let after = final(tx)@.member("params"@);
            let position = block_position(old(tx)@.member("method"@).text());
            &&& !(before is Array) ==> after == before
            &&& before is Array ==> {
                &&& after is Array
                &&& after->Array_0.len() == before->Array_0.len()
                &&& forall|i: int|
                    0 <= i < before->Array_0.len() && !(position is Some && position->0 == i)
                        ==> #[trigger] after->Array_0[i] == before->Array_0[i]
                &&& position is Some && position->0 < before->Array_0.len() ==> {
                    let old_param = before->Array_0[position->0 as int];
                    let new_param = after->Array_0[position->0 as int];
                    if old_param == JsonView::Text("latest"@) && numbers.latest != 0 {
                        new_param == JsonView::Text(hex_text(numbers.latest as nat))
                    } else if old_param == JsonView::Text("finalized"@) && numbers.finalized != 0 {
                        new_param == JsonView::Text(hex_text(numbers.finalized as nat))
                    } else {
                        new_param == old_param
                    }
                }
            }
        }),
{
    lemma_tags_differ();
    reveal_strlit("params");
    reveal_strlit("method");
    assert("params"@[0] == 'p' && "method"@[0] == 'm');
}

/// Which block a request asks about: the one that its block parameter names by a tag, or writes
/// out in hexadecimal behind `0x`. It asks about none where its method has no such parameter, or
/// where the parameter is missing or anything else.
pub proof fn law_block_is_the_one_named(
    tx: &Json,
    numbers: &NamedBlocknumbers,
    number: Option<u64>,
    digits: Seq<char>,
)
    requires
        call_ensures(get_block_number_from_request, (tx, numbers), number),
    ensures
        ({
            let position = block_position(tx@.member("method"@).text());
            let param = tx@.member("params"@).item(position->0 as int);
            &&& position is None ==> number is None
            &&& position is Some ==> {
                &&& !(param is Text) ==> number is None
                &&& param == JsonView::Text("latest"@) ==> number == Some(numbers.latest)
                &&& param == JsonView::Text("earliest"@) ==> number == Some(numbers.earliest)
                &&& param == JsonView::Text("safe"@) ==> number == Some(numbers.safe)
                &&& param == JsonView::Text("finalized"@) ==> number == Some(numbers.finalized)
                &&& param == JsonView::Text("pending"@) ==> number == Some(numbers.pending)
                &&& param == JsonView::Text(seq!['0', 'x'] + digits) ==> number == match hex_number(
                    digits,
                ) {
                    Ok(read) => Some(read),
                    Err(_) => None,
                }
                &&& number is Some && param->Text_0 != "latest"@ && param->Text_0 != "earliest"@
                    && param->Text_0 != "safe"@ && param->Text_0 != "finalized"@ && param->Text_0
                    != "pending"@ ==> param->Text_0.len() >= 2 && param->Text_0[0] == '0'
                    && param->Text_0[1] == 'x'
            }
        }),
{
    lemma_tags_differ();
    reveal_strlit("0x");
    assert("0x"@ =~= seq!['0', 'x']);
    let text = seq!['0', 'x'] + digits;
    assert(text.skip(2) =~= digits);
    assert(text[0] == '0');
    assert("0x"@.is_prefix_of(text));
    let position = block_position(tx@.member("method"@).text());
    let param = tx@.member("params"@).item(position->0 as int);
    if param is Text && "0x"@.is_prefix_of(param->Text_0) {
        assert(param->Text_0[0] == "0x"@[0]);
        assert(param->Text_0[1] == "0x"@[1]);
    }
}

/// Tags are told apart by their names, and any other text is none.
pub proof fn law_tags_have_their_names(
    param: &str,
    tag: NamedNumber,
    again: NamedNumber,
    name: &'static str,
)
    requires
        call_ensures(has_named_number, (param,), tag),
        call_ensures(NamedNumber::as_ref, (&again,), name),
    ensures
        tag == NamedNumber::Latest <==> param@ == "latest"@,
        tag == NamedNumber::Earliest <==> param@ == "earliest"@,
        tag == NamedNumber::Safe <==> param@ == "safe"@,
        tag == NamedNumber::Finalized <==> param@ == "finalized"@,
        tag == NamedNumber::Pending <==> param@ == "pending"@,
        name@ == param@ && again != NamedNumber::Null ==> tag == again,
{
    lemma_tags_differ();
}

/// A request is valid exactly where it is an object with version, method and an id that is null, a
/// text, a number or missing. The answer to any other says so, under its id where that is one.
pub proof fn law_requests_are_told_from_other_values(request: &Json, valid: Result<(), Json>)
    requires
        call_ensures(validate_request, (request,), valid),
    ensures
        valid is Ok <==> {
            &&& request@ is Object
            &&& request@.has("jsonrpc"@) && request@.member("jsonrpc"@) == JsonView::Text("2.0"@)
            &&& request@.has("method"@) && request@.member("method"@) is Text
            &&& !(request@.member("id"@) is Bool)
            &&& !(request@.member("id"@) is Array)
            &&& !(request@.member("id"@) is Object)
        },
        valid matches Err(error) ==> {
            let id = request@.member("id"@);
            &&& error@.member("jsonrpc"@) == JsonView::Text("2.0"@)
            &&& error@.member("error"@).member("code"@) == integer(-32600)
            &&& error@.member("error"@).member("message"@) == JsonView::Text("Invalid Request"@)
            &&& error@.member("id"@) == if id is Bool || id is Array || id is Object {
                JsonView::Null
            } else {
                id
            }
            &&& !error@.has("result"@)
        },
{
    if let Err(error) = valid {
        let id = request@.member("id"@);
        law_errors_say_what_is_wrong(
            if valid_id(id) {
                id
            } else {
                JsonView::Null
            },
            -32600,
            "Invalid Request"@,
        );
    }
}

} // verus!
