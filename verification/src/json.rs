//! JSON values and their passage from and to text.

use crate::text::same;
use vstd::prelude::*;
use vstd::utf8::encode_utf8;

verus! {

/// A number of `serde_json`, carried through without looking inside.
#[verifier::external_type_specification]
#[verifier::external_body]
pub struct ExNumber(serde_json::Number);

/// A document of `serde_json`, taken apart by `open_value` and put together by `close_value`.
#[verifier::external_type_specification]
#[verifier::external_body]
pub struct ExValue(serde_json::Value);

/// A JSON number that is neither a `u64` nor an `i64`. Only parsing makes one.
pub struct Decimal {
    number: serde_json::Number,
}

/// What a number with a fraction comes to: its whole part, cut off at zero and at the most that a
/// `u64` holds, and its text in decimal.
pub uninterp spec fn fraction_size(number: serde_json::Number) -> Option<(u64, Seq<char>)>;

/// `serde_json::Number::as_f64`, with the conversion of its result to a `u64`, which cuts off at
/// either end, and to text: both are functions of the number.
#[verifier::external_body]
fn size_of_number(number: &serde_json::Number) -> (size: Option<(u64, String)>)
    ensures
        match size {
            Some((whole, text)) => fraction_size(*number) == Some((whole, text@)),
            None => fraction_size(*number) is None,
        },
{
    match number.as_f64() {
        Some(value) => Some((value as u64, value.to_string())),
        None => None,
    }
}

impl Decimal {
    /// What the number comes to: its whole part, and its text in decimal.
    pub closed spec fn amount(self) -> Option<(u64, Seq<char>)> {
        fraction_size(self.number)
    }

    /// What the number comes to: its whole part, and its text in decimal.
    pub fn size(&self) -> (size: Option<(u64, String)>)
        ensures
            match size {
                Some((whole, text)) => self.amount() == Some((whole, text@)),
                None => self.amount() is None,
            },
    {
        size_of_number(&self.number)
    }
}

/// A JSON number.
pub enum Numeric {
    Unsigned(u64),
    Negative(i64),
    Fraction(Decimal),
}

impl Numeric {
    /// The one spelling of each integer: `Negative` below zero, `Unsigned` from zero on.
    pub open spec fn normal(self) -> Numeric {
        match self {
            Numeric::Negative(i) => if i >= 0 {
                Numeric::Unsigned(i as u64)
            } else {
                self
            },
            _ => self,
        }
    }
}

/// `serde_json::Number::clone` gives the same number.
pub assume_specification[ <serde_json::Number as std::clone::Clone>::clone ](
    number: &serde_json::Number,
) -> (copy: serde_json::Number)
    ensures
        copy == *number,
;

impl Clone for Numeric {
    fn clone(&self) -> (copy: Self)
        ensures
            copy == *self,
    {
        match self {
            Numeric::Unsigned(n) => Numeric::Unsigned(*n),
            Numeric::Negative(n) => Numeric::Negative(*n),
            Numeric::Fraction(d) => Numeric::Fraction(Decimal { number: d.number.clone() }),
        }
    }
}

/// A JSON value. Where a key occurs twice in an object, its last entry counts.
pub enum Json {
    Null,
    Bool(bool),
    Number(Numeric),
    Text(String),
    Array(Vec<Json>),
    Object(Vec<(String, Json)>),
}

/// What a JSON value says. The order of an object's entries carries no meaning.
#[verifier::ext_equal]
pub enum JsonView {
    Null,
    Bool(bool),
    Number(Numeric),
    Text(Seq<char>),
    Array(Seq<JsonView>),
    Object(Map<Seq<char>, JsonView>),
}

impl JsonView {
    /// Whether this is an object with an entry for `key`.
    pub open spec fn has(self, key: Seq<char>) -> bool {
        self is Object && self->Object_0.contains_key(key)
    }

    /// The entry for `key`, null where there is none.
    pub open spec fn member(self, key: Seq<char>) -> JsonView {
        if self.has(key) {
            self->Object_0[key]
        } else {
            JsonView::Null
        }
    }

    /// The element at `index`, null where there is none.
    pub open spec fn item(self, index: int) -> JsonView {
        if self is Array && 0 <= index < self->Array_0.len() {
            self->Array_0[index]
        } else {
            JsonView::Null
        }
    }

    /// The text, where this is one.
    pub open spec fn text(self) -> Option<Seq<char>> {
        match self {
            JsonView::Text(s) => Some(s),
            _ => None,
        }
    }

    /// The number, where this is one that a `u64` holds.
    pub open spec fn unsigned(self) -> Option<u64> {
        match self {
            JsonView::Number(Numeric::Unsigned(n)) => Some(n),
            _ => None,
        }
    }

    /// This object with `value` under `key`.
    pub open spec fn with(self, key: Seq<char>, value: JsonView) -> JsonView {
        match self {
            JsonView::Object(m) => JsonView::Object(m.insert(key, value)),
            _ => self,
        }
    }

    /// No number but integers, and no more than `levels` arrays and objects inside one another.
    pub open spec fn plain(self, levels: nat) -> bool
        decreases levels,
    {
        match self {
            JsonView::Number(n) => !(n is Fraction),
            JsonView::Array(items) => levels > 0 && forall|i: int|
                0 <= i < items.len() ==> (#[trigger] items[i]).plain((levels - 1) as nat),
            JsonView::Object(m) => levels > 0 && forall|k: Seq<char>|
                m.contains_key(k) ==> (#[trigger] m[k]).plain((levels - 1) as nat),
            _ => true,
        }
    }
}

/// An object without entries.
pub open spec fn empty_object() -> JsonView {
    JsonView::Object(Map::empty())
}

/// An integer as JSON holds it.
pub open spec fn integer(n: int) -> JsonView {
    JsonView::Number(
        if n < 0 {
            Numeric::Negative(n as i64)
        } else {
            Numeric::Unsigned(n as u64)
        },
    )
}

impl Json {
    pub open spec fn view(&self) -> JsonView
        decreases self,
    {
        match self {
            Json::Null => JsonView::Null,
            Json::Bool(b) => JsonView::Bool(*b),
            Json::Number(n) => JsonView::Number(n.normal()),
            Json::Text(s) => JsonView::Text(s@),
            Json::Array(items) => JsonView::Array(
                Seq::new(
                    items@.len(),
                    |i: int|
                        if 0 <= i < items@.len() {
                            items@[i].view()
                        } else {
                            JsonView::Null
                        },
                ),
            ),
            Json::Object(entries) => JsonView::Object(entries_view(entries@)),
        }
    }
}

/// The views of a list of values, in order.
pub open spec fn items_view(items: Seq<Json>) -> Seq<JsonView> {
    Seq::new(items.len(), |i: int| items[i].view())
}

/// The map that a list of entries describes: a later entry replaces an earlier one.
pub open spec fn entries_view(entries: Seq<(String, Json)>) -> Map<Seq<char>, JsonView>
    decreases entries,
{
    if entries.len() == 0 {
        Map::empty()
    } else {
        let (key, value) = entries.last();
        entries_view(entries.drop_last()).insert(key@, value.view())
    }
}

proof fn lemma_array_view(items: Vec<Json>)
    ensures
        Json::Array(items)@ == JsonView::Array(items_view(items@)),
{
    assert(Json::Array(items)@->Array_0 =~= items_view(items@));
}

/// An entry whose key stands nowhere behind it is the one that counts.
proof fn lemma_entry_counts(entries: Seq<(String, Json)>, at: int)
    requires
        0 <= at < entries.len(),
        forall|i: int| at < i < entries.len() ==> (#[trigger] entries[i]).0@ != entries[at].0@,
    ensures
        entries_view(entries).contains_key(entries[at].0@),
        entries_view(entries)[entries[at].0@] == entries[at].1.view(),
    decreases entries.len(),
{
    if at < entries.len() - 1 {
        assert(entries.last().0@ != entries[at].0@);
        assert forall|i: int| at < i < entries.drop_last().len() implies (
        #[trigger] entries.drop_last()[i]).0@ != entries[at].0@ by {
            assert(entries.drop_last()[i] == entries[i]);
        }
        lemma_entry_counts(entries.drop_last(), at);
    }
}

/// A key that no entry has is not in the map.
proof fn lemma_no_entry(entries: Seq<(String, Json)>, key: Seq<char>)
    requires
        forall|i: int| 0 <= i < entries.len() ==> (#[trigger] entries[i]).0@ != key,
    ensures
        !entries_view(entries).contains_key(key),
    decreases entries.len(),
{
    if entries.len() > 0 {
        assert(entries.last().0@ != key);
        assert forall|i: int| 0 <= i < entries.drop_last().len() implies (
        #[trigger] entries.drop_last()[i]).0@ != key by {
            assert(entries.drop_last()[i] == entries[i]);
        }
        lemma_no_entry(entries.drop_last(), key);
    }
}

/// Replacing the value of the entry that counts replaces the value in the map.
proof fn lemma_entry_replaced(
    entries: Seq<(String, Json)>,
    at: int,
    replaced: Seq<(String, Json)>,
)
    requires
        0 <= at < entries.len(),
        forall|i: int| at < i < entries.len() ==> (#[trigger] entries[i]).0@ != entries[at].0@,
        replaced.len() == entries.len(),
        forall|i: int| 0 <= i < entries.len() && i != at ==> replaced[i] == #[trigger] entries[i],
        replaced[at].0@ == entries[at].0@,
    ensures
        entries_view(replaced) == entries_view(entries).insert(
            entries[at].0@,
            replaced[at].1.view(),
        ),
    decreases entries.len(),
{
    let key = entries[at].0@;
    let value = replaced[at].1.view();
    if at == entries.len() - 1 {
        assert(replaced.drop_last() =~= entries.drop_last());
        assert(entries_view(replaced) =~= entries_view(entries).insert(key, value));
    } else {
        let shorter = entries.drop_last();
        assert forall|i: int| at < i < shorter.len() implies (#[trigger] shorter[i]).0@
            != shorter[at].0@ by {
            assert(shorter[i] == entries[i]);
        }
        assert forall|i: int| 0 <= i < shorter.len() && i != at implies replaced.drop_last()[i]
            == #[trigger] shorter[i] by {
            assert(shorter[i] == entries[i]);
        }
        lemma_entry_replaced(shorter, at, replaced.drop_last());
        let last = entries.last();
        assert(replaced.last() == last);
        assert(last.0@ != key);
        assert(entries_view(replaced) =~= entries_view(entries).insert(key, value));
    }
}

impl Json {
    /// The position of the entry that counts for `key`.
    fn position(entries: &Vec<(String, Json)>, key: &str) -> (found: Option<usize>)
        ensures
            match found {
                Some(at) => at < entries@.len() && entries@[at as int].0@ == key@ && forall|i: int|
                    at < i < entries@.len() ==> (#[trigger] entries@[i]).0@ != key@,
                None => forall|i: int|
                    0 <= i < entries@.len() ==> (#[trigger] entries@[i]).0@ != key@,
            },
    {
        let mut at: usize = entries.len();
        while at > 0
            invariant
                at <= entries@.len(),
                forall|i: int| at <= i < entries@.len() ==> (#[trigger] entries@[i]).0@ != key@,
            decreases at,
        {
            at = at - 1;
            if same(entries[at].0.as_str(), key) {
                return Some(at);
            }
        }
        None
    }

    /// The entry of an object for `key`.
    pub fn get(&self, key: &str) -> (found: Option<&Json>)
        ensures
            match found {
                Some(value) => self@.has(key@) && value@ == self@.member(key@),
                None => !self@.has(key@),
            },
    {
        match self {
            Json::Object(entries) => match Json::position(entries, key) {
                Some(at) => {
                    proof {
                        lemma_entry_counts(entries@, at as int);
                    }
                    Some(&entries[at].1)
                },
                None => {
                    proof {
                        lemma_no_entry(entries@, key@);
                    }
                    None
                },
            },
            _ => None,
        }
    }

    /// The element of an array at `index`.
    pub fn at(&self, index: usize) -> (found: Option<&Json>)
        ensures
            match found {
                Some(value) => self@ is Array && index < self@->Array_0.len() && value@
                    == self@.item(index as int),
                None => !(self@ is Array && index < self@->Array_0.len()),
            },
    {
        match self {
            Json::Array(items) => if index < items.len() {
                Some(&items[index])
            } else {
                None
            },
            _ => None,
        }
    }

    /// The text, where this is one.
    pub fn as_str(&self) -> (text: Option<&str>)
        ensures
            match text {
                Some(s) => self@.text() == Some(s@),
                None => self@.text() is None,
            },
    {
        match self {
            Json::Text(s) => Some(s.as_str()),
            _ => None,
        }
    }

    /// The number, where this is one that a `u64` holds.
    pub fn as_u64(&self) -> (number: Option<u64>)
        ensures
            number == self@.unsigned(),
    {
        match self {
            Json::Number(Numeric::Unsigned(n)) => Some(*n),
            Json::Number(Numeric::Negative(n)) => if *n >= 0 {
                Some(*n as u64)
            } else {
                None
            },
            _ => None,
        }
    }

    pub fn is_null(&self) -> (null: bool)
        ensures
            null == (self@ is Null),
    {
        matches!(self, Json::Null)
    }

    /// The elements, where this is an array.
    pub fn as_array(&self) -> (items: Option<&Vec<Json>>)
        ensures
            match items {
                Some(items) => self@ == JsonView::Array(items_view(items@)),
                None => !(self@ is Array),
            },
    {
        match self {
            Json::Array(items) => {
                proof {
                    lemma_array_view(*items);
                }
                Some(items)
            },
            _ => None,
        }
    }

    /// The value of the entry for `key`, null where there is none.
    pub fn member(&self, key: &str) -> (value: Json)
        ensures
            value@ == self@.member(key@),
    {
        match self.get(key) {
            Some(value) => value.clone(),
            None => Json::Null,
        }
    }

    /// Puts `value` under `key`; what is no object stays as it is.
    pub fn insert(&mut self, key: &str, value: Json)
        ensures
            final(self)@ == old(self)@.with(key@, value@),
    {
        match self {
            Json::Object(entries) => {
                let ghost before = entries@;
                match Json::position(entries, key) {
                    Some(at) => {
                        entries.set(at, (key.to_owned(), value));
                        proof {
                            lemma_entry_replaced(before, at as int, entries@);
                            assert(entries_view(entries@) == entries_view(before).insert(
                                key@,
                                value@,
                            ));
                        }
                    },
                    None => {
                        entries.push((key.to_owned(), value));
                        proof {
                            assert(entries@.drop_last() =~= before);
                            assert(entries_view(entries@) == entries_view(before).insert(
                                key@,
                                value@,
                            ));
                        }
                    },
                }
            },
            _ => {},
        }
    }

    /// An object without entries.
    pub fn object() -> (object: Json)
        ensures
            object@ == empty_object(),
    {
        let entries: Vec<(String, Json)> = Vec::new();
        proof {
            assert(entries_view(entries@) == Map::<Seq<char>, JsonView>::empty());
        }
        Json::Object(entries)
    }

    /// This object with `value` under `key`.
    pub fn put(self, key: &str, value: Json) -> (object: Json)
        ensures
            object@ == self@.with(key@, value@),
    {
        let mut object = self;
        object.insert(key, value);
        object
    }

    /// A whole number.
    pub fn integer(n: i64) -> (number: Json)
        ensures
            number@ == integer(n as int),
    {
        Json::Number(Numeric::Negative(n))
    }

    /// A whole number from zero on.
    pub fn unsigned(n: u64) -> (number: Json)
        ensures
            number@ == integer(n as int),
    {
        Json::Number(Numeric::Unsigned(n))
    }

    /// Whether this is the text `text`.
    pub fn is(&self, text: &str) -> (equal: bool)
        ensures
            equal == (self@ == JsonView::Text(text@)),
    {
        match self {
            Json::Text(s) => same(s.as_str(), text),
            _ => false,
        }
    }

    /// Whether this is an object.
    pub fn is_object(&self) -> (object: bool)
        ensures
            object == (self@ is Object),
    {
        matches!(self, Json::Object(_))
    }

    /// An array of `items`.
    pub fn array(items: Vec<Json>) -> (array: Json)
        ensures
            array@ == JsonView::Array(items_view(items@)),
    {
        proof {
            lemma_array_view(items);
        }
        Json::Array(items)
    }

    /// A text.
    pub fn text(text: &str) -> (value: Json)
        ensures
            value@ == JsonView::Text(text@),
    {
        Json::Text(text.to_owned())
    }
}

impl Clone for Json {
    fn clone(&self) -> (copy: Self)
        ensures
            copy@ == self@,
        decreases self,
    {
        match self {
            Json::Null => Json::Null,
            Json::Bool(b) => Json::Bool(*b),
            Json::Number(n) => Json::Number(n.clone()),
            Json::Text(s) => Json::Text(s.clone()),
            Json::Array(items) => {
                let mut copies: Vec<Json> = Vec::new();
                let mut i: usize = 0;
                while i < items.len()
                    invariant
                        i <= items@.len(),
                        *self == Json::Array(*items),
                        copies@.len() == i,
                        forall|j: int| 0 <= j < i ==> (#[trigger] copies@[j])@ == items@[j]@,
                    decreases items@.len() - i,
                {
                    proof {
                        assert(decreases_to!(*self => self->Array_0));
                        assert(decreases_to!(items@ => items@[i as int]));
                    }
                    let copy = items[i].clone();
                    copies.push(copy);
                    i = i + 1;
                }
                let copy = Json::array(copies);
                proof {
                    lemma_array_view(*items);
                    assert(items_view(copies@) =~= items_view(items@));
                }
                copy
            },
            Json::Object(entries) => {
                let mut copies: Vec<(String, Json)> = Vec::new();
                let mut i: usize = 0;
                while i < entries.len()
                    invariant
                        i <= entries@.len(),
                        *self == Json::Object(*entries),
                        copies@.len() == i,
                        entries_view(copies@) == entries_view(entries@.take(i as int)),
                    decreases entries@.len() - i,
                {
                    proof {
                        assert(decreases_to!(*self => self->Object_0));
                        assert(decreases_to!(entries@ => entries@[i as int]));
                    }
                    let copy = entries[i].1.clone();
                    let ghost before = copies@;
                    copies.push((entries[i].0.clone(), copy));
                    i = i + 1;
                    proof {
                        assert(copies@.drop_last() =~= before);
                        assert(entries@.take(i as int).drop_last() =~= entries@.take(i - 1));
                    }
                }
                proof {
                    assert(entries@.take(i as int) =~= entries@);
                }
                Json::Object(copies)
            },
        }
    }
}

/// What a document of `serde_json` says.
pub uninterp spec fn value_content(value: serde_json::Value) -> JsonView;

/// Which number a number of `serde_json` is.
pub uninterp spec fn number_content(number: serde_json::Number) -> Numeric;

/// The variants of `serde_json::Value`.
enum Shape {
    Null,
    Bool(bool),
    Number(serde_json::Number),
    Text(String),
    Array(Vec<serde_json::Value>),
    Object(Vec<(String, serde_json::Value)>),
}

spec fn documents_view(entries: Seq<(String, serde_json::Value)>) -> Map<Seq<char>, JsonView>
    decreases entries.len(),
{
    if entries.len() == 0 {
        Map::empty()
    } else {
        documents_view(entries.drop_last()).insert(
            entries.last().0@,
            value_content(entries.last().1),
        )
    }
}

spec fn shape_content(shape: Shape) -> JsonView {
    match shape {
        Shape::Null => JsonView::Null,
        Shape::Bool(b) => JsonView::Bool(b),
        Shape::Number(n) => JsonView::Number(number_content(n)),
        Shape::Text(s) => JsonView::Text(s@),
        Shape::Array(items) => JsonView::Array(
            Seq::new(items@.len(), |i: int| value_content(items@[i])),
        ),
        Shape::Object(entries) => JsonView::Object(documents_view(entries@)),
    }
}

/// `serde_json::Value` is an enum of six variants; this tells them apart. The entries of its map
/// come out each under a key of its own.
#[verifier::external_body]
fn open_value(value: serde_json::Value) -> (shape: Shape)
    ensures
        shape_content(shape) == value_content(value),
        shape matches Shape::Object(entries) ==> forall|i: int, j: int|
            0 <= i < j < entries@.len() ==> (#[trigger] entries@[i]).0@ != (
            #[trigger] entries@[j]).0@,
{
    match value {
        serde_json::Value::Null => Shape::Null,
        serde_json::Value::Bool(b) => Shape::Bool(b),
        serde_json::Value::Number(n) => Shape::Number(n),
        serde_json::Value::String(s) => Shape::Text(s),
        serde_json::Value::Array(items) => Shape::Array(items),
        serde_json::Value::Object(map) => Shape::Object(map.into_iter().collect()),
    }
}

/// The variants of `serde_json::Value` put together again; its map keeps the last value that it
/// is given for a key.
#[verifier::external_body]
fn close_value(shape: Shape) -> (value: serde_json::Value)
    ensures
        value_content(value) == shape_content(shape),
{
    match shape {
        Shape::Null => serde_json::Value::Null,
        Shape::Bool(b) => serde_json::Value::Bool(b),
        Shape::Number(n) => serde_json::Value::Number(n),
        Shape::Text(s) => serde_json::Value::String(s),
        Shape::Array(items) => serde_json::Value::Array(items),
        Shape::Object(entries) => serde_json::Value::Object(entries.into_iter().collect()),
    }
}

/// `serde_json::Number` holds a `u64`, a negative `i64` or a float; `as_u64` and `as_i64` tell
/// which.
#[verifier::external_body]
fn open_number(number: serde_json::Number) -> (numeric: Numeric)
    ensures
        numeric == number_content(number),
        numeric.normal() == numeric,
{
    match (number.as_u64(), number.as_i64()) {
        (Some(n), _) => Numeric::Unsigned(n),
        (None, Some(n)) => Numeric::Negative(n),
        (None, None) => Numeric::Fraction(Decimal { number }),
    }
}

/// `serde_json::Number::from` takes a `u64` or an `i64`, and turns an `i64` from zero on into the
/// same number as the `u64`.
#[verifier::external_body]
fn close_number(numeric: Numeric) -> (number: serde_json::Number)
    ensures
        number_content(number) == numeric.normal(),
{
    match numeric {
        Numeric::Unsigned(n) => serde_json::Number::from(n),
        Numeric::Negative(n) => serde_json::Number::from(n),
        Numeric::Fraction(d) => d.number,
    }
}

/// The value that `serde_json` reads from a text.
pub uninterp spec fn text_value(text: Seq<char>) -> Option<JsonView>;

/// The value that `simd_json` reads from bytes.
pub uninterp spec fn bytes_value(bytes: Seq<u8>) -> Option<JsonView>;

/// The text that `serde_json` writes for a value.
pub uninterp spec fn value_text(content: JsonView) -> Seq<char>;

/// `serde_json::from_str` into a `Value`: what it reads is a function of the text.
#[verifier::external_body]
fn read_text(text: &str) -> (value: Option<serde_json::Value>)
    ensures
        match value {
            Some(value) => text_value(text@) == Some(value_content(value)),
            None => text_value(text@) is None,
        },
{
    match serde_json::from_str::<serde_json::Value>(text) {
        Ok(value) => Some(value),
        Err(_) => None,
    }
}

/// `simd_json::serde::from_slice` into a `Value`: what it reads is a function of the bytes, which
/// it overwrites.
#[verifier::external_body]
fn read_bytes(bytes: Vec<u8>) -> (value: Option<serde_json::Value>)
    ensures
        match value {
            Some(value) => bytes_value(bytes@) == Some(value_content(value)),
            None => bytes_value(bytes@) is None,
        },
{
    let mut buffer = bytes;
    match simd_json::serde::from_slice::<serde_json::Value>(&mut buffer) {
        Ok(value) => Some(value),
        Err(_) => None,
    }
}

/// `Value::to_string`: the text is a function of what the value says, since the map keeps its
/// keys in order. Both readers read the value back where its numbers are integers, within the
/// depth that each accepts (127 levels and 1024) and, for `simd_json`, within its limit on the
/// length (`u32::MAX` bytes). Of numbers with a fraction nothing is said.
#[verifier::external_body]
fn write_text(value: &serde_json::Value) -> (text: String)
    ensures
        text@ == value_text(value_content(*value)),
        value_content(*value).plain(127) ==> text_value(text@) == Some(value_content(*value)),
        value_content(*value).plain(1024) && encode_utf8(text@).len() <= u32::MAX ==> bytes_value(
            encode_utf8(text@),
        ) == Some(value_content(*value)),
{
    value.to_string()
}

proof fn lemma_documents_finite(entries: Seq<(String, serde_json::Value)>)
    ensures
        documents_view(entries).dom().finite(),
    decreases entries.len(),
{
    if entries.len() > 0 {
        lemma_documents_finite(entries.drop_last());
    }
}

/// Where the keys differ, each entry's value stands in the map.
proof fn lemma_document_counts(entries: Seq<(String, serde_json::Value)>, at: int)
    requires
        0 <= at < entries.len(),
        forall|i: int, j: int|
            0 <= i < j < entries.len() ==> (#[trigger] entries[i]).0@ != (#[trigger] entries[j]).0@,
    ensures
        documents_view(entries).contains_key(entries[at].0@),
        documents_view(entries)[entries[at].0@] == value_content(entries[at].1),
    decreases entries.len(),
{
    if at < entries.len() - 1 {
        let shorter = entries.drop_last();
        assert(entries[at].0@ != entries[entries.len() - 1].0@);
        assert forall|i: int, j: int| 0 <= i < j < shorter.len() implies (
        #[trigger] shorter[i]).0@ != (#[trigger] shorter[j]).0@ by {
            assert(shorter[i] == entries[i] && shorter[j] == entries[j]);
        }
        lemma_document_counts(shorter, at);
    }
}

/// The library's value for a document.
fn from_document(value: serde_json::Value) -> (json: Json)
    ensures
        json@ == value_content(value),
    decreases value_content(value),
{
    let ghost content = value_content(value);
    match open_value(value) {
        Shape::Null => Json::Null,
        Shape::Bool(b) => Json::Bool(b),
        Shape::Number(n) => Json::Number(open_number(n)),
        Shape::Text(s) => Json::Text(s),
        Shape::Array(items) => {
            let ghost all = items@;
            let mut rest = items;
            let mut reversed: Vec<Json> = Vec::new();
            let mut done: Vec<Json> = Vec::new();
            while rest.len() > 0
                invariant
                    content == value_content(value),
                    content == shape_content(Shape::Array(items)),
                    all == items@,
                    rest@ == all.take(rest@.len() as int),
                    rest@.len() <= all.len(),
                    reversed@.len() + rest@.len() == all.len(),
                    forall|i: int|
                        0 <= i < reversed@.len() ==> (#[trigger] reversed@[i])@ == value_content(
                            all[all.len() - 1 - i],
                        ),
                decreases rest@.len(),
            {
                let ghost n = rest@.len();
                let last = rest.pop();
                if let Some(item) = last {
                    proof {
                        assert(item == all[n - 1]);
                        assert(content->Array_0[n - 1] == value_content(item));
                        assert(decreases_to!(content => content->Array_0));
                        assert(decreases_to!(content->Array_0 => content->Array_0[n - 1]));
                        assert(rest@ =~= all.take(rest@.len() as int));
                    }
                    let json = from_document(item);
                    reversed.push(json);
                }
            }
            let ghost whole = reversed@;
            while reversed.len() > 0
                invariant
                    content == shape_content(Shape::Array(items)),
                    all == items@,
                    whole.len() == all.len(),
                    reversed@ == whole.take(reversed@.len() as int),
                    reversed@.len() + done@.len() == whole.len(),
                    forall|i: int|
                        0 <= i < whole.len() ==> (#[trigger] whole[i])@ == value_content(
                            all[all.len() - 1 - i],
                        ),
                    forall|i: int|
                        0 <= i < done@.len() ==> (#[trigger] done@[i])@ == value_content(all[i]),
                decreases reversed@.len(),
            {
                let ghost n = reversed@.len();
                let last = reversed.pop();
                if let Some(json) = last {
                    proof {
                        assert(json == whole[n - 1]);
                        assert(reversed@ =~= whole.take(reversed@.len() as int));
                    }
                    done.push(json);
                }
            }
            proof {
                assert(items_view(done@) =~= content->Array_0);
            }
            Json::array(done)
        },
        Shape::Object(entries) => {
            let ghost all = entries@;
            let mut rest = entries;
            let mut reversed: Vec<(String, Json)> = Vec::new();
            let mut done: Vec<(String, Json)> = Vec::new();
            while rest.len() > 0
                invariant
                    content == value_content(value),
                    content == shape_content(Shape::Object(entries)),
                    all == entries@,
                    forall|i: int, j: int|
                        0 <= i < j < all.len() ==> (#[trigger] all[i]).0@ != (
                        #[trigger] all[j]).0@,
                    rest@ == all.take(rest@.len() as int),
                    rest@.len() <= all.len(),
                    reversed@.len() + rest@.len() == all.len(),
                    forall|i: int|
                        #![trigger reversed@[i]]
                        0 <= i < reversed@.len() ==> reversed@[i].0@ == all[all.len() - 1 - i].0@
                            && reversed@[i].1@ == value_content(all[all.len() - 1 - i].1),
                decreases rest@.len(),
            {
                let ghost n = rest@.len();
                let last = rest.pop();
                if let Some((key, item)) = last {
                    proof {
                        assert((key, item) == all[n - 1]);
                        lemma_document_counts(all, n - 1);
                        lemma_documents_finite(all);
                        assert(content->Object_0[key@] == value_content(item));
                        assert(decreases_to!(content => content->Object_0));
                        assert(decreases_to!(content->Object_0 => content->Object_0[key@]));
                        assert(rest@ =~= all.take(rest@.len() as int));
                    }
                    let json = from_document(item);
                    reversed.push((key, json));
                }
            }
            let ghost whole = reversed@;
            while reversed.len() > 0
                invariant
                    content == shape_content(Shape::Object(entries)),
                    all == entries@,
                    whole.len() == all.len(),
                    reversed@ == whole.take(reversed@.len() as int),
                    reversed@.len() + done@.len() == whole.len(),
                    forall|i: int|
                        #![trigger whole[i]]
                        0 <= i < whole.len() ==> whole[i].0@ == all[all.len() - 1 - i].0@
                            && whole[i].1@ == value_content(all[all.len() - 1 - i].1),
                    entries_view(done@) == documents_view(all.take(done@.len() as int)),
                decreases reversed@.len(),
            {
                let ghost n = reversed@.len();
                let ghost before = done@;
                let last = reversed.pop();
                if let Some(entry) = last {
                    proof {
                        assert(entry == whole[n - 1]);
                        assert(reversed@ =~= whole.take(reversed@.len() as int));
                    }
                    done.push(entry);
                    proof {
                        assert(done@.drop_last() =~= before);
                        assert(all.take(done@.len() as int).drop_last() =~= all.take(
                            before.len() as int,
                        ));
                    }
                }
            }
            proof {
                assert(all.take(done@.len() as int) =~= all);
            }
            Json::Object(done)
        },
    }
}

/// The document for the library's value.
fn to_document(json: &Json) -> (value: serde_json::Value)
    ensures
        value_content(value) == json@,
    decreases json,
{
    match json {
        Json::Null => close_value(Shape::Null),
        Json::Bool(b) => close_value(Shape::Bool(*b)),
        Json::Number(n) => close_value(Shape::Number(close_number(n.clone()))),
        Json::Text(s) => close_value(Shape::Text(s.clone())),
        Json::Array(items) => {
            let mut documents: Vec<serde_json::Value> = Vec::new();
            let mut i: usize = 0;
            while i < items.len()
                invariant
                    i <= items@.len(),
                    *json == Json::Array(*items),
                    documents@.len() == i,
                    forall|j: int|
                        0 <= j < i ==> value_content(#[trigger] documents@[j]) == items@[j]@,
                decreases items@.len() - i,
            {
                proof {
                    assert(decreases_to!(*json => json->Array_0));
                    assert(decreases_to!(items@ => items@[i as int]));
                }
                let document = to_document(&items[i]);
                documents.push(document);
                i = i + 1;
            }
            proof {
                lemma_array_view(*items);
                assert(shape_content(Shape::Array(documents))->Array_0 =~= items_view(items@));
            }
            close_value(Shape::Array(documents))
        },
        Json::Object(entries) => {
            let mut documents: Vec<(String, serde_json::Value)> = Vec::new();
            let mut i: usize = 0;
            while i < entries.len()
                invariant
                    i <= entries@.len(),
                    *json == Json::Object(*entries),
                    documents@.len() == i,
                    documents_view(documents@) == entries_view(entries@.take(i as int)),
                decreases entries@.len() - i,
            {
                proof {
                    assert(decreases_to!(*json => json->Object_0));
                    assert(decreases_to!(entries@ => entries@[i as int]));
                }
                let document = to_document(&entries[i].1);
                let ghost before = documents@;
                documents.push((entries[i].0.clone(), document));
                i = i + 1;
                proof {
                    assert(documents@.drop_last() =~= before);
                    assert(entries@.take(i as int).drop_last() =~= entries@.take(i - 1));
                }
            }
            proof {
                assert(entries@.take(i as int) =~= entries@);
            }
            close_value(Shape::Object(documents))
        },
    }
}

/// Reads a text with `serde_json`.
pub fn parse(text: &str) -> (value: Option<Json>)
    ensures
        match value {
            Some(value) => text_value(text@) == Some(value@),
            None => text_value(text@) is None,
        },
{
    match read_text(text) {
        Some(document) => Some(from_document(document)),
        None => None,
    }
}

/// Reads bytes with `simd_json`.
pub fn parse_bytes(bytes: Vec<u8>) -> (value: Option<Json>)
    ensures
        match value {
            Some(value) => bytes_value(bytes@) == Some(value@),
            None => bytes_value(bytes@) is None,
        },
{
    match read_bytes(bytes) {
        Some(document) => Some(from_document(document)),
        None => None,
    }
}

/// The claims that a token carries, where it is signed with a secret.
pub uninterp spec fn token_claims(token: Seq<char>, secret: Seq<u8>) -> Option<JsonView>;

/// `jsonwebtoken::decode` into a `Value`, with its default validation and the key that
/// `DecodingKey::from_secret` makes of the secret. The claims that it gives are those that the
/// token carries, a function of token and secret; a claim that is repeated counts as it stands
/// last. Whether it gives them depends on the clock too: when it does is not said.
#[verifier::external_body]
fn decode_token(token: &str, secret: &Vec<u8>) -> (claims: Option<serde_json::Value>)
    ensures
        claims matches Some(claims) ==> token_claims(token@, secret@) == Some(
            value_content(claims),
        ),
{
    match jsonwebtoken::decode::<serde_json::Value>(
        token,
        &jsonwebtoken::DecodingKey::from_secret(secret),
        &jsonwebtoken::Validation::default(),
    ) {
        Ok(token) => Some(token.claims),
        Err(_) => None,
    }
}

/// The claims of a token, where it is signed with the secret and valid at this time.
pub(crate) fn from_claims(token: &str, secret: &Vec<u8>) -> (claims: Option<Json>)
    ensures
        claims matches Some(claims) ==> token_claims(token@, secret@) == Some(claims@),
{
    match decode_token(token, secret) {
        Some(document) => Some(from_document(document)),
        None => None,
    }
}

impl Json {
    /// Writes the text with `serde_json`. Both readers read it back, but for numbers with a
    /// fraction and for what is nested or is long beyond their limits.
    pub fn to_text(&self) -> (text: String)
        ensures
            text@ == value_text(self@),
            self@.plain(127) ==> text_value(text@) == Some(self@),
            self@.plain(1024) && encode_utf8(text@).len() <= u32::MAX ==> bytes_value(
                encode_utf8(text@),
            ) == Some(self@),
    {
        write_text(&to_document(self))
    }
}

/// Putting a value under a key of an object gives the object that has this value there and agrees
/// with the old one about every other key. What is no object stays as it is.
pub proof fn law_put_changes_one_key(object: Json, key: &str, value: Json, result: Json)
    requires
        call_ensures(Json::put, (object, key, value), result),
    ensures
        !(object@ is Object) ==> result@ == object@,
        object@ is Object ==> {
            &&& result@ is Object
            &&& result@->Object_0.contains_key(key@)
            &&& result@->Object_0[key@] == value@
            &&& forall|other: Seq<char>|
                other != key@ ==> {
                    &&& (#[trigger] result@->Object_0.contains_key(other)
                        <==> object@->Object_0.contains_key(other))
                    &&& object@->Object_0.contains_key(other) ==> result@->Object_0[other]
                        == object@->Object_0[other]
                }
        },
{
}

/// Inserting does in place what putting does.
pub proof fn law_insert_changes_one_key(object: &mut Json, key: &str, value: Json)
    requires
        call_ensures(Json::insert, (object, key, value), ()),
    ensures
        !(old(object)@ is Object) ==> final(object)@ == old(object)@,
        old(object)@ is Object ==> {
            &&& final(object)@ is Object
            &&& final(object)@->Object_0.contains_key(key@)
            &&& final(object)@->Object_0[key@] == value@
            &&& forall|other: Seq<char>|
                other != key@ ==> {
                    &&& (#[trigger] final(object)@->Object_0.contains_key(other)
                        <==> old(object)@->Object_0.contains_key(other))
                    &&& old(object)@->Object_0.contains_key(other)
                        ==> final(object)@->Object_0[other] == old(object)@->Object_0[other]
                }
        },
{
}

/// Looking up a key finds the value that the object has there: by reference where there is one,
/// and null where there is none.
pub proof fn law_lookup_finds_the_entry(
    object: &Json,
    key: &str,
    found: Option<&Json>,
    value: Json,
)
    requires
        call_ensures(Json::get, (object, key), found),
        call_ensures(Json::member, (object, key), value),
    ensures
        found is Some <==> object@ is Object && object@->Object_0.contains_key(key@),
        found is Some ==> found->0@ == object@->Object_0[key@] && value@
            == object@->Object_0[key@],
        found is None ==> value@ == JsonView::Null,
{
}

/// What was put under a key is found there.
pub proof fn law_put_is_found(
    object: Json,
    key: &str,
    value: Json,
    result: &Json,
    found: Json,
)
    requires
        object@ is Object,
        call_ensures(Json::put, (object, key, value), *result),
        call_ensures(Json::member, (result, key), found),
    ensures
        found@ == value@,
{
}

/// An element is found exactly at the places that an array has, and is the one there.
pub proof fn law_elements_are_found_by_place(
    items: Vec<Json>,
    array: &Json,
    index: usize,
    found: Option<&Json>,
)
    requires
        call_ensures(Json::array, (items,), *array),
        call_ensures(Json::at, (array, index), found),
    ensures
        found is Some <==> index < items@.len(),
        found is Some ==> found->0@ == items@[index as int]@,
        forall|i: int| 0 <= i < items@.len() ==> #[trigger] array@.item(i) == items@[i]@,
{
}

/// Nothing but an array has elements, and nothing but a text is read as a text, nothing but an
/// integer from zero on as a `u64`, nothing but null as null.
pub proof fn law_values_are_told_apart(
    value: &Json,
    index: usize,
    found: Option<&Json>,
    text: Option<&str>,
    number: Option<u64>,
    null: bool,
    object: bool,
    items: Option<&Vec<Json>>,
)
    requires
        call_ensures(Json::at, (value, index), found),
        call_ensures(Json::as_str, (value,), text),
        call_ensures(Json::as_u64, (value,), number),
        call_ensures(Json::is_null, (value,), null),
        call_ensures(Json::is_object, (value,), object),
        call_ensures(Json::as_array, (value,), items),
    ensures
        match value@ {
            JsonView::Null => null && !object && found is None && text is None && number is None
                && items is None,
            JsonView::Bool(_) => !null && !object && found is None && text is None && number
                is None && items is None,
            JsonView::Number(n) => {
                &&& !null && !object && found is None && text is None && items is None
                &&& match n {
                    Numeric::Unsigned(n) => number == Some(n),
                    _ => number is None,
                }
            },
            JsonView::Text(s) => {
                &&& !null && !object && found is None && number is None && items is None
                &&& text is Some && text->0@ == s
            },
            JsonView::Array(elements) => {
                &&& !null && !object && text is None && number is None
                &&& items is Some && items->0@.len() == elements.len()
                &&& forall|i: int|
                    0 <= i < elements.len() ==> (#[trigger] items->0@[i])@ == elements[i]
                &&& (found is Some <==> index < elements.len())
                &&& found is Some ==> found->0@ == elements[index as int]
            },
            JsonView::Object(_) => !null && object && found is None && text is None && number
                is None && items is None,
        },
{
    if let Some(items) = items {
        assert forall|i: int| 0 <= i < items@.len() implies (#[trigger] items@[i])@
            == value@->Array_0[i] by {
            assert(items_view(items@)[i] == items@[i]@);
        }
    }
}

/// Each integer is one value: `i64` and `u64` give the same one for the same number, different
/// numbers give different ones, and a `u64` is read back as itself.
pub proof fn law_integers_are_kept(
    a: u64,
    b: i64,
    unsigned: &Json,
    signed: Json,
    read: Option<u64>,
)
    requires
        call_ensures(Json::unsigned, (a,), *unsigned),
        call_ensures(Json::integer, (b,), signed),
        call_ensures(Json::as_u64, (unsigned,), read),
    ensures
        read == Some(a),
        unsigned@ == signed@ <==> a == b,
        b < 0 ==> signed@ == JsonView::Number(Numeric::Negative(b)),
        b >= 0 ==> signed@ == JsonView::Number(Numeric::Unsigned(b as u64)),
{
}

/// A text is read as itself, and equals exactly itself.
pub proof fn law_texts_are_kept(text: &str, other: &str, value: &Json, read: Option<&str>, is: bool)
    requires
        call_ensures(Json::text, (text,), *value),
        call_ensures(Json::as_str, (value,), read),
        call_ensures(Json::is, (value, other), is),
    ensures
        read is Some && read->0@ == text@,
        is <==> text@ == other@,
        value@ == JsonView::Text(text@),
{
}

/// Only a text equals a text.
pub proof fn law_only_texts_equal_texts(value: &Json, text: &str, is: bool)
    requires
        call_ensures(Json::is, (value, text), is),
    ensures
        is <==> value@ is Text && value@->Text_0 == text@,
{
}

/// An object without entries has no key.
pub proof fn law_new_object_is_empty(object: Json, key: Seq<char>)
    requires
        call_ensures(Json::object, (), object),
    ensures
        object@ is Object,
        !object@->Object_0.contains_key(key),
{
}

/// What is written is read back by both readers, as long as all its numbers are integers and it is
/// neither nested nor long beyond their limits.
pub proof fn law_written_text_is_read_back(
    value: &Json,
    text: String,
    again: &str,
    bytes: Vec<u8>,
    read: Option<Json>,
    read_bytes: Option<Json>,
)
    requires
        call_ensures(Json::to_text, (value,), text),
        again@ == text@,
        bytes@ == encode_utf8(text@),
        call_ensures(parse, (again,), read),
        call_ensures(parse_bytes, (bytes,), read_bytes),
    ensures
        value@.plain(127) ==> read is Some && read->0@ == value@,
        value@.plain(1024) && bytes@.len() <= u32::MAX ==> read_bytes is Some && read_bytes->0@
            == value@,
{
}

/// Values with different content have different texts, as long as all their numbers are integers
/// and they are not nested too deep.
pub proof fn law_texts_tell_values_apart(a: &Json, b: &Json, first: String, second: String)
    requires
        call_ensures(Json::to_text, (a,), first),
        call_ensures(Json::to_text, (b,), second),
        a@.plain(127),
        b@.plain(127),
    ensures
        first@ == second@ <==> a@ == b@,
{
}

/// Null, booleans, texts and integers can be read back at any depth; an array or an object can
/// where all that it holds can one level deeper.
pub proof fn law_plain_values(value: JsonView, levels: nat)
    ensures
        value is Null || value is Bool || value is Text ==> value.plain(levels),
        value is Number && !(value->Number_0 is Fraction) ==> value.plain(levels),
        value is Array && (forall|i: int|
            0 <= i < value->Array_0.len() ==> (#[trigger] value->Array_0[i]).plain(levels))
            ==> value.plain(levels + 1),
        value is Object && (forall|key: Seq<char>|
            value->Object_0.contains_key(key) ==> (#[trigger] value->Object_0[key]).plain(levels))
            ==> value.plain(levels + 1),
{
}

/// Of several entries with one key the last one counts.
pub proof fn law_last_entry_counts(
    entries: Seq<(String, Json)>,
    key: String,
    value: Json,
    other: Seq<char>,
)
    ensures
        ({
            let after = entries_view(entries.push((key, value)));
            &&& after.contains_key(key@)
            &&& after[key@] == value@
            &&& other != key@ ==> (after.contains_key(other) <==> entries_view(
                entries,
            ).contains_key(other))
            &&& other != key@ && after.contains_key(other) ==> after[other] == entries_view(
                entries,
            )[other]
        }),
{
    assert(entries.push((key, value)).drop_last() =~= entries);
}

/// A copy says what the value says.
pub proof fn law_copies_say_the_same(value: &Json, copy: Json)
    requires
        call_ensures(Json::clone, (value,), copy),
    ensures
        copy@ == value@,
{
}

} // verus!
