//! The claims of a token as they stand in its text, where one may stand twice. What reads a token
//! keeps only the last of several claims with one name.

use crate::balancer::processing::json_view;
use crate::json::{bytes_value, parse_bytes, Json, JsonView};
use crate::text::chars_of;
use vstd::prelude::*;

verus! {

/// Where `c` stands last in a text, -1 where it does not.
pub open spec fn last_place(text: Seq<char>, c: char) -> int
    decreases text.len(),
{
    if text.len() == 0 {
        -1
    } else if text.last() == c {
        text.len() - 1
    } else {
        last_place(text.drop_last(), c)
    }
}

/// The part of a token that holds its claims: what stands between its last two dots.
pub open spec fn claims_part(token: Seq<char>) -> Option<Seq<char>> {
    let end = last_place(token, '.');
    let start = last_place(token.take(end), '.');
    if end < 0 || start < 0 {
        None
    } else {
        Some(token.subrange(start + 1, end))
    }
}

/// The six bits that a character stands for in base64, by the alphabet for URLs.
pub open spec fn six_bits(c: char) -> Option<u8> {
    if 'A' <= c <= 'Z' {
        Some((c as u32 - 'A' as u32) as u8)
    } else if 'a' <= c <= 'z' {
        Some((c as u32 - 'a' as u32 + 26) as u8)
    } else if '0' <= c <= '9' {
        Some((c as u32 - '0' as u32 + 52) as u8)
    } else if c == '-' {
        Some(62)
    } else if c == '_' {
        Some(63)
    } else {
        None
    }
}

/// A byte out of groups of six bits: eight of them, four groups making up three bytes.
pub open spec fn byte_at(bits: Seq<u8>, place: int) -> u8 {
    let first = place / 3 * 4 + place % 3;
    (if place % 3 == 0 {
        bits[first] * 4 + bits[first + 1] / 16
    } else if place % 3 == 1 {
        bits[first] % 16 * 16 + bits[first + 1] / 4
    } else {
        bits[first] % 4 * 64 + bits[first + 1]
    }) as u8
}

/// The bytes that a text stands for in base64 without padding.
pub open spec fn unpadded_base64(text: Seq<char>) -> Option<Seq<u8>> {
    if text.len() % 4 != 1 && forall|i: int| 0 <= i < text.len() ==> six_bits(#[trigger] text[i])
        is Some {
        let bits = Seq::new(text.len(), |i: int| six_bits(text[i])->0);
        Some(Seq::new(text.len() * 3 / 4, |place: int| byte_at(bits, place)))
    } else {
        None
    }
}

/// Whether a byte may stand between the parts of a JSON text.
pub open spec fn blank(byte: u8) -> bool {
    byte == ' ' as u8 || byte == '\t' as u8 || byte == '\n' as u8 || byte == '\r' as u8
}

/// What was read of a JSON text.
#[verifier::ext_equal]
pub struct ScanView {
    /// In how many objects and arrays the next byte stands.
    pub depth: int,
    /// The string that the next byte stands in, as far as it was read.
    pub open: Option<Seq<u8>>,
    /// Whether a backslash stands before the next byte.
    pub escaped: bool,
    /// The string that was read last, where only blanks followed.
    pub last: Option<Seq<u8>>,
    /// The names of the members of the outermost object.
    pub names: Seq<Option<JsonView>>,
}

impl ScanView {
    pub open spec fn fresh() -> ScanView {
        ScanView { depth: 0, open: None, escaped: false, last: None, names: Seq::empty() }
    }

    /// After one more byte.
    pub open spec fn after(self, byte: u8) -> ScanView {
        match self.open {
            Some(text) => if !self.escaped && byte == '"' as u8 {
                ScanView { open: None, last: Some(text.push(byte)), ..self }
            } else {
                ScanView {
                    open: Some(text.push(byte)),
                    escaped: !self.escaped && byte == '\\' as u8,
                    ..self
                }
            },
            None => if byte == '"' as u8 {
                ScanView { open: Some(seq![byte]), last: None, ..self }
            } else if byte == '{' as u8 || byte == '[' as u8 {
                ScanView { depth: self.depth + 1, last: None, ..self }
            } else if byte == '}' as u8 || byte == ']' as u8 {
                ScanView { depth: self.depth - 1, last: None, ..self }
            } else if byte == ':' as u8 && self.depth == 1 && self.last is Some {
                ScanView { names: self.names.push(bytes_value(self.last->0)), last: None, ..self }
            } else if blank(byte) {
                self
            } else {
                ScanView { last: None, ..self }
            },
        }
    }
}

/// What was read of a JSON text once all of it was.
pub open spec fn scanned(bytes: Seq<u8>) -> ScanView
    decreases bytes.len(),
{
    if bytes.len() == 0 {
        ScanView::fresh()
    } else {
        scanned(bytes.drop_last()).after(bytes.last())
    }
}

/// The names of the members of an object that is written as JSON, in the order in which they
/// stand, each as often as it stands there.
pub open spec fn member_names(bytes: Seq<u8>) -> Seq<Option<JsonView>> {
    scanned(bytes).names
}

/// Whether a name occurs twice.
pub open spec fn repeated(names: Seq<Option<JsonView>>, name: Seq<char>) -> bool {
    exists|i: int, j: int|
        0 <= i < j < names.len() && #[trigger] names[i] == Some(JsonView::Text(name))
            && #[trigger] names[j] == Some(JsonView::Text(name))
}

/// Whether one of the claims that make a request occurs twice.
pub open spec fn claim_repeated(names: Seq<Option<JsonView>>) -> bool {
    repeated(names, "id"@) || repeated(names, "jsonrpc"@) || repeated(names, "method"@)
        || repeated(names, "params"@) || repeated(names, "exp"@)
}

/// Whether a token repeats one of the claims that make a request.
pub open spec fn repeats_claim(token: Seq<char>) -> bool {
    match claims_part(token) {
        Some(part) => match unpadded_base64(part) {
            Some(bytes) => claim_repeated(member_names(bytes)),
            None => false,
        },
        None => false,
    }
}

/// Where `c` stands last among the first characters of a text.
fn find_last(text: &Vec<char>, count: usize, c: char) -> (place: Option<usize>)
    requires
        count <= text@.len(),
    ensures
        match place {
            Some(place) => place < count && place == last_place(text@.take(count as int), c),
            None => last_place(text@.take(count as int), c) == -1,
        },
{
    let mut left: usize = count;
    while left > 0
        invariant
            left <= count <= text@.len(),
            last_place(text@.take(left as int), c) == last_place(text@.take(count as int), c),
        decreases left,
    {
        proof {
            assert(text@.take(left as int).drop_last() =~= text@.take(left - 1));
        }
        if text[left - 1] == c {
            return Some(left - 1);
        }
        left = left - 1;
    }
    None
}

/// The six bits that a character stands for in base64.
fn six_bits_of(c: char) -> (bits: Option<u8>)
    ensures
        bits == six_bits(c),
        bits matches Some(bits) ==> bits < 64,
{
    if 'A' <= c && c <= 'Z' {
        Some((c as u32 - 'A' as u32) as u8)
    } else if 'a' <= c && c <= 'z' {
        Some((c as u32 - 'a' as u32 + 26) as u8)
    } else if '0' <= c && c <= '9' {
        Some((c as u32 - '0' as u32 + 52) as u8)
    } else if c == '-' {
        Some(62)
    } else if c == '_' {
        Some(63)
    } else {
        None
    }
}

/// The bytes that a part of a text stands for in base64 without padding.
fn decode_base64(text: &Vec<char>, from: usize, to: usize) -> (bytes: Option<Vec<u8>>)
    requires
        from <= to <= text@.len(),
    ensures
        match bytes {
            Some(bytes) => unpadded_base64(text@.subrange(from as int, to as int)) == Some(bytes@),
            None => unpadded_base64(text@.subrange(from as int, to as int)) is None,
        },
{
    let ghost part = text@.subrange(from as int, to as int);
    let count: usize = to - from;
    if count % 4 == 1 {
        return None;
    }
    let mut bits: Vec<u8> = Vec::new();
    while bits.len() < count
        invariant
            from <= to <= text@.len(),
            count == to - from,
            part == text@.subrange(from as int, to as int),
            bits@.len() <= count,
            forall|i: int|
                0 <= i < bits@.len() ==> six_bits(#[trigger] part[i]) == Some(bits@[i]) && bits@[i]
                    < 64,
        decreases count - bits@.len(),
    {
        let at: usize = bits.len();
        proof {
            assert(part[at as int] == text@[from + at]);
        }
        match six_bits_of(text[from + at]) {
            Some(six) => bits.push(six),
            None => {
                return None;
            },
        }
    }
    let ghost all = Seq::new(part.len(), |i: int| six_bits(part[i])->0);
    proof {
        assert(all =~= bits@);
    }
    let mut bytes: Vec<u8> = Vec::new();
    let mut place: usize = 0;
    let mut first: usize = 0;
    while first + 1 < count
        invariant
            count == bits@.len(),
            count % 4 != 1,
            forall|i: int| 0 <= i < bits@.len() ==> #[trigger] bits@[i] < 64,
            place == bytes@.len(),
            first == place / 3 * 4 + place % 3,
            place <= count * 3 / 4,
            first <= count,
            forall|i: int| 0 <= i < place ==> #[trigger] bytes@[i] == byte_at(bits@, i),
        decreases count - first,
    {
        let (a, b): (u8, u8) = (bits[first], bits[first + 1]);
        let byte: u8 = if place % 3 == 0 {
            a * 4 + b / 16
        } else if place % 3 == 1 {
            a % 16 * 16 + b / 4
        } else {
            a % 4 * 64 + b
        };
        bytes.push(byte);
        first = if place % 3 == 2 { first + 2 } else { first + 1 };
        place = place + 1;
    }
    proof {
        assert(bytes@ =~= Seq::new(part.len() * 3 / 4, |place: int| byte_at(all, place)));
    }
    Some(bytes)
}

/// Whether a byte may stand between the parts of a JSON text.
fn is_blank(byte: u8) -> (is_blank: bool)
    ensures
        is_blank == blank(byte),
{
    byte == ' ' as u8 || byte == '\t' as u8 || byte == '\n' as u8 || byte == '\r' as u8
}

/// What was read of a JSON text.
struct Scan {
    depth: i128,
    open: Option<Vec<u8>>,
    escaped: bool,
    last: Option<Vec<u8>>,
    names: Vec<Option<Json>>,
}

spec fn string_view(string: Option<Vec<u8>>) -> Option<Seq<u8>> {
    match string {
        Some(string) => Some(string@),
        None => None,
    }
}

/// What some names say, in order.
pub open spec fn names_view(names: Seq<Option<Json>>) -> Seq<Option<JsonView>> {
    Seq::new(names.len(), |i: int| json_view(names[i]))
}

impl Scan {
    spec fn view(&self) -> ScanView {
        ScanView {
            depth: self.depth as int,
            open: string_view(self.open),
            escaped: self.escaped,
            last: string_view(self.last),
            names: names_view(self.names@),
        }
    }

    /// Takes in a byte.
    fn take_in(self, byte: u8) -> (scan: Scan)
        requires
            i128::MIN < self.depth < i128::MAX,
        ensures
            scan@ == self@.after(byte),
            self.depth - 1 <= scan.depth <= self.depth + 1,
    {
        match self.open {
            Some(text) => {
                let mut text = text;
                text.push(byte);
                if !self.escaped && byte == '"' as u8 {
                    Scan {
                        depth: self.depth,
                        open: None,
                        escaped: self.escaped,
                        last: Some(text),
                        names: self.names,
                    }
                } else {
                    Scan {
                        depth: self.depth,
                        open: Some(text),
                        escaped: !self.escaped && byte == '\\' as u8,
                        last: self.last,
                        names: self.names,
                    }
                }
            },
            None => {
                let mut scan = Scan {
                    depth: self.depth,
                    open: None,
                    escaped: self.escaped,
                    last: None,
                    names: self.names,
                };
                if byte == '"' as u8 {
                    let mut text: Vec<u8> = Vec::new();
                    text.push(byte);
                    proof {
                        assert(text@ =~= seq![byte]);
                    }
                    scan.open = Some(text);
                } else if byte == '{' as u8 || byte == '[' as u8 {
                    scan.depth = scan.depth + 1;
                } else if byte == '}' as u8 || byte == ']' as u8 {
                    scan.depth = scan.depth - 1;
                } else if is_blank(byte) {
                    scan.last = self.last;
                } else if byte == ':' as u8 && scan.depth == 1 {
                    if let Some(name) = self.last {
                        let ghost before = scan.names@;
                        scan.names.push(parse_bytes(name));
                        proof {
                            assert(names_view(scan.names@) =~= names_view(before).push(
                                bytes_value(name@),
                            ));
                        }
                    }
                }
                scan
            },
        }
    }
}

/// The names of the members of an object that is written as JSON.
fn read_names(bytes: &Vec<u8>) -> (names: Vec<Option<Json>>)
    ensures
        names_view(names@) == member_names(bytes@),
{
    let mut scan = Scan {
        depth: 0,
        open: None,
        escaped: false,
        last: None,
        names: Vec::new(),
    };
    let mut i: usize = 0;
    proof {
        assert(names_view(scan.names@) =~= Seq::<Option<JsonView>>::empty());
        assert(bytes@.take(0) =~= Seq::<u8>::empty());
    }
    while i < bytes.len()
        invariant
            i <= bytes@.len(),
            -i <= scan.depth <= i,
            scan@ == scanned(bytes@.take(i as int)),
        decreases bytes@.len() - i,
    {
        proof {
            assert(bytes@.take(i + 1).drop_last() =~= bytes@.take(i as int));
        }
        scan = scan.take_in(bytes[i]);
        i = i + 1;
    }
    proof {
        assert(bytes@.take(i as int) =~= bytes@);
    }
    scan.names
}

/// Whether a name occurs twice.
fn occurs_twice(names: &Vec<Option<Json>>, name: &str) -> (twice: bool)
    ensures
        twice == repeated(names_view(names@), name@),
{
    let ghost all = names_view(names@);
    let ghost sought = Some(JsonView::Text(name@));
    let mut seen = false;
    let mut i: usize = 0;
    while i < names.len()
        invariant
            i <= names@.len(),
            all == names_view(names@),
            sought == Some(JsonView::Text(name@)),
            seen == exists|k: int| 0 <= k < i && #[trigger] all[k] == sought,
            forall|j: int, k: int|
                0 <= j < k < i ==> !(#[trigger] all[j] == sought && #[trigger] all[k] == sought),
        decreases names@.len() - i,
    {
        let found = match &names[i] {
            Some(text) => text.is(name),
            None => false,
        };
        proof {
            assert(all[i as int] == json_view(names@[i as int]));
            assert(found == (all[i as int] == sought));
        }
        if found && seen {
            return true;
        }
        seen = seen || found;
        i = i + 1;
    }
    false
}

/// Whether a token repeats one of the claims that make a request.
pub fn has_repeated_claim(token: &str) -> (repeats: bool)
    ensures
        repeats == repeats_claim(token@),
{
    let text = chars_of(token);
    proof {
        assert(text@.take(text@.len() as int) =~= token@);
    }
    let end: usize = match find_last(&text, text.len(), '.') {
        Some(end) => end,
        None => {
            return false;
        },
    };
    let start: usize = match find_last(&text, end, '.') {
        Some(start) => start,
        None => {
            return false;
        },
    };
    match decode_base64(&text, start + 1, end) {
        Some(bytes) => {
            let names = read_names(&bytes);
            occurs_twice(&names, "id") || occurs_twice(&names, "jsonrpc") || occurs_twice(
                &names,
                "method",
            ) || occurs_twice(&names, "params") || occurs_twice(&names, "exp")
        },
        None => false,
    }
}

/// The characters of base64 for URLs, in the order of their values: upper case from zero on, lower
/// case from 26 on, digits from 52 on, and then `-` and `_`. No other character has a value.
pub proof fn law_base64_characters_have_their_values(c: char)
    ensures
        'A' <= c <= 'Z' ==> six_bits(c) == Some((c as u32 - 65) as u8),
        'a' <= c <= 'z' ==> six_bits(c) == Some((c as u32 - 71) as u8),
        '0' <= c <= '9' ==> six_bits(c) == Some((c as u32 + 4) as u8),
        c == '-' ==> six_bits(c) == Some(62u8),
        c == '_' ==> six_bits(c) == Some(63u8),
        six_bits(c) is Some ==> six_bits(c)->0 < 64 && ('A' <= c <= 'Z' || 'a' <= c <= 'z' || '0'
            <= c <= '9' || c == '-' || c == '_'),
{
}

/// Four characters of base64 and the three bytes that they stand for are the same number: the
/// characters are its digits to the base 64, and the bytes those to the base 256. Nothing is left
/// over but zero to two bytes out of zero, two or three characters at the end.
pub proof fn law_base64_keeps_the_number(text: Seq<char>, group: int)
    requires
        unpadded_base64(text) is Some,
        0 <= group,
        4 * group + 4 <= text.len(),
    ensures
        ({
            let bytes = unpadded_base64(text)->0;
            let digit = |i: int| six_bits(text[4 * group + i])->0 as int;
            &&& bytes.len() == text.len() * 3 / 4
            &&& bytes[3 * group] * 65536 + bytes[3 * group + 1] * 256 + bytes[3 * group + 2]
                == digit(0) * 262144 + digit(1) * 4096 + digit(2) * 64 + digit(3)
        }),
{
    let bits = Seq::new(text.len(), |i: int| six_bits(text[i])->0);
    let bytes = unpadded_base64(text)->0;
    let a = bits[4 * group];
    let b = bits[4 * group + 1];
    let c = bits[4 * group + 2];
    let d = bits[4 * group + 3];
    law_base64_characters_have_their_values(text[4 * group]);
    law_base64_characters_have_their_values(text[4 * group + 1]);
    law_base64_characters_have_their_values(text[4 * group + 2]);
    law_base64_characters_have_their_values(text[4 * group + 3]);
    assert(six_bits(text[4 * group]) is Some && six_bits(text[4 * group + 1]) is Some);
    assert(six_bits(text[4 * group + 2]) is Some && six_bits(text[4 * group + 3]) is Some);
    assert(bytes[3 * group] == byte_at(bits, 3 * group));
    assert(bytes[3 * group + 1] == byte_at(bits, 3 * group + 1));
    assert(bytes[3 * group + 2] == byte_at(bits, 3 * group + 2));
    assert((3 * group) / 3 == group && (3 * group) % 3 == 0);
    assert((3 * group + 1) / 3 == group && (3 * group + 1) % 3 == 1);
    assert((3 * group + 2) / 3 == group && (3 * group + 2) % 3 == 2);
}

/// A text stands for bytes exactly where each of its characters has a value and not just one is
/// left over behind groups of four.
pub proof fn law_what_is_base64(text: Seq<char>)
    ensures
        unpadded_base64(text) is Some <==> text.len() % 4 != 1 && forall|i: int|
            0 <= i < text.len() ==> {
                ||| 'A' <= #[trigger] text[i] <= 'Z'
                ||| 'a' <= text[i] <= 'z'
                ||| '0' <= text[i] <= '9'
                ||| text[i] == '-'
                ||| text[i] == '_'
            },
{
    if unpadded_base64(text) is Some {
        assert forall|i: int| 0 <= i < text.len() implies {
            ||| 'A' <= #[trigger] text[i] <= 'Z'
            ||| 'a' <= text[i] <= 'z'
            ||| '0' <= text[i] <= '9'
            ||| text[i] == '-'
            ||| text[i] == '_'
        } by {
            assert(six_bits(text[i]) is Some);
        }
    }
}

/// The claims stand between the last two dots: a token of three parts without dots has its second
/// part there.
pub proof fn law_claims_are_the_second_part(
    header: Seq<char>,
    claims: Seq<char>,
    signature: Seq<char>,
)
    requires
        forall|i: int| 0 <= i < claims.len() ==> #[trigger] claims[i] != '.',
        forall|i: int| 0 <= i < signature.len() ==> #[trigger] signature[i] != '.',
    ensures
        claims_part(header + seq!['.'] + claims + seq!['.'] + signature) == Some(claims),
{
    let front = header + seq!['.'] + claims;
    let token = front + seq!['.'] + signature;
    lemma_last_place(front, signature);
    assert(token.take(front.len() as int) =~= front);
    lemma_last_place(header, claims);
    assert(token.subrange(header.len() as int + 1, front.len() as int) =~= claims);
}

proof fn lemma_last_place(before: Seq<char>, after: Seq<char>)
    requires
        forall|i: int| 0 <= i < after.len() ==> #[trigger] after[i] != '.',
    ensures
        last_place(before + seq!['.'] + after, '.') == before.len(),
    decreases after.len(),
{
    let text = before + seq!['.'] + after;
    if after.len() == 0 {
        assert(text.last() == '.');
    } else {
        assert(after[after.len() - 1] != '.');
        assert(text.last() == after.last());
        assert forall|i: int| 0 <= i < after.drop_last().len() implies #[trigger] after.drop_last()[i]
            != '.' by {
            assert(after.drop_last()[i] == after[i]);
        }
        lemma_last_place(before, after.drop_last());
        assert(text.drop_last() =~= before + seq!['.'] + after.drop_last());
    }
}

/// Scanning is inside of a string, within the outermost object or array, or deeper. Only a colon
/// that stands outside of strings directly in the outermost one, behind a string and blanks, makes
/// a name, and that string is it; nothing else adds or takes away a name.
pub proof fn law_names_stand_before_colons(bytes: Seq<u8>, byte: u8)
    ensures
        ({
            let before = scanned(bytes);
            let after = scanned(bytes.push(byte));
            let names = byte == 58 && before.open is None && before.depth == 1 && before.last
                is Some;
            &&& names ==> after.names == before.names.push(bytes_value(before.last->0))
            &&& !names ==> after.names == before.names
        }),
{
    assert(bytes.push(byte).drop_last() =~= bytes);
}

/// Brackets count outside of strings alone, and a string goes on up to the next quote that no
/// backslash escapes; it is read as it stands, with its quotes. It is the last one read until
/// something else than blanks follows.
pub proof fn law_strings_end_at_their_quotes(bytes: Seq<u8>, byte: u8)
    ensures
        ({
            let before = scanned(bytes);
            let after = scanned(bytes.push(byte));
            let inside = before.open is Some;
            let ends = inside && byte == 34 && !before.escaped;
            &&& inside ==> after.depth == before.depth
            &&& !inside && (byte == 123 || byte == 91) ==> after.depth == before.depth + 1
            &&& !inside && (byte == 125 || byte == 93) ==> after.depth == before.depth - 1
            &&& !inside && byte != 123 && byte != 91 && byte != 125 && byte != 93 ==> after.depth
                == before.depth
            &&& after.open is Some <==> (inside && !ends) || (!inside && byte == 34)
            &&& inside && !ends ==> after.open == Some(before.open->0.push(byte))
            &&& ends ==> after.last == Some(before.open->0.push(byte))
            &&& !inside && byte == 34 ==> after.open == Some(seq![byte])
            &&& inside && !ends ==> (after.escaped <==> byte == 92 && !before.escaped)
            &&& ends ==> !after.escaped
            &&& !inside ==> after.last == if byte == 32 || byte == 9 || byte == 10 || byte == 13 {
                before.last
            } else {
                None
            }
        }),
{
    assert(bytes.push(byte).drop_last() =~= bytes);
}

/// At the start nothing was read, and no string is open.
pub proof fn law_scanning_starts_empty()
    ensures
        scanned(Seq::<u8>::empty()).names.len() == 0,
        scanned(Seq::<u8>::empty()).depth == 0,
        scanned(Seq::<u8>::empty()).open is None,
        scanned(Seq::<u8>::empty()).last is None,
        !scanned(Seq::<u8>::empty()).escaped,
{
}

/// A token repeats a claim exactly where, among the names that stand in its claims, one of the five
/// stands at two places.
pub proof fn law_repeated_claims_are_found(token: &str, repeats: bool, i: int, j: int)
    requires
        call_ensures(has_repeated_claim, (token,), repeats),
        claims_part(token@) is Some,
        unpadded_base64(claims_part(token@)->0) is Some,
    ensures
        ({
            let names = scanned(unpadded_base64(claims_part(token@)->0)->0).names;
            let claim = |name: Option<JsonView>|
                name == Some(JsonView::Text("id"@)) || name == Some(JsonView::Text("jsonrpc"@))
                    || name == Some(JsonView::Text("method"@)) || name == Some(
                    JsonView::Text("params"@),
                ) || name == Some(JsonView::Text("exp"@));
            &&& 0 <= i < j < names.len() && claim(names[i]) && names[i] == names[j] ==> repeats
            &&& repeats ==> exists|a: int, b: int|
                0 <= a < b < names.len() && claim(#[trigger] names[a]) && names[a]
                    == #[trigger] names[b]
        }),
{
    let names = scanned(unpadded_base64(claims_part(token@)->0)->0).names;
    assert(names == member_names(unpadded_base64(claims_part(token@)->0)->0));
}

} // verus!
