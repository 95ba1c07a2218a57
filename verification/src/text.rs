//! Text: comparing, taking apart and putting together.

use vstd::prelude::*;

verus! {

/// `String::push` appends one character.
pub assume_specification[ std::string::String::push ](text: &mut String, c: char)
    ensures
        final(text)@ == old(text)@.push(c),
;

/// Whether two texts are the same.
pub fn same(a: &str, b: &str) -> (equal: bool)
    ensures
        equal == (a@ == b@),
{
    a.to_owned() == b.to_owned()
}

/// Whether `part` stands in `whole` without a gap.
pub open spec fn holds(whole: Seq<char>, part: Seq<char>) -> bool {
    exists|at: int| 0 <= at <= whole.len() - part.len() && #[trigger] whole.subrange(
        at,
        at + part.len(),
    ) == part
}

/// Whether `part` stands in `whole` from place `at` on.
fn stands_at(whole: &Vec<char>, part: &Vec<char>, at: usize) -> (stands: bool)
    requires
        at + part@.len() <= whole@.len(),
    ensures
        stands == (whole@.subrange(at as int, at + part@.len()) == part@),
{
    let ghost there = whole@.subrange(at as int, at + part@.len());
    let length: usize = whole.len();
    let mut i: usize = 0;
    while i < part.len()
        invariant
            i <= part@.len(),
            at + part@.len() <= length,
            length == whole@.len(),
            there == whole@.subrange(at as int, at + part@.len()),
            forall|j: int| 0 <= j < i ==> there[j] == part@[j],
        decreases part@.len() - i,
    {
        if whole[at + i] != part[i] {
            proof {
                assert(there[i as int] != part@[i as int]);
            }
            return false;
        }
        i = i + 1;
    }
    proof {
        assert(there =~= part@);
    }
    true
}

/// Whether `part` stands in `whole` without a gap.
pub fn contains(whole: &str, part: &str) -> (found: bool)
    ensures
        found == holds(whole@, part@),
{
    let text = chars_of(whole);
    let sought = chars_of(part);
    if sought.len() > text.len() {
        return false;
    }
    let last: usize = text.len() - sought.len();
    let mut at: usize = 0;
    while at < last
        invariant
            text@ == whole@,
            sought@ == part@,
            at <= last,
            last == whole@.len() - part@.len(),
            forall|i: int|
                0 <= i < at ==> #[trigger] whole@.subrange(i, i + part@.len()) != part@,
        decreases last - at,
    {
        if stands_at(&text, &sought, at) {
            return true;
        }
        at = at + 1;
    }
    stands_at(&text, &sought, last)
}

/// Whether two rows of bytes are the same.
pub fn same_bytes(a: &Vec<u8>, b: &Vec<u8>) -> (equal: bool)
    ensures
        equal == (a@ == b@),
{
    if a.len() != b.len() {
        return false;
    }
    let mut i: usize = 0;
    while i < a.len()
        invariant
            i <= a@.len(),
            a@.len() == b@.len(),
            forall|j: int| 0 <= j < i ==> a@[j] == b@[j],
        decreases a@.len() - i,
    {
        if a[i] != b[i] {
            return false;
        }
        i = i + 1;
    }
    proof {
        assert(a@ =~= b@);
    }
    true
}

/// The characters of a text, one by one.
pub fn chars_of(text: &str) -> (chars: Vec<char>)
    ensures
        chars@ == text@,
{
    let mut chars: Vec<char> = Vec::new();
    for c in it: text.chars()
        invariant
            it.seq() == text@,
            chars@ == text@.take(it.index() as int),
    {
        proof {
            assert(text@.take(it.index() as int).push(c) =~= text@.take(it.index() + 1));
        }
        chars.push(c);
    }
    assert(text@.take(text@.len() as int) =~= text@);
    chars
}

/// The text made of `chars[from..to]`.
pub fn text_of(chars: &Vec<char>, from: usize, to: usize) -> (text: String)
    requires
        from <= to <= chars@.len(),
    ensures
        text@ == chars@.subrange(from as int, to as int),
{
    let mut text: String = String::new();
    let mut i: usize = from;
    while i < to
        invariant
            from <= i <= to <= chars@.len(),
            text@ == chars@.subrange(from as int, i as int),
        decreases to - i,
    {
        text.push(chars[i]);
        proof {
            assert(chars@.subrange(from as int, i as int).push(chars@[i as int])
                =~= chars@.subrange(from as int, i + 1));
        }
        i = i + 1;
    }
    text
}

/// `text` without its leading characters `c`.
pub open spec fn trimmed_start(text: Seq<char>, c: char) -> Seq<char>
    decreases text.len(),
{
    if text.len() > 0 && text[0] == c {
        trimmed_start(text.drop_first(), c)
    } else {
        text
    }
}

/// `text` without its trailing characters `c`.
pub open spec fn trimmed_end(text: Seq<char>, c: char) -> Seq<char>
    decreases text.len(),
{
    if text.len() > 0 && text.last() == c {
        trimmed_end(text.drop_last(), c)
    } else {
        text
    }
}

/// `text` without the characters `c` at either end.
pub fn trim(text: &str, c: char) -> (trimmed: String)
    ensures
        trimmed@ == trimmed_end(trimmed_start(text@, c), c),
{
    let chars = chars_of(text);
    let mut from: usize = 0;
    proof {
        assert(chars@.subrange(0, chars@.len() as int) =~= text@);
    }
    while from < chars.len() && chars[from] == c
        invariant
            from <= chars@.len(),
            chars@ == text@,
            trimmed_start(text@, c) == trimmed_start(
                chars@.subrange(from as int, chars@.len() as int),
                c,
            ),
        decreases chars@.len() - from,
    {
        proof {
            assert(chars@.subrange(from as int, chars@.len() as int).drop_first()
                =~= chars@.subrange(from + 1, chars@.len() as int));
        }
        from = from + 1;
    }
    let ghost start = chars@.subrange(from as int, chars@.len() as int);
    let mut to: usize = chars.len();
    while to > from && chars[to - 1] == c
        invariant
            from <= to <= chars@.len(),
            start == chars@.subrange(from as int, chars@.len() as int),
            trimmed_end(start, c) == trimmed_end(chars@.subrange(from as int, to as int), c),
        decreases to,
    {
        proof {
            assert(chars@.subrange(from as int, to as int).drop_last() =~= chars@.subrange(
                from as int,
                to - 1,
            ));
        }
        to = to - 1;
    }
    text_of(&chars, from, to)
}

/// `text` with every `c` taken out.
pub open spec fn without(text: Seq<char>, c: char) -> Seq<char>
    decreases text.len(),
{
    if text.len() == 0 {
        text
    } else if text.last() == c {
        without(text.drop_last(), c)
    } else {
        without(text.drop_last(), c).push(text.last())
    }
}

/// `text` with every `c` taken out.
pub fn remove_char(text: &str, c: char) -> (rest: String)
    ensures
        rest@ == without(text@, c),
{
    let chars = chars_of(text);
    let mut rest: String = String::new();
    let mut i: usize = 0;
    while i < chars.len()
        invariant
            i <= chars@.len(),
            chars@ == text@,
            rest@ == without(chars@.take(i as int), c),
        decreases chars@.len() - i,
    {
        proof {
            assert(chars@.take(i + 1).drop_last() =~= chars@.take(i as int));
        }
        if chars[i] != c {
            rest.push(chars[i]);
        }
        i = i + 1;
    }
    proof {
        assert(chars@.take(i as int) =~= text@);
    }
    rest
}

/// What follows `prefix` in `text`, where it starts with it.
pub open spec fn after_prefix(text: Seq<char>, prefix: Seq<char>) -> Option<Seq<char>> {
    if prefix.is_prefix_of(text) {
        Some(text.skip(prefix.len() as int))
    } else {
        None
    }
}

/// `text` with `0x` taken from its front as often as it stands there.
pub open spec fn without_hex_prefixes(text: Seq<char>) -> Seq<char>
    decreases text.len(),
{
    if text.len() >= 2 && text[0] == '0' && text[1] == 'x' {
        without_hex_prefixes(text.skip(2))
    } else {
        text
    }
}

/// `text` with `0x` taken from its front as often as it stands there.
pub fn strip_hex_prefixes(text: &str) -> (rest: String)
    ensures
        rest@ == without_hex_prefixes(text@),
{
    let chars = chars_of(text);
    let mut from: usize = 0;
    proof {
        assert(chars@.skip(0) =~= text@);
    }
    while chars.len() - from >= 2 && chars[from] == '0' && chars[from + 1] == 'x'
        invariant
            from <= chars@.len(),
            chars@ == text@,
            without_hex_prefixes(text@) == without_hex_prefixes(chars@.skip(from as int)),
        decreases chars@.len() - from,
    {
        proof {
            assert(chars@.skip(from as int).skip(2) =~= chars@.skip(from + 2));
        }
        from = from + 2;
    }
    proof {
        assert(chars@.skip(from as int) =~= chars@.subrange(from as int, chars@.len() as int));
    }
    text_of(&chars, from, chars.len())
}

/// What follows `0x`, where `text` starts with it.
pub fn strip_hex_prefix(text: &str) -> (rest: Option<String>)
    ensures
        match rest {
            Some(rest) => after_prefix(text@, "0x"@) == Some(rest@),
            None => after_prefix(text@, "0x"@) is None,
        },
{
    proof {
        reveal_strlit("0x");
    }
    let chars = chars_of(text);
    if chars.len() >= 2 && chars[0] == '0' && chars[1] == 'x' {
        proof {
            assert("0x"@ =~= text@.subrange(0, 2));
            assert(text@.skip(2) =~= chars@.subrange(2, chars@.len() as int));
        }
        Some(text_of(&chars, 2, chars.len()))
    } else {
        proof {
            if "0x"@.is_prefix_of(text@) {
                assert(text@.subrange(0, 2)[0] == '0');
                assert(text@.subrange(0, 2)[1] == 'x');
            }
        }
        None
    }
}

/// Texts and rows of bytes are the same exactly where they agree in length and at each place.
pub proof fn law_same_is_equality(
    a: &str,
    b: &str,
    equal: bool,
    x: &Vec<u8>,
    y: &Vec<u8>,
    equal_bytes: bool,
)
    requires
        call_ensures(same, (a, b), equal),
        call_ensures(same_bytes, (x, y), equal_bytes),
    ensures
        equal <==> a@.len() == b@.len() && forall|i: int|
            0 <= i < a@.len() ==> #[trigger] a@[i] == b@[i],
        equal_bytes <==> x@.len() == y@.len() && forall|i: int|
            0 <= i < x@.len() ==> #[trigger] x@[i] == y@[i],
{
    if a@.len() == b@.len() && forall|i: int| 0 <= i < a@.len() ==> #[trigger] a@[i] == b@[i] {
        assert(a@ =~= b@);
    }
    if x@.len() == y@.len() && forall|i: int| 0 <= i < x@.len() ==> #[trigger] x@[i] == y@[i] {
        assert(x@ =~= y@);
    }
}

/// A text contains another exactly where it is that text with something before and behind it.
pub proof fn law_contained_text_stands_between(whole: &str, part: &str, found: bool)
    requires
        call_ensures(contains, (whole, part), found),
    ensures
        found <==> exists|before: Seq<char>, after: Seq<char>|
            whole@ == #[trigger] (before + part@ + after),
{
    if found {
        let at = choose|at: int|
            0 <= at <= whole@.len() - part@.len() && #[trigger] whole@.subrange(
                at,
                at + part@.len(),
            ) == part@;
        let before = whole@.take(at);
        let after = whole@.skip(at + part@.len());
        assert(whole@ =~= before + whole@.subrange(at, at + part@.len()) + after);
    }
    if exists|before: Seq<char>, after: Seq<char>|
        whole@ == #[trigger] (before + part@ + after) {
        let (before, after) = choose|before: Seq<char>, after: Seq<char>|
            whole@ == #[trigger] (before + part@ + after);
        let at = before.len() as int;
        assert(whole@.subrange(at, at + part@.len()) =~= part@);
    }
}

proof fn lemma_trimmed_start(text: Seq<char>, c: char) -> (count: int)
    ensures
        0 <= count <= text.len(),
        trimmed_start(text, c) == text.skip(count),
        forall|i: int| 0 <= i < count ==> text[i] == c,
        count < text.len() ==> text[count] != c,
    decreases text.len(),
{
    if text.len() > 0 && text[0] == c {
        let rest = text.drop_first();
        let count = lemma_trimmed_start(rest, c);
        assert(rest.skip(count) =~= text.skip(count + 1));
        assert forall|i: int| 0 <= i < count + 1 implies text[i] == c by {
            if i > 0 {
                assert(rest[i - 1] == text[i]);
            }
        }
        assert(count < rest.len() ==> rest[count] == text[count + 1]);
        count + 1
    } else {
        assert(text.skip(0) =~= text);
        0
    }
}

proof fn lemma_trimmed_end(text: Seq<char>, c: char) -> (count: int)
    ensures
        0 <= count <= text.len(),
        trimmed_end(text, c) == text.take(count),
        forall|i: int| count <= i < text.len() ==> text[i] == c,
        count > 0 ==> text[count - 1] != c,
    decreases text.len(),
{
    if text.len() > 0 && text.last() == c {
        let rest = text.drop_last();
        let count = lemma_trimmed_end(rest, c);
        assert(rest.take(count) =~= text.take(count));
        assert forall|i: int| count <= i < text.len() implies text[i] == c by {
            if i < rest.len() {
                assert(rest[i] == text[i]);
            }
        }
        assert(count > 0 ==> rest[count - 1] == text[count - 1]);
        count
    } else {
        assert(text.take(text.len() as int) =~= text);
        text.len() as int
    }
}

/// Trimming takes nothing but the character from either end, and leaves none of it there.
pub proof fn law_trimmed_text_has_clean_ends(text: &str, c: char, trimmed: String)
    requires
        call_ensures(trim, (text, c), trimmed),
    ensures
        trimmed@.len() > 0 ==> trimmed@[0] != c && trimmed@.last() != c,
        exists|from: int, to: int|
            0 <= from <= to <= text@.len() && trimmed@ == #[trigger] text@.subrange(from, to) && (
            forall|i: int| 0 <= i < text@.len() && !(from <= i < to) ==> #[trigger] text@[i] == c),
{
    let from = lemma_trimmed_start(text@, c);
    let front = text@.skip(from);
    let count = lemma_trimmed_end(front, c);
    let to = from + count;
    assert(trimmed@ == front.take(count));
    assert(front.take(count) =~= text@.subrange(from, to));
    assert forall|i: int| 0 <= i < text@.len() && !(from <= i < to) implies #[trigger] text@[i]
        == c by {
        if i >= to {
            assert(front[i - from] == text@[i]);
        }
    }
    if count > 0 {
        assert(trimmed@[0] == text@[from]);
        assert(trimmed@.last() == front[count - 1]);
    }
}

proof fn lemma_without(text: Seq<char>, c: char)
    ensures
        forall|i: int|
            0 <= i < without(text, c).len() ==> #[trigger] without(text, c)[i] != c,
        (forall|i: int| 0 <= i < text.len() ==> text[i] != c) ==> without(text, c) == text,
    decreases text.len(),
{
    if text.len() > 0 {
        let rest = text.drop_last();
        lemma_without(rest, c);
        let left = without(text, c);
        assert forall|i: int| 0 <= i < left.len() implies #[trigger] left[i] != c by {
            if i < without(rest, c).len() {
                assert(left[i] == without(rest, c)[i]);
            }
        }
        if forall|i: int| 0 <= i < text.len() ==> text[i] != c {
            assert forall|i: int| 0 <= i < rest.len() implies rest[i] != c by {
                assert(rest[i] == text[i]);
            }
            assert(rest.push(text.last()) =~= text);
        }
    }
}

proof fn lemma_without_add(a: Seq<char>, b: Seq<char>, c: char)
    ensures
        without(a + b, c) == without(a, c) + without(b, c),
    decreases b.len(),
{
    if b.len() == 0 {
        assert(a + b =~= a);
        assert(without(a, c) + without(b, c) =~= without(a, c));
    } else {
        lemma_without_add(a, b.drop_last(), c);
        assert((a + b).drop_last() =~= a + b.drop_last());
        assert((a + b).last() == b.last());
        assert(without(a + b, c) =~= without(a, c) + without(b, c));
    }
}

/// Taking a character out leaves a text without it, takes out nothing else, and keeps the order:
/// of two texts joined it leaves what it leaves of each.
pub proof fn law_only_the_character_is_taken_out(
    a: &str,
    b: &str,
    joined: &str,
    c: char,
    x: String,
    y: String,
    z: String,
)
    requires
        joined@ == a@ + b@,
        call_ensures(remove_char, (a, c), x),
        call_ensures(remove_char, (b, c), y),
        call_ensures(remove_char, (joined, c), z),
    ensures
        z@ == x@ + y@,
        forall|i: int| 0 <= i < x@.len() ==> #[trigger] x@[i] != c,
        (forall|i: int| 0 <= i < a@.len() ==> a@[i] != c) ==> x@ == a@,
        (forall|i: int| 0 <= i < a@.len() ==> a@[i] == c) ==> x@.len() == 0,
    decreases a@.len(),
{
    lemma_without_add(a@, b@, c);
    lemma_without(a@, c);
    if forall|i: int| 0 <= i < a@.len() ==> a@[i] == c {
        lemma_without_all(a@, c);
    }
}

proof fn lemma_without_all(text: Seq<char>, c: char)
    requires
        forall|i: int| 0 <= i < text.len() ==> text[i] == c,
    ensures
        without(text, c).len() == 0,
    decreases text.len(),
{
    if text.len() > 0 {
        assert forall|i: int| 0 <= i < text.drop_last().len() implies text.drop_last()[i]
            == c by {
            assert(text.drop_last()[i] == text[i]);
        }
        lemma_without_all(text.drop_last(), c);
    }
}

proof fn lemma_hex_prefixes(text: Seq<char>) -> (taken: int)
    ensures
        0 <= taken <= text.len(),
        taken % 2 == 0,
        without_hex_prefixes(text) == text.skip(taken),
        forall|i: int|
            0 <= i < taken ==> #[trigger] text[i] == if i % 2 == 0 {
                '0'
            } else {
                'x'
            },
    decreases text.len(),
{
    if text.len() >= 2 && text[0] == '0' && text[1] == 'x' {
        let rest = text.skip(2);
        let taken = lemma_hex_prefixes(rest);
        assert(rest.skip(taken) =~= text.skip(taken + 2));
        assert forall|i: int| 0 <= i < taken + 2 implies #[trigger] text[i] == if i % 2 == 0 {
            '0'
        } else {
            'x'
        } by {
            if i >= 2 {
                assert(rest[i - 2] == text[i]);
            }
        }
        taken + 2
    } else {
        assert(text.skip(0) =~= text);
        0
    }
}

proof fn lemma_no_hex_prefix(text: Seq<char>)
    ensures
        ({
            let rest = without_hex_prefixes(text);
            !(rest.len() >= 2 && rest[0] == '0' && rest[1] == 'x')
        }),
    decreases text.len(),
{
    if text.len() >= 2 && text[0] == '0' && text[1] == 'x' {
        lemma_no_hex_prefix(text.skip(2));
    }
}

/// What is left has no `0x` in front, and what was taken away is `0x` so many times.
pub proof fn law_all_hex_prefixes_are_taken(text: &str, rest: String)
    requires
        call_ensures(strip_hex_prefixes, (text,), rest),
    ensures
        !(rest@.len() >= 2 && rest@[0] == '0' && rest@[1] == 'x'),
        exists|taken: int|
            0 <= taken <= text@.len() && taken % 2 == 0 && rest@ == #[trigger] text@.skip(taken) && (
            forall|i: int|
                0 <= i < taken ==> #[trigger] text@[i] == if i % 2 == 0 {
                    '0'
                } else {
                    'x'
                }),
{
    lemma_no_hex_prefix(text@);
    let taken = lemma_hex_prefixes(text@);
    assert(rest@ == text@.skip(taken));
}

/// One `0x` is taken from the front of exactly those texts that start with it.
pub proof fn law_one_hex_prefix_is_taken(text: &str, rest: Option<String>)
    requires
        call_ensures(strip_hex_prefix, (text,), rest),
    ensures
        rest is Some <==> text@.len() >= 2 && text@[0] == '0' && text@[1] == 'x',
        rest is Some ==> text@ == seq!['0', 'x'] + rest->0@,
{
    reveal_strlit("0x");
    assert("0x"@ =~= seq!['0', 'x']);
    if text@.len() >= 2 && text@[0] == '0' && text@[1] == 'x' {
        assert("0x"@.is_prefix_of(text@));
    }
    if let Some(rest) = rest {
        assert(text@[0] == "0x"@[0] && text@[1] == "0x"@[1]);
        assert(text@ =~= seq!['0', 'x'] + rest@);
    }
}

/// A text is its characters, and a part of them makes up the part of the text.
pub proof fn law_characters_make_up_the_text(
    text: &str,
    chars: &Vec<char>,
    from: usize,
    to: usize,
    part: String,
)
    requires
        call_ensures(chars_of, (text,), *chars),
        from <= to <= chars@.len(),
        call_ensures(text_of, (chars, from, to), part),
    ensures
        chars@ == text@,
        part@.len() == to - from,
        forall|i: int| 0 <= i < to - from ==> #[trigger] part@[i] == text@[from + i],
{
}

} // verus!
