//! Whole numbers as text.

use crate::text::chars_of;
use vstd::prelude::*;

verus! {

/// The digit for a value below sixteen, in lower case.
pub open spec fn digit(value: nat) -> char {
    if value < 10 {
        (('0' as nat) + value) as char
    } else {
        (('a' as nat) + value - 10) as char
    }
}

/// The digits of `n` to the base `base`, without leading zeros.
pub open spec fn digits(n: nat, base: nat) -> Seq<char>
    decreases n,
{
    if n < base || base < 2 {
        seq![digit(n)]
    } else {
        proof {
            assert(n / base < n) by (nonlinear_arith)
                requires
                    n >= base,
                    base >= 2,
            ;
        }
        digits(n / base, base).push(digit(n % base))
    }
}

/// The decimal digits of `n`.
pub open spec fn decimal_text(n: nat) -> Seq<char> {
    digits(n, 10)
}

/// `0x` and the hexadecimal digits of `n`.
pub open spec fn hex_text(n: nat) -> Seq<char> {
    "0x"@ + digits(n, 16)
}

/// The value of a hexadecimal digit of either case.
pub open spec fn hex_digit(c: char) -> Option<nat> {
    if '0' <= c <= '9' {
        Some((c as int - '0' as int) as nat)
    } else if 'a' <= c <= 'f' {
        Some((c as int - 'a' as int + 10) as nat)
    } else if 'A' <= c <= 'F' {
        Some((c as int - 'A' as int + 10) as nat)
    } else {
        None
    }
}

/// How many hexadecimal digits `text` starts with.
pub open spec fn hex_run(text: Seq<char>) -> nat
    decreases text.len(),
{
    if text.len() > 0 && hex_digit(text[0]) is Some {
        1 + hex_run(text.drop_first())
    } else {
        0
    }
}

/// The number that a row of hexadecimal digits stands for.
pub open spec fn hex_value(text: Seq<char>) -> nat
    decreases text.len(),
{
    if text.len() == 0 {
        0
    } else {
        hex_value(text.drop_last()) * 16 + match hex_digit(text.last()) {
            Some(value) => value,
            None => 0,
        }
    }
}

/// Why a text is no hexadecimal number that a `u64` holds.
pub enum HexError {
    Empty,
    InvalidDigit,
    Overflow,
}

impl HexError {
    pub open spec fn text(self) -> Seq<char> {
        match self {
            HexError::Empty => "cannot parse integer from empty string"@,
            HexError::InvalidDigit => "invalid digit found in string"@,
            HexError::Overflow => "number too large to fit in target type"@,
        }
    }

    /// What is wrong, in words.
    pub fn message(&self) -> (text: &'static str)
        ensures
            text@ == self.text(),
    {
        match self {
            HexError::Empty => "cannot parse integer from empty string",
            HexError::InvalidDigit => "invalid digit found in string",
            HexError::Overflow => "number too large to fit in target type",
        }
    }
}

/// The number that a row of hexadecimal digits stands for. What comes first in the row decides
/// between two errors.
pub open spec fn hex_row(row: Seq<char>) -> Result<u64, HexError> {
    let run = hex_run(row);
    if hex_value(row.take(run as int)) > u64::MAX {
        Err(HexError::Overflow)
    } else if run < row.len() {
        Err(HexError::InvalidDigit)
    } else {
        Ok(hex_value(row) as u64)
    }
}

/// The number that hexadecimal digits, perhaps behind a `+`, stand for.
pub open spec fn hex_number(text: Seq<char>) -> Result<u64, HexError> {
    if text.len() == 0 {
        Err(HexError::Empty)
    } else if text.len() > 1 && text[0] == '+' {
        hex_row(text.skip(1))
    } else {
        hex_row(text)
    }
}

proof fn lemma_hex_run(text: Seq<char>, n: int)
    requires
        0 <= n <= text.len(),
        forall|i: int| 0 <= i < n ==> hex_digit(#[trigger] text[i]) is Some,
    ensures
        n <= hex_run(text) <= text.len(),
        n == text.len() || hex_digit(text[n]) is None ==> hex_run(text) == n,
    decreases text.len(),
{
    if text.len() > 0 {
        if n > 0 {
            assert(hex_digit(text[0]) is Some);
            assert forall|i: int| 0 <= i < n - 1 implies hex_digit(
                #[trigger] text.drop_first()[i],
            ) is Some by {
                assert(text.drop_first()[i] == text[i + 1]);
            }
            lemma_hex_run(text.drop_first(), n - 1);
        } else {
            lemma_hex_run(text.drop_first(), 0);
        }
    }
}

proof fn lemma_hex_value_grows(text: Seq<char>, n: int, m: int)
    requires
        0 <= n <= m <= text.len(),
    ensures
        hex_value(text.take(n)) <= hex_value(text.take(m)),
    decreases m,
{
    if n < m {
        lemma_hex_value_grows(text, n, m - 1);
        assert(text.take(m).drop_last() =~= text.take(m - 1));
    }
}

fn hex_digit_value(c: char) -> (value: Option<u64>)
    ensures
        match value {
            Some(v) => hex_digit(c) == Some(v as nat) && v < 16,
            None => hex_digit(c) is None,
        },
{
    if '0' <= c && c <= '9' {
        Some(c as u64 - '0' as u64)
    } else if 'a' <= c && c <= 'f' {
        Some(c as u64 - 'a' as u64 + 10)
    } else if 'A' <= c && c <= 'F' {
        Some(c as u64 - 'A' as u64 + 10)
    } else {
        None
    }
}

fn parse_row(chars: &Vec<char>, from: usize) -> (number: Result<u64, HexError>)
    requires
        from <= chars@.len(),
    ensures
        number == hex_row(chars@.skip(from as int)),
{
    let ghost row = chars@.skip(from as int);
    let mut value: u64 = 0;
    let mut i: usize = from;
    while i < chars.len()
        invariant
            from <= i <= chars@.len(),
            row == chars@.skip(from as int),
            value == hex_value(row.take(i - from)),
            forall|j: int| 0 <= j < i - from ==> hex_digit(#[trigger] row[j]) is Some,
        decreases chars@.len() - i,
    {
        let ghost n = i - from;
        proof {
            assert(row.take(n + 1).drop_last() =~= row.take(n));
        }
        match hex_digit_value(chars[i]) {
            None => {
                proof {
                    lemma_hex_run(row, n);
                }
                return Err(HexError::InvalidDigit);
            },
            Some(digit) => {
                if value > 0x0fff_ffff_ffff_ffff {
                    proof {
                        lemma_hex_run(row, n + 1);
                        lemma_hex_value_grows(row, n + 1, hex_run(row) as int);
                    }
                    return Err(HexError::Overflow);
                }
                value = value * 16 + digit;
            },
        }
        i = i + 1;
    }
    proof {
        lemma_hex_run(row, row.len() as int);
        assert(row.take(row.len() as int) =~= row);
    }
    Ok(value)
}

/// Reads hexadecimal digits, perhaps behind a `+`.
pub fn parse_hex(text: &str) -> (number: Result<u64, HexError>)
    ensures
        number == hex_number(text@),
{
    let chars = chars_of(text);
    if chars.len() == 0 {
        return Err(HexError::Empty);
    }
    if chars.len() > 1 && chars[0] == '+' {
        parse_row(&chars, 1)
    } else {
        proof {
            assert(chars@.skip(0) =~= text@);
        }
        parse_row(&chars, 0)
    }
}

fn digit_char(value: u64) -> (c: char)
    requires
        value < 16,
    ensures
        c == digit(value as nat),
{
    match value {
        0 => '0',
        1 => '1',
        2 => '2',
        3 => '3',
        4 => '4',
        5 => '5',
        6 => '6',
        7 => '7',
        8 => '8',
        9 => '9',
        10 => 'a',
        11 => 'b',
        12 => 'c',
        13 => 'd',
        14 => 'e',
        _ => 'f',
    }
}

fn push_digits(text: &mut String, n: u64, base: u64)
    requires
        2 <= base <= 16,
    ensures
        final(text)@ == old(text)@ + digits(n as nat, base as nat),
    decreases n,
{
    let ghost before = text@;
    if n < base {
        text.push(digit_char(n));
        proof {
            assert(text@ =~= before + digits(n as nat, base as nat));
        }
    } else {
        proof {
            assert(n / base < n) by (nonlinear_arith)
                requires
                    n >= base,
                    base >= 2,
            ;
        }
        push_digits(text, n / base, base);
        text.push(digit_char(n % base));
        proof {
            assert(text@ =~= before + digits(n as nat, base as nat));
        }
    }
}

/// The decimal digits of `n`.
pub fn decimal(n: u64) -> (text: String)
    ensures
        text@ == decimal_text(n as nat),
{
    let mut text: String = String::new();
    push_digits(&mut text, n, 10);
    proof {
        assert(text@ =~= decimal_text(n as nat));
    }
    text
}

/// `0x` and the hexadecimal digits of `n`.
pub fn hex(n: u64) -> (text: String)
    ensures
        text@ == hex_text(n as nat),
{
    let mut text: String = "0x".to_owned();
    push_digits(&mut text, n, 16);
    text
}

proof fn lemma_digits_value(n: nat)
    ensures
        hex_value(digits(n, 16)) == n,
        digits(n, 16).len() > 0,
        forall|i: int|
            0 <= i < digits(n, 16).len() ==> hex_digit(#[trigger] digits(n, 16)[i]) is Some && digits(
                n,
                16,
            )[i] != '+',
    decreases n,
{
    if n < 16 {
        assert(seq![digit(n)].drop_last() =~= Seq::<char>::empty());
        assert(hex_digit(digit(n)) == Some(n));
        reveal_with_fuel(hex_value, 2);
    } else {
        lemma_digits_value(n / 16);
        let last = digit(n % 16);
        assert(hex_digit(last) == Some(n % 16));
        assert(digits(n / 16, 16).push(last).drop_last() =~= digits(n / 16, 16));
    }
}

/// Reading the hexadecimal digits of a number gives the number back.
pub proof fn law_hex_round_trip(n: u64)
    ensures
        hex_number(digits(n as nat, 16)) == Ok::<u64, HexError>(n),
{
    let text = digits(n as nat, 16);
    lemma_digits_value(n as nat);
    lemma_hex_run(text, text.len() as int);
    assert(text.take(text.len() as int) =~= text);
    assert(text[0] != '+');
}

/// The digits from nought to nine and the letters from `a` to `f`, in either case, have the
/// values from zero to fifteen in this order; no other character has one.
pub proof fn law_hex_digits_have_their_values(c: char)
    ensures
        '0' <= c <= '9' ==> hex_digit(c) == Some((c as u32 - 48) as nat),
        'a' <= c <= 'f' ==> hex_digit(c) == Some((c as u32 - 87) as nat),
        'A' <= c <= 'F' ==> hex_digit(c) == Some((c as u32 - 55) as nat),
        hex_digit(c) is Some <==> '0' <= c <= '9' || 'a' <= c <= 'f' || 'A' <= c <= 'F',
{
}

/// A single hexadecimal digit is read as its value, and each further digit multiplies what was read
/// by sixteen and adds its own value, until a `u64` does not hold the number any more.
pub proof fn law_hex_is_read_digit_by_digit(
    first: &str,
    shorter: &str,
    longer: &str,
    c: char,
    single: Result<u64, HexError>,
    before: Result<u64, HexError>,
    after: Result<u64, HexError>,
)
    requires
        first@ == seq![c],
        longer@ == shorter@.push(c),
        call_ensures(parse_hex, (first,), single),
        call_ensures(parse_hex, (shorter,), before),
        call_ensures(parse_hex, (longer,), after),
    ensures
        hex_digit(c) is Some ==> single == Ok::<u64, HexError>(hex_digit(c)->0 as u64),
        hex_digit(c) is None ==> single == Err::<u64, HexError>(HexError::InvalidDigit),
        before is Ok && hex_digit(c) is Some ==> after == if before->Ok_0 * 16 + hex_digit(c)->0
            > u64::MAX {
            Err::<u64, HexError>(HexError::Overflow)
        } else {
            Ok((before->Ok_0 * 16 + hex_digit(c)->0) as u64)
        },
        before is Ok && hex_digit(c) is None ==> after == Err::<u64, HexError>(
            HexError::InvalidDigit,
        ),
        before is Err && shorter@.len() > 0 && shorter@ != seq!['+'] ==> after == before,
        shorter@ == seq!['+'] ==> before is Err && after == single,
{
    lemma_hex_run(first@, if hex_digit(c) is Some { 1 } else { 0 });
    assert(first@.drop_last() =~= Seq::<char>::empty());
    assert(hex_value(Seq::<char>::empty()) == 0);
    assert(hex_digit(c) is Some ==> hex_value(first@) == hex_digit(c)->0);
    assert(first@.take(1) =~= first@);
    assert(first@.take(0) =~= Seq::<char>::empty());
    if shorter@.len() > 0 {
        let signed = shorter@.len() > 1 && shorter@[0] == '+';
        let row = if signed { shorter@.skip(1) } else { shorter@ };
        if shorter@ == seq!['+'] {
            let more = longer@.skip(1);
            assert(more =~= seq![c]);
            assert(first@ == more);
            assert(hex_digit('+') is None);
            lemma_hex_run(shorter@, 0);
            assert(shorter@.take(0) =~= Seq::<char>::empty());
            assert(before is Err);
        } else {
            let more = row.push(c);
            assert(longer@[0] == shorter@[0]);
            assert(signed ==> longer@.skip(1) =~= more);
            if shorter@.len() == 1 {
                assert(shorter@ =~= seq![shorter@[0]]);
                assert(shorter@[0] != '+');
            }
            lemma_longer_row(row, c);
        }
    } else {
        assert(longer@ =~= first@);
    }
}

proof fn lemma_hex_run_bound(text: Seq<char>)
    ensures
        hex_run(text) <= text.len(),
        forall|i: int| 0 <= i < hex_run(text) ==> hex_digit(#[trigger] text[i]) is Some,
        hex_run(text) < text.len() ==> hex_digit(text[hex_run(text) as int]) is None,
    decreases text.len(),
{
    if text.len() > 0 && hex_digit(text[0]) is Some {
        let rest = text.drop_first();
        lemma_hex_run_bound(rest);
        assert forall|i: int| 0 <= i < hex_run(text) implies hex_digit(
            #[trigger] text[i],
        ) is Some by {
            if i > 0 {
                assert(rest[i - 1] == text[i]);
            }
        }
        if hex_run(text) < text.len() {
            assert(rest[hex_run(rest) as int] == text[hex_run(text) as int]);
        }
    }
}

proof fn lemma_longer_row(row: Seq<char>, c: char)
    requires
        row.len() > 0,
    ensures
        ({
            let more = row.push(c);
            match hex_row(row) {
                Ok(number) => hex_row(more) == match hex_digit(c) {
                    Some(value) => if number * 16 + value > u64::MAX {
                        Err::<u64, HexError>(HexError::Overflow)
                    } else {
                        Ok((number * 16 + value) as u64)
                    },
                    None => Err(HexError::InvalidDigit),
                },
                Err(error) => hex_row(more) == Err::<u64, HexError>(error),
            }
        }),
{
    let more = row.push(c);
    let run = hex_run(row) as int;
    lemma_hex_run_bound(row);
    assert(more.take(row.len() as int) =~= row);
    assert(row.take(row.len() as int) =~= row);
    assert forall|i: int| 0 <= i < run implies hex_digit(#[trigger] more[i]) is Some by {
        assert(more[i] == row[i]);
    }
    if run < row.len() {
        assert(more[run] == row[run]);
        lemma_hex_run(more, run);
        assert(more.take(run) =~= row.take(run));
    } else if hex_digit(c) is Some {
        assert forall|i: int| 0 <= i < more.len() implies hex_digit(#[trigger] more[i]) is Some by {
            if i < row.len() {
                assert(more[i] == row[i]);
            }
        }
        lemma_hex_run(more, more.len() as int);
        assert(more.take(more.len() as int) =~= more);
        assert(more.drop_last() =~= row);
        assert(hex_value(more) == hex_value(row) * 16 + hex_digit(c)->0);
    } else {
        assert(more[run] == c);
        lemma_hex_run(more, run);
    }
}

/// Nothing at all is no number.
pub proof fn law_empty_text_is_no_number(text: &str, number: Result<u64, HexError>)
    requires
        call_ensures(parse_hex, (text,), number),
    ensures
        text@.len() == 0 <==> number == Err::<u64, HexError>(HexError::Empty),
{
}

/// A number is written behind `0x` without leading zeros and in lower case, and what is written
/// behind `0x` is read as that number.
pub proof fn law_hex_is_written_and_read(
    n: u64,
    text: String,
    rest: &str,
    read: Result<u64, HexError>,
)
    requires
        call_ensures(hex, (n,), text),
        rest@ == text@.skip(2),
        call_ensures(parse_hex, (rest,), read),
    ensures
        text@.len() > 2 && text@[0] == '0' && text@[1] == 'x',
        read == Ok::<u64, HexError>(n),
        text@[2] == '0' ==> n == 0 && text@.len() == 3,
        forall|i: int|
            2 <= i < text@.len() ==> '0' <= #[trigger] text@[i] <= '9' || 'a' <= text@[i] <= 'f',
{
    reveal_strlit("0x");
    let row = digits(n as nat, 16);
    lemma_digits_value(n as nat);
    lemma_digits_form(n as nat, 16);
    law_hex_round_trip(n);
    assert(text@.skip(2) =~= row);
    assert forall|i: int| 2 <= i < text@.len() implies '0' <= #[trigger] text@[i] <= '9' || 'a'
        <= text@[i] <= 'f' by {
        assert(text@[i] == row[i - 2]);
    }
}

proof fn lemma_digits_form(n: nat, base: nat)
    requires
        2 <= base <= 16,
    ensures
        digits(n, base).len() > 0,
        digits(n, base)[0] == '0' ==> n == 0 && digits(n, base).len() == 1,
        forall|i: int|
            0 <= i < digits(n, base).len() ==> '0' <= #[trigger] digits(n, base)[i] <= '9' || (base
                > 10 && 'a' <= digits(n, base)[i] <= 'f'),
    decreases n,
{
    if n >= base {
        assert(n / base < n && n / base > 0 && n % base < base) by (nonlinear_arith)
            requires
                n >= base,
                base >= 2,
        ;
        lemma_digits_form(n / base, base);
        let high = digits(n / base, base);
        assert(digits(n, base) == high.push(digit(n % base)));
        assert(digits(n, base)[0] == high[0]);
        assert forall|i: int| 0 <= i < digits(n, base).len() implies '0' <= #[trigger] digits(
            n,
            base,
        )[i] <= '9' || (base > 10 && 'a' <= digits(n, base)[i] <= 'f') by {
            if i < high.len() {
                assert(digits(n, base)[i] == high[i]);
            }
        }
    }
}

/// The number that a row of decimal digits stands for.
pub open spec fn decimal_value(text: Seq<char>) -> nat
    decreases text.len(),
{
    if text.len() == 0 {
        0
    } else {
        (decimal_value(text.drop_last()) * 10 + (text.last() as u32 - 48)) as nat
    }
}

proof fn lemma_decimal_value(n: nat)
    ensures
        decimal_value(digits(n, 10)) == n,
    decreases n,
{
    lemma_digits_form(n, 10);
    if n >= 10 {
        lemma_decimal_value(n / 10);
        assert(digits(n, 10).drop_last() =~= digits(n / 10, 10));
    } else {
        assert(digits(n, 10).drop_last() =~= Seq::<char>::empty());
        assert(decimal_value(Seq::<char>::empty()) == 0);
    }
}

/// A number is written in decimal digits without leading zeros, which stand for it.
pub proof fn law_decimal_stands_for_the_number(n: u64, text: String)
    requires
        call_ensures(decimal, (n,), text),
    ensures
        decimal_value(text@) == n,
        text@.len() > 0,
        text@[0] == '0' ==> text@.len() == 1,
        forall|i: int| 0 <= i < text@.len() ==> '0' <= #[trigger] text@[i] <= '9',
{
    lemma_decimal_value(n as nat);
    lemma_digits_form(n as nat, 10);
}

/// Each error says what is wrong with the text.
pub proof fn law_hex_errors_say_what_is_wrong(error: &HexError, text: &'static str)
    requires
        call_ensures(HexError::message, (error,), text),
    ensures
        *error is Empty ==> text@ == "cannot parse integer from empty string"@,
        *error is InvalidDigit ==> text@ == "invalid digit found in string"@,
        *error is Overflow ==> text@ == "number too large to fit in target type"@,
{
}

} // verus!
