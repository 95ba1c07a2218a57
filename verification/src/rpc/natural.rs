//! Natural numbers of any size.

use vstd::prelude::*;

verus! {

/// How many values a digit has.
const BASE: u128 = 0x1_0000_0000_0000_0000;

/// A natural number.
#[derive(Debug)]
pub struct Natural {
    /// The digits, the most significant one first.
    digits: Vec<u64>,
}

/// How one number stands to another.
#[derive(Clone, Copy)]
pub enum Standing {
    Below,
    Same,
    Above,
}

/// The number that some digits write out.
spec fn value(digits: Seq<u64>) -> nat
    decreases digits.len(),
{
    if digits.len() == 0 {
        0
    } else {
        value(digits.drop_last()) * BASE as nat + digits.last() as nat
    }
}

/// How `a` stands to `b`.
pub open spec fn standing(a: nat, b: nat) -> Standing {
    if a < b {
        Standing::Below
    } else if a == b {
        Standing::Same
    } else {
        Standing::Above
    }
}

/// The last digit of a number beside the rest of it.
proof fn lemma_last_digit(digits: Seq<u64>, count: int)
    requires
        0 < count <= digits.len(),
    ensures
        value(digits.take(count)) == value(digits.take(count - 1)) * BASE as nat + digits[count
            - 1] as nat,
{
    assert(digits.take(count).drop_last() =~= digits.take(count - 1));
}

proof fn lemma_pushed(digits: Seq<u64>, digit: u64)
    ensures
        value(digits.push(digit)) == value(digits) * BASE as nat + digit as nat,
{
    assert(digits.push(digit).drop_last() =~= digits);
}

/// The number that `digits` starts with, over `count` digits, times `factor` and `carry` more.
fn scaled(digits: &Vec<u64>, count: usize, factor: u64, carry: u64) -> (product: Vec<u64>)
    requires
        count <= digits@.len(),
    ensures
        value(product@) == value(digits@.take(count as int)) * factor as nat + carry as nat,
    decreases count,
{
    if count == 0 {
        let mut product: Vec<u64> = Vec::new();
        if carry > 0 {
            product.push(carry);
            proof {
                lemma_pushed(Seq::empty(), carry);
                assert(product@ =~= Seq::<u64>::empty().push(carry));
            }
        }
        proof {
            assert(digits@.take(0) =~= Seq::<u64>::empty());
            assert(value(digits@.take(0)) * factor as nat == 0) by (nonlinear_arith)
                requires
                    value(digits@.take(0)) == 0,
            ;
        }
        return product;
    }
    let digit: u64 = digits[count - 1];
    proof {
        assert(digit * factor + carry <= u128::MAX) by (nonlinear_arith)
            requires
                digit <= u64::MAX,
                factor <= u64::MAX,
                carry <= u64::MAX,
        ;
    }
    let low: u128 = digit as u128 * factor as u128 + carry as u128;
    proof {
        assert(low / BASE <= u64::MAX) by (nonlinear_arith)
            requires
                low <= u128::MAX,
                BASE == 0x1_0000_0000_0000_0000,
        ;
    }
    let mut product = scaled(digits, count - 1, factor, (low / BASE) as u64);
    let ghost high = product@;
    product.push((low % BASE) as u64);
    proof {
        lemma_last_digit(digits@, count as int);
        lemma_pushed(high, (low % BASE) as u64);
        let rest = value(digits@.take(count - 1));
        vstd::arithmetic::div_mod::lemma_fundamental_div_mod(low as int, BASE as int);
        assert((rest * factor + low / BASE) * BASE + low % BASE == (rest * BASE + digit) * factor
            + carry) by (nonlinear_arith)
            requires
                low == BASE * (low / BASE) + low % BASE,
                low == digit * factor + carry,
        ;
    }
    product
}

/// The sum of two numbers, over so many of their digits, and `carry` more.
fn sum(a: &Vec<u64>, m: usize, b: &Vec<u64>, n: usize, carry: u64) -> (total: Vec<u64>)
    requires
        m <= a@.len(),
        n <= b@.len(),
    ensures
        value(total@) == value(a@.take(m as int)) + value(b@.take(n as int)) + carry as nat,
    decreases m + n,
{
    if m == 0 && n == 0 {
        proof {
            assert(a@.take(0) =~= Seq::<u64>::empty());
            assert(b@.take(0) =~= Seq::<u64>::empty());
            lemma_pushed(Seq::empty(), carry);
        }
        let mut total: Vec<u64> = Vec::new();
        if carry > 0 {
            total.push(carry);
            proof {
                assert(total@ =~= Seq::<u64>::empty().push(carry));
            }
        }
        return total;
    }
    let x: u64 = if m > 0 { a[m - 1] } else { 0 };
    let y: u64 = if n > 0 { b[n - 1] } else { 0 };
    let low: u128 = x as u128 + y as u128 + carry as u128;
    proof {
        assert(low / BASE <= u64::MAX) by (nonlinear_arith)
            requires
                low <= u128::MAX,
                BASE == 0x1_0000_0000_0000_0000,
        ;
    }
    let mut total = sum(
        a,
        if m > 0 { m - 1 } else { 0 },
        b,
        if n > 0 { n - 1 } else { 0 },
        (low / BASE) as u64,
    );
    let ghost high = total@;
    total.push((low % BASE) as u64);
    proof {
        lemma_split(a@, m as int);
        lemma_split(b@, n as int);
        lemma_pushed(high, (low % BASE) as u64);
        vstd::arithmetic::div_mod::lemma_fundamental_div_mod(low as int, BASE as int);
    }
    total
}

/// The last digit of a number beside the rest of it, where the number may have no digits.
proof fn lemma_split(digits: Seq<u64>, count: int)
    requires
        0 <= count <= digits.len(),
    ensures
        value(digits.take(count)) == value(
            digits.take(if count > 0 { count - 1 } else { 0 }),
        ) * BASE as nat + (if count > 0 { digits[count - 1] as nat } else { 0 }),
{
    if count > 0 {
        lemma_last_digit(digits, count);
    } else {
        assert(digits.take(0) =~= Seq::<u64>::empty());
    }
}

/// How one number stands to another, over so many of their digits.
fn stands(a: &Vec<u64>, m: usize, b: &Vec<u64>, n: usize) -> (result: Standing)
    requires
        m <= a@.len(),
        n <= b@.len(),
    ensures
        result == standing(value(a@.take(m as int)), value(b@.take(n as int))),
    decreases m + n,
{
    proof {
        lemma_split(a@, m as int);
        lemma_split(b@, n as int);
    }
    if m == 0 && n == 0 {
        return Standing::Same;
    }
    let high = stands(a, if m > 0 { m - 1 } else { 0 }, b, if n > 0 { n - 1 } else { 0 });
    let x: u64 = if m > 0 { a[m - 1] } else { 0 };
    let y: u64 = if n > 0 { b[n - 1] } else { 0 };
    match high {
        Standing::Same => if x < y {
            Standing::Below
        } else if x == y {
            Standing::Same
        } else {
            Standing::Above
        },
        _ => high,
    }
}

impl Natural {
    pub closed spec fn view(&self) -> nat {
        value(self.digits@)
    }

    /// A number of one digit.
    pub fn of(digit: u64) -> (number: Natural)
        ensures
            number@ == digit,
    {
        let mut digits: Vec<u64> = Vec::new();
        digits.push(digit);
        proof {
            lemma_pushed(Seq::empty(), digit);
            assert(digits@ =~= Seq::<u64>::empty().push(digit));
        }
        Natural { digits }
    }

    /// The sum of two numbers.
    pub fn plus(&self, other: &Natural) -> (total: Natural)
        ensures
            total@ == self@ + other@,
    {
        proof {
            assert(self.digits@.take(self.digits@.len() as int) =~= self.digits@);
            assert(other.digits@.take(other.digits@.len() as int) =~= other.digits@);
        }
        Natural {
            digits: sum(&self.digits, self.digits.len(), &other.digits, other.digits.len(), 0),
        }
    }

    /// The product of two numbers.
    pub fn times(&self, other: &Natural) -> (product: Natural)
        ensures
            product@ == self@ * other@,
    {
        let mut product = Natural { digits: Vec::new() };
        let mut i: usize = 0;
        proof {
            assert(self.digits@.take(0) =~= Seq::<u64>::empty());
            assert(0 == 0 * other@) by (nonlinear_arith);
            assert(other.digits@.take(other.digits@.len() as int) =~= other.digits@);
        }
        while i < self.digits.len()
            invariant
                i <= self.digits@.len(),
                product@ == value(self.digits@.take(i as int)) * other@,
                other.digits@.take(other.digits@.len() as int) == other.digits@,
            decreases self.digits@.len() - i,
        {
            let ghost before = product@;
            let ghost rest = value(self.digits@.take(i as int));
            let digit: u64 = self.digits[i];
            proof {
                lemma_pushed(product.digits@, 0);
                lemma_last_digit(self.digits@, i + 1);
            }
            product.digits.push(0);
            let row = Natural { digits: scaled(&other.digits, other.digits.len(), digit, 0) };
            product = product.plus(&row);
            i = i + 1;
            proof {
                assert(before * BASE + other@ * digit == (rest * BASE + digit) * other@)
                    by (nonlinear_arith)
                    requires
                        before == rest * other@,
                ;
            }
        }
        proof {
            assert(self.digits@.take(i as int) =~= self.digits@);
        }
        product
    }

    /// How a number stands to another.
    pub fn stands_to(&self, other: &Natural) -> (result: Standing)
        ensures
            result == standing(self@, other@),
    {
        proof {
            assert(self.digits@.take(self.digits@.len() as int) =~= self.digits@);
            assert(other.digits@.take(other.digits@.len() as int) =~= other.digits@);
        }
        stands(&self.digits, self.digits.len(), &other.digits, other.digits.len())
    }
}

impl Clone for Natural {
    fn clone(&self) -> (copy: Self)
        ensures
            copy@ == self@,
    {
        self.plus(&Natural { digits: Vec::new() })
    }
}

/// Natural numbers add, multiply and compare as numbers do.
pub proof fn law_naturals_are_numbers(
    x: u64,
    a: &Natural,
    b: &Natural,
    small: Natural,
    total: Natural,
    product: Natural,
    result: Standing,
)
    requires
        call_ensures(Natural::of, (x,), small),
        call_ensures(Natural::plus, (a, b), total),
        call_ensures(Natural::times, (a, b), product),
        call_ensures(Natural::stands_to, (a, b), result),
    ensures
        small@ == x,
        total@ == a@ + b@,
        product@ == a@ * b@,
        result is Below <==> a@ < b@,
        result is Same <==> a@ == b@,
        result is Above <==> a@ > b@,
{
}

} // verus!
