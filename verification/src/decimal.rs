//! Decimal numerals.

use vstd::prelude::*;

verus! {

/// The numeral of one digit.
pub open spec fn digit_char(d: int) -> char {
    if d == 0 {
        '0'
    } else if d == 1 {
        '1'
    } else if d == 2 {
        '2'
    } else if d == 3 {
        '3'
    } else if d == 4 {
        '4'
    } else if d == 5 {
        '5'
    } else if d == 6 {
        '6'
    } else if d == 7 {
        '7'
    } else if d == 8 {
        '8'
    } else {
        '9'
    }
}

/// Whether `c` is one of the ten digits.
pub open spec fn is_digit(c: char) -> bool {
    exists|d: int| 0 <= d < 10 && c == digit_char(d)
}

/// The decimal numeral of `n`, without leading zeros.
pub open spec fn decimal(n: nat) -> Seq<char>
    decreases n,
{
    if n < 10 {
        seq![digit_char(n as int)]
    } else {
        decimal(n / 10).push(digit_char((n % 10) as int))
    }
}

/// `count` zeros.
pub open spec fn zeros(count: nat) -> Seq<char> {
    Seq::new(count, |i: int| '0')
}

/// The decimal numeral of `v`, with a minus sign in front if it is negative.
pub open spec fn signed_decimal(v: int) -> Seq<char> {
    if v < 0 {
        seq!['-'] + decimal((-v) as nat)
    } else {
        decimal(v as nat)
    }
}

/// The numeral of `v` filled up to `width` characters. A numeral that is
/// already that long is left alone; a shorter one gets zeros in front of its
/// digits, behind the minus sign if there is one.
pub open spec fn number_text(v: int, width: nat) -> Seq<char> {
    let plain = signed_decimal(v);
    if plain.len() >= width {
        plain
    } else if v < 0 {
        seq!['-'] + zeros((width - plain.len()) as nat) + decimal((-v) as nat)
    } else {
        zeros((width - plain.len()) as nat) + plain
    }
}

/// A numeral is made of digits and has at least one.
pub proof fn lemma_decimal_digits(n: nat)
    ensures
        decimal(n).len() >= 1,
        forall|i: int| 0 <= i < decimal(n).len() ==> is_digit(#[trigger] decimal(n)[i]),
    decreases n,
{
    if n < 10 {
        assert(is_digit(digit_char(n as int)));
    } else {
        lemma_decimal_digits(n / 10);
        assert(is_digit(digit_char((n % 10) as int)));
    }
}

/// Different digits have different numerals.
pub proof fn lemma_digit_injective(a: int, b: int)
    requires
        0 <= a < 10,
        0 <= b < 10,
        digit_char(a) == digit_char(b),
    ensures
        a == b,
{
}

/// Different numbers have different numerals.
pub proof fn lemma_decimal_injective(a: nat, b: nat)
    requires
        decimal(a) == decimal(b),
    ensures
        a == b,
    decreases a,
{
    lemma_decimal_digits(a / 10);
    lemma_decimal_digits(b / 10);
    if a < 10 {
        if b >= 10 {
            assert(decimal(b).len() >= 2);
            assert(decimal(a).len() == 1);
        } else {
            assert(decimal(a)[0] == digit_char(a as int));
            assert(decimal(b)[0] == digit_char(b as int));
            lemma_digit_injective(a as int, b as int);
        }
    } else if b < 10 {
        assert(decimal(a).len() >= 2);
        assert(decimal(b).len() == 1);
    } else {
        let pa = decimal(a / 10);
        let pb = decimal(b / 10);
        let da = digit_char((a % 10) as int);
        let db = digit_char((b % 10) as int);
        assert(decimal(a) == pa.push(da));
        assert(decimal(b) == pb.push(db));
        assert(pa.push(da).drop_last() == pa);
        assert(pb.push(db).drop_last() == pb);
        assert(pa.push(da).last() == da);
        assert(pb.push(db).last() == db);
        assert(pa == pb);
        assert(da == db);
        lemma_decimal_injective(a / 10, b / 10);
        lemma_digit_injective((a % 10) as int, (b % 10) as int);
    }
}

fn digit(d: u8) -> (c: char)
    requires
        d < 10,
    ensures
        c == digit_char(d as int),
{
    if d == 0 {
        '0'
    } else if d == 1 {
        '1'
    } else if d == 2 {
        '2'
    } else if d == 3 {
        '3'
    } else if d == 4 {
        '4'
    } else if d == 5 {
        '5'
    } else if d == 6 {
        '6'
    } else if d == 7 {
        '7'
    } else if d == 8 {
        '8'
    } else {
        '9'
    }
}

/// Appends the numeral of `n` to `out`.
pub fn push_decimal(out: &mut String, n: u128)
    ensures
        final(out)@ == old(out)@ + decimal(n as nat),
    decreases n,
{
    if n >= 10 {
        push_decimal(out, n / 10);
    }
    out.push(digit((n % 10) as u8));
    proof {
        if n >= 10 {
            assert(final(out)@ =~= old(out)@ + decimal(n as nat));
        } else {
            assert(final(out)@ =~= old(out)@ + decimal(n as nat));
        }
    }
}

/// How many characters short of `width` the numeral of `n` is when `taken`
/// characters stand in front of it; zero if it is not short.
pub fn shortfall(n: u128, taken: usize, width: usize) -> (short: usize)
    ensures
        short == if taken + decimal(n as nat).len() >= width {
            0
        } else {
            width - taken - decimal(n as nat).len()
        },
{
    let mut short: usize = if width > taken {
        width - taken
    } else {
        0
    };
    if short > 0 {
        short = short - 1;
    }
    let mut rest: u128 = n;
    let ghost mut seen: nat = 1;
    while rest >= 10
        invariant
            seen >= 1,
            decimal(n as nat).len() == decimal(rest as nat).len() + seen - 1,
            short == if taken + seen >= width {
                0
            } else {
                width - taken - seen
            },
        decreases rest,
    {
        rest = rest / 10;
        if short > 0 {
            short = short - 1;
        }
        proof {
            seen = seen + 1;
        }
    }
    short
}

} // verus!
