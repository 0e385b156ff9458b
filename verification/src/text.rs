//! Decimal numbers and file names as text.
use vstd::arithmetic::div_mod::{lemma_basic_div, lemma_div_denominator};
use vstd::arithmetic::power::{lemma_pow_increases, lemma_pow_positive, pow};
use vstd::prelude::*;

verus! {

/// The decimal digit `d`.
pub open spec fn digit(d: nat) -> char {
    if d == 0 {
        '0'
    } else if d == 1 {
        '1'
    } else if d == 2 {
        '2'
    } else if d == 3 {
        '3'
    } else if d == 4 {
        '4'
    } else if d == 5 {
        '5'
    } else if d == 6 {
        '6'
    } else if d == 7 {
        '7'
    } else if d == 8 {
        '8'
    } else {
        '9'
    }
}

/// The decimal digits of `n`, most significant first, without leading zeros.
pub open spec fn decimal(n: nat) -> Seq<char>
    decreases n,
{
    if n < 10 {
        seq![digit(n)]
    } else {
        decimal(n / 10).push(digit(n % 10))
    }
}

/// `count` zero digits.
pub open spec fn zeros(count: nat) -> Seq<char> {
    Seq::new(count, |i: int| '0')
}

/// The decimal digits of `n`, with leading zeros up to `width` characters.
pub open spec fn padded(n: nat, width: nat) -> Seq<char> {
    let digits = decimal(n);
    if digits.len() < width {
        zeros((width - digits.len()) as nat) + digits
    } else {
        digits
    }
}

fn digit_text(d: u64) -> (res: &'static str)
    requires
        d < 10,
    ensures
        res@ == seq![digit(d as nat)],
{
    proof {
        reveal_strlit("0");
        reveal_strlit("1");
        reveal_strlit("2");
        reveal_strlit("3");
        reveal_strlit("4");
        reveal_strlit("5");
        reveal_strlit("6");
        reveal_strlit("7");
        reveal_strlit("8");
        reveal_strlit("9");
    }
    match d {
        0 => "0",
        1 => "1",
        2 => "2",
        3 => "3",
        4 => "4",
        5 => "5",
        6 => "6",
        7 => "7",
        8 => "8",
        _ => "9",
    }
}

/// Appends the decimal digits of `n`.
pub fn push_decimal(text: &mut String, n: u64)
    ensures
        final(text)@ == old(text)@ + decimal(n as nat),
    decreases n,
{
    if n >= 10 {
        push_decimal(text, n / 10);
    }
    let ghost before = text@;
    text.append(digit_text(n % 10));
    assert(before + seq![digit((n % 10) as nat)] =~= before.push(digit((n % 10) as nat)));
    if n >= 10 {
        assert(text@ =~= old(text)@ + decimal(n as nat));
    }
}

/// Appends the decimal digits of `n`, with leading zeros up to `width` characters.
pub fn push_padded(text: &mut String, n: u64, width: usize)
    ensures
        final(text)@ == old(text)@ + padded(n as nat, width as nat),
{
    let mut count: usize = 1;
    let mut rest: u64 = n;
    proof {
        reveal_strlit("0");
    }
    while rest >= 10 && count < width
        invariant
            decimal(n as nat).len() == count - 1 + decimal(rest as nat).len(),
            1 <= count,
        decreases rest,
    {
        rest = rest / 10;
        count = count + 1;
    }
    let mut filled: usize = count;
    while filled < width
        invariant
            count <= filled,
            filled <= width || filled == count,
            text@ == old(text)@ + zeros((filled - count) as nat),
        decreases width - filled,
    {
        text.append("0");
        assert(text@ =~= old(text)@ + zeros((filled + 1 - count) as nat)) by {
            reveal_strlit("0");
        }
        filled = filled + 1;
    }
    push_decimal(text, n);
    assert(text@ =~= old(text)@ + padded(n as nat, width as nat));
}

/// The number that decimal digits stand for.
pub open spec fn number(digits: Seq<char>) -> nat
    decreases digits.len(),
{
    if digits.len() == 0 {
        0
    } else {
        10 * number(digits.drop_last()) + (digits.last() as nat - '0' as nat) as nat
    }
}

proof fn lemma_decimal_number(n: nat)
    ensures
        number(decimal(n)) == n,
    decreases n,
{
    reveal_with_fuel(number, 2);
    if n < 10 {
        assert(decimal(n).drop_last() =~= Seq::empty());
    } else {
        lemma_decimal_number(n / 10);
        assert(decimal(n).drop_last() =~= decimal(n / 10));
    }
}

proof fn lemma_leading_zeros(count: nat, digits: Seq<char>)
    ensures
        number(zeros(count) + digits) == number(digits),
    decreases count + digits.len(),
{
    if digits.len() > 0 {
        lemma_leading_zeros(count, digits.drop_last());
        assert((zeros(count) + digits).drop_last() =~= zeros(count) + digits.drop_last());
    } else if count > 0 {
        let fewer = (count - 1) as nat;
        lemma_leading_zeros(fewer, digits);
        assert((zeros(count) + digits).drop_last() =~= zeros(fewer) + digits);
        assert((zeros(count) + digits).last() == '0');
    } else {
        assert(zeros(count) + digits =~= digits);
    }
}

/// The digits of a number stand for it, with or without leading zeros. So no two numbers have the
/// same digits.
pub proof fn law_digits_stand_for_their_number(n: nat, width: nat)
    ensures
        number(decimal(n)) == n,
        number(padded(n, width)) == n,
{
    lemma_decimal_number(n);
    let digits = decimal(n);
    if digits.len() < width {
        lemma_leading_zeros((width - digits.len()) as nat, digits);
    }
}

/// What stands between two given texts is known from the whole.
pub(crate) proof fn lemma_middle(before: Seq<char>, a: Seq<char>, b: Seq<char>, after: Seq<char>)
    requires
        before + a + after == before + b + after,
    ensures
        a == b,
{
    let whole = before + a + after;
    assert(a =~= whole.subrange(before.len() as int, whole.len() - after.len()));
    assert(b =~= whole.subrange(before.len() as int, whole.len() - after.len()));
}

/// The digit at each place is the one that the number has there, and there is no digit more than
/// the number needs.
pub proof fn law_decimal_digits(n: nat, place: nat)
    ensures
        decimal(n).len() >= 1,
        n < pow(10, decimal(n).len()),
        decimal(n).len() > 1 ==> n >= pow(10, (decimal(n).len() - 1) as nat),
        place < decimal(n).len() ==> decimal(n)[decimal(n).len() - 1 - place] as nat == '0' as nat
            + (n as int / pow(10, place)) % 10,
    decreases n,
{
    reveal(pow);
    reveal_with_fuel(pow, 3);
    if place == 0 {
        assert(n as int / pow(10, place) == n);
        assert(decimal(n).last() as nat == '0' as nat + n % 10);
    }
    if n >= 10 {
        let shorter = (n / 10) as nat;
        let len = decimal(n).len();
        law_decimal_digits(shorter, if place == 0 { 0 } else { (place - 1) as nat });
        assert(pow(10, len) == 10 * pow(10, (len - 1) as nat));
        if len > 2 {
            assert(pow(10, (len - 1) as nat) == 10 * pow(10, (len - 2) as nat));
        }
        if 0 < place < len {
            let below = (place - 1) as nat;
            lemma_pow_positive(10, below);
            assert(pow(10, place) == 10 * pow(10, below));
            lemma_div_denominator(n as int, 10, pow(10, below));
            assert(decimal(shorter).len() == len - 1);
            assert(decimal(n)[len - 1 - place] == decimal(shorter)[len - 2 - below]);
        }
    }
}

/// With leading zeros, a number has the given width, or what it needs where that is more, and each
/// place still has the digit that the number has there.
pub proof fn law_padded_digits(n: nat, width: nat, place: nat)
    ensures
        padded(n, width).len() == if decimal(n).len() < width {
            width
        } else {
            decimal(n).len()
        },
        place < padded(n, width).len() ==> padded(n, width)[padded(n, width).len() - 1 - place]
            as nat == '0' as nat + (n as int / pow(10, place)) % 10,
{
    let len = decimal(n).len();
    law_decimal_digits(n, place);
    if len <= place < padded(n, width).len() {
        lemma_pow_increases(10, len, place);
        lemma_basic_div(n as int, pow(10, place));
    }
}

} // verus!
