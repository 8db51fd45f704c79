//! Numbers in decimal.
use vstd::prelude::*;

verus! {

/// The digit for `d`, which is below ten.
pub open spec fn digit(d: nat) -> char {
    (48 + d) as char
}

/// Whether `c` is one of the ten digits of ASCII.
pub open spec fn is_digit(c: char) -> bool {
    '0' <= c <= '9'
}

/// What the digit `c` stands for.
pub open spec fn digit_value(c: char) -> nat {
    (c as u32 - 48) as nat
}

/// `n` in decimal, without needless zeros.
pub open spec fn decimal(n: nat) -> Seq<char>
    decreases n,
{
    if n < 10 {
        seq![digit(n)]
    } else {
        decimal(n / 10).push(digit(n % 10))
    }
}

/// `n` in decimal, with zeros before it up to the length `width`.
pub open spec fn padded(n: nat, width: nat) -> Seq<char> {
    let digits = decimal(n);
    if digits.len() < width {
        Seq::new((width - digits.len()) as nat, |i: int| '0') + digits
    } else {
        digits
    }
}

/// The number that the digits of `s` make up in decimal, whatever else stands
/// between them; zero where there is none.
pub open spec fn digits_value(s: Seq<char>) -> nat
    decreases s.len(),
{
    if s.len() == 0 {
        0
    } else if is_digit(s.last()) {
        10 * digits_value(s.drop_last()) + digit_value(s.last())
    } else {
        digits_value(s.drop_last())
    }
}

/// Adds `n` in decimal to `r`.
pub fn push_decimal(r: &mut String, n: u32)
    ensures
        final(r)@ == old(r)@ + decimal(n as nat),
    decreases n,
{
    if n >= 10 {
        push_decimal(r, n / 10);
    }
    let d: u8 = (n % 10) as u8;
    r.push((48 + d) as char);
    assert(r@ =~= old(r)@ + decimal(n as nat));
}

/// How many digits `n` has in decimal.
fn decimal_len(n: u32) -> (r: usize)
    ensures
        r == decimal(n as nat).len(),
        r <= 10,
{
    let mut len: usize = 1;
    let mut rest: u32 = n;
    while rest >= 10
        invariant
            decimal(n as nat).len() == decimal(rest as nat).len() + len - 1,
            1 <= len <= 10,
            len == 1 ==> rest <= 4294967295,
            len == 2 ==> rest <= 429496729,
            len == 3 ==> rest <= 42949672,
            len == 4 ==> rest <= 4294967,
            len == 5 ==> rest <= 429496,
            len == 6 ==> rest <= 42949,
            len == 7 ==> rest <= 4294,
            len == 8 ==> rest <= 429,
            len == 9 ==> rest <= 42,
            len == 10 ==> rest <= 4,
        decreases rest,
    {
        rest = rest / 10;
        len += 1;
    }
    len
}

/// Adds `n` in decimal to `r`, with zeros before it up to the length `width`.
pub fn push_padded(r: &mut String, n: u32, width: usize)
    ensures
        final(r)@ == old(r)@ + padded(n as nat, width as nat),
{
    let mut len: usize = decimal_len(n);
    let ghost digits = decimal(n as nat);
    let ghost start = r@;
    let ghost mut zeros: Seq<char> = seq![];
    while len < width
        invariant
            digits.len() <= len,
            len <= width || len == digits.len(),
            zeros == Seq::new((len - digits.len()) as nat, |i: int| '0'),
            r@ == start + zeros,
        decreases width - len,
    {
        r.push('0');
        len += 1;
        proof {
            zeros = zeros.push('0');
            assert(zeros =~= Seq::new((len - digits.len()) as nat, |i: int| '0'));
        }
        assert(r@ =~= start + zeros);
    }
    push_decimal(r, n);
    assert(r@ =~= start + padded(n as nat, width as nat));
}

/// Digits added to a text multiply its number.
proof fn lemma_value_push(s: Seq<char>, d: nat)
    requires
        d < 10,
    ensures
        digits_value(s.push(digit(d))) == 10 * digits_value(s) + d,
{
    assert(s.push(digit(d)).drop_last() =~= s);
}

/// What is written in decimal is read back, and zeros before it do not matter.
pub proof fn decimal_is_read_back(n: nat, width: nat)
    ensures
        digits_value(decimal(n)) == n,
        digits_value(padded(n, width)) == n,
{
    let empty: Seq<char> = seq![];
    lemma_zeros(empty, n);
    assert(empty + decimal(n) =~= decimal(n));
    if decimal(n).len() < width {
        let zeros = Seq::new((width - decimal(n).len()) as nat, |i: int| '0');
        lemma_all_zeros(zeros);
        lemma_zeros(zeros, n);
    }
}

proof fn lemma_all_zeros(zeros: Seq<char>)
    requires
        forall|i: int| 0 <= i < zeros.len() ==> #[trigger] zeros[i] == '0',
    ensures
        digits_value(zeros) == 0,
    decreases zeros.len(),
{
    if zeros.len() > 0 {
        lemma_all_zeros(zeros.drop_last());
    }
}

proof fn lemma_zeros(zeros: Seq<char>, n: nat)
    requires
        digits_value(zeros) == 0,
    ensures
        digits_value(zeros + decimal(n)) == n,
    decreases n,
{
    if n < 10 {
        lemma_value_push(zeros, n);
        assert(zeros + decimal(n) =~= zeros.push(digit(n)));
    } else {
        lemma_zeros(zeros, n / 10);
        lemma_value_push(zeros + decimal(n / 10), n % 10);
        assert(zeros + decimal(n) =~= (zeros + decimal(n / 10)).push(digit(n % 10)));
    }
}

/// Different numbers look different, with zeros before them or without.
pub proof fn decimals_differ(a: nat, b: nat, width: nat)
    requires
        a != b,
    ensures
        decimal(a) != decimal(b),
        padded(a, width) != padded(b, width),
{
    decimal_is_read_back(a, width);
    decimal_is_read_back(b, width);
}

/// A number is written digit by digit: below ten it is the digit that stands that
/// far behind `0`, and the last digit of a greater one follows on the number of its
/// tens.
pub proof fn decimal_goes_digit_by_digit(tens: nat, d: nat)
    requires
        d < 10,
    ensures
        decimal(d) == seq![('0' as int + d) as char],
        tens > 0 ==> decimal(10 * tens + d) == decimal(tens).push(('0' as int + d) as char),
{
}

/// A number has nothing but digits in it, and starts with a zero only where it is
/// zero.
pub proof fn decimal_has_digits_only(n: nat)
    ensures
        decimal(n).len() > 0,
        forall|i: int| 0 <= i < decimal(n).len() ==> '0' <= #[trigger] decimal(n)[i] <= '9',
        n > 0 ==> decimal(n)[0] != '0',
    decreases n,
{
    if n >= 10 {
        decimal_has_digits_only(n / 10);
        assert forall|i: int| 0 <= i < decimal(n).len() implies '0' <= #[trigger] decimal(n)[i]
            <= '9' by {
            if i < decimal(n / 10).len() {
                assert(decimal(n)[i] == decimal(n / 10)[i]);
            }
        }
        assert(decimal(n)[0] == decimal(n / 10)[0]);
    }
}

/// The number of a text grows with each digit at its end, by ten times what it was
/// and the digit, and with nothing else.
pub proof fn digits_are_read_one_by_one(s: Seq<char>, c: char)
    ensures
        digits_value(Seq::empty()) == 0,
        '0' <= c <= '9' ==> digits_value(s.push(c)) == 10 * digits_value(s) + (c as int
            - '0' as int),
        !('0' <= c <= '9') ==> digits_value(s.push(c)) == digits_value(s),
{
    assert(s.push(c).drop_last() =~= s);
}

/// Padding puts zeros before a number until it has the length that is asked for, and
/// never takes anything from it.
pub proof fn padding_puts_zeros_before(n: nat, width: nat)
    ensures
        ({
            let zeros = padded(n, width).len() - decimal(n).len();
            &&& zeros >= 0
            &&& padded(n, width).len() >= width
            &&& zeros > 0 ==> padded(n, width).len() == width
            &&& padded(n, width).skip(zeros) == decimal(n)
            &&& forall|i: int| 0 <= i < zeros ==> #[trigger] padded(n, width)[i] == '0'
        }),
{
    let zeros = padded(n, width).len() - decimal(n).len();
    assert(padded(n, width).skip(zeros) =~= decimal(n));
}

} // verus!
