//! Numbers as text.

use vstd::prelude::*;

verus! {

/// The character that stands for the digit `d`, in bases up to sixteen.
pub open spec fn digit_char(d: int) -> char {
    if d < 10 {
        (48 + d) as char
    } else {
        (87 + d) as char
    }
}

/// `n` in base ten, without leading zeros.
pub open spec fn decimal(n: nat) -> Seq<char>
    decreases n,
{
    if n < 10 {
        seq![digit_char(n as int)]
    } else {
        decimal(n / 10).push(digit_char((n % 10) as int))
    }
}

/// `n` in base sixteen, in lower case, without leading zeros or prefix.
pub open spec fn hexadecimal(n: nat) -> Seq<char>
    decreases n,
{
    if n < 16 {
        seq![digit_char(n as int)]
    } else {
        hexadecimal(n / 16).push(digit_char((n % 16) as int))
    }
}

/// `n` in base ten, with zeros in front where it is shorter than `width`.
pub open spec fn zero_padded(n: nat, width: nat) -> Seq<char> {
    if decimal(n).len() < width {
        Seq::new((width - decimal(n).len()) as nat, |i: int| '0') + decimal(n)
    } else {
        decimal(n)
    }
}

/// Appends the digit `d`.
fn push_digit(out: &mut String, d: u64)
    requires
        d < 16,
    ensures
        final(out)@ == old(out)@.push(digit_char(d as int)),
{
    let text: &str = if d == 0 {
        proof { reveal_strlit("0"); }
        "0"
    } else if d == 1 {
        proof { reveal_strlit("1"); }
        "1"
    } else if d == 2 {
        proof { reveal_strlit("2"); }
        "2"
    } else if d == 3 {
        proof { reveal_strlit("3"); }
        "3"
    } else if d == 4 {
        proof { reveal_strlit("4"); }
        "4"
    } else if d == 5 {
        proof { reveal_strlit("5"); }
        "5"
    } else if d == 6 {
        proof { reveal_strlit("6"); }
        "6"
    } else if d == 7 {
        proof { reveal_strlit("7"); }
        "7"
    } else if d == 8 {
        proof { reveal_strlit("8"); }
        "8"
    } else if d == 9 {
        proof { reveal_strlit("9"); }
        "9"
    } else if d == 10 {
        proof { reveal_strlit("a"); }
        "a"
    } else if d == 11 {
        proof { reveal_strlit("b"); }
        "b"
    } else if d == 12 {
        proof { reveal_strlit("c"); }
        "c"
    } else if d == 13 {
        proof { reveal_strlit("d"); }
        "d"
    } else if d == 14 {
        proof { reveal_strlit("e"); }
        "e"
    } else {
        proof { reveal_strlit("f"); }
        "f"
    };
    assert(text@ =~= seq![digit_char(d as int)]);
    out.append(text);
    assert(out@ =~= old(out)@.push(digit_char(d as int)));
}

/// Appends `n` in base ten.
pub fn push_decimal(out: &mut String, n: u64)
    ensures
        final(out)@ == old(out)@ + decimal(n as nat),
    decreases n,
{
    if n < 10 {
        push_digit(out, n);
        assert(out@ =~= old(out)@ + decimal(n as nat));
    } else {
        push_decimal(out, n / 10);
        push_digit(out, n % 10);
        assert(out@ =~= old(out)@ + decimal(n as nat));
    }
}

/// Appends `n` in base sixteen, without a prefix.
pub fn push_hexadecimal(out: &mut String, n: u64)
    ensures
        final(out)@ == old(out)@ + hexadecimal(n as nat),
    decreases n,
{
    if n < 16 {
        push_digit(out, n);
        assert(out@ =~= old(out)@ + hexadecimal(n as nat));
    } else {
        push_hexadecimal(out, n / 16);
        push_digit(out, n % 16);
        assert(out@ =~= old(out)@ + hexadecimal(n as nat));
    }
}

/// How many digits `n` has in base ten.
fn decimal_len(n: u64) -> (len: u64)
    ensures
        len == decimal(n as nat).len(),
        1 <= len <= n + 1,
    decreases n,
{
    if n < 10 {
        1
    } else {
        1 + decimal_len(n / 10)
    }
}

/// Appends `n` in base ten, filled up with zeros on the left to `width`.
pub fn push_zero_padded(out: &mut String, n: u64, width: u64)
    ensures
        final(out)@ == old(out)@ + zero_padded(n as nat, width as nat),
{
    let len = decimal_len(n);
    let ghost before = out@;
    let mut pad: u64 = 0;
    proof { reveal_strlit("0"); }
    assert(out@ =~= before + Seq::new(0, |i: int| '0'));
    while len < width && pad < width - len
        invariant
            len == decimal(n as nat).len(),
            len < width ==> pad <= width - len,
            len >= width ==> pad == 0,
            "0"@ =~= seq!['0'],
            out@ == before + Seq::new(pad as nat, |i: int| '0'),
        decreases width - pad,
    {
        out.append("0");
        pad = pad + 1;
        assert(out@ =~= before + Seq::new(pad as nat, |i: int| '0'));
    }
    push_decimal(out, n);
    assert(out@ =~= before + zero_padded(n as nat, width as nat));
}

/// `n` in base ten has just the digits that it needs, and the one that `k` others
/// stand behind is the `k`-th digit of `n`.
pub proof fn law_decimal_digits(n: nat, k: nat)
    ensures
        decimal(n).len() >= 1,
        n < vstd::arithmetic::power::pow(10, decimal(n).len()),
        decimal(n).len() > 1 ==> vstd::arithmetic::power::pow(10, (decimal(n).len() - 1) as nat) <= n,
        k < decimal(n).len() ==> ({
            let digit = n as int / vstd::arithmetic::power::pow(10, k) % 10;
            let c = decimal(n)[decimal(n).len() - 1 - k] as int;
            c == 48 + digit
        }),
    decreases n,
{
    vstd::arithmetic::power::lemma_pow0(10);
    vstd::arithmetic::power::lemma_pow1(10);
    if n >= 10 {
        let rest = n / 10;
        let len = decimal(rest).len();
        law_decimal_digits(rest, 0);
        reveal(vstd::arithmetic::power::pow);
        let top = vstd::arithmetic::power::pow(10, (len - 1) as nat);
        assert(vstd::arithmetic::power::pow(10, len) == 10 * top);
        assert(vstd::arithmetic::power::pow(10, len + 1) == 10 * vstd::arithmetic::power::pow(10, len));
        assert(n < 10 * vstd::arithmetic::power::pow(10, len));
        if 0 < k <= len {
            law_decimal_digits(rest, (k - 1) as nat);
            let low = vstd::arithmetic::power::pow(10, (k - 1) as nat);
            assert(vstd::arithmetic::power::pow(10, k) == 10 * low);
            vstd::arithmetic::power::lemma_pow_positive(10, (k - 1) as nat);
            vstd::arithmetic::div_mod::lemma_div_denominator(n as int, 10, low);
            assert(decimal(n)[len - k] == decimal(rest)[len - k]);
        }
    }
}

/// `n` in base sixteen has just the digits that it needs, and the one that `k` others
/// stand behind is the `k`-th digit of `n`.
pub proof fn law_hexadecimal_digits(n: nat, k: nat)
    ensures
        hexadecimal(n).len() >= 1,
        n < vstd::arithmetic::power::pow(16, hexadecimal(n).len()),
        hexadecimal(n).len() > 1 ==> vstd::arithmetic::power::pow(16, (hexadecimal(n).len() - 1) as nat) <= n,
        k < hexadecimal(n).len() ==> ({
            let digit = n as int / vstd::arithmetic::power::pow(16, k) % 16;
            let c = hexadecimal(n)[hexadecimal(n).len() - 1 - k] as int;
            &&& digit < 10 ==> c == 48 + digit
            &&& digit >= 10 ==> c == 87 + digit
        }),
    decreases n,
{
    vstd::arithmetic::power::lemma_pow0(16);
    vstd::arithmetic::power::lemma_pow1(16);
    if n >= 16 {
        let rest = n / 16;
        let len = hexadecimal(rest).len();
        law_hexadecimal_digits(rest, 0);
        reveal(vstd::arithmetic::power::pow);
        let top = vstd::arithmetic::power::pow(16, (len - 1) as nat);
        assert(vstd::arithmetic::power::pow(16, len) == 16 * top);
        assert(vstd::arithmetic::power::pow(16, len + 1) == 16 * vstd::arithmetic::power::pow(16, len));
        assert(n < 16 * vstd::arithmetic::power::pow(16, len));
        if 0 < k <= len {
            law_hexadecimal_digits(rest, (k - 1) as nat);
            let low = vstd::arithmetic::power::pow(16, (k - 1) as nat);
            assert(vstd::arithmetic::power::pow(16, k) == 16 * low);
            vstd::arithmetic::power::lemma_pow_positive(16, (k - 1) as nat);
            vstd::arithmetic::div_mod::lemma_div_denominator(n as int, 16, low);
            assert(hexadecimal(n)[len - k] == hexadecimal(rest)[len - k]);
        }
    }
}

/// Padding a number changes nothing about its digits: it is as long as `width` asks
/// for, or as its digits are where they are more, it ends in them, and all before
/// them is zeros.
pub proof fn law_padding_puts_zeros_in_front(n: nat, width: nat)
    ensures
        zero_padded(n, width).len() >= width,
        zero_padded(n, width).len() >= decimal(n).len(),
        zero_padded(n, width).len() == width || zero_padded(n, width) == decimal(n),
        zero_padded(n, width).skip(zero_padded(n, width).len() - decimal(n).len()) == decimal(n),
        forall|i: int|
            0 <= i < zero_padded(n, width).len() - decimal(n).len() ==> #[trigger] zero_padded(
                n,
                width,
            )[i] == '0',
{
    assert(zero_padded(n, width).skip(zero_padded(n, width).len() - decimal(n).len())
        =~= decimal(n));
}

} // verus!
