//! Spans and times of day as text.

use vstd::prelude::*;

use crate::text;

verus! {

/// `2^k`.
pub open spec fn two_to(k: nat) -> nat
    decreases k,
{
    if k == 0 {
        1
    } else {
        2 * two_to((k - 1) as nat)
    }
}

/// `num / den` rounded to the nearest integer, a half to the even one.
pub open spec fn round_half_even(num: nat, den: nat) -> nat {
    let q = num / den;
    let r = num % den;
    if 2 * r < den || (2 * r == den && q % 2 == 0) {
        q
    } else {
        q + 1
    }
}

/// How many low bits of `n` a 53-bit significand has no room for.
pub open spec fn excess_bits(n: nat) -> nat
    decreases n,
{
    if n < 0x20_0000_0000_0000 {
        0
    } else {
        1 + excess_bits(n / 2)
    }
}

/// The double-precision number nearest to `n`.
pub open spec fn nearest_double(n: nat) -> nat {
    let unit = two_to(excess_bits(n));
    round_half_even(n, unit) * unit
}

/// How many binary places, `limit` at most, a 53-bit significand has for
/// `num / den`.
pub open spec fn fraction_bits(num: nat, den: nat, limit: nat) -> nat
    decreases limit,
{
    if limit == 0 || num * two_to(limit) < 0x20_0000_0000_0000 * den {
        limit
    } else {
        fraction_bits(num, den, (limit - 1) as nat)
    }
}

/// Hundredths of a second in `ns` nanoseconds, a second or more. The span is
/// taken in double precision, divided by 10^9 in double precision, and the
/// quotient rounded to two places.
pub open spec fn second_hundredths(ns: nat) -> nat {
    let double = nearest_double(ns);
    let places = fraction_bits(double, 1_000_000_000, 52);
    let significand = round_half_even(double * two_to(places), 1_000_000_000);
    round_half_even(significand * 100, two_to(places))
}

/// A span as text: whole nanoseconds, microseconds or milliseconds, and from a
/// second on seconds to two places.
pub open spec fn duration_text(ns: u64) -> Seq<char> {
    if ns >= 1_000_000_000 {
        text::decimal(second_hundredths(ns as nat) / 100) + "."@ + text::zero_padded(
            second_hundredths(ns as nat) % 100,
            2,
        ) + "s"@
    } else if ns >= 1_000_000 {
        text::decimal((ns / 1_000_000) as nat) + "ms"@
    } else if ns >= 1_000 {
        text::decimal((ns / 1_000) as nat) + "\u{b5}s"@
    } else {
        text::decimal(ns as nat) + "ns"@
    }
}

/// `num / den` rounded to the nearest integer, a half to the even one.
fn rounded(num: u128, den: u128) -> (n: u128)
    requires
        0 < den <= 0x7fff_ffff_ffff_ffff_ffff_ffff_ffff_ffff,
        den >= 2 || num < u128::MAX,
    ensures
        n == round_half_even(num as nat, den as nat),
        n <= num / den + 1,
{
    let q = num / den;
    let r = num % den;
    if 2 * r < den || (2 * r == den && q % 2 == 0) {
        q
    } else {
        proof {
            if den >= 2 {
                assert(num / den <= num / 2) by (nonlinear_arith)
                    requires
                        den >= 2,
                ;
            }
        }
        q + 1
    }
}

/// The double-precision number nearest to `ns`.
fn double_of(ns: u64) -> (double: u128)
    ensures
        double == nearest_double(ns as nat),
        double <= 0x2_0000_0000_0000_0000,
{
    let mut head: u64 = ns;
    let mut unit: u128 = 1;
    let ghost mut dropped: nat = 0;
    assert(head * unit <= ns);
    while head >= 0x20_0000_0000_0000
        invariant
            1 <= unit < 0x1000,
            unit == two_to(dropped),
            head * unit <= ns,
            excess_bits(ns as nat) == dropped + excess_bits(head as nat),
        decreases head,
    {
        assert(unit < 0x800) by (nonlinear_arith)
            requires
                head >= 0x20_0000_0000_0000,
                head * unit <= ns,
                ns <= 0xffff_ffff_ffff_ffff,
        ;
        assert((head / 2) * (2 * unit) <= head * unit) by (nonlinear_arith);
        head = head / 2;
        unit = 2 * unit;
        proof {
            dropped = dropped + 1;
        }
    }
    let units = rounded(ns as u128, unit);
    proof {
        let whole = (ns as u128 / unit) as int;
        assert(whole * unit <= ns) by (nonlinear_arith)
            requires
                whole == ns as int / unit as int,
                unit >= 1,
        ;
        assert(units * unit <= whole * unit + unit) by (nonlinear_arith)
            requires
                units <= whole + 1,
                unit >= 1,
        ;
    }
    units * unit
}

/// Hundredths of a second in `ns` nanoseconds.
fn hundredths_of(ns: u64) -> (hundredths: u64)
    ensures
        hundredths == second_hundredths(ns as nat),
{
    let double = double_of(ns);
    let den: u128 = 1_000_000_000;
    let mut places: u32 = 52;
    let mut scale: u128 = 0x10_0000_0000_0000;
    proof {
        reveal_with_fuel(two_to, 53);
        assert(two_to(52) == 0x10_0000_0000_0000);
        lemma_scaled_bound(double as int, scale as int);
    }
    while places > 0 && double * scale >= 0x20_0000_0000_0000 * den
        invariant
            den == 1_000_000_000,
            places <= 52,
            1 <= scale <= 0x10_0000_0000_0000,
            scale == two_to(places as nat),
            double <= 0x2_0000_0000_0000_0000,
            double * scale <= 0x20_0000_0000_0000_0000_0000_0000_0000,
            fraction_bits(double as nat, den as nat, 52) == fraction_bits(
                double as nat,
                den as nat,
                places as nat,
            ),
        decreases places,
    {
        places = places - 1;
        scale = scale / 2;
        proof {
            lemma_scaled_bound(double as int, scale as int);
        }
    }
    assert(double * scale < 0x20_0000_0000_0000 * den) by {
        if places == 0 {
            assert(double * scale == double) by (nonlinear_arith)
                requires
                    scale == 1,
            ;
        }
    }
    let significand = rounded(double * scale, den);
    let hundredths = rounded(significand * 100, scale);
    proof {
        let num = significand * 100;
        assert(num / scale as int <= num) by (nonlinear_arith)
            requires
                num >= 0,
                scale >= 1,
        ;
    }
    hundredths as u64
}

proof fn lemma_scaled_bound(double: int, scale: int)
    by (nonlinear_arith)
    requires
        0 <= double <= 0x2_0000_0000_0000_0000,
        0 <= scale <= 0x10_0000_0000_0000,
    ensures
        0 <= double * scale <= 0x20_0000_0000_0000_0000_0000_0000_0000,
{
}

/// A span as text.
pub fn format_duration(ns: u64) -> (out: String)
    ensures
        out@ == duration_text(ns),
{
    let mut out = String::new();
    if ns >= 1_000_000_000 {
        let hundredths = hundredths_of(ns);
        text::push_decimal(&mut out, hundredths / 100);
        out.append(".");
        text::push_zero_padded(&mut out, hundredths % 100, 2);
        out.append("s");
    } else if ns >= 1_000_000 {
        text::push_decimal(&mut out, ns / 1_000_000);
        out.append("ms");
    } else if ns >= 1_000 {
        text::push_decimal(&mut out, ns / 1_000);
        out.append("\u{b5}s");
    } else {
        text::push_decimal(&mut out, ns);
        out.append("ns");
    }
    assert(out@ =~= duration_text(ns));
    out
}

/// A time of day.
#[derive(Clone, Copy, Debug, PartialEq, Eq, Structural)]
pub struct LocalTime {
    pub hour: u32,
    pub minute: u32,
    pub second: u32,
}

/// The instant `unix_ns`, whose time of day is `local`, to the millisecond.
pub open spec fn wall_time_text(local: LocalTime, unix_ns: u64) -> Seq<char> {
    text::zero_padded(local.hour as nat, 2) + ":"@ + text::zero_padded(local.minute as nat, 2)
        + ":"@ + text::zero_padded(local.second as nat, 2) + "."@ + text::zero_padded(
        (unix_ns % 1_000_000_000 / 1_000_000) as nat,
        3,
    )
}

/// The whole seconds of the instant `unix_ns`, by which its time of day is
/// looked up.
pub fn wall_seconds(unix_ns: u64) -> (secs: u64)
    ensures
        secs == unix_ns / 1_000_000_000,
{
    unix_ns / 1_000_000_000
}

/// The instant `unix_ns` as `hh:mm:ss.mmm`, where `local` is its time of day.
pub fn format_wall_time(local: LocalTime, unix_ns: u64) -> (out: String)
    ensures
        out@ == wall_time_text(local, unix_ns),
{
    let millis = (unix_ns % 1_000_000_000) / 1_000_000;
    let mut out = String::new();
    text::push_zero_padded(&mut out, local.hour as u64, 2);
    out.append(":");
    text::push_zero_padded(&mut out, local.minute as u64, 2);
    out.append(":");
    text::push_zero_padded(&mut out, local.second as u64, 2);
    out.append(".");
    text::push_zero_padded(&mut out, millis, 3);
    assert(out@ =~= wall_time_text(local, unix_ns));
    out
}

/// Rounding is off by half a unit at most.
proof fn lemma_round_is_near(num: nat, den: nat)
    requires
        den > 0,
    ensures
        2 * (round_half_even(num, den) * den) <= 2 * num + den,
        2 * num <= 2 * (round_half_even(num, den) * den) + den,
{
    let q = num / den;
    let r = num % den;
    assert(num == q * den + r && r < den) by (nonlinear_arith)
        requires
            q == num / den,
            r == num % den,
            den > 0,
    ;
    assert((q + 1) * den == q * den + den) by (nonlinear_arith);
}

/// A number that is a multiple of the unit is not rounded.
proof fn lemma_round_exact(q: nat, den: nat)
    requires
        den > 0,
    ensures
        round_half_even(q * den, den) == q,
{
    assert((q * den) / den == q && (q * den) % den == 0) by (nonlinear_arith)
        requires
            den > 0,
    ;
}

proof fn lemma_two_to_positive(k: nat)
    ensures
        two_to(k) >= 1,
    decreases k,
{
    if k > 0 {
        lemma_two_to_positive((k - 1) as nat);
    }
}

/// A 64-bit number has at most eleven bits too many.
proof fn lemma_excess_unit(n: nat)
    requires
        n < 0x1_0000_0000_0000_0000,
    ensures
        two_to(excess_bits(n)) <= 0x800,
{
    reveal_with_fuel(excess_bits, 12);
    reveal_with_fuel(two_to, 12);
}

/// The double nearest to a span is the span itself where that has 53 bits, and else
/// off by 1024 ns at most.
proof fn lemma_double_is_near(ns: nat)
    requires
        ns < 0x1_0000_0000_0000_0000,
    ensures
        nearest_double(ns) <= ns + 1024,
        ns <= nearest_double(ns) + 1024,
        ns < 0x20_0000_0000_0000 ==> nearest_double(ns) == ns,
{
    let unit = two_to(excess_bits(ns));
    lemma_two_to_positive(excess_bits(ns));
    lemma_excess_unit(ns);
    lemma_round_is_near(ns, unit);
    if ns < 0x20_0000_0000_0000 {
        assert(unit == 1);
        lemma_round_exact(ns, 1);
    }
}

/// The quotient gets as many binary places as fit, so at least `least` of them where
/// those fit.
proof fn lemma_fraction_bits_enough(num: nat, den: nat, limit: nat, least: nat)
    requires
        least <= limit,
        num * two_to(least) < 0x20_0000_0000_0000 * den,
    ensures
        least <= fraction_bits(num, den, limit) <= limit,
    decreases limit,
{
    if limit > 0 && !(num * two_to(limit) < 0x20_0000_0000_0000 * den) {
        if least == limit {
            assert(false);
        }
        lemma_fraction_bits_enough(num, den, (limit - 1) as nat, least);
    }
}

proof fn lemma_two_to_grows(a: nat, b: nat)
    requires
        a <= b,
    ensures
        two_to(a) <= two_to(b),
    decreases b,
{
    if a < b {
        lemma_two_to_grows(a, (b - 1) as nat);
    }
}

/// From the two roundings to how far off the hundredths are, for a scale of `scale`.
proof fn lemma_hundredths_error(double: int, scale: int, significand: int, hundredths: int)
    requires
        scale >= 1,
        2 * (significand * 1_000_000_000) <= 2 * (double * scale) + 1_000_000_000,
        2 * (double * scale) <= 2 * (significand * 1_000_000_000) + 1_000_000_000,
        2 * (hundredths * scale) <= 2 * (significand * 100) + scale,
        2 * (significand * 100) <= 2 * (hundredths * scale) + scale,
    ensures
        (hundredths * 10_000_000 - double - 5_000_000) * scale <= 500_000_000,
        (double - hundredths * 10_000_000 - 5_000_000) * scale <= 500_000_000,
{
    assert((hundredths * 10_000_000 - double - 5_000_000) * scale == 10_000_000 * (hundredths
        * scale) - double * scale - 5_000_000 * scale) by (nonlinear_arith);
    assert((double - hundredths * 10_000_000 - 5_000_000) * scale == double * scale - 10_000_000 * (
    hundredths * scale) - 5_000_000 * scale) by (nonlinear_arith);
}

/// Two places of seconds are the span rounded to hundredths: off by half a hundredth
/// at most up to 2^53 ns, which is over a hundred days, and beyond that by 3 us more.
pub proof fn law_hundredths_are_the_nearest(ns: nat)
    requires
        1_000_000_000 <= ns < 0x1_0000_0000_0000_0000,
    ensures
        ns < 0x20_0000_0000_0000 ==> second_hundredths(ns) * 10_000_000 <= ns + 5_000_000,
        ns < 0x20_0000_0000_0000 ==> ns <= second_hundredths(ns) * 10_000_000 + 5_000_000,
        second_hundredths(ns) * 10_000_000 <= ns + 5_003_000,
        ns <= second_hundredths(ns) * 10_000_000 + 5_003_000,
{
    let double = nearest_double(ns);
    lemma_double_is_near(ns);
    let den: nat = 1_000_000_000;
    let places = fraction_bits(double, den, 52);
    let scale = two_to(places);
    reveal_with_fuel(two_to, 30);
    assert(two_to(18) == 0x4_0000 && two_to(29) == 0x2000_0000);
    lemma_two_to_positive(places);
    lemma_fraction_bits_enough(double, den, 52, 18);
    lemma_two_to_grows(18, places);
    let significand = round_half_even(double * scale, den);
    let hundredths = round_half_even(significand * 100, scale);
    lemma_round_is_near(double * scale, den);
    lemma_round_is_near(significand * 100, scale);
    lemma_hundredths_error(
        double as int,
        scale as int,
        significand as int,
        hundredths as int,
    );
    let over = hundredths * 10_000_000 - double - 5_000_000;
    let under = double - hundredths * 10_000_000 - 5_000_000;
    assert(over <= 1908) by (nonlinear_arith)
        requires
            over * scale <= 500_000_000,
            scale >= 0x4_0000,
    ;
    assert(under <= 1908) by (nonlinear_arith)
        requires
            under * scale <= 500_000_000,
            scale >= 0x4_0000,
    ;
    if ns < 0x20_0000_0000_0000 {
        lemma_fraction_bits_enough(double, den, 52, 29);
        lemma_two_to_grows(29, places);
        assert(over < 1) by (nonlinear_arith)
            requires
                over * scale <= 500_000_000,
                scale >= 0x2000_0000,
        ;
        assert(under < 1) by (nonlinear_arith)
            requires
                under * scale <= 500_000_000,
                scale >= 0x2000_0000,
        ;
    }
}

/// A span under a second is written in the largest unit of which it has a whole one,
/// cut to whole units.
pub proof fn law_short_spans_are_cut_to_whole_units(ns: u64, whole: nat)
    requires
        ns < 1_000_000_000,
    ensures
        ns < 1_000 ==> duration_text(ns) == text::decimal(ns as nat) + "ns"@,
        ns >= 1_000 && whole * 1_000 <= ns < (whole + 1) * 1_000 && whole < 1_000
            ==> duration_text(ns) == text::decimal(whole) + "\u{b5}s"@,
        ns >= 1_000_000 && whole * 1_000_000 <= ns < (whole + 1) * 1_000_000 ==> duration_text(ns)
            == text::decimal(whole) + "ms"@,
{
}

/// A span of a second or more is written as seconds, a point and two digits, and
/// these are the nearest hundredths: off by half a hundredth at most up to 2^53 ns,
/// and by 3 us more beyond.
pub proof fn law_long_spans_are_seconds_to_two_places(ns: u64)
    requires
        ns >= 1_000_000_000,
    ensures
        exists|hundredths: nat|
            duration_text(ns) == #[trigger] text::decimal(hundredths / 100) + seq![
                '.',
                (48 + hundredths / 10 % 10) as char,
                (48 + hundredths % 10) as char,
                's',
            ] && hundredths * 10_000_000 <= ns + 5_003_000 && ns <= hundredths * 10_000_000
                + 5_003_000 && (ns < 0x20_0000_0000_0000 ==> hundredths * 10_000_000 <= ns
                + 5_000_000 && ns <= hundredths * 10_000_000 + 5_000_000),
{
    let hundredths = second_hundredths(ns as nat);
    law_hundredths_are_the_nearest(ns as nat);
    reveal_strlit(".");
    reveal_strlit("s");
    reveal_with_fuel(text::decimal, 2);
    let places = text::zero_padded(hundredths % 100, 2);
    assert(places =~= seq![
        (48 + hundredths / 10 % 10) as char,
        (48 + hundredths % 10) as char,
    ]);
    assert(duration_text(ns) =~= text::decimal(hundredths / 100) + seq![
        '.',
        (48 + hundredths / 10 % 10) as char,
        (48 + hundredths % 10) as char,
        's',
    ]);
}

/// A time of day is written as two digits of hours, minutes and seconds each and
/// three of milliseconds, which are cut.
pub proof fn law_times_of_day_are_to_the_millisecond(local: LocalTime, unix_ns: u64, millis: nat)
    requires
        local.hour < 100,
        local.minute < 100,
        local.second < 100,
        millis < 1_000,
        millis * 1_000_000 <= unix_ns % 1_000_000_000 < (millis + 1) * 1_000_000,
    ensures
        wall_time_text(local, unix_ns) == seq![
            (48 + local.hour / 10) as char,
            (48 + local.hour % 10) as char,
            ':',
            (48 + local.minute / 10) as char,
            (48 + local.minute % 10) as char,
            ':',
            (48 + local.second / 10) as char,
            (48 + local.second % 10) as char,
            '.',
            (48 + millis / 100) as char,
            (48 + millis / 10 % 10) as char,
            (48 + millis % 10) as char,
        ],
{
    reveal_strlit(":");
    reveal_strlit(".");
    lemma_two_digits(local.hour as nat);
    lemma_two_digits(local.minute as nat);
    lemma_two_digits(local.second as nat);
    reveal_with_fuel(text::decimal, 3);
    assert((unix_ns % 1_000_000_000 / 1_000_000) as nat == millis);
    let places = text::zero_padded(millis, 3);
    assert(places =~= seq![
        (48 + millis / 100) as char,
        (48 + millis / 10 % 10) as char,
        (48 + millis % 10) as char,
    ]);
    assert(wall_time_text(local, unix_ns) =~= seq![
        (48 + local.hour / 10) as char,
        (48 + local.hour % 10) as char,
        ':',
        (48 + local.minute / 10) as char,
        (48 + local.minute % 10) as char,
        ':',
        (48 + local.second / 10) as char,
        (48 + local.second % 10) as char,
        '.',
        (48 + millis / 100) as char,
        (48 + millis / 10 % 10) as char,
        (48 + millis % 10) as char,
    ]);
}

proof fn lemma_two_digits(n: nat)
    requires
        n < 100,
    ensures
        text::zero_padded(n, 2) == seq![(48 + n / 10) as char, (48 + n % 10) as char],
{
    reveal_with_fuel(text::decimal, 2);
    assert(text::zero_padded(n, 2) =~= seq![(48 + n / 10) as char, (48 + n % 10) as char]);
}

proof fn lemma_two_to_is_pow2(k: nat)
    ensures
        two_to(k) == vstd::arithmetic::power2::pow2(k),
    decreases k,
{
    if k == 0 {
        vstd::arithmetic::power2::lemma2_to64();
    } else {
        lemma_two_to_is_pow2((k - 1) as nat);
        vstd::arithmetic::power2::lemma_pow2_unfold(k);
    }
}

/// No more bits are dropped than a 53-bit significand has no room for.
proof fn lemma_excess_is_just_enough(n: nat)
    ensures
        n < 0x20_0000_0000_0000 * two_to(excess_bits(n)),
        excess_bits(n) > 0 ==> n >= 0x10_0000_0000_0000 * two_to(excess_bits(n)),
    decreases n,
{
    if n >= 0x20_0000_0000_0000 {
        lemma_excess_is_just_enough(n / 2);
    }
}

/// The quotient gets no fewer binary places than fit.
proof fn lemma_fraction_bits_most(num: nat, den: nat, limit: nat)
    requires
        num < 0x20_0000_0000_0000 * den,
    ensures
        fraction_bits(num, den, limit) <= limit,
        num * two_to(fraction_bits(num, den, limit)) < 0x20_0000_0000_0000 * den,
        fraction_bits(num, den, limit) < limit ==> num * two_to(fraction_bits(num, den, limit) + 1)
            >= 0x20_0000_0000_0000 * den,
    decreases limit,
{
    if limit == 0 {
        assert(num * two_to(0) == num) by (nonlinear_arith)
            requires
                two_to(0) == 1,
        ;
    } else if !(num * two_to(limit) < 0x20_0000_0000_0000 * den) {
        lemma_fraction_bits_most(num, den, (limit - 1) as nat);
    }
}

/// Rounding that is exactly half a unit off gives an even number.
proof fn lemma_half_goes_to_even(num: nat, den: nat)
    requires
        den > 0,
    ensures
        2 * (round_half_even(num, den) * den) == 2 * num + den || 2 * num == 2 * (round_half_even(
            num,
            den,
        ) * den) + den ==> round_half_even(num, den) % 2 == 0,
{
    let q = num / den;
    let r = num % den;
    assert(num == q * den + r && r < den) by (nonlinear_arith)
        requires
            q == num / den,
            r == num % den,
            den > 0,
    ;
    assert((q + 1) * den == q * den + den) by (nonlinear_arith);
}

/// The hundredths of a span of seconds are those of double-precision arithmetic: the
/// span is the multiple `u` of a power of two with 53 bits at most that is nearest to
/// `ns`, its quotient by 10^9 is the fraction `s` of a power of two with 53 bits at
/// most that is nearest, and the hundredths are nearest to that; each time, of two
/// that are equally near, the even one.
pub proof fn law_seconds_are_rounded_in_double_precision(ns: nat) -> (parts: (nat, nat, nat, nat))
    requires
        1_000_000_000 <= ns < 0x1_0000_0000_0000_0000,
    ensures
        ({
            let (e, u, p, s) = parts;
            let unit = vstd::arithmetic::power2::pow2(e);
            let scale = vstd::arithmetic::power2::pow2(p);
            let h = second_hundredths(ns);
            &&& u <= 0x20_0000_0000_0000
            &&& e > 0 ==> u >= 0x10_0000_0000_0000
            &&& 2 * (u * unit) <= 2 * ns + unit
            &&& 2 * ns <= 2 * (u * unit) + unit
            &&& 2 * (u * unit) == 2 * ns + unit || 2 * ns == 2 * (u * unit) + unit ==> u % 2 == 0
            &&& p <= 52
            &&& s <= 0x20_0000_0000_0000
            &&& p < 52 ==> s >= 0x10_0000_0000_0000
            &&& 2 * (s * 1_000_000_000) <= 2 * ((u * unit) * scale) + 1_000_000_000
            &&& 2 * ((u * unit) * scale) <= 2 * (s * 1_000_000_000) + 1_000_000_000
            &&& 2 * (s * 1_000_000_000) == 2 * ((u * unit) * scale) + 1_000_000_000 || 2 * ((u
                * unit) * scale) == 2 * (s * 1_000_000_000) + 1_000_000_000 ==> s % 2 == 0
            &&& 2 * (h * scale) <= 2 * (s * 100) + scale
            &&& 2 * (s * 100) <= 2 * (h * scale) + scale
            &&& 2 * (h * scale) == 2 * (s * 100) + scale || 2 * (s * 100) == 2 * (h * scale) + scale
                ==> h % 2 == 0
        }),
{
    let e = excess_bits(ns);
    let unit = two_to(e);
    let u = round_half_even(ns, unit);
    let double = nearest_double(ns);
    let den: nat = 1_000_000_000;
    let p = fraction_bits(double, den, 52);
    let scale = two_to(p);
    let s = round_half_even(double * scale, den);
    lemma_two_to_is_pow2(e);
    lemma_two_to_is_pow2(p);
    lemma_two_to_positive(e);
    lemma_two_to_positive(p);
    lemma_double_is_near(ns);
    lemma_excess_is_just_enough(ns);
    lemma_round_is_near(ns, unit);
    lemma_half_goes_to_even(ns, unit);
    assert(u <= 0x20_0000_0000_0000) by (nonlinear_arith)
        requires
            2 * (u * unit) <= 2 * ns + unit,
            ns < 0x20_0000_0000_0000 * unit,
            unit >= 1,
    ;
    if e > 0 {
        assert(u >= 0x10_0000_0000_0000) by (nonlinear_arith)
            requires
                2 * ns <= 2 * (u * unit) + unit,
                ns >= 0x10_0000_0000_0000 * unit,
                unit >= 1,
        ;
    }
    lemma_fraction_bits_most(double, den, 52);
    lemma_round_is_near(double * scale, den);
    lemma_half_goes_to_even(double * scale, den);
    if p < 52 {
        assert(double * two_to(p + 1) == 2 * (double * scale)) by (nonlinear_arith)
            requires
                two_to(p + 1) == 2 * scale,
        ;
    }
    lemma_round_is_near(s * 100, scale);
    lemma_half_goes_to_even(s * 100, scale);
    (e, u, p, s)
}

/// Hours, minutes and seconds come in this order, with the milliseconds of the second
/// behind them, each written out in full where it needs more digits than it has places.
pub proof fn law_times_of_day_keep_every_field(local: LocalTime, unix_ns: u64, millis: nat)
    requires
        millis < 1_000,
        millis * 1_000_000 <= unix_ns % 1_000_000_000 < (millis + 1) * 1_000_000,
    ensures
        wall_time_text(local, unix_ns) == text::zero_padded(local.hour as nat, 2) + seq![':']
            + text::zero_padded(local.minute as nat, 2) + seq![':'] + text::zero_padded(
            local.second as nat,
            2,
        ) + seq!['.'] + text::zero_padded(millis, 3),
{
    reveal_strlit(":");
    reveal_strlit(".");
    assert(":"@ =~= seq![':']);
    assert("."@ =~= seq!['.']);
    assert((unix_ns % 1_000_000_000 / 1_000_000) as nat == millis);
}

} // verus!
