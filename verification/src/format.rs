//! Formatting: byte counts in IEC units, clamping, text sanitisation, and
//! civil date-time conversion and timestamps.

use vstd::prelude::*;
use crate::ansi::{strip_ansi, strip_ansi_spec};
use crate::text::{
    chars_of, decimal, digit, digit_char, push_char, push_decimal, push_decimal_padded, push_str,
    zero_pad,
};

verus! {

// ---------------------------------------------------------------------------
// Fixed-point decimal numerals
// ---------------------------------------------------------------------------

pub open spec fn pow10(n: nat) -> nat
    decreases n,
{
    if n == 0 {
        1
    } else {
        10 * pow10((n - 1) as nat)
    }
}

/// `n / d` rounded to the nearest integer, ties to the even neighbour.
pub open spec fn round_half_even(n: nat, d: nat) -> nat {
    let q = n / d;
    let r = n % d;
    if 2 * r > d || (2 * r == d && q % 2 == 1) {
        q + 1
    } else {
        q
    }
}

/// The `n`-digit decimal numeral of `m` (leading zeros kept, higher digits dropped).
pub open spec fn fixed_digits(m: nat, n: nat) -> Seq<char>
    decreases n,
{
    if n == 0 {
        Seq::<char>::empty()
    } else {
        fixed_digits(m / 10, (n - 1) as nat).push(digit_char(m % 10))
    }
}

/// The exact rational `num / den` written with `prec` fractional digits, rounded to
/// nearest with ties to even (how Rust's `{:.prec$}` renders a float holding that value).
pub open spec fn fixed_point(num: nat, den: nat, prec: nat) -> Seq<char> {
    let m = round_half_even(num * pow10(prec), den);
    if prec == 0 {
        decimal(m)
    } else {
        decimal(m / pow10(prec)) + "."@ + fixed_digits(m % pow10(prec), prec)
    }
}

/// Value of a sequence of decimal digits, most significant first.
pub open spec fn digits_value(ds: Seq<u8>) -> nat
    decreases ds.len(),
{
    if ds.len() == 0 {
        0
    } else {
        digits_value(ds.drop_last()) * 10 + (ds.last() as nat)
    }
}

pub open spec fn all_digits(ds: Seq<u8>) -> bool {
    forall|i: int| 0 <= i < ds.len() ==> ds[i] < 10
}

pub open spec fn digit_chars(ds: Seq<u8>) -> Seq<char> {
    ds.map_values(|d: u8| digit_char(d as nat))
}

pub proof fn lemma_pow10_pos(n: nat)
    ensures
        pow10(n) >= 1,
    decreases n,
{
    if n > 0 {
        lemma_pow10_pos((n - 1) as nat);
    }
}

pub proof fn lemma_digits_value_bound(ds: Seq<u8>)
    requires
        all_digits(ds),
    ensures
        digits_value(ds) < pow10(ds.len()),
    decreases ds.len(),
{
    if ds.len() > 0 {
        lemma_digits_value_bound(ds.drop_last());
        let a = digits_value(ds.drop_last());
        let p = pow10((ds.len() - 1) as nat);
        assert(a * 10 + ds.last() < p * 10) by (nonlinear_arith)
            requires a < p, ds.last() < 10;
    }
}

pub proof fn lemma_fixed_digits(ds: Seq<u8>)
    requires
        all_digits(ds),
    ensures
        fixed_digits(digits_value(ds), ds.len()) == digit_chars(ds),
    decreases ds.len(),
{
    if ds.len() == 0 {
        assert(digit_chars(ds) =~= Seq::<char>::empty());
    } else {
        let dl = ds.drop_last();
        lemma_fixed_digits(dl);
        let v = digits_value(ds);
        vstd::arithmetic::div_mod::lemma_fundamental_div_mod_converse(
            v as int,
            10,
            digits_value(dl) as int,
            ds.last() as int,
        );
        assert(digit_chars(ds) =~= digit_chars(dl).push(digit_char(ds.last() as nat)));
    }
}

/// Changing digit `i` to `x` changes the value by `(x - ds[i]) * 10^(len-1-i)`.
pub proof fn lemma_digits_update(ds: Seq<u8>, i: int, x: u8)
    requires
        0 <= i < ds.len(),
    ensures
        digits_value(ds.update(i, x)) + ds[i] * pow10((ds.len() - 1 - i) as nat)
            == digits_value(ds) + x * pow10((ds.len() - 1 - i) as nat),
    decreases ds.len(),
{
    let n = ds.len();
    let u = ds.update(i, x);
    assert(pow10(0) == 1);
    if i == n - 1 {
        assert(u.drop_last() =~= ds.drop_last());
        assert(u.last() == x);
        assert(digits_value(u) == digits_value(u.drop_last()) * 10 + (u.last() as nat));
        assert(pow10((ds.len() - 1 - i) as nat) == 1);
        assert(ds[i] * 1 == ds[i] && x * 1 == x);
    } else {
        lemma_digits_update(ds.drop_last(), i, x);
        assert(u.drop_last() =~= ds.drop_last().update(i, x));
        assert(u.last() == ds.last());
        assert(digits_value(u) == digits_value(u.drop_last()) * 10 + (u.last() as nat));
        assert(ds.drop_last()[i] == ds[i]);
        let p = pow10((n - 2 - i) as nat);
        assert(pow10((n - 1 - i) as nat) == 10 * p);
        let a = digits_value(ds.drop_last());
        let b = digits_value(u.drop_last());
        assert(b * 10 + ds[i] * (10 * p) == a * 10 + x * (10 * p)) by (nonlinear_arith)
            requires b + ds[i] * p == a + x * p;
        assert(ds[i] * pow10((n - 1 - i) as nat) == ds[i] * (10 * p));
        assert(x * pow10((n - 1 - i) as nat) == x * (10 * p));
    }
}

/// Adds one to the number held by `ds`; returns whether it carried out of the top digit.
fn increment_digits(ds: &mut Vec<u8>) -> (carry: bool)
    requires
        all_digits(old(ds)@),
    ensures
        all_digits(final(ds)@),
        final(ds)@.len() == old(ds)@.len(),
        digits_value(final(ds)@) + (if carry { pow10(old(ds)@.len()) } else { 0 })
            == digits_value(old(ds)@) + 1,
{
    let n = ds.len();
    let mut j = n;
    while j > 0 && ds[j - 1] == 9
        invariant
            j <= n,
            ds@.len() == n,
            all_digits(ds@),
            digits_value(ds@) + pow10((n - j) as nat) == digits_value(old(ds)@) + 1,
        decreases j,
    {
        proof {
            lemma_digits_update(ds@, j - 1, 0);
            assert(pow10((n - j + 1) as nat) == 10 * pow10((n - j) as nat));
        }
        ds.set(j - 1, 0);
        j -= 1;
    }
    if j > 0 {
        let d = ds[j - 1];
        proof {
            lemma_digits_update(ds@, j - 1, (d + 1) as u8);
            let p = pow10((n - j) as nat);
            assert((d + 1) * p == d * p + p) by (nonlinear_arith);
        }
        ds.set(j - 1, d + 1);
        false
    } else {
        true
    }
}

pub proof fn lemma_pow10_step(n: nat)
    ensures
        pow10(n + 1) == 10 * pow10(n),
{
    assert(pow10(n + 1) == 10 * pow10(((n + 1) - 1) as nat));
}

/// `num / den` with `prec` fractional digits, rounded half to even.
pub(crate) fn fixed_point_string(num: u128, den: u128, prec: usize) -> (s: String)
    requires
        2 <= den <= 0x100_0000_0000,
        num <= 0x1_0000_0000_0000_0000,
    ensures
        s@ == fixed_point(num as nat, den as nat, prec as nat),
{
    let mut ip: u128 = num / den;
    let mut f: u128 = num % den;
    let mut ds: Vec<u8> = Vec::new();
    let mut i: usize = 0;
    assert(num == ip * den + f) by {
        vstd::arithmetic::div_mod::lemma_fundamental_div_mod(num as int, den as int);
        assert(num == ip * den + f) by (nonlinear_arith)
            requires num == den * ip + f;
    }
    assert(pow10(0) == 1);
    assert(ds@ =~= Seq::<u8>::empty());
    while i < prec
        invariant
            i <= prec,
            2 <= den <= 0x100_0000_0000,
            num <= 0x1_0000_0000_0000_0000,
            ip == num / den,
            f < den,
            ds@.len() == i,
            all_digits(ds@),
            num * pow10(i as nat) == (ip * pow10(i as nat) + digits_value(ds@)) * den + f,
        decreases prec - i,
    {
        let f10: u128 = f * 10;
        let d: u128 = f10 / den;
        let f2: u128 = f10 % den;
        assert(d < 10) by (nonlinear_arith)
            requires d == f10 / den, f10 == f * 10, f < den, den > 0;
        proof {
            let a = ip * pow10(i as nat) + digits_value(ds@);
            lemma_pow10_step(i as nat);
            assert(f10 == d * den + f2) by {
                vstd::arithmetic::div_mod::lemma_fundamental_div_mod(f10 as int, den as int);
                assert(f10 == d * den + f2) by (nonlinear_arith)
                    requires f10 == den * d + f2;
            }
            let ds2 = ds@.push(d as u8);
            assert(ds2.drop_last() =~= ds@);
            assert(digits_value(ds2) == digits_value(ds@) * 10 + d);
            let p = pow10(i as nat);
            assert(num * (10 * p) == (ip * (10 * p) + (digits_value(ds@) * 10 + d)) * den + f2)
                by (nonlinear_arith)
                requires
                    num * p == (ip * p + digits_value(ds@)) * den + f,
                    f * 10 == d * den + f2;
        }
        ds.push(d as u8);
        f = f2;
        i += 1;
    }
    // `num * 10^prec == q * den + f` with `f < den`, where `q = ip * 10^prec + digits`
    let ghost q: nat = (ip * pow10(prec as nat) + digits_value(ds@)) as nat;
    proof {
        vstd::arithmetic::div_mod::lemma_fundamental_div_mod_converse(
            (num * pow10(prec as nat)) as int,
            den as int,
            q as int,
            f as int,
        );
        lemma_digits_value_bound(ds@);
        lemma_pow10_pos(prec as nat);
    }
    // parity of q: the last fractional digit, or the integer part when there is none
    let q_odd: bool = if prec == 0 {
        ip % 2 == 1
    } else {
        ds[prec - 1] % 2 == 1
    };
    proof {
        if prec == 0 {
            assert(ds@ =~= Seq::<u8>::empty());
            assert(q == ip);
        } else {
            let a = digits_value(ds@.drop_last());
            let p = pow10(prec as nat);
            assert(p == 10 * pow10((prec - 1) as nat));
            assert(digits_value(ds@) == a * 10 + ds@.last());
            let k = ip * 5 * pow10((prec - 1) as nat) + a * 5;
            assert(ip * p + a * 10 == 2 * k) by (nonlinear_arith)
                requires p == 10 * pow10((prec - 1) as nat), k == ip * 5 * pow10((prec - 1) as nat) + a * 5;
            assert((2 * k + ds@.last()) % 2 == ds@.last() % 2);
            assert(ds@.last() == ds@[prec - 1]);
        }
    }
    let round_up = 2 * f > den || (2 * f == den && q_odd);
    let ghost ip0: nat = ip as nat;
    let ghost ds0: Seq<u8> = ds@;
    proof {
        assert(ip * den <= num) by {
            vstd::arithmetic::div_mod::lemma_fundamental_div_mod(num as int, den as int);
        }
        assert(ip * 2 <= num) by (nonlinear_arith)
            requires ip * den <= num, den >= 2;
    }
    if round_up {
        let carry = increment_digits(&mut ds);
        if carry {
            ip = ip + 1;
        }
    }
    let ghost m: nat = round_half_even((num * pow10(prec as nat)) as nat, den as nat);
    proof {
        let p = pow10(prec as nat);
        assert(q % 2 == 1 <==> q_odd);
        assert(m == if round_up { q + 1 } else { q });
        if round_up {
            assert(ip * p + digits_value(ds@) == ip0 * p + digits_value(ds0) + 1) by (nonlinear_arith)
                requires
                    ip == ip0 || ip == ip0 + 1,
                    digits_value(ds@) + (if ip == ip0 + 1 { p } else { 0 }) == digits_value(ds0) + 1;
        }
        assert(m == ip * p + digits_value(ds@));
        lemma_digits_value_bound(ds@);
        vstd::arithmetic::div_mod::lemma_fundamental_div_mod_converse(
            m as int,
            p as int,
            ip as int,
            digits_value(ds@) as int,
        );
        lemma_fixed_digits(ds@);
        if prec == 0 {
            assert(ds@ =~= Seq::<u8>::empty());
        }
    }
    let mut s = String::new();
    push_decimal(&mut s, ip as u64);
    if prec > 0 {
        push_str(&mut s, ".");
        let mut k: usize = 0;
        while k < prec
            invariant
                k <= prec,
                ds@.len() == prec,
                all_digits(ds@),
                s@ == decimal(ip as nat) + "."@ + digit_chars(ds@).take(k as int),
            decreases prec - k,
        {
            push_char(&mut s, digit(ds[k] as u64));
            assert(digit_chars(ds@).take(k + 1) =~= digit_chars(ds@).take(k as int).push(
                digit_char(ds@[k as int] as nat),
            ));
            k += 1;
        }
        assert(digit_chars(ds@).take(prec as int) =~= digit_chars(ds@));
    }
    s
}


// ---------------------------------------------------------------------------
// Byte counts
// ---------------------------------------------------------------------------

/// Spacing of the `f64` values around `x`, for 2^53 <= x < 2^64.
pub open spec fn f64_ulp(x: nat) -> nat {
    if x < 0x40_0000_0000_0000 {
        2
    } else if x < 0x80_0000_0000_0000 {
        4
    } else if x < 0x100_0000_0000_0000 {
        8
    } else if x < 0x200_0000_0000_0000 {
        16
    } else if x < 0x400_0000_0000_0000 {
        32
    } else if x < 0x800_0000_0000_0000 {
        64
    } else if x < 0x1000_0000_0000_0000 {
        128
    } else if x < 0x2000_0000_0000_0000 {
        256
    } else if x < 0x4000_0000_0000_0000 {
        512
    } else if x < 0x8000_0000_0000_0000 {
        1024
    } else {
        2048
    }
}

/// The integer held by `x as f64` for a `u64` `x`: exact below 2^53, otherwise
/// rounded to the nearest multiple of the spacing, ties to an even multiple.
pub open spec fn as_f64_value(x: nat) -> nat {
    if x < 0x20_0000_0000_0000 {
        x
    } else {
        round_half_even(x, f64_ulp(x)) * f64_ulp(x)
    }
}

/// Divisor of the IEC unit used for `value` (>= 1024): KiB, MiB, GiB or TiB.
pub open spec fn unit_divisor(value: nat) -> nat {
    if value < 0x10_0000 {
        0x400
    } else if value < 0x4000_0000 {
        0x10_0000
    } else if value < 0x100_0000_0000 {
        0x4000_0000
    } else {
        0x100_0000_0000
    }
}

/// Suffix of the IEC unit used for `value` (>= 1024).
pub open spec fn unit_suffix(value: nat) -> Seq<char> {
    if value < 0x10_0000 {
        " KB"@
    } else if value < 0x4000_0000 {
        " MB"@
    } else if value < 0x100_0000_0000 {
        " GB"@
    } else {
        " TB"@
    }
}

/// A byte count in compact IEC units: whole bytes below 1 KB, otherwise the
/// value (as an `f64`) divided by the unit and shown with `precision` decimals.
pub open spec fn format_bytes_spec(value: nat, precision: nat) -> Seq<char> {
    if value < 1024 {
        decimal(value) + " B"@
    } else {
        fixed_point(as_f64_value(value), unit_divisor(value), precision) + unit_suffix(value)
    }
}

/// `x as f64`, as the integer it holds.
pub(crate) fn f64_integer_value(x: u64) -> (v: u128)
    ensures
        v == as_f64_value(x as nat),
        v <= 0x1_0000_0000_0000_0000,
{
    if x < 0x20_0000_0000_0000 {
        return x as u128;
    }
    let ulp: u64 = if x < 0x40_0000_0000_0000 {
        2
    } else if x < 0x80_0000_0000_0000 {
        4
    } else if x < 0x100_0000_0000_0000 {
        8
    } else if x < 0x200_0000_0000_0000 {
        16
    } else if x < 0x400_0000_0000_0000 {
        32
    } else if x < 0x800_0000_0000_0000 {
        64
    } else if x < 0x1000_0000_0000_0000 {
        128
    } else if x < 0x2000_0000_0000_0000 {
        256
    } else if x < 0x4000_0000_0000_0000 {
        512
    } else if x < 0x8000_0000_0000_0000 {
        1024
    } else {
        2048
    };
    let q: u64 = x / ulp;
    let r: u64 = x % ulp;
    let up = 2 * r > ulp || (2 * r == ulp && q % 2 == 1);
    let q2: u128 = if up {
        q as u128 + 1
    } else {
        q as u128
    };
    assert(q2 * ulp <= 0x1_0000_0000_0000_0000) by (nonlinear_arith)
        requires
            q2 <= q + 1,
            q == x / ulp,
            1 <= ulp <= 2048,
            x < 0x1_0000_0000_0000_0000,
            x >= 0x20_0000_0000_0000,
            ulp == f64_ulp(x as nat),
    {
        assert(q * ulp <= x) by {
            vstd::arithmetic::div_mod::lemma_fundamental_div_mod(x as int, ulp as int);
        }
    }
    q2 * (ulp as u128)
}

/// Format a byte count in compact IEC units (B, KB, MB, GB, TB).
pub fn format_bytes(value: u64, precision: usize) -> (s: String)
    ensures
        s@ == format_bytes_spec(value as nat, precision as nat),
{
    if value < 1024 {
        let mut s = String::new();
        push_decimal(&mut s, value);
        push_str(&mut s, " B");
        return s;
    }
    let v = f64_integer_value(value);
    let (den, suffix): (u128, &str) = if value < 0x10_0000 {
        (0x400, " KB")
    } else if value < 0x4000_0000 {
        (0x10_0000, " MB")
    } else if value < 0x100_0000_0000 {
        (0x4000_0000, " GB")
    } else {
        (0x100_0000_0000, " TB")
    };
    let mut s = fixed_point_string(v, den, precision);
    push_str(&mut s, suffix);
    s
}


// ---------------------------------------------------------------------------
// Text sanitisation
// ---------------------------------------------------------------------------

/// Bidirectional-override and zero-width formatting characters.
pub open spec fn is_bidi_or_zero_width(c: char) -> bool {
    let u = c as u32;
    (0x200B <= u <= 0x200F) || (0x202A <= u <= 0x202E) || (0x2066 <= u <= 0x2069) || u == 0xFEFF
}

/// Characters that must not reach the terminal: ASCII controls, DEL, and the
/// bidirectional / zero-width formatting characters.
pub open spec fn is_unsafe_char(c: char) -> bool {
    (c as u32) < 32 || (c as u32) == 127 || is_bidi_or_zero_width(c)
}

pub open spec fn sanitize_char(c: char) -> char {
    if is_unsafe_char(c) {
        '~'
    } else {
        c
    }
}

/// `s` with ANSI sequences removed and every unsafe character replaced by '~'.
pub open spec fn sanitize_spec(s: Seq<char>) -> Seq<char> {
    strip_ansi_spec(s).map_values(|c: char| sanitize_char(c))
}

/// Strip ANSI sequences, control characters, and bidi overrides from text.
pub fn sanitize_text(value: &str) -> (r: String)
    ensures
        r@ == sanitize_spec(value@),
{
    let text = strip_ansi(value);
    let v = chars_of(text.as_str());
    let mut out = String::new();
    let mut i: usize = 0;
    while i < v.len()
        invariant
            i <= v.len(),
            v@ == strip_ansi_spec(value@),
            out@ == v@.take(i as int).map_values(|c: char| sanitize_char(c)),
        decreases v.len() - i,
    {
        let ch = v[i];
        let code = ch as u32;
        let bad = code < 32 || code == 127 || (0x200B <= code && code <= 0x200F) || (0x202A <= code
            && code <= 0x202E) || (0x2066 <= code && code <= 0x2069) || code == 0xFEFF;
        let shown = if bad {
            '~'
        } else {
            ch
        };
        push_char(&mut out, shown);
        assert(v@.take(i + 1).map_values(|c: char| sanitize_char(c)) =~= v@.take(i as int).map_values(
            |c: char| sanitize_char(c),
        ).push(sanitize_char(ch)));
        i += 1;
    }
    assert(v@.take(v.len() as int) =~= v@);
    out
}

/// Sanitised text holds no escape, control or bidirectional character, and
/// sanitising it again changes nothing.
pub proof fn law_sanitize_clean_and_idempotent(s: Seq<char>)
    ensures
        forall|i: int| 0 <= i < sanitize_spec(s).len() ==> !is_unsafe_char(#[trigger] sanitize_spec(s)[i]),
        crate::ansi::no_escape_char(sanitize_spec(s)),
        sanitize_spec(sanitize_spec(s)) == sanitize_spec(s),
{
    let t = sanitize_spec(s);
    assert forall|i: int| 0 <= i < t.len() implies !is_unsafe_char(#[trigger] t[i]) by {
        assert((('~' as u32) == 126));
    }
    assert(crate::ansi::no_escape_char(t)) by {
        assert forall|i: int| 0 <= i < t.len() implies t[i] != '\x1b' by {
            assert(!is_unsafe_char(t[i]));
        }
    }
    crate::ansi::lemma_strip_ansi_plain(t);
    assert(sanitize_spec(t) =~= t);
}

// ---------------------------------------------------------------------------
// Timestamps
// ---------------------------------------------------------------------------

/// A civil date-time: (year, month, day, hour, minute, second).
pub type Civil = (u32, u32, u32, u32, u32, u32);

pub open spec fn two_digits(n: u32) -> Seq<char> {
    zero_pad(decimal(n as nat), 2)
}

/// `YYYY-MM-DD{sep}HH:MM:SS`
pub open spec fn date_time_spec(t: Civil, sep: char) -> Seq<char> {
    zero_pad(decimal(t.0 as nat), 4) + "-"@ + two_digits(t.1) + "-"@ + two_digits(t.2) + seq![sep]
        + two_digits(t.3) + ":"@ + two_digits(t.4) + ":"@ + two_digits(t.5)
}

/// `HH:MM:SS`
pub open spec fn hms_spec(h: u32, m: u32, s: u32) -> Seq<char> {
    two_digits(h) + ":"@ + two_digits(m) + ":"@ + two_digits(s)
}

fn push_hms(out: &mut String, h: u32, m: u32, s: u32)
    ensures
        final(out)@ == old(out)@ + hms_spec(h, m, s),
{
    push_decimal_padded(out, h as u64, 2);
    push_str(out, ":");
    push_decimal_padded(out, m as u64, 2);
    push_str(out, ":");
    push_decimal_padded(out, s as u64, 2);
    assert(out@ =~= old(out)@ + hms_spec(h, m, s));
}

fn date_time(t: Civil, sep: char) -> (r: String)
    ensures
        r@ == date_time_spec(t, sep),
{
    let mut out = String::new();
    push_decimal_padded(&mut out, t.0 as u64, 4);
    push_str(&mut out, "-");
    push_decimal_padded(&mut out, t.1 as u64, 2);
    push_str(&mut out, "-");
    push_decimal_padded(&mut out, t.2 as u64, 2);
    push_char(&mut out, sep);
    push_hms(&mut out, t.3, t.4, t.5);
    assert(out@ =~= date_time_spec(t, sep));
    out
}

/// The local time `now` formatted as ISO-8601 (e.g. "2026-09-02T00:25:30").
pub fn iso_timestamp(now: Civil) -> (r: String)
    ensures
        r@ == date_time_spec(now, 'T'),
{
    date_time(now, 'T')
}

/// The local time `now` formatted as "YYYY-MM-DD HH:MM:SS" for logging.
pub fn log_timestamp(now: Civil) -> (r: String)
    ensures
        r@ == date_time_spec(now, ' '),
{
    date_time(now, ' ')
}

/// The local time `now` formatted as "HH:MM:SS".
pub fn local_now_hms(now: Civil) -> (r: String)
    ensures
        r@ == hms_spec(now.3, now.4, now.5),
{
    let mut out = String::new();
    push_hms(&mut out, now.3, now.4, now.5);
    assert(out@ =~= hms_spec(now.3, now.4, now.5));
    out
}

} // verus!
