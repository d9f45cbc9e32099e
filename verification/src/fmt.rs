//! Rendering of counts, byte sizes and durations as text.
use vstd::prelude::*;
use vstd::string::StringExecFns;
use crate::text::{all_digits, digits_value, parse_u64_spec, push_char};

verus! {

// ------------------------------------------------------------------ specs

/// `2^e`.
pub open spec fn pow2n(e: nat) -> nat
    decreases e,
{
    if e == 0 {
        1
    } else {
        2 * pow2n((e - 1) as nat)
    }
}

/// `10^e`.
pub open spec fn pow10(e: nat) -> nat
    decreases e,
{
    if e == 0 {
        1
    } else {
        10 * pow10((e - 1) as nat)
    }
}

/// The ASCII digit for `d < 10`.
pub open spec fn digit_char(d: nat) -> char {
    seq!['0', '1', '2', '3', '4', '5', '6', '7', '8', '9'][d as int]
}

/// The decimal numeral of `n`, without leading zeros (`{}` on an integer).
pub open spec fn decimal(n: nat) -> Seq<char>
    decreases n,
{
    if n < 10 {
        seq![digit_char(n)]
    } else {
        decimal(n / 10).push(digit_char(n % 10))
    }
}

/// The decimal numeral of `n`, left-padded with zeros to `width` characters
/// (`{:0width$}` on an integer).
pub open spec fn zero_padded(n: nat, width: nat) -> Seq<char> {
    let d = decimal(n);
    if d.len() < width {
        Seq::new((width - d.len()) as nat, |i: int| '0') + d
    } else {
        d
    }
}

/// `a / b` rounded to the nearest integer, ties to the even one.
pub open spec fn round_half_even(a: nat, b: nat) -> nat {
    let q = a / b;
    let r = a % b;
    if 2 * r > b {
        q + 1
    } else if 2 * r < b {
        q
    } else if q % 2 == 0 {
        q
    } else {
        q + 1
    }
}

/// The exact value `num / den` written with `places` digits after the point,
/// rounded to nearest with ties to even (`{:.places$}` on a float holding that value).
pub open spec fn fixed(num: nat, den: nat, places: nat) -> Seq<char> {
    let q = round_half_even(num * pow10(places), den);
    if places == 0 {
        decimal(q)
    } else {
        decimal(q / pow10(places)) + seq!['.'] + zero_padded(q % pow10(places), places)
    }
}

/// Number of binary digits of `n` (0 for 0).
pub open spec fn bit_len(n: nat) -> nat
    decreases n,
{
    if n == 0 {
        0
    } else {
        1 + bit_len(n / 2)
    }
}

/// The value of `n as f64`: `n` rounded to 53 significant bits, to nearest with
/// ties to even.
pub open spec fn f64_value(n: nat) -> nat {
    if bit_len(n) <= 53 {
        n
    } else {
        let p = pow2n((bit_len(n) - 53) as nat);
        round_half_even(n, p) * p
    }
}

/// `fmtb`: a byte count in the largest binary unit it reaches, as
/// `"{:.2} TB"`, `"{:.2} GB"`, `"{:.1} MB"`, `"{:.0} KB"` of the count divided by
/// the unit, or `"{} B"`.
pub open spec fn fmtb_spec(b: u64) -> Seq<char> {
    if b >= pow2n(40) {
        fixed(f64_value(b as nat), pow2n(40), 2) + " TB"@
    } else if b >= pow2n(30) {
        fixed(b as nat, pow2n(30), 2) + " GB"@
    } else if b >= pow2n(20) {
        fixed(b as nat, pow2n(20), 1) + " MB"@
    } else if b >= pow2n(10) {
        fixed(b as nat, pow2n(10), 0) + " KB"@
    } else {
        decimal(b as nat) + " B"@
    }
}

/// `"{}h {:02}m {:02}s"` of hours, minutes and seconds in `s` seconds.
pub open spec fn uptime_spec(s: u64) -> Seq<char> {
    decimal((s / 3600) as nat) + "h "@ + zero_padded(((s % 3600) / 60) as nat, 2) + "m "@
        + zero_padded((s % 60) as nat, 2) + "s"@
}

/// `"{}d {:02}h {:02}m {:02}s"` of days, hours, minutes and seconds in `s` seconds.
pub open spec fn uptime_long_spec(s: u64) -> Seq<char> {
    decimal((s / 86400) as nat) + "d "@ + zero_padded(((s % 86400) / 3600) as nat, 2) + "h "@
        + zero_padded(((s % 3600) / 60) as nat, 2) + "m "@ + zero_padded((s % 60) as nat, 2)
        + "s"@
}

/// `"Up {}h {:02}m"` of hours and minutes in `s` seconds.
pub open spec fn uptime_short_spec(s: u64) -> Seq<char> {
    "Up "@ + decimal((s / 3600) as nat) + "h "@ + zero_padded(((s % 3600) / 60) as nat, 2) + "m"@
}

// ------------------------------------------------------------------ lemmas

/// A decimal numeral has at least one digit.
pub proof fn lemma_decimal_len(n: nat)
    ensures
        decimal(n).len() >= 1,
        n < 10 ==> decimal(n).len() == 1,
        10 <= n < 100 ==> decimal(n).len() == 2,
    decreases n,
{
    if n >= 10 {
        lemma_decimal_len(n / 10);
    }
}

/// `2^i <= 2^j` for `i <= j`.
pub proof fn lemma_pow2n_mono(i: nat, j: nat)
    requires
        i <= j,
    ensures
        pow2n(i) <= pow2n(j),
        pow2n(i) >= 1,
    decreases j,
{
    if j > i {
        lemma_pow2n_mono(i, (j - 1) as nat);
    } else if i > 0 {
        lemma_pow2n_mono((i - 1) as nat, (i - 1) as nat);
    }
}

/// `bit_len(n) <= k` exactly when `n < 2^k`.
pub proof fn lemma_bit_len_bound(n: nat, k: nat)
    ensures
        bit_len(n) <= k <==> n < pow2n(k),
    decreases k,
{
    if k > 0 {
        lemma_bit_len_bound(n / 2, (k - 1) as nat);
    }
}


/// The powers that the unit thresholds and roundings use.
pub proof fn lemma_powers()
    ensures
        pow2n(10) == 0x400,
        pow2n(20) == 0x10_0000,
        pow2n(30) == 0x4000_0000,
        pow2n(40) == 0x100_0000_0000,
        pow2n(52) == 0x10_0000_0000_0000,
        pow2n(53) == 0x20_0000_0000_0000,
        pow2n(64) == 0x1_0000_0000_0000_0000,
        pow10(0) == 1,
        pow10(1) == 10,
        pow10(2) == 100,
        pow10(3) == 1000,
{
    reveal_with_fuel(pow2n, 65);
    reveal_with_fuel(pow10, 4);
}


/// A digit character stands for its value.
proof fn lemma_digit_char(d: nat)
    requires
        d < 10,
    ensures
        '0' <= digit_char(d) <= '9',
        (digit_char(d) as u32) - ('0' as u32) == d,
{
}

/// The decimal numeral of `n` is made of digits whose value is `n`.
pub proof fn lemma_decimal_value(n: nat)
    ensures
        all_digits(decimal(n)),
        digits_value(decimal(n)) == n,
        decimal(n).len() >= 1,
    decreases n,
{
    lemma_digit_char(n % 10);
    if n >= 10 {
        lemma_decimal_value(n / 10);
        let d = decimal(n);
        assert(d.drop_last() =~= decimal(n / 10));
        assert(d.last() == digit_char(n % 10));
        assert(digits_value(d) == digits_value(decimal(n / 10)) * 10 + n % 10);
        assert((n / 10) * 10 + n % 10 == n);
        assert forall|i: int| 0 <= i < d.len() implies '0' <= #[trigger] d[i] <= '9' by {
            if i < d.len() - 1 {
                assert(d[i] == decimal(n / 10)[i]);
            }
        }
    } else {
        let d = decimal(n);
        assert(d.drop_last() =~= Seq::<char>::empty());
        assert(d.last() == digit_char(n));
        assert(digits_value(d) == digits_value(Seq::<char>::empty()) * 10 + n);
    }
}

/// Law: a count written in decimal reads back as the same count
/// (`str::parse::<u64>` of what `{}` prints).
pub proof fn lemma_decimal_parses(n: u64)
    ensures
        parse_u64_spec(decimal(n as nat)) == Some(n),
{
    lemma_decimal_value(n as nat);
    let d = decimal(n as nat);
    assert('0' <= d[0] <= '9');
}

/// Law: the fields of an uptime recompose it. The hours, minutes and seconds shown
/// by `fmt_uptime` (and the days of `fmt_uptime_long`) add back up to the seconds
/// given, and the minute and second (and hour) fields are two digits each.
pub proof fn lemma_uptime_fields(s: u64)
    ensures
        (s / 3600) * 3600 + ((s % 3600) / 60) * 60 + s % 60 == s,
        (s / 86400) * 86400 + ((s % 86400) / 3600) * 3600 + ((s % 3600) / 60) * 60 + s % 60 == s,
        zero_padded(((s % 3600) / 60) as nat, 2).len() == 2,
        zero_padded((s % 60) as nat, 2).len() == 2,
        zero_padded(((s % 86400) / 3600) as nat, 2).len() == 2,
{
    lemma_decimal_len(((s % 3600) / 60) as nat);
    lemma_decimal_len((s % 60) as nat);
    lemma_decimal_len(((s % 86400) / 3600) as nat);
    assert((s % 86400) % 3600 == s % 3600) by (nonlinear_arith);
}

// ------------------------------------------------------------------ exec

/// The ASCII digit for `d < 10`.
fn digit(d: u128) -> (c: char)
    requires
        d < 10,
    ensures
        c == digit_char(d as nat),
{
    if d == 0 {
        '0'
    } else if d == 1 {
        '1'
    } else if d == 2 {
        '2'
    } else if d == 3 {
        '3'
    } else if d == 4 {
        '4'
    } else if d == 5 {
        '5'
    } else if d == 6 {
        '6'
    } else if d == 7 {
        '7'
    } else if d == 8 {
        '8'
    } else {
        '9'
    }
}


/// `a / b` rounded to nearest, ties to even.
pub fn round_div(a: u128, b: u128) -> (q: u128)
    requires
        b > 0,
        b < 0x1000_0000_0000_0000_0000_0000_0000_0000,
        a < 0x4000_0000_0000_0000_0000_0000_0000_0000,
    ensures
        q == round_half_even(a as nat, b as nat),
        q <= a / b + 1,
{
    let q = a / b;
    let r = a % b;
    assert(q <= a) by (nonlinear_arith)
        requires
            q == a / b,
            b > 0,
    ;
    if 2 * r > b {
        q + 1
    } else if 2 * r < b {
        q
    } else if q % 2 == 0 {
        q
    } else {
        q + 1
    }
}

/// `10^k` for `k <= 3`.
fn pow10_exec(k: usize) -> (p: u128)
    requires
        k <= 3,
    ensures
        p == pow10(k as nat),
        1 <= p <= 1000,
{
    proof {
        lemma_powers();
    }
    if k == 0 {
        1
    } else if k == 1 {
        10
    } else if k == 2 {
        100
    } else {
        1000
    }
}

/// Appends `num / den` written with `places` decimals (see `fixed`) to `s`.
pub fn push_fixed(s: &mut String, num: u128, den: u128, places: usize)
    requires
        0 < den < 0x1_0000_0000_0000_0000,
        num <= 0x2_0000_0000_0000_0000,
        places <= 3,
    ensures
        final(s)@ == old(s)@ + fixed(num as nat, den as nat, places as nat),
{
    let p = pow10_exec(places);
    assert(num * p <= 0x2_0000_0000_0000_0000 * 1000) by (nonlinear_arith)
        requires
            num <= 0x2_0000_0000_0000_0000,
            p <= 1000,
    ;
    let q = round_div(num * p, den);
    if places == 0 {
        push_decimal(s, q);
    } else {
        push_decimal(s, q / p);
        push_char(s, '.');
        push_padded(s, q % p, places);
        assert(s@ =~= old(s)@ + (decimal((q / p) as nat) + seq!['.'] + zero_padded(
            (q % p) as nat,
            places as nat,
        )));
    }
}

/// `n as f64`, as the integer it holds exactly.
pub fn f64_round(n: u64) -> (m: u128)
    ensures
        m == f64_value(n as nat),
        m <= 0x2_0000_0000_0000_0000,
{
    proof {
        lemma_powers();
        lemma_bit_len_bound(n as nat, 64);
    }
    let mut x: u128 = n as u128;
    let mut e: usize = 0;
    while x >= 0x20_0000_0000_0000
        invariant
            bit_len(n as nat) == bit_len(x as nat) + e,
            e > 0 ==> x >= 0x10_0000_0000_0000,
            bit_len(n as nat) <= 64,
        decreases x,
    {
        proof {
            lemma_bit_len_bound(x as nat, 53);
            lemma_powers();
        }
        x = x / 2;
        e = e + 1;
    }
    proof {
        lemma_bit_len_bound(x as nat, 53);
        lemma_bit_len_bound(x as nat, 52);
    }
    if e == 0 {
        n as u128
    } else {
        assert(bit_len(x as nat) == 53);
        let mut p: u128 = 1;
        let mut i: usize = 0;
        while i < e
            invariant
                i <= e <= 11,
                p == pow2n(i as nat),
                1 <= p <= 0x800,
            decreases e - i,
        {
            proof {
                reveal_with_fuel(pow2n, 12);
                assert(pow2n((i + 1) as nat) == 2 * pow2n(i as nat));
                lemma_pow2n_mono(i as nat, 10);
            }
            p = p * 2;
            i = i + 1;
        }
        let q = round_div(n as u128, p);
        assert(q * p <= 0x2_0000_0000_0000_0000) by (nonlinear_arith)
            requires
                q <= (n as u128) / p + 1,
                n < 0x1_0000_0000_0000_0000,
                0 < p <= 0x800,
        {
            assert(((n as u128) / p) * p <= n);
            assert(q * p <= ((n as u128) / p + 1) * p);
        }
        q * p
    }
}

/// The decimal numeral of `n`.
pub fn decimal_vec(n: u128) -> (v: Vec<char>)
    ensures
        v@ == decimal(n as nat),
    decreases n,
{
    if n >= 10 {
        let mut v = decimal_vec(n / 10);
        v.push(digit(n % 10));
        v
    } else {
        let mut v: Vec<char> = Vec::new();
        v.push(digit(n));
        assert(v@ =~= seq![digit_char(n as nat)]);
        v
    }
}

/// Appends the characters `v` to `s`.
pub fn push_chars(s: &mut String, v: &Vec<char>)
    ensures
        final(s)@ == old(s)@ + v@,
{
    let ghost s0 = s@;
    let mut i: usize = 0;
    while i < v.len()
        invariant
            i <= v.len(),
            s@ == s0 + v@.take(i as int),
        decreases v.len() - i,
    {
        push_char(s, v[i]);
        assert(v@.take(i + 1) =~= v@.take(i as int).push(v@[i as int]));
        i = i + 1;
    }
    assert(v@.take(v.len() as int) =~= v@);
}

/// Appends the decimal numeral of `n` to `s`.
pub fn push_decimal(s: &mut String, n: u128)
    ensures
        final(s)@ == old(s)@ + decimal(n as nat),
{
    let v = decimal_vec(n);
    push_chars(s, &v);
}

/// Appends the decimal numeral of `n`, zero-padded to `width` characters, to `s`.
pub fn push_padded(s: &mut String, n: u128, width: usize)
    ensures
        final(s)@ == old(s)@ + zero_padded(n as nat, width as nat),
{
    let v = decimal_vec(n);
    let ghost s0 = s@;
    if v.len() < width {
        let pad = width - v.len();
        let mut i: usize = 0;
        while i < pad
            invariant
                i <= pad,
                s@ == s0 + Seq::new(i as nat, |j: int| '0'),
            decreases pad - i,
        {
            push_char(s, '0');
            assert(Seq::new((i + 1) as nat, |j: int| '0') =~= Seq::new(i as nat, |j: int| '0').push('0'));
            i = i + 1;
        }
        push_chars(s, &v);
        assert(s@ =~= s0 + (Seq::new(pad as nat, |j: int| '0') + v@));
    } else {
        push_chars(s, &v);
    }
}

/// A byte count in the largest binary unit it reaches: `"1.50 GB"`, `"512 B"`.
/// The digits are those of the count converted to `f64` and divided by the unit,
/// rounded to the unit's places with ties to even.
pub fn fmtb(b: u64) -> (r: String)
    ensures
        r@ == fmtb_spec(b),
{
    proof {
        lemma_powers();
    }
    let mut s = String::new();
    if b >= 0x100_0000_0000 {
        let m = f64_round(b);
        push_fixed(&mut s, m, 0x100_0000_0000, 2);
        s.append(" TB");
    } else if b >= 0x4000_0000 {
        push_fixed(&mut s, b as u128, 0x4000_0000, 2);
        s.append(" GB");
    } else if b >= 0x10_0000 {
        push_fixed(&mut s, b as u128, 0x10_0000, 1);
        s.append(" MB");
    } else if b >= 0x400 {
        push_fixed(&mut s, b as u128, 0x400, 0);
        s.append(" KB");
    } else {
        push_decimal(&mut s, b as u128);
        s.append(" B");
    }
    s
}

/// A byte count in gibibytes with `places` decimals: `"{:.places$} GiB"` of the
/// count converted to `f64` and divided by 2^30.
pub fn fmt_gib(b: u64, places: usize) -> (r: String)
    requires
        places <= 3,
    ensures
        r@ == fixed(f64_value(b as nat), pow2n(30), places as nat) + " GiB"@,
{
    proof {
        lemma_powers();
    }
    let mut s = String::new();
    let m = f64_round(b);
    push_fixed(&mut s, m, 0x4000_0000, places);
    s.append(" GiB");
    s
}

/// An uptime of `s` seconds as hours, minutes and seconds: `"2h 03m 09s"`.
pub fn fmt_uptime(s: u64) -> (r: String)
    ensures
        r@ == uptime_spec(s),
{
    let mut t = String::new();
    push_decimal(&mut t, (s / 3600) as u128);
    t.append("h ");
    push_padded(&mut t, ((s % 3600) / 60) as u128, 2);
    t.append("m ");
    push_padded(&mut t, (s % 60) as u128, 2);
    t.append("s");
    t
}

/// An uptime of `s` seconds as days, hours, minutes and seconds: `"1d 02h 03m 09s"`.
pub fn fmt_uptime_long(s: u64) -> (r: String)
    ensures
        r@ == uptime_long_spec(s),
{
    let mut t = String::new();
    push_decimal(&mut t, (s / 86400) as u128);
    t.append("d ");
    push_padded(&mut t, ((s % 86400) / 3600) as u128, 2);
    t.append("h ");
    push_padded(&mut t, ((s % 3600) / 60) as u128, 2);
    t.append("m ");
    push_padded(&mut t, (s % 60) as u128, 2);
    t.append("s");
    t
}

/// The header badge for an uptime of `s` seconds: `"Up 2h 03m"`.
pub fn fmt_uptime_short(s: u64) -> (r: String)
    ensures
        r@ == uptime_short_spec(s),
{
    let mut t = String::new();
    t.append("Up ");
    push_decimal(&mut t, (s / 3600) as u128);
    t.append("h ");
    push_padded(&mut t, ((s % 3600) / 60) as u128, 2);
    t.append("m");
    t
}

} // verus!
