use vstd::prelude::*;
use crate::text::{decimal, digit_char, push_decimal, string_from};

verus! {

/// `n / d` rounded to the nearest integer, a tie to the even one.
pub open spec fn round_half_even(n: nat, d: nat) -> nat {
    let q = n / d;
    let r = n % d;
    if 2 * r > d || (2 * r == d && q % 2 == 1) {
        q + 1
    } else {
        q
    }
}

/// The distance between neighbouring `f64` values around `b`, searching up from `g`:
/// 1 below 2^53, doubling with each power of two above it.
pub open spec fn f64_gap_from(b: nat, g: nat) -> nat
    decreases 0x1000 - g,
{
    if g == 0 || g >= 0x800 || b < 0x20000000000000 * g {
        g
    } else {
        f64_gap_from(b, 2 * g)
    }
}

/// The value of `b as f64` for a `u64` `b`: `b` rounded to 53 significant bits,
/// a tie to the even neighbour.
pub open spec fn f64_value(b: nat) -> nat {
    let g = f64_gap_from(b, 1);
    round_half_even(b, g) * g
}

/// `x / 10` written with one decimal place.
pub open spec fn one_place(x: nat) -> Seq<char> {
    decimal(x / 10) + seq!['.', digit_char(x % 10)]
}

/// `x / 100` written with two decimal places.
pub open spec fn two_places(x: nat) -> Seq<char> {
    decimal(x / 100) + seq!['.', digit_char((x / 10) % 10), digit_char(x % 10)]
}

/// A byte count as the monitor shows it: `B` below 1024, then `KB` and `MB` with
/// one decimal place, and `GB` with two, each rounded as `{:.1}` and `{:.2}` round
/// the `f64` quotient.
pub open spec fn bytes_text(b: nat) -> Seq<char> {
    if b < 1024 {
        decimal(b) + " B"@
    } else if b < 1048576 {
        one_place(round_half_even(b * 10, 1024)) + " KB"@
    } else if b < 1073741824 {
        one_place(round_half_even(b * 10, 1048576)) + " MB"@
    } else {
        two_places(round_half_even(f64_value(b) * 100, 1073741824)) + " GB"@
    }
}

fn round_half_even_exec(n: u128, d: u128) -> (r: u128)
    requires
        0 < d < 0x1_0000_0000_0000_0000_0000,
        n < 0x1_0000_0000_0000_0000_0000_0000_0000,
    ensures
        r == round_half_even(n as nat, d as nat),
        r <= n as nat / d as nat + 1,
{
    let q = n / d;
    let r = n % d;
    assert(q <= n) by (nonlinear_arith)
        requires
            q == n / d,
            d > 0,
    ;
    if 2 * r > d || (2 * r == d && q % 2 == 1) {
        q + 1
    } else {
        q
    }
}

fn f64_value_exec(b: u64) -> (v: u128)
    ensures
        v == f64_value(b as nat),
        v <= 0x2_0000_0000_0000_0000,
{
    let mut g: u128 = 1;
    while !(g >= 0x800 || (b as u128) < 0x20000000000000 * g)
        invariant
            1 <= g <= 0x1000,
            f64_gap_from(b as nat, g as nat) == f64_gap_from(b as nat, 1),
        decreases 0x1000 - g,
    {
        g = 2 * g;
    }
    let q = round_half_even_exec(b as u128, g);
    assert(q * g <= 0x2_0000_0000_0000_0000) by (nonlinear_arith)
        requires
            q <= (b as nat) / (g as nat) + 1,
            1 <= g <= 0x1000,
            b < 0x1_0000_0000_0000_0000,
    {
        assert(((b as nat) / (g as nat)) * g <= b);
        assert(q * g <= ((b as nat) / (g as nat) + 1) * g);
    }
    q * g
}

fn push_places(out: &mut Vec<char>, x: u128, places: u128)
    requires
        places == 10 || places == 100,
        x < 0x1000_0000_0000_0000,
    ensures
        places == 10 ==> final(out)@ == old(out)@ + one_place(x as nat),
        places == 100 ==> final(out)@ == old(out)@ + two_places(x as nat),
{
    let ghost start = out@;
    let whole = (x / places) as u64;
    push_decimal(out, whole);
    let ghost after_whole = out@;
    out.push('.');
    if places == 100 {
        let tenths = ((x / 10) % 10) as u8;
        out.push((tenths + 48u8) as char);
    }
    let last = (x % 10) as u8;
    out.push((last + 48u8) as char);
    if places == 10 {
        assert(out@ =~= start + one_place(x as nat));
    } else {
        assert(out@ =~= start + two_places(x as nat));
    }
}

/// Formats a byte count with its unit.
pub fn fmt_bytes(b: u64) -> (s: String)
    ensures
        s@ == bytes_text(b as nat),
{
    let mut v: Vec<char> = Vec::new();
    let unit: &str;
    if b < 1024 {
        push_decimal(&mut v, b);
        unit = " B";
    } else if b < 1048576 {
        let x = round_half_even_exec(b as u128 * 10, 1024);
        push_places(&mut v, x, 10);
        unit = " KB";
    } else if b < 1073741824 {
        let x = round_half_even_exec(b as u128 * 10, 1048576);
        push_places(&mut v, x, 10);
        unit = " MB";
    } else {
        let f = f64_value_exec(b);
        let x = round_half_even_exec(f * 100, 1073741824);
        push_places(&mut v, x, 100);
        unit = " GB";
    }
    let mut s = string_from(&v);
    s.append(unit);
    s
}

} // verus!
