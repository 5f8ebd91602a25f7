//! Human-readable byte counts with one decimal, as `format!("{:.1}")` prints
//! the `f64` quotient: the count is first rounded to the nearest `f64`, the
//! division by a power of 1024 is exact, and the decimal is rounded half to
//! even.
use vstd::prelude::*;
use crate::text::{chars_of, decimal, digit_char, push_all};

verus! {

pub open spec fn two53() -> nat {
    9007199254740992
}

pub open spec fn pow2k(k: nat) -> nat
    decreases k,
{
    if k == 0 {
        1
    } else {
        2 * pow2k((k - 1) as nat)
    }
}

/// `n / d` rounded to the nearest integer, ties to even.
pub open spec fn round_half_even(n: nat, d: nat) -> nat {
    let q = n / d;
    let r = n % d;
    if 2 * r > d || (2 * r == d && q % 2 == 1) {
        q + 1
    } else {
        q
    }
}

/// `n` rounded to 53 significant bits from exponent `k` on.
pub open spec fn f64_round_from(n: nat, k: nat) -> nat
    decreases 12 - k,
{
    if k >= 11 || n / pow2k(k) < two53() {
        round_half_even(n, pow2k(k)) * pow2k(k)
    } else {
        f64_round_from(n, k + 1)
    }
}

/// The value of `n as f64` for a `u64` `n`: the nearest double, ties to even.
pub open spec fn f64_of(n: nat) -> nat {
    f64_round_from(n, 0)
}

/// The digits of `x / unit` with one decimal.
pub open spec fn one_decimal(x: nat, unit: nat) -> Seq<char> {
    let t = round_half_even(x * 10, unit);
    decimal(t / 10) + seq!['.', digit_char(t % 10)]
}

/// The byte count as the non-renderable card shows it: `B` below 1024,
/// then KB, MB, GB with one decimal.
pub open spec fn human_size_spec(n: nat) -> Seq<char> {
    let b = f64_of(n);
    if b < 1024 {
        decimal(n) + " B"@
    } else if b < 1048576 {
        one_decimal(b, 1024) + " KB"@
    } else if b < 1073741824 {
        one_decimal(b, 1048576) + " MB"@
    } else {
        one_decimal(b, 1073741824) + " GB"@
    }
}

fn round_half_even_exec(n: u128, d: u128) -> (r: u128)
    requires
        d > 0,
        d <= 0x1_0000_0000_0000_0000,
        n <= 0x100_0000_0000_0000_0000_0000,
    ensures
        r == round_half_even(n as nat, d as nat),
        r <= n / d + 1,
{
    let q = n / d;
    let rem = n % d;
    assert(rem < d);
    assert(q <= n) by (nonlinear_arith)
        requires
            d > 0,
            q == n / d,
    ;
    if 2 * rem > d || (2 * rem == d && q % 2 == 1) {
        q + 1
    } else {
        q
    }
}

proof fn lemma_pow2k_mono(a: nat, b: nat)
    requires
        a <= b,
    ensures
        1 <= pow2k(a) <= pow2k(b),
    decreases b - a,
{
    if a < b {
        lemma_pow2k_mono(a, (b - 1) as nat);
    } else {
        lemma_pow2k_pos(a);
    }
}

proof fn lemma_pow2k_pos(a: nat)
    ensures
        1 <= pow2k(a),
    decreases a,
{
    if a > 0 {
        lemma_pow2k_pos((a - 1) as nat);
    }
}

/// The value of `n as f64`, as an integer.
pub fn f64_of_exec(n: u64) -> (r: u128)
    ensures
        r == f64_of(n as nat),
        r <= 0x1_0000_0000_0000_0000,
{
    let mut k: u32 = 0;
    let mut p: u128 = 1;
    let nn = n as u128;
    assert(pow2k(10) == 1024) by {
        reveal_with_fuel(pow2k, 11);
    }
    assert(pow2k(0) == 1);
    while k < 11 && nn / p >= 9007199254740992
        invariant
            k <= 11,
            p == pow2k(k as nat),
            1 <= p <= 2048,
            pow2k(10) == 1024,
            nn == n,
            f64_round_from(n as nat, k as nat) == f64_of(n as nat),
        decreases 11 - k,
    {
        proof {
            lemma_pow2k_mono(k as nat, 10);
        }
        assert(f64_round_from(n as nat, k as nat) == f64_round_from(n as nat, (k + 1) as nat));
        assert(pow2k((k + 1) as nat) == 2 * pow2k(k as nat));
        p = p * 2;
        k = k + 1;
    }
    if k == 11 {
        proof {
            assert(pow2k(11) == 2 * pow2k(10));
        }
        assert(p == 2048);
        assert(nn / p < 9007199254740992) by (nonlinear_arith)
            requires
                p == 2048,
                nn < 0x1_0000_0000_0000_0000,
        ;
    }
    assert(f64_round_from(n as nat, k as nat) == round_half_even(n as nat, p as nat) * p);
    let q = round_half_even_exec(nn, p);
    assert(q <= 9007199254740992);
    assert(q * p <= 0x1_0000_0000_0000_0000) by (nonlinear_arith)
        requires
            1 <= p <= 2048,
            q <= 9007199254740992,
    {
    }
    q * p
}

fn one_decimal_exec(x: u128, unit: u128) -> (r: Vec<char>)
    requires
        x <= 0x1_0000_0000_0000_0000,
        unit > 0,
        unit <= 0x1_0000_0000_0000_0000,
    ensures
        r@ == one_decimal(x as nat, unit as nat),
{
    let t = round_half_even_exec(x * 10, unit);
    assert(t <= x * 10 + 1) by (nonlinear_arith)
        requires
            unit > 0,
            t == round_half_even((x * 10) as nat, unit as nat),
    ;
    let mut r = decimal_chars_u128(t / 10);
    r.push('.');
    let d = ((t % 10) as u8 + 48) as char;
    assert(d == digit_char((t % 10) as nat));
    r.push(d);
    r
}

fn decimal_chars_u128(n: u128) -> (r: Vec<char>)
    ensures
        r@ == decimal(n as nat),
    decreases n,
{
    if n < 10 {
        let d = ((n as u8) + 48) as char;
        assert(d == digit_char(n as nat));
        vec![d]
    } else {
        let mut r = decimal_chars_u128(n / 10);
        let d = (((n % 10) as u8) + 48) as char;
        assert(d == digit_char((n % 10) as nat));
        r.push(d);
        r
    }
}

/// A byte count for people: `"512 B"`, `"48.3 KB"`, `"1.5 MB"`, `"2.0 GB"`.
pub fn human_size(bytes: u64) -> (r: Vec<char>)
    ensures
        r@ == human_size_spec(bytes as nat),
{
    let b = f64_of_exec(bytes);
    if b < 1024 {
        let mut r = decimal_chars_u128(bytes as u128);
        push_all(&mut r, &chars_of(" B"));
        r
    } else if b < 1048576 {
        let mut r = one_decimal_exec(b, 1024);
        push_all(&mut r, &chars_of(" KB"));
        r
    } else if b < 1073741824 {
        let mut r = one_decimal_exec(b, 1048576);
        push_all(&mut r, &chars_of(" MB"));
        r
    } else {
        let mut r = one_decimal_exec(b, 1073741824);
        push_all(&mut r, &chars_of(" GB"));
        r
    }
}

/// A byte count in KB with one decimal, as the streaming banner shows it.
pub fn kilobytes(bytes: u64) -> (r: Vec<char>)
    ensures
        r@ == one_decimal(f64_of(bytes as nat), 1024),
{
    let b = f64_of_exec(bytes);
    one_decimal_exec(b, 1024)
}

} // verus!
