//! Human-readable byte sizes ("512 B", "3 KB", "1.5 MB", "2.0 GB").
//!
//! The sizes are written the way a division of the size as an `f64`,
//! formatted with no or one decimal, writes them. Here that is computed
//! exactly with integers: the conversion of the size to the nearest `f64`
//! (ties to even), the exact division by a power of two, and the rounding of
//! the printed decimal (ties to even).

use vstd::prelude::*;
use crate::text::{decimal, digit_char, push_char, u64_to_text, digit};

verus! {

/// `q + r/d` rounded to an integer, ties to even.
pub open spec fn round_half_even(q: nat, r: nat, d: nat) -> nat {
    if 2 * r > d || (2 * r == d && q % 2 == 1) {
        q + 1
    } else {
        q
    }
}

/// The spacing of the `f64` values around `n`: 1 below 2^53, doubling with
/// every further bit of `n`.
pub open spec fn f64_unit(n: nat) -> nat
    decreases n,
{
    if n < 0x20_0000_0000_0000 {
        1
    } else {
        2 * f64_unit(n / 2)
    }
}

/// The value of `n as f64`: `n` rounded to a multiple of its unit, ties to even.
pub open spec fn f64_round(n: nat) -> nat {
    round_half_even(n / f64_unit(n), n % f64_unit(n), f64_unit(n)) * f64_unit(n)
}

/// `x / 2^k` printed with one decimal: the tenths, rounded half to even.
pub open spec fn tenths(x: nat, d: nat) -> nat {
    round_half_even((10 * x) / d, (10 * x) % d, d)
}

/// Text of a number of tenths: "12.3".
pub open spec fn one_decimal(t: nat) -> Seq<char> {
    decimal(t / 10) + seq!['.', digit_char(t % 10)]
}

/// The size text for `n` bytes.
pub open spec fn size_text(n: nat) -> Seq<char> {
    if n < 1024 {
        decimal(n) + seq![' ', 'B']
    } else if n < 0x10_0000 {
        decimal(round_half_even(n / 1024, n % 1024, 1024)) + seq![' ', 'K', 'B']
    } else if n < 0x4000_0000 {
        one_decimal(tenths(n, 0x10_0000)) + seq![' ', 'M', 'B']
    } else {
        one_decimal(tenths(f64_round(n), 0x4000_0000)) + seq![' ', 'G', 'B']
    }
}

proof fn lemma_unit_pos(n: nat)
    ensures
        f64_unit(n) >= 1,
    decreases n,
{
    if n >= 0x20_0000_0000_0000 {
        lemma_unit_pos(n / 2);
    }
}

proof fn lemma_floor_div(n: int, p: int, m: int)
    requires
        p > 0,
        m * p <= n < (m + 1) * p,
    ensures
        n / p == m,
        n % p == n - m * p,
{
    assert((m + 1) * p == m * p + p) by (nonlinear_arith);
    assert(m * p == p * m) by (nonlinear_arith);
    vstd::arithmetic::div_mod::lemma_fundamental_div_mod_converse(n, p, m, n - m * p);
}

/// `q` rounded half to even by `r` out of `d`.
fn round_he(q: u128, r: u128, d: u128) -> (res: u128)
    requires
        r < d,
        d <= 0x1_0000_0000_0000_0000_0000,
        q < 0x1_0000_0000_0000_0000_0000,
    ensures
        res == round_half_even(q as nat, r as nat, d as nat),
{
    if 2 * r > d || (2 * r == d && q % 2 == 1) {
        q + 1
    } else {
        q
    }
}

/// The value of `n as f64`, computed with integers.
fn to_f64_value(n: u64) -> (f: u128)
    ensures
        f == f64_round(n as nat),
        f < 0x1_0000_0000_0000_1000,
{
    let mut m: u64 = n;
    let mut p: u128 = 1;
    while m >= 0x20_0000_0000_0000
        invariant
            p >= 1,
            (m as int) * (p as int) <= n as int,
            (n as int) < (m as int + 1) * (p as int),
            f64_unit(n as nat) == p * f64_unit(m as nat),
            p == 1 || m >= 0x10_0000_0000_0000,
            p <= 0x1000,
        decreases m,
    {
        let ghost m0 = m as int;
        let ghost p0 = p as int;
        proof {
            assert(p0 * 2 <= 0x1000) by (nonlinear_arith)
                requires
                    m0 >= 0x20_0000_0000_0000,
                    m0 * p0 <= 0xFFFF_FFFF_FFFF_FFFF,
                    p0 >= 1,
                    p0 <= 0x1000,
            ;
        }
        m = m / 2;
        p = p * 2;
        proof {
            let m1 = m as int;
            assert(m0 == 2 * m1 || m0 == 2 * m1 + 1);
            assert(m1 * (2 * p0) <= m0 * p0) by (nonlinear_arith)
                requires
                    m0 == 2 * m1 || m0 == 2 * m1 + 1,
                    p0 >= 1,
                    m1 >= 0,
            ;
            assert((m0 + 1) * p0 <= (m1 + 1) * (2 * p0)) by (nonlinear_arith)
                requires
                    m0 == 2 * m1 || m0 == 2 * m1 + 1,
                    p0 >= 1,
            ;
            assert(f64_unit(m0 as nat) == 2 * f64_unit(m1 as nat));
            let u1 = f64_unit(m1 as nat) as int;
            assert(p0 * (2 * u1) == (p0 * 2) * u1) by (nonlinear_arith);
        }
    }
    proof {
        lemma_floor_div(n as int, p as int, m as int);
        assert(f64_unit(m as nat) == 1);
        let u = f64_unit(m as nat) as int;
        assert((p as int) * u == p as int) by (nonlinear_arith)
            requires
                u == 1,
        ;
        assert(p == f64_unit(n as nat));
    }
    let q = m as u128;
    let r = (n as u128) - (m as u128) * p;
    let q2 = round_he(q, r, p);
    proof {
        assert((q2 as int) * (p as int) < 0x1_0000_0000_0000_1000) by (nonlinear_arith)
            requires
                q2 <= q + 1,
                (q as int) * (p as int) <= n as int,
                (n as int) <= 0xFFFF_FFFF_FFFF_FFFF,
                1 <= p <= 0x1000,
        ;
    }
    q2 * p
}

/// `x/d` with one decimal, as tenths.
fn tenths_of(x: u128, d: u128) -> (t: u64)
    requires
        x < 0x1_0000_0000_0000_1000,
        0x10_0000 <= d <= 0x4000_0000,
    ensures
        t == tenths(x as nat, d as nat),
{
    let q = (10 * x) / d;
    let r = (10 * x) % d;
    proof {
        vstd::arithmetic::div_mod::lemma_fundamental_div_mod((10 * x) as int, d as int);
        assert((q as int) < 0x1000_0000_0000_0000) by (nonlinear_arith)
            requires
                (d as int) * (q as int) <= 10 * (x as int),
                d >= 0x10_0000,
                x < 0x1_0000_0000_0000_1000,
                q >= 0,
        ;
    }
    assert(r < d);
    assert(q < 0x1_0000_0000_0000_0000_0000);
    round_he(q, r, d) as u64
}

fn one_decimal_text(t: u64) -> (s: String)
    ensures
        s@ == one_decimal(t as nat),
{
    let mut s = u64_to_text(t / 10);
    push_char(&mut s, '.');
    push_char(&mut s, digit(t % 10));
    s
}

/// Human-readable size of `n` bytes: bytes below 1 KiB, whole KB below
/// 1 MiB, MB with one decimal below 1 GiB, GB with one decimal above.
pub fn fmt_size(n: u64) -> (r: String)
    ensures
        r@ == size_text(n as nat),
{
    let mut s;
    if n < 1024 {
        s = u64_to_text(n);
        push_char(&mut s, ' ');
        push_char(&mut s, 'B');
    } else if n < 0x10_0000 {
        let k = round_he((n / 1024) as u128, (n % 1024) as u128, 1024);
        s = u64_to_text(k as u64);
        push_char(&mut s, ' ');
        push_char(&mut s, 'K');
        push_char(&mut s, 'B');
    } else if n < 0x4000_0000 {
        let t = tenths_of(n as u128, 0x10_0000);
        s = one_decimal_text(t);
        push_char(&mut s, ' ');
        push_char(&mut s, 'M');
        push_char(&mut s, 'B');
    } else {
        let f = to_f64_value(n);
        let t = tenths_of(f, 0x4000_0000);
        s = one_decimal_text(t);
        push_char(&mut s, ' ');
        push_char(&mut s, 'G');
        push_char(&mut s, 'B');
    }
    assert(s@ =~= size_text(n as nat));
    s
}

// ---------------------------------------------------------------------------
// Laws
// ---------------------------------------------------------------------------

proof fn lemma_nearest(x: nat, d: nat)
    requires
        d > 0,
    ensures
        2 * (x - round_half_even(x / d, x % d, d) * d) <= d,
        2 * (round_half_even(x / d, x % d, d) * d - x) <= d,
{
    let q = x / d;
    let r = x % d;
    vstd::arithmetic::div_mod::lemma_fundamental_div_mod(x as int, d as int);
    assert(0 <= r < d) by {
        vstd::arithmetic::div_mod::lemma_mod_pos_bound(x as int, d as int);
    }
    assert((q + 1) * d == q * d + d) by (nonlinear_arith);
    assert(q * d == d * q) by (nonlinear_arith);
}

/// A size is written in the largest unit it reaches: bytes below 1024, then
/// KB below 1024 KB, then MB below 1024 MB, then GB; in KB the number is
/// the nearest whole number of KB, and in MB the nearest tenth of a MB.
pub proof fn law_size_units(n: nat)
    ensures
        n < 1024 ==> size_text(n) == decimal(n) + " B"@,
        1024 <= n < 0x10_0000 ==> exists|k: nat|
            size_text(n) == decimal(k) + " KB"@ && 2 * (k * 1024 - n) <= 1024 && 2 * (n - k
                * 1024) <= 1024,
        0x10_0000 <= n < 0x4000_0000 ==> exists|t: nat|
            size_text(n) == one_decimal(t) + " MB"@ && 2 * (t * 0x10_0000 - 10 * n) <= 0x10_0000
                && 2 * (10 * n - t * 0x10_0000) <= 0x10_0000,
        n >= 0x4000_0000 ==> exists|t: nat| size_text(n) == one_decimal(t) + " GB"@,
{
    reveal_strlit(" B");
    reveal_strlit(" KB");
    reveal_strlit(" MB");
    reveal_strlit(" GB");
    assert(seq![' ', 'B'] =~= " B"@);
    assert(seq![' ', 'K', 'B'] =~= " KB"@);
    assert(seq![' ', 'M', 'B'] =~= " MB"@);
    assert(seq![' ', 'G', 'B'] =~= " GB"@);
    if 1024 <= n < 0x10_0000 {
        lemma_nearest(n, 1024);
        let k = round_half_even(n / 1024, n % 1024, 1024);
        assert(size_text(n) == decimal(k) + " KB"@);
    } else if 0x10_0000 <= n < 0x4000_0000 {
        lemma_nearest(10 * n, 0x10_0000);
        let t = tenths(n, 0x10_0000);
        assert(size_text(n) == one_decimal(t) + " MB"@);
    } else if n >= 0x4000_0000 {
        let t = tenths(f64_round(n), 0x4000_0000);
        assert(size_text(n) == one_decimal(t) + " GB"@);
    }
}

} // verus!
