//! Human-readable sizes and durations: `12.3 MB`, `4h 5m`.
//!
//! Sizes are shown with one decimal of the exact quotient that a double
//! holds, rounded to nearest with ties to even, which is what `{:.1}` prints
//! for a binary floating-point value. The quotients are computed here with
//! integers only.

use vstd::prelude::*;
use crate::num::{decimal, digit_char, push_decimal};
use crate::text::{push_char, push_str};

verus! {

/// 2^10, 2^20, 2^30.
pub const KIB: u64 = 1024;
pub const MIB: u64 = 1048576;
pub const GIB: u64 = 1073741824;

/// 2^53: integers below it are exact doubles.
pub const F64_EXACT: u64 = 9007199254740992;

/// `n / d` rounded to the nearest integer, ties to the even one.
pub open spec fn round_div(n: nat, d: nat) -> nat
    recommends
        d > 0,
{
    let q = n / d;
    let r = n % d;
    if 2 * r > d || (2 * r == d && q % 2 == 1) {
        q + 1
    } else {
        q
    }
}

/// The spacing of doubles around `x`: 1 below 2^53, doubling with each
/// further bit.
pub open spec fn f64_step(x: nat) -> nat
    decreases x,
{
    if x < F64_EXACT {
        1
    } else {
        2 * f64_step(x / 2)
    }
}

/// `x as f64` for an integer `x`: the nearest double, ties to even.
pub open spec fn as_f64(x: nat) -> nat {
    round_div(x, f64_step(x)) * f64_step(x)
}

/// A count of tenths printed with one decimal: `123` is `12.3`.
pub open spec fn tenths_text(t: nat) -> Seq<char> {
    decimal(t / 10) + seq!['.', digit_char((t % 10) as int)]
}

/// `{:.1}` of the quotient `as_f64(x) / d`, then `unit`.
pub open spec fn scaled_text(x: nat, d: nat, unit: Seq<char>) -> Seq<char> {
    tenths_text(round_div(10 * as_f64(x), d)) + unit
}

/// `format_bytes`: B below 1 KiB, else KB, MB or GB with one decimal.
pub open spec fn format_bytes_spec(b: nat) -> Seq<char> {
    if b < KIB {
        decimal(b) + " B"@
    } else if b < MIB {
        scaled_text(b, KIB as nat, " KB"@)
    } else if b < GIB {
        scaled_text(b, MIB as nat, " MB"@)
    } else {
        scaled_text(b, GIB as nat, " GB"@)
    }
}

/// `format_memory`: a size given in KB, as KB, MB or GB.
pub open spec fn format_memory_spec(kb: nat) -> Seq<char> {
    if kb < KIB {
        decimal(kb) + " KB"@
    } else if kb < MIB {
        scaled_text(kb, KIB as nat, " MB"@)
    } else {
        scaled_text(kb, MIB as nat, " GB"@)
    }
}

/// `format_duration`: the two largest units of `s` seconds.
pub open spec fn format_duration_spec(s: nat) -> Seq<char> {
    if s < 60 {
        decimal(s) + "s"@
    } else if s < 3600 {
        decimal(s / 60) + "m "@ + decimal(s % 60) + "s"@
    } else if s < 86400 {
        decimal(s / 3600) + "h "@ + decimal((s % 3600) / 60) + "m"@
    } else {
        decimal(s / 86400) + "d "@ + decimal((s % 86400) / 3600) + "h"@
    }
}

/// Doubles are spaced at most 2^11 apart below 2^64.
proof fn lemma_f64_step_bound(x: nat)
    ensures
        f64_step(x) >= 1,
        f64_step(x) == 1 || f64_step(x) * 4503599627370496 <= x,
    decreases x,
{
    if x >= F64_EXACT {
        lemma_f64_step_bound(x / 2);
        let p = f64_step(x / 2);
        assert(x / 2 * 2 <= x);
        if p != 1 {
            assert(2 * p * 4503599627370496 <= x) by (nonlinear_arith)
                requires
                    p * 4503599627370496 <= x / 2,
                    x / 2 * 2 <= x,
            ;
        }
    }
}

/// Executable `f64_step`.
fn f64_step_of(x: u64) -> (p: u64)
    ensures
        p == f64_step(x as nat),
        1 <= p <= 4096,
    decreases x,
{
    proof {
        lemma_f64_step_bound(x as nat);
    }
    if x < F64_EXACT {
        1
    } else {
        let h = f64_step_of(x / 2);
        proof {
            if h != 1 {
                assert(h * 4503599627370496 <= x / 2);
            }
        }
        2 * h
    }
}

/// Executable `round_div`.
fn round_div_exec(n: u128, d: u128) -> (r: u128)
    requires
        d > 0,
        n < 0x1_0000_0000_0000_0000_0000,
    ensures
        r == round_div(n as nat, d as nat),
        r <= n / d + 1,
{
    let q = n / d;
    let rem = n % d;
    if rem > d - rem || (rem == d - rem && q % 2 == 1) {
        q + 1
    } else {
        q
    }
}

/// Executable `as_f64`.
fn as_f64_exec(x: u64) -> (v: u128)
    ensures
        v == as_f64(x as nat),
        v <= x + 4096,
{
    let p = f64_step_of(x);
    let m = round_div_exec(x as u128, p as u128);
    assert(m * p <= x + p) by (nonlinear_arith)
        requires
            m <= x / p + 1,
            p >= 1,
    {
        assert((x / p) * p <= x) by (nonlinear_arith)
            requires
                p >= 1,
        ;
    }
    m * (p as u128)
}

/// Appends `tenths_text(t)`.
fn push_tenths(s: &mut String, t: u128)
    requires
        t / 10 <= u64::MAX,
    ensures
        final(s)@ == old(s)@ + tenths_text(t as nat),
{
    push_decimal(s, (t / 10) as u64);
    push_char(s, '.');
    let d = (t % 10) as u8;
    push_char(s, (d + 48u8) as char);
    assert(s@ =~= old(s)@ + tenths_text(t as nat));
}

/// Appends `scaled_text(x, d, unit)`.
fn push_scaled(s: &mut String, x: u64, d: u64, unit: &str)
    requires
        d >= 10,
    ensures
        final(s)@ == old(s)@ + scaled_text(x as nat, d as nat, unit@),
{
    let v = as_f64_exec(x);
    let t = round_div_exec(10 * v, d as u128);
    proof {
        vstd::arithmetic::div_mod::lemma_div_is_ordered_by_denominator(10 * v, 10, d as int);
        assert((10 * v) / 10 == v);
        assert(t / 10 <= u64::MAX);
    }
    push_tenths(s, t);
    push_str(s, unit);
    assert(s@ =~= old(s)@ + scaled_text(x as nat, d as nat, unit@));
}

/// "512 B", "1.5 KB", "12.3 MB", "2.0 GB".
pub fn format_bytes(bytes: u64) -> (r: String)
    ensures
        r@ == format_bytes_spec(bytes as nat),
{
    let mut s = String::new();
    if bytes < KIB {
        push_decimal(&mut s, bytes);
        push_str(&mut s, " B");
    } else if bytes < MIB {
        push_scaled(&mut s, bytes, KIB, " KB");
    } else if bytes < GIB {
        push_scaled(&mut s, bytes, MIB, " MB");
    } else {
        push_scaled(&mut s, bytes, GIB, " GB");
    }
    assert(s@ =~= format_bytes_spec(bytes as nat));
    s
}

/// A size given in KB, shown as `format_bytes` of its bytes.
pub fn format_kb(kb: u64) -> (r: String)
    requires
        kb * 1024 <= u64::MAX,
    ensures
        r@ == format_bytes_spec((kb * 1024) as nat),
{
    format_bytes(kb * 1024)
}

/// A size given in KB: "512 KB", "1.5 MB", "2.0 GB".
pub fn format_memory(kb: u64) -> (r: String)
    ensures
        r@ == format_memory_spec(kb as nat),
{
    let mut s = String::new();
    if kb < KIB {
        push_decimal(&mut s, kb);
        push_str(&mut s, " KB");
    } else if kb < MIB {
        push_scaled(&mut s, kb, KIB, " MB");
    } else {
        push_scaled(&mut s, kb, MIB, " GB");
    }
    assert(s@ =~= format_memory_spec(kb as nat));
    s
}

/// "42s", "5m 3s", "4h 12m", "3d 7h".
pub fn format_duration(secs: u64) -> (r: String)
    ensures
        r@ == format_duration_spec(secs as nat),
{
    let mut s = String::new();
    if secs < 60 {
        push_decimal(&mut s, secs);
        push_str(&mut s, "s");
    } else if secs < 3600 {
        push_decimal(&mut s, secs / 60);
        push_str(&mut s, "m ");
        push_decimal(&mut s, secs % 60);
        push_str(&mut s, "s");
    } else if secs < 86400 {
        push_decimal(&mut s, secs / 3600);
        push_str(&mut s, "h ");
        push_decimal(&mut s, (secs % 3600) / 60);
        push_str(&mut s, "m");
    } else {
        push_decimal(&mut s, secs / 86400);
        push_str(&mut s, "d ");
        push_decimal(&mut s, (secs % 86400) / 3600);
        push_str(&mut s, "h");
    }
    assert(s@ =~= format_duration_spec(secs as nat));
    s
}

/// A memory size given in KiB: as `format_kb` shows it, or in KB when
/// the byte count would not fit in a `u64`.
pub fn memory_text(kb: u64) -> (r: String)
    ensures
        r@ == (if kb * 1024 <= u64::MAX {
            format_bytes_spec((kb * 1024) as nat)
        } else {
            decimal(kb as nat) + " KB"@
        }),
{
    if kb <= u64::MAX / 1024 {
        format_kb(kb)
    } else {
        let mut s = String::new();
        push_decimal(&mut s, kb);
        push_str(&mut s, " KB");
        s
    }
}

} // verus!
