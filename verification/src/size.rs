//! Human-readable file sizes.
use vstd::prelude::*;
use vstd::string::*;
use crate::text::{decimal, decimal_string};

verus! {

/// 2^53: integers below it are exactly representable as `f64`.
pub open spec fn f64_exact_limit() -> nat {
    0x20000000000000
}

/// Doubles `p` (at most `fuel` times) until `s / p` fits in 53 bits.
pub open spec fn scale_from(s: nat, p: nat, fuel: nat) -> nat
    decreases fuel,
{
    if fuel == 0 || s / p < f64_exact_limit() {
        p
    } else {
        scale_from(s, 2 * p, (fuel - 1) as nat)
    }
}

/// The power of two that is the spacing of `f64` values around `s`
/// (1 below 2^53; for a `u64`, at most 2^11).
pub open spec fn f64_spacing(s: nat) -> nat {
    scale_from(s, 1, 11)
}

/// The value of `s as f64`: `s` rounded to the nearest multiple of its
/// spacing, ties going to the even multiple.
pub open spec fn as_f64_value(s: nat) -> nat {
    let p = f64_spacing(s);
    let q = s / p;
    let r = s % p;
    if p == 1 {
        s
    } else if r > p / 2 || (r == p / 2 && q % 2 == 1) {
        ((q + 1) * p) as nat
    } else {
        (q * p) as nat
    }
}

/// `num / den` rounded to the nearest integer, ties going to the even one.
pub open spec fn round_half_even(num: nat, den: nat) -> nat {
    let q = num / den;
    let r = num % den;
    if 2 * r > den || (2 * r == den && q % 2 == 1) {
        q + 1
    } else {
        q
    }
}

/// Index of the unit a size is shown in: 0 = B, 1 = KB, 2 = MB, 3 = GB, 4 = TB.
pub open spec fn size_unit_index(s: nat) -> nat {
    if s < 1024 {
        0
    } else if s < 1048576 {
        1
    } else if s < 1073741824 {
        2
    } else if s < 1099511627776 {
        3
    } else {
        4
    }
}

/// The number of bytes in one of the unit with index `k`.
pub open spec fn unit_bytes(k: nat) -> nat {
    if k == 0 {
        1
    } else if k == 1 {
        1024
    } else if k == 2 {
        1048576
    } else if k == 3 {
        1073741824
    } else {
        1099511627776
    }
}

/// The name of the unit with index `k`.
pub open spec fn unit_name(k: nat) -> Seq<char> {
    if k == 0 {
        seq!['B']
    } else if k == 1 {
        seq!['K', 'B']
    } else if k == 2 {
        seq!['M', 'B']
    } else if k == 3 {
        seq!['G', 'B']
    } else {
        seq!['T', 'B']
    }
}

/// How a size is shown: whole bytes below 1024 (`"512 B"`), otherwise the
/// size in the largest unit below 1024 of it (TB at most) with one decimal,
/// rounded half to even (`"1.5 KB"`), as `{:.1}` prints the `f64` value.
pub open spec fn size_text(s: nat) -> Seq<char> {
    let k = size_unit_index(s);
    if k == 0 {
        decimal(s) + seq![' ', 'B']
    } else {
        let t = round_half_even(10 * as_f64_value(s), unit_bytes(k));
        decimal(t / 10) + seq!['.'] + decimal(t % 10) + seq![' '] + unit_name(k)
    }
}

proof fn lemma_scale_bounds(s: nat, p: nat, fuel: nat)
    requires
        p >= 1,
    ensures
        scale_from(s, p, fuel) >= p,
    decreases fuel,
{
    if !(fuel == 0 || s / p < f64_exact_limit()) {
        lemma_scale_bounds(s, 2 * p, (fuel - 1) as nat);
    }
}

/// The value of `s as f64`, computed exactly.
fn f64_value(s: u64) -> (f: u128)
    ensures
        f as nat == as_f64_value(s as nat),
        f <= 0x10000000000000000,
{
    let mut p: u64 = 1;
    let mut fuel: u64 = 11;
    proof {
        reveal_with_fuel(pow2_of, 12);
    }
    while fuel > 0 && s / p >= 0x20000000000000
        invariant
            1 <= p,
            fuel <= 11,
            p * pow2_of(fuel) == 2048,
            f64_spacing(s as nat) == scale_from(s as nat, p as nat, fuel as nat),
        decreases fuel,
    {
        proof {
            lemma_pow2_of_step(fuel);
            lemma_pow2_of_pos((fuel - 1) as u64);
            assert(p <= 1024) by (nonlinear_arith)
                requires
                    p * pow2_of(fuel) == 2048,
                    pow2_of(fuel) == 2 * pow2_of((fuel - 1) as u64),
                    pow2_of((fuel - 1) as u64) >= 1;
            assert((2 * p) * pow2_of((fuel - 1) as u64) == 2048) by (nonlinear_arith)
                requires
                    p * pow2_of(fuel) == 2048,
                    pow2_of(fuel) == 2 * pow2_of((fuel - 1) as u64);
        }
        p = p * 2;
        fuel = fuel - 1;
    }
    proof {
        lemma_pow2_of_pos(fuel);
        assert(p <= 2048) by (nonlinear_arith)
            requires
                p * pow2_of(fuel) == 2048,
                pow2_of(fuel) >= 1;
        if fuel == 0 {
            assert(pow2_of(0) == 1);
            assert(pow2_of(fuel) == 1);
            assert(p == 2048) by (nonlinear_arith)
                requires
                    p * pow2_of(fuel) == 2048,
                    pow2_of(fuel) == 1;
        }
    }
    proof {
        lemma_pow2_of_pos(fuel);
        assert(p <= 2048) by (nonlinear_arith)
            requires
                p * pow2_of(fuel) == 2048,
                pow2_of(fuel) >= 1;
        if fuel == 0 {
            assert(pow2_of(0) == 1);
            assert(pow2_of(fuel) == 1);
            assert(p == 2048) by (nonlinear_arith)
                requires
                    p * pow2_of(fuel) == 2048,
                    pow2_of(fuel) == 1;
        }
    }
    let q = s / p;
    let r = s % p;
    if p == 1 {
        s as u128
    } else if r > p / 2 || (r == p / 2 && q % 2 == 1) {
        assert((q + 1) * p <= 0x10000000000000000) by (nonlinear_arith)
            requires
                q == s / p,
                p >= 1,
                p <= 2048,
                s < 0x10000000000000000,
                q < 0x20000000000000 || p == 2048;
        (q as u128 + 1) * (p as u128)
    } else {
        assert(q * p <= s) by (nonlinear_arith)
            requires
                q == s / p,
                p >= 1;
        (q as u128) * (p as u128)
    }
}

spec fn pow2_of(n: u64) -> nat
    decreases n,
{
    if n == 0 {
        1
    } else {
        2 * pow2_of((n - 1) as u64)
    }
}

proof fn lemma_pow2_of_pos(n: u64)
    ensures
        pow2_of(n) >= 1,
    decreases n,
{
    if n > 0 {
        lemma_pow2_of_pos((n - 1) as u64);
    }
}

proof fn lemma_pow2_of_step(n: u64)
    requires
        n >= 1,
    ensures
        pow2_of(n) == 2 * pow2_of((n - 1) as u64),
{
}


/// The text of the unit with index `k`.
fn unit_str(k: u64) -> (u: &'static str)
    requires
        1 <= k <= 4,
    ensures
        u@ == unit_name(k as nat),
{
    proof {
        reveal_strlit("KB");
        reveal_strlit("MB");
        reveal_strlit("GB");
        reveal_strlit("TB");
    }
    if k == 1 {
        "KB"
    } else if k == 2 {
        "MB"
    } else if k == 3 {
        "GB"
    } else {
        "TB"
    }
}

/// Renders a byte count for display: `"512 B"`, `"1.5 KB"`, `"3.0 MB"`,
/// `"2.5 GB"`, `"1.0 TB"`.
pub fn format_size(size: u64) -> (r: String)
    ensures
        r@ == size_text(size as nat),
{
    proof {
        reveal_strlit(" B");
        reveal_strlit(".");
        reveal_strlit(" ");
    }
    if size < 1024 {
        let mut r = decimal_string(size);
        r.append(" B");
        return r;
    }
    let (k, den): (u64, u128) = if size < 1048576 {
        (1, 1024)
    } else if size < 1073741824 {
        (2, 1048576)
    } else if size < 1099511627776 {
        (3, 1073741824)
    } else {
        (4, 1099511627776)
    };
    assert(k as nat == size_unit_index(size as nat));
    assert(den as nat == unit_bytes(k as nat));
    let f = f64_value(size);
    let num: u128 = 10 * f;
    let q = num / den;
    let rem = num % den;
    let t: u128 = if 2 * rem > den || (2 * rem == den && q % 2 == 1) {
        q + 1
    } else {
        q
    };
    assert(t as nat == round_half_even(10 * as_f64_value(size as nat), unit_bytes(k as nat)));
    assert(q <= num / 1024) by (nonlinear_arith)
        requires
            q == num / den,
            den >= 1024;
    let whole = (t / 10) as u64;
    let tenth = (t % 10) as u64;
    let mut r = decimal_string(whole);
    r.append(".");
    let d = decimal_string(tenth);
    r.append(d.as_str());
    r.append(" ");
    r.append(unit_str(k));
    r
}

} // verus!
