//! Human-readable byte sizes ("512 B", "1.5 KB", ...), rendered exactly as
//! dividing the size as an `f64` by 1024 and printing one decimal would.

use vstd::prelude::*;
use vstd::arithmetic::div_mod::lemma_fundamental_div_mod;
use crate::text::{decimal, digit, digit_char, push_char, push_decimal};

verus! {

/// 2^53: below it every integer is an `f64` as it is.
pub open spec fn two53() -> nat {
    9007199254740992
}

/// 2^j.
pub open spec fn two_to(j: nat) -> nat
    decreases j,
{
    if j == 0 {
        1
    } else {
        2 * two_to((j - 1) as nat)
    }
}

/// The spacing of the `f64` values around `b`, starting the search at 2^j:
/// the least power of two `p` with `b < 2^53 * p` (never above 2^11 for a `u64`).
pub open spec fn ulp_from(b: nat, j: nat) -> nat
    decreases 11 - j,
{
    if j < 11 && b >= two53() * two_to(j) {
        ulp_from(b, j + 1)
    } else {
        two_to(j)
    }
}

/// `n / d` rounded to the nearest integer, ties to even.
pub open spec fn round_half_even(n: nat, d: nat) -> nat {
    let q = n / d;
    let r = n % d;
    if 2 * r > d || (2 * r == d && q % 2 == 1) {
        q + 1
    } else {
        q
    }
}

/// The integer value of the `f64` nearest to `b` (`b as f64`, ties to even).
pub open spec fn as_f64(b: nat) -> nat {
    let p = ulp_from(b, 0);
    round_half_even(b, p) * p
}

/// 1024^k for the units B, KB, MB and GB.
pub open spec fn unit_scale(k: nat) -> nat {
    if k == 0 {
        1
    } else if k == 1 {
        1024
    } else if k == 2 {
        1048576
    } else {
        1073741824
    }
}

/// The unit a value is shown in: the largest of B, KB, MB and GB that it reaches.
pub open spec fn unit_index(v: nat) -> nat {
    if v >= 1073741824 {
        3
    } else if v >= 1048576 {
        2
    } else if v >= 1024 {
        1
    } else {
        0
    }
}

/// The unit's name.
pub open spec fn unit_name(k: nat) -> Seq<char> {
    if k == 0 {
        "B"@
    } else if k == 1 {
        "KB"@
    } else if k == 2 {
        "MB"@
    } else {
        "GB"@
    }
}

/// How a size is shown: bytes as an integer; larger units with one decimal,
/// rounded from the `f64` value as `{:.1}` rounds (nearest, ties to even).
pub open spec fn size_text(bytes: nat) -> Seq<char> {
    let v = as_f64(bytes);
    let k = unit_index(v);
    if k == 0 {
        decimal(bytes) + " B"@
    } else {
        let t = round_half_even(10 * v, unit_scale(k));
        decimal(t / 10) + "."@ + seq![digit_char(t % 10)] + " "@ + unit_name(k)
    }
}

proof fn lemma_two_to_bound(j: nat)
    requires
        j <= 11,
    ensures
        1 <= two_to(j) <= 2048,
        two_to(j) * 2048 <= 2048 * 2048,
    decreases j,
{
    if j > 0 {
        lemma_two_to_bound((j - 1) as nat);
        if j == 11 {
            reveal_with_fuel(two_to, 12);
            assert(two_to(11) == 2048);
        } else {
            lemma_two_to_small(j);
        }
    }
}

proof fn lemma_two_to_small(j: nat)
    requires
        j <= 10,
    ensures
        two_to(j) <= 1024,
    decreases j,
{
    reveal_with_fuel(two_to, 11);
    if j == 0 {
    } else if j == 1 {
    } else if j == 2 {
    } else if j == 3 {
    } else if j == 4 {
    } else if j == 5 {
    } else if j == 6 {
    } else if j == 7 {
    } else if j == 8 {
    } else if j == 9 {
    } else {
    }
}

/// `round_half_even(n, d)` for a `u128` numerator and a non-zero divisor.
fn rounded_div(n: u128, d: u128) -> (q: u128)
    requires
        d > 0,
        n + d <= u128::MAX,
    ensures
        q == round_half_even(n as nat, d as nat),
        q * d <= n + d,
{
    let q = n / d;
    let r = n % d;
    proof {
        lemma_fundamental_div_mod(n as int, d as int);
        assert(q * d <= n) by (nonlinear_arith)
            requires
                n == d * q + r,
                r >= 0,
        ;
    }
    if 2 * r > d || (2 * r == d && q % 2 == 1) {
        proof {
            assert((q + 1) * d <= n + d) by (nonlinear_arith)
                requires
                    q * d <= n,
            ;
        }
        q + 1
    } else {
        q
    }
}

/// Renders a byte count for display: "`n` B" below 1 KB, otherwise the size
/// in KB, MB or GB with one decimal, e.g. "1.5 KB".
pub fn human_readable_size(bytes: u64) -> (s: String)
    ensures
        s@ == size_text(bytes as nat),
{
    let b = bytes as u128;
    let mut j: u64 = 0;
    let mut p: u128 = 1;
    while j < 11 && b >= 9007199254740992u128 * p
        invariant
            j <= 11,
            p == two_to(j as nat),
            1 <= p <= 2048,
            ulp_from(b as nat, j as nat) == ulp_from(b as nat, 0),
            b < 18446744073709551616u128,
        decreases 11 - j,
    {
        proof {
            lemma_two_to_bound(j as nat);
            lemma_two_to_small(j as nat);
        }
        j += 1;
        p = p * 2;
    }
    proof {
        lemma_two_to_bound(j as nat);
    }
    let m = rounded_div(b, p) * p;
    assert(m == as_f64(bytes as nat));
    let mut s = String::new();
    if m < 1024 {
        push_decimal(&mut s, bytes);
        s.append(" B");
        return s;
    }
    let (scale, unit): (u128, &str) = if m >= 1073741824 {
        (1073741824, "GB")
    } else if m >= 1048576 {
        (1048576, "MB")
    } else {
        (1024, "KB")
    };
    let t = rounded_div(10 * m, scale);
    proof {
        assert(t <= 10 * m / 1024 + 1) by (nonlinear_arith)
            requires
                t * scale <= 10 * m + scale,
                scale >= 1024,
        ;
    }
    let whole = t / 10;
    push_decimal(&mut s, whole as u64);
    s.append(".");
    let d = (t % 10) as u64;
    push_char(&mut s, digit(d));
    s.append(" ");
    s.append(unit);
    s
}

} // verus!
