//! Amounts of NEAR and of gas written in their smallest units.

use vstd::prelude::*;
use crate::decimal::{parse_decimal, read_decimal};

verus! {

/// One NEAR in yoctoNEAR.
pub const YOCTO_PER_NEAR: u128 = 1_000_000_000_000_000_000_000_000;

/// One teragas in gas.
pub const GAS_PER_TERA: u64 = 1_000_000_000_000;

/// Ten to the power `n`.
pub open spec fn pow10(n: nat) -> nat
    decreases n,
{
    if n == 0 {
        1
    } else {
        10 * pow10((n - 1) as nat)
    }
}

/// The position of the first '.' of `s` at or after `from`, or the length of
/// `s` when there is none.
pub open spec fn next_dot(s: Seq<char>, from: int) -> int
    decreases s.len() - from,
{
    if from >= s.len() {
        s.len() as int
    } else if s[from] == '.' {
        from
    } else {
        next_dot(s, from + 1)
    }
}

/// The yoctoNEAR that the text `s` writes in NEAR: a whole number, then
/// optionally a '.' and at most 24 digits of fraction, which end at the next
/// '.' if there is one. `None` when a part is not a decimal number or the
/// amount does not fit in 128 bits.
pub open spec fn spec_to_yocto(s: Seq<char>) -> Option<int> {
    let k = next_dot(s, 0);
    match read_decimal(s.subrange(0, k)) {
        None => None,
        Some(whole) => if k == s.len() {
            if whole * pow10(24) <= u128::MAX {
                Some(whole * pow10(24))
            } else {
                None
            }
        } else {
            let e = next_dot(s, k + 1);
            let power = e - (k + 1);
            match read_decimal(s.subrange(k + 1, e)) {
                None => None,
                Some(frac) => if whole * pow10(24) > u128::MAX || power > 24 {
                    None
                } else if whole * pow10(24) + frac * pow10((24 - power) as nat) <= u128::MAX {
                    Some(whole * pow10(24) + frac * pow10((24 - power) as nat))
                } else {
                    None
                },
            }
        },
    }
}

proof fn lemma_next_dot_bounds(s: Seq<char>, from: int)
    requires
        0 <= from <= s.len(),
    ensures
        from <= next_dot(s, from) <= s.len(),
    decreases s.len() - from,
{
    if from < s.len() && s[from] != '.' {
        lemma_next_dot_bounds(s, from + 1);
    }
}

fn find_dot(s: &str, from: usize, n: usize) -> (r: usize)
    requires
        n == s@.len(),
        from <= n,
    ensures
        r == next_dot(s@, from as int),
{
    let mut i = from;
    while i < n
        invariant
            from <= i <= n == s@.len(),
            next_dot(s@, i as int) == next_dot(s@, from as int),
        decreases n - i,
    {
        if s.get_char(i) == '.' {
            return i;
        }
        i += 1;
    }
    i
}

proof fn lemma_pow10_grows(i: nat, j: nat)
    requires
        i <= j,
    ensures
        1 <= pow10(i) <= pow10(j),
    decreases j,
{
    if i < j {
        lemma_pow10_grows(i, (j - 1) as nat);
    } else if i > 0 {
        lemma_pow10_grows((i - 1) as nat, (i - 1) as nat);
    }
}

/// Ten to the power `k`.
fn pow10_of(k: usize) -> (r: u128)
    requires
        k <= 24,
    ensures
        r == pow10(k as nat),
{
    proof {
        reveal_with_fuel(pow10, 25);
        lemma_pow10_grows(k as nat, 24);
    }
    assert(pow10(24) == YOCTO_PER_NEAR);
    let mut r: u128 = 1;
    let mut i: usize = 0;
    while i < k
        invariant
            i <= k <= 24,
            r == pow10(i as nat),
            pow10(24) == YOCTO_PER_NEAR,
        decreases k - i,
    {
        proof {
            lemma_pow10_grows((i + 1) as nat, 24);
        }
        r = r * 10;
        i += 1;
    }
    r
}

/// The yoctoNEAR that `value` writes in NEAR (`"0.01"` is 10^22).
pub fn to_yocto(value: &str) -> (r: Option<u128>)
    ensures
        r == match spec_to_yocto(value@) {
            Some(v) => Some(v as u128),
            None => None::<u128>,
        },
{
    proof {
        reveal_with_fuel(pow10, 25);
    }
    assert(pow10(24) == YOCTO_PER_NEAR);
    let n = value.unicode_len();
    let k = find_dot(value, 0, n);
    proof {
        lemma_next_dot_bounds(value@, 0);
    }
    let whole = match parse_decimal(value.substring_char(0, k)) {
        Some(w) => w,
        None => {
            return None;
        },
    };
    let part1 = match whole.checked_mul(YOCTO_PER_NEAR) {
        Some(p) => p,
        None => {
            return None;
        },
    };
    if k == n {
        return Some(part1);
    }
    let e = find_dot(value, k + 1, n);
    proof {
        lemma_next_dot_bounds(value@, k + 1);
    }
    let frac = match parse_decimal(value.substring_char(k + 1, e)) {
        Some(f) => f,
        None => {
            return None;
        },
    };
    let power = e - (k + 1);
    if power > 24 {
        return None;
    }
    let scale = pow10_of(24 - power);
    proof {
        lemma_pow10_grows((24 - power) as nat, 24);
    }
    match frac.checked_mul(scale) {
        Some(part2) => part1.checked_add(part2),
        None => None,
    }
}

/// `tokens` teragas in gas.
pub fn to_tera(tokens: u64) -> (r: u64)
    requires
        tokens * GAS_PER_TERA <= u64::MAX,
    ensures
        r == tokens * GAS_PER_TERA,
{
    tokens * GAS_PER_TERA
}

} // verus!
