//! File sizes in kilobytes, with two decimal places.
use vstd::prelude::*;

use crate::clock::two_digits;
use crate::text::{decimal, decimal_text, decimals_read_back, number_of};

verus! {

/// The numbers below this one are doubles, each of them.
pub const EXACT_BELOW: u64 = 0x20_0000_0000_0000;

/// `n / d` to the nearest integer, and to the even one of two that are as near.
pub open spec fn half_even(n: nat, d: nat) -> nat {
    let q = n / d;
    let r = n % d;
    if 2 * r > d || (2 * r == d && q % 2 == 1) {
        q + 1
    } else {
        q
    }
}

/// The distance of the doubles around `n`.
pub open spec fn spacing(n: nat) -> nat
    decreases n,
{
    if n < EXACT_BELOW {
        1
    } else {
        2 * spacing(n / 2)
    }
}

/// The double that is nearest to `n`.
pub open spec fn nearest_double(n: nat) -> nat {
    half_even(n, spacing(n)) * spacing(n)
}

/// Hundredths of a kilobyte in a number of bytes that is held as a double.
pub open spec fn kb_hundredths(size: nat) -> nat {
    half_even(nearest_double(size) * 100, 1024)
}

/// A size in kilobytes, with two decimal places.
pub open spec fn kb_text(size: nat) -> Seq<char> {
    let h = kb_hundredths(size);
    decimal(h / 100) + seq!['.'] + two_digits((h % 100) as int)
}

proof fn lemma_spacing(n: nat)
    requires
        n <= u64::MAX,
    ensures
        1 <= spacing(n) <= 2048,
    decreases n,
{
    reveal_with_fuel(spacing, 13);
}

fn double_spacing(n: u64) -> (u: u64)
    ensures
        u == spacing(n as nat),
        1 <= u <= 2048,
    decreases n,
{
    proof {
        lemma_spacing(n as nat);
    }
    if n < EXACT_BELOW {
        1
    } else {
        2 * double_spacing(n / 2)
    }
}

fn round_half_even(n: u128, d: u128) -> (q: u128)
    requires
        0 < d <= 2048,
        n <= 0x1_0000_0000_0000_0000 * 200,
    ensures
        q == half_even(n as nat, d as nat),
        q <= n + 1,
        d == 1024 ==> q <= n / 1024 + 1,
{
    let whole = n / d;
    let rest = n % d;
    assert(n / d <= n) by (nonlinear_arith)
        requires
            0 < d,
    ;
    if 2 * rest > d || (2 * rest == d && whole % 2 == 1) {
        whole + 1
    } else {
        whole
    }
}

/// Writes a size in kilobytes, with two decimal places.
pub fn kilobytes(size: u64) -> (r: String)
    ensures
        r@ == kb_text(size as nat),
{
    let unit = double_spacing(size) as u128;
    let steps = round_half_even(size as u128, unit);
    proof {
        let s = size as int;
        let u = unit as int;
        assert((s / u + 1) * u <= s + u) by (nonlinear_arith)
            requires
                0 < u,
                0 <= s,
        ;
        assert(steps * u <= (s / u + 1) * u) by (nonlinear_arith)
            requires
                steps <= s / u + 1,
                0 < u,
        ;
        assert(steps as nat * unit as nat == steps * u);
        assert(half_even(size as nat, unit as nat) == steps as nat);
        assert(nearest_double(size as nat) == steps * u);
    }
    let double = steps * unit;
    let hundredths = round_half_even(double * 100, 1024) as u64;
    let mut r = decimal_text(hundredths / 100);
    let tens: u8 = (hundredths % 100 / 10) as u8;
    let ones: u8 = (hundredths % 10) as u8;
    let ghost head = r@;
    r.push('.');
    r.push((48u8 + tens) as char);
    r.push((48u8 + ones) as char);
    proof {
        let h = hundredths as nat;
        assert(h == kb_hundredths(size as nat));
        assert((h % 100) % 10 == h % 10);
        assert(r@ =~= head + seq!['.'] + two_digits((h % 100) as int));
    }
    r
}

/// Up to the point where doubles skip integers, the shown size is the nearest hundredth of a
/// kilobyte: never off by more than half a hundredth.
pub proof fn shown_size_is_the_nearest(size: nat)
    requires
        size < EXACT_BELOW,
    ensures
        -512 <= kb_hundredths(size) * 1024 - size * 100 <= 512,
{
    assert(nearest_double(size) == size) by {
        assert(spacing(size) == 1);
        assert(size / 1 == size && size % 1 == 0);
        assert(half_even(size, 1) == size);
        assert(half_even(size, 1) * 1 == size);
    }
    let n = size * 100;
    assert(n == 1024 * (n / 1024) + n % 1024);
}

proof fn lemma_half_even(n: nat, d: nat)
    requires
        d > 0,
    ensures
        -(d as int) <= 2 * (half_even(n, d) * d - n) <= d,
        2 * (half_even(n, d) * d - n) == d || 2 * (half_even(n, d) * d - n) == -(d as int)
            ==> half_even(n, d) % 2 == 0,
{
    let q = n / d;
    let r = n % d;
    assert(n == q * d + r && 0 <= r < d) by (nonlinear_arith)
        requires
            q == n / d,
            r == n % d,
            d > 0,
    ;
    assert((q + 1) * d == q * d + d) by (nonlinear_arith);
}

/// The doubles around a number lie so close that fifty-three bits tell them apart, and no closer.
pub proof fn doubles_hold_fifty_three_bits(n: nat)
    ensures
        n < EXACT_BELOW ==> spacing(n) == 1,
        spacing(n) >= 1,
        n < EXACT_BELOW * spacing(n),
        spacing(n) > 1 ==> EXACT_BELOW * spacing(n) <= 2 * n,
    decreases n,
{
    if n >= EXACT_BELOW {
        doubles_hold_fifty_three_bits(n / 2);
        let s = spacing(n / 2);
        assert(EXACT_BELOW * (2 * s) == 2 * (EXACT_BELOW * s)) by (nonlinear_arith);
    } else {
        assert(EXACT_BELOW * 1 == EXACT_BELOW);
    }
}

/// A size is held as the nearest double: a multiple of their distance, no further off than half
/// of it; and shown to the nearest hundredth of a kilobyte, to the even one of two.
pub proof fn sizes_are_rounded_to_the_nearest(size: nat)
    ensures
        -(spacing(size) as int) <= 2 * (nearest_double(size) - size) <= spacing(size),
        nearest_double(size) % spacing(size) == 0,
        -512 <= kb_hundredths(size) * 1024 - nearest_double(size) * 100 <= 512,
        kb_hundredths(size) * 1024 - nearest_double(size) * 100 == 512 || kb_hundredths(size) * 1024
            - nearest_double(size) * 100 == -512 ==> kb_hundredths(size) % 2 == 0,
{
    doubles_hold_fifty_three_bits(size);
    lemma_half_even(size, spacing(size));
    lemma_half_even(nearest_double(size) * 100, 1024);
    let q = half_even(size, spacing(size));
    let s = spacing(size);
    assert((q * s) % s == 0) by (nonlinear_arith)
        requires
            s > 0,
    ;
}

/// A size reads back from its text: without the point before its last two digits the text is the
/// number of hundredths of a kilobyte, the nearest to the size as long as doubles hold it exactly.
pub proof fn shown_sizes_read_back(size: nat)
    ensures
        ({
            let t = kb_text(size);
            let n = t.len() - 3;
            &&& n > 0
            &&& t[n] == '.'
            &&& number_of(t.take(n) + t.skip(n + 1)) == kb_hundredths(size)
            &&& size < EXACT_BELOW ==> -512 <= number_of(t.take(n) + t.skip(n + 1)) * 1024 - size
                * 100 <= 512
        }),
{
    let h = kb_hundredths(size);
    let whole = decimal(h / 100);
    let cents = two_digits((h % 100) as int);
    let t = kb_text(size);
    let n = t.len() - 3;
    decimals_read_back(h / 100);
    assert(t.take(n) =~= whole);
    assert(t.skip(n + 1) =~= cents);
    let all = whole + cents;
    assert(all.drop_last().drop_last() =~= whole);
    assert(cents[0] as int == 48 + h % 100 / 10);
    assert(cents[1] as int == 48 + h % 100 % 10);
    reveal_with_fuel(number_of, 3);
    assert(number_of(all) == h);
    if size < EXACT_BELOW {
        shown_size_is_the_nearest(size);
    }
}

} // verus!
