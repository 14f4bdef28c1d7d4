//! Human-readable file sizes: the size is taken to the nearest value a 64-bit
//! float holds, divided by 1024 up to four times, and shown with one decimal.
use vstd::prelude::*;
use crate::text::{decimal, push_decimal, push_char};

verus! {

/// Two to the power `e`.
pub open spec fn two_pow(e: nat) -> nat
    decreases e,
{
    if e == 0 {
        1
    } else {
        2 * two_pow((e - 1) as nat)
    }
}

/// The smallest number of binary digits to drop from `x` so that what remains
/// fits the 53-bit significand of a 64-bit float.
pub open spec fn f64_shift(x: nat) -> nat
    decreases x,
{
    if x < 0x20000000000000 {
        0
    } else {
        1 + f64_shift(x / 2)
    }
}

/// The 64-bit float nearest to `x` (ties to an even significand), as an integer.
pub open spec fn f64_nearest(x: nat) -> nat {
    let u = two_pow(f64_shift(x));
    let q = x / u;
    let r = x % u;
    let up = 2 * r > u || (2 * r == u && q % 2 == 1);
    (if up { q + 1 } else { q }) * u
}

/// 1024 to the power `k`.
pub open spec fn pow1024(k: nat) -> nat
    decreases k,
{
    if k == 0 {
        1
    } else {
        1024 * pow1024((k - 1) as nat)
    }
}

/// The unit index reached from `k` by dividing by 1024 while the value is at
/// least 1024 and a larger unit remains.
pub open spec fn unit_from(f: nat, k: nat) -> nat
    decreases 4 - k,
{
    if k < 4 && f >= pow1024(k + 1) {
        unit_from(f, k + 1)
    } else {
        k
    }
}

/// The unit letter of unit index `k`.
pub open spec fn unit_letter(k: nat) -> char {
    if k == 0 {
        'B'
    } else if k == 1 {
        'K'
    } else if k == 2 {
        'M'
    } else if k == 3 {
        'G'
    } else {
        'T'
    }
}

/// `f / d` in tenths, rounded to nearest with exact ties to an even last
/// digit, as float formatting with one decimal rounds the exact value.
pub open spec fn round_tenths(f: nat, d: nat) -> nat {
    let q = (f * 10) / d;
    let rem = (f * 10) % d;
    if 2 * rem > d || (2 * rem == d && q % 2 == 1) {
        q + 1
    } else {
        q
    }
}

/// The text shown for a file size: whole bytes below 1024, else the value in
/// the largest unit up to T rounded to one decimal (see `round_tenths`).
pub open spec fn size_text(size: nat) -> Seq<char> {
    let f = f64_nearest(size);
    let k = unit_from(f, 0);
    let d = pow1024(k);
    if k == 0 {
        decimal(f) + seq![' ', 'B']
    } else {
        let t = round_tenths(f, d);
        decimal(t / 10) + seq!['.', (((t % 10) + 48) as u32) as char, ' ', unit_letter(k)]
    }
}

/// Sizes below 1024 are shown exactly, in bytes.
pub proof fn small_sizes_are_exact_bytes(size: nat)
    requires
        size < 1024,
    ensures
        size_text(size) == decimal(size) + seq![' ', 'B'],
{
    assert(f64_shift(size) == 0);
    assert(two_pow(0) == 1);
    assert(size / 1 == size && size % 1 == 0);
    assert(f64_nearest(size) == size);
    assert(pow1024(1) == 1024) by {
        assert(pow1024(0) == 1);
    }
    assert(unit_from(size, 0) == 0);
}

proof fn lemma_two_pow_pos(e: nat)
    ensures
        two_pow(e) >= 1,
    decreases e,
{
    if e > 0 {
        lemma_two_pow_pos((e - 1) as nat);
    }
}

proof fn lemma_shift_bound(x: nat)
    ensures
        x / two_pow(f64_shift(x)) < 0x20000000000000,
    decreases x,
{
    if x >= 0x20000000000000 {
        lemma_shift_bound(x / 2);
        let s = f64_shift(x / 2);
        lemma_two_pow_pos(s);
        vstd::arithmetic::div_mod::lemma_div_denominator(x as int, 2, two_pow(s) as int);
        assert(two_pow(s + 1) == 2 * two_pow(s));
        assert(f64_shift(x) == s + 1);
    }
}

proof fn lemma_shift_le(x: nat, n: nat)
    requires
        x < 0x20000000000000 * two_pow(n),
    ensures
        f64_shift(x) <= n,
    decreases n,
{
    if x >= 0x20000000000000 {
        if n == 0 {
            assert(false);
        } else {
            assert(two_pow(n) == 2 * two_pow((n - 1) as nat));
            lemma_shift_le(x / 2, (n - 1) as nat);
        }
    }
}

proof fn lemma_pow1024_pos(k: nat)
    ensures
        pow1024(k) >= 1,
        k <= 4 ==> pow1024(k) <= 0x10000000000,
    decreases k,
{
    if k > 0 {
        lemma_pow1024_pos((k - 1) as nat);
    }
    reveal_with_fuel(pow1024, 5);
    assert(pow1024(1) == 1024);
    assert(pow1024(2) == 1048576) by {
        assert(pow1024(1) == 1024);
    }
    assert(pow1024(3) == 1073741824) by {
        assert(pow1024(2) == 1048576) by {
            assert(pow1024(1) == 1024);
        }
    }
    assert(pow1024(4) == 0x10000000000) by {
        assert(pow1024(3) == 1073741824) by {
            assert(pow1024(2) == 1048576) by {
                assert(pow1024(1) == 1024);
            }
        }
    }
    if k <= 4 {
        assert(pow1024(k) <= 0x10000000000);
    }
}

/// The nearest 64-bit float value to `size`, computed on integers.
fn nearest_float(size: u64) -> (f: u128)
    ensures
        f as nat == f64_nearest(size as nat),
        f <= 0x10000000000000000,
{
    let mut q: u128 = size as u128;
    let mut u: u128 = 1;
    let ghost mut i: nat = 0;
    proof {
        lemma_shift_bound(size as nat);
        reveal_with_fuel(two_pow, 12);
        lemma_shift_le(size as nat, 11);
    }
    while q >= 0x20000000000000
        invariant
            u as nat == two_pow(i),
            q as nat == size as nat / (u as nat),
            f64_shift(size as nat) == i + f64_shift(q as nat),
            f64_shift(size as nat) <= 11,
            u >= 1,
        decreases q,
    {
        proof {
            vstd::arithmetic::div_mod::lemma_div_denominator(size as int, u as int, 2);
            assert(f64_shift(q as nat) == 1 + f64_shift((q / 2) as nat));
            assert(i + 1 <= 11);
            lemma_two_pow_small(i + 1);
        }
        q = q / 2;
        u = u * 2;
        proof {
            i = i + 1;
            assert(u as nat == two_pow(i));
            assert((u / 2) * 2 == u);
        }
    }
    assert(f64_shift(q as nat) == 0);
    assert(f64_shift(size as nat) == i);
    let r: u128 = (size as u128) % u;
    proof {
        lemma_two_pow_small(i);
        assert(r < u);
    }
    let up = 2 * r > u || (2 * r == u && q % 2 == 1);
    let q2: u128 = if up { q + 1 } else { q };
    proof {
        lemma_two_pow_small(i);
        assert(q2 <= 0x20000000000000);
        assert(q2 * u <= 0x20000000000000 * 0x800) by (nonlinear_arith)
            requires
                q2 <= 0x20000000000000,
                u <= 0x800,
        ;
        assert(q * u <= size as int) by (nonlinear_arith)
            requires
                q as int == (size as int) / (u as int),
                u >= 1,
        ;
    }
    q2 * u
}

proof fn lemma_two_pow_mono(a: nat, b: nat)
    requires
        a <= b,
    ensures
        two_pow(a) <= two_pow(b),
    decreases b,
{
    if a < b {
        lemma_two_pow_mono(a, (b - 1) as nat);
        lemma_two_pow_pos((b - 1) as nat);
    }
}

proof fn lemma_two_pow_small(e: nat)
    requires
        e <= 11,
    ensures
        two_pow(e) <= 0x800,
        two_pow(e) >= 1,
{
    lemma_two_pow_pos(e);
    lemma_two_pow_mono(e, 11);
    reveal_with_fuel(two_pow, 12);
}

/// `format_size`: the size of a file as the listing shows it ("512 B",
/// "1.5 K", ...). The value is that of the 64-bit float nearest to `size`
/// divided by 1024 per unit step (exact, as 1024 is a power of two); one
/// decimal is kept, rounded to nearest with exact ties (such as 1280 bytes,
/// 1.25 K) to an even last digit.
pub fn format_size(size: u64) -> (r: String)
    ensures
        r@ == size_text(size as nat),
{
    let f = nearest_float(size);
    let mut k: u64 = 0;
    let mut d: u128 = 1;
    proof {
        lemma_pow1024_pos(0);
        lemma_pow1024_pos(4);
    }
    while k < 4 && f >= d * 1024
        invariant
            k <= 4,
            d as nat == pow1024(k as nat),
            unit_from(f as nat, 0) == unit_from(f as nat, k as nat),
            f <= 0x10000000000000000,
            d <= 0x10000000000,
        decreases 4 - k,
    {
        proof {
            lemma_pow1024_pos((k + 1) as nat);
        }
        d = d * 1024;
        k = k + 1;
    }
    assert(unit_from(f as nat, k as nat) == k);
    let mut s = String::new();
    if k == 0 {
        assert(f < 1024);
        push_decimal(&mut s, f as u64);
        push_char(&mut s, ' ');
        push_char(&mut s, 'B');
        assert(s@ =~= size_text(size as nat));
    } else {
        proof {
            lemma_pow1024_pos(k as nat);
            assert(d >= 1024) by {
                assert(pow1024(k as nat) == 1024 * pow1024((k - 1) as nat));
                lemma_pow1024_pos((k - 1) as nat);
            }
        }
        let ften: u128 = f * 10;
        let q: u128 = ften / d;
        let rem: u128 = ften % d;
        proof {
            assert(q <= ften / 1024) by (nonlinear_arith)
                requires
                    d >= 1024,
                    q == ften / d,
            ;
            assert(ften / 1024 < 0x1000000000000000) by (nonlinear_arith)
                requires
                    ften == f * 10,
                    f <= 0x10000000000000000,
            ;
        }
        let t: u128 = if 2 * rem > d || (2 * rem == d && q % 2 == 1) { q + 1 } else { q };
        assert(t as nat == round_tenths(f as nat, d as nat));
        let whole: u64 = (t / 10) as u64;
        let tenth: u64 = (t % 10) as u64;
        push_decimal(&mut s, whole);
        push_char(&mut s, '.');
        let dc: u8 = (tenth as u8) + 48u8;
        push_char(&mut s, dc as char);
        push_char(&mut s, ' ');
        let unit = if k == 1 {
            'K'
        } else if k == 2 {
            'M'
        } else if k == 3 {
            'G'
        } else {
            'T'
        };
        push_char(&mut s, unit);
        assert(s@ =~= size_text(size as nat));
    }
    s
}

} // verus!
