//! Binary floating point worked out on integers: what the nearest 64-bit
//! binary number to a fraction is, what a decimal numeral reads as, and what
//! such a number prints as with one decimal.
use vstd::arithmetic::power2::{
    lemma2_to64, lemma2_to64_rest, lemma_pow2_adds, lemma_pow2_pos, lemma_pow2_strictly_increases,
    lemma_pow2_unfold, pow2,
};
use vstd::prelude::*;

use crate::text::{
    all_digits, chars_of, decimal, decimal_text, digit, digit_char, digits_value, is_digit,
};

verus! {

// --- natural numbers of any size ------------------------------------------------

/// The number that 32-bit limbs spell, least significant first.
pub open spec fn big(v: Seq<u32>) -> nat
    decreases v.len(),
{
    if v.len() == 0 {
        0
    } else {
        v[0] as nat + 0x1_0000_0000 * big(v.skip(1))
    }
}

/// The limb at `i`, zero behind the last one.
fn limb(v: &Vec<u32>, i: usize) -> (x: u32)
    ensures
        x == (if i < v@.len() {
            v@[i as int]
        } else {
            0
        }),
{
    if i < v.len() {
        v[i]
    } else {
        0
    }
}

/// The number that the limbs from `i` spell.
spec fn big_from(v: Seq<u32>, i: int) -> nat {
    if i < v.len() {
        big(v.skip(i))
    } else {
        0
    }
}

/// What limbs from `i` spell, in terms of those from `i + 1`.
proof fn big_step(v: Seq<u32>, i: int)
    requires
        0 <= i,
    ensures
        i < v.len() ==> big_from(v, i) == v[i] as nat + 0x1_0000_0000 * big_from(v, i + 1),
        big_from(v, 0) == big(v),
{
    assert(v.skip(0) =~= v);
    if i < v.len() {
        let t = v.skip(i);
        assert(t.skip(1) =~= v.skip(i + 1));
        assert(big(t) == t[0] as nat + 0x1_0000_0000 * big(t.skip(1)));
        if i + 1 == v.len() {
            assert(big(v.skip(i + 1)) == 0);
        }
    }
}

/// Multiplies what the limbs from `i` spell by `m`, and adds `carry`.
fn multiply_add(v: &mut Vec<u32>, i: usize, m: u32, carry: u32)
    requires
        i <= old(v)@.len(),
    ensures
        i <= final(v)@.len(),
        final(v)@.take(i as int) == old(v)@.take(i as int),
        big_from(final(v)@, i as int) == big_from(old(v)@, i as int) * m + carry,
    decreases old(v)@.len() - i,
{
    let ghost before = v@;
    proof {
        big_step(before, i as int);
    }
    if i == v.len() {
        if carry != 0 {
            v.push(carry);
            proof {
                big_step(v@, i as int);
            }
        }
        assert(v@.take(i as int) =~= before.take(i as int));
        assert(0 * m + carry == carry);
    } else {
        let x: u32 = v[i];
        assert(x as int * m as int <= 0xffff_ffff * 0xffff_ffff) by (nonlinear_arith)
            requires
                x <= 0xffff_ffff,
                m <= 0xffff_ffff,
        ;
        let t: u64 = (x as u64) * (m as u64) + (carry as u64);
        let low: u32 = (t % 0x1_0000_0000) as u32;
        let high: u32 = (t / 0x1_0000_0000) as u32;
        v.set(i, low);
        let ghost mid = v@;
        multiply_add(v, i + 1, m, high);
        proof {
            assert(mid.skip(i + 1) =~= before.skip(i + 1));
            assert(v@[i as int] == low) by {
                assert(v@.take(i + 1)[i as int] == mid.take(i + 1)[i as int]);
            }
            assert(v@.take(i as int) =~= before.take(i as int)) by {
                assert forall|k: int| 0 <= k < i implies v@[k] == before[k] by {
                    assert(v@.take(i + 1)[k] == mid.take(i + 1)[k]);
                }
            }
            big_step(v@, i as int);
            let rest = big_from(before, i + 1);
            assert(low + 0x1_0000_0000 * (rest * m + high) == (x + 0x1_0000_0000 * rest) * m
                + carry) by (nonlinear_arith)
                requires
                    low + 0x1_0000_0000 * high == x * m + carry,
            ;
        }
    }
}

/// Multiplies by `m` and adds `a`.
fn scale_up(v: &mut Vec<u32>, m: u32, a: u32)
    ensures
        big(final(v)@) == big(old(v)@) * m + a,
{
    let ghost before = v@;
    multiply_add(v, 0, m, a);
    proof {
        big_step(before, 0);
        big_step(v@, 0);
    }
}

/// Whether what the limbs of `a` from `i` spell is less than, equal to or
/// more than those of `b`: `0`, `1` or `2`.
fn order_from(a: &Vec<u32>, b: &Vec<u32>, i: usize) -> (r: u8)
    requires
        i <= a@.len() || i <= b@.len(),
    ensures
        r <= 2,
        r == 0 <==> big_from(a@, i as int) < big_from(b@, i as int),
        r == 1 <==> big_from(a@, i as int) == big_from(b@, i as int),
        r == 2 <==> big_from(a@, i as int) > big_from(b@, i as int),
    decreases a@.len() + b@.len() - i,
{
    proof {
        big_step(a@, i as int);
        big_step(b@, i as int);
    }
    if i >= a.len() && i >= b.len() {
        return 1;
    }
    let rest = order_from(a, b, i + 1);
    proof {
        big_step(a@, i + 1);
        big_step(b@, i + 1);
    }
    if rest != 1 {
        return rest;
    }
    let x: u32 = limb(a, i);
    let y: u32 = limb(b, i);
    if x < y {
        0
    } else if x == y {
        1
    } else {
        2
    }
}

/// Whether `a` spells at least what `b` spells.
fn at_least(a: &Vec<u32>, b: &Vec<u32>) -> (r: bool)
    ensures
        r == (big(a@) >= big(b@)),
{
    proof {
        big_step(a@, 0);
        big_step(b@, 0);
    }
    order_from(a, b, 0) != 0
}

/// Takes what the limbs of `b` from `i` spell, and `borrow`, off those of `a`.
fn take_off_from(a: &mut Vec<u32>, b: &Vec<u32>, i: usize, borrow: u32)
    requires
        i <= old(a)@.len(),
        borrow <= 1,
        big_from(old(a)@, i as int) >= big_from(b@, i as int) + borrow,
    ensures
        final(a)@.len() == old(a)@.len(),
        final(a)@.take(i as int) == old(a)@.take(i as int),
        big_from(final(a)@, i as int) == big_from(old(a)@, i as int) - big_from(b@, i as int)
            - borrow,
    decreases old(a)@.len() - i,
{
    let ghost before = a@;
    proof {
        big_step(before, i as int);
        big_step(b@, i as int);
    }
    if i < a.len() {
        let x: u32 = a[i];
        let y: u32 = limb(b, i);
        proof {
            big_step(b@, i + 1);
        }
        let need: u64 = (y as u64) + (borrow as u64);
        let (low, next): (u32, u32) = if (x as u64) >= need {
            (((x as u64) - need) as u32, 0)
        } else {
            (((x as u64) + 0x1_0000_0000 - need) as u32, 1)
        };
        a.set(i, low);
        let ghost mid = a@;
        assert(mid.skip(i + 1) =~= before.skip(i + 1));
        take_off_from(a, b, i + 1, next);
        proof {
            assert(a@[i as int] == low) by {
                assert(a@.take(i + 1)[i as int] == mid.take(i + 1)[i as int]);
            }
            assert(a@.take(i as int) =~= before.take(i as int)) by {
                assert forall|k: int| 0 <= k < i implies a@[k] == before[k] by {
                    assert(a@.take(i + 1)[k] == mid.take(i + 1)[k]);
                }
            }
            big_step(a@, i as int);
        }
    }
}

/// Takes what `b` spells off what `a` spells.
fn take_off(a: &mut Vec<u32>, b: &Vec<u32>)
    requires
        big(old(a)@) >= big(b@),
    ensures
        big(final(a)@) == big(old(a)@) - big(b@),
{
    let ghost before = a@;
    proof {
        big_step(before, 0);
        big_step(b@, 0);
    }
    take_off_from(a, b, 0, 0);
    proof {
        big_step(a@, 0);
    }
}

/// The limbs of a number that fits three of them.
fn limbs_of(n: u128) -> (v: Vec<u32>)
    requires
        n < 0x1_0000_0000_0000_0000_0000_0000,
    ensures
        big(v@) == n,
{
    let low: u32 = (n % 0x1_0000_0000) as u32;
    let rest: u128 = n / 0x1_0000_0000;
    let middle: u32 = (rest % 0x1_0000_0000) as u32;
    let high: u32 = (rest / 0x1_0000_0000) as u32;
    let v: Vec<u32> = vec![low, middle, high];
    proof {
        big_step(v@, 0);
        big_step(v@, 1);
        big_step(v@, 2);
    }
    v
}

// --- the nearest number ------------------------------------------------------------

/// `n / d` with `d` doubled, and the exponent raised, until it is below two.
pub open spec fn halved_down(n: nat, d: nat, e: int) -> (nat, nat, int)
    decreases n - d,
{
    if d > 0 && n >= 2 * d {
        halved_down(n, 2 * d, e + 1)
    } else {
        (n, d, e)
    }
}

/// `n / d` with `n` doubled, and the exponent lowered, until it is at least one.
pub open spec fn doubled_up(n: nat, d: nat, e: int) -> (nat, nat, int)
    decreases 2 * d - n,
{
    if 0 < n && n < d {
        doubled_up(2 * n, d, e - 1)
    } else {
        (n, d, e)
    }
}

/// A positive fraction as `(n, d, e)`: `n / d` is at least one and below two,
/// and the fraction is `n / d` times two to the `e`.
pub open spec fn normal(n: nat, d: nat) -> (nat, nat, int) {
    if n >= d {
        halved_down(n, d, 0)
    } else {
        doubled_up(n, d, 0)
    }
}

/// `n / d` rounded to a whole number, a half to the even neighbour.
pub open spec fn rounded(n: nat, d: nat) -> nat {
    if 2 * (n % d) < d || (2 * (n % d) == d && n / d % 2 == 0) {
        n / d
    } else {
        n / d + 1
    }
}

/// The binary number with 53 significant bits that is nearest to the positive
/// fraction `n / d`, as `(m, e)`: it is `m` times two to the `e`.
pub open spec fn nearest(n: nat, d: nat) -> (nat, int) {
    let (a, b, e) = normal(n, d);
    (rounded(a * pow2(52), b), e - 52)
}

/// `m` times two to the `e`, cut to a whole number.
pub open spec fn floor_scaled(m: nat, e: int) -> nat {
    if e >= 0 {
        m * pow2(e as nat)
    } else {
        m / pow2((-e) as nat)
    }
}

/// What `normal` leaves of a fraction of at least one.
proof fn halved_down_facts(n: nat, d: nat, e: int)
    requires
        0 < d <= n,
    ensures
        ({
            let (a, b, f) = halved_down(n, d, e);
            &&& a == n
            &&& f >= e
            &&& b == d * pow2((f - e) as nat)
            &&& 0 < b <= a < 2 * b
        }),
    decreases n - d,
{
    lemma2_to64();
    if n >= 2 * d {
        halved_down_facts(n, 2 * d, e + 1);
        let (a, b, f) = halved_down(n, 2 * d, e + 1);
        lemma_pow2_unfold((f - e) as nat);
        let p = pow2((f - e - 1) as nat);
        assert((2 * d) * p == d * (2 * p)) by (nonlinear_arith);
    } else {
        assert(d * 1 == d);
    }
}

/// What `normal` leaves of a fraction below one.
proof fn doubled_up_facts(n: nat, d: nat, e: int)
    requires
        0 < n < 2 * d,
    ensures
        ({
            let (a, b, f) = doubled_up(n, d, e);
            &&& b == d
            &&& f <= e
            &&& a == n * pow2((e - f) as nat)
            &&& 0 < b <= a < 2 * b
        }),
    decreases 2 * d - n,
{
    lemma2_to64();
    if n < d {
        doubled_up_facts(2 * n, d, e - 1);
        let (a, b, f) = doubled_up(2 * n, d, e - 1);
        lemma_pow2_unfold((e - f) as nat);
        let p = pow2((e - f - 1) as nat);
        assert((2 * n) * p == n * (2 * p)) by (nonlinear_arith);
    } else {
        assert(n * 1 == n);
    }
}

/// The exponents of powers of two are ordered as the powers are.
proof fn pow2_below(i: nat, j: nat)
    requires
        pow2(i) < pow2(j),
    ensures
        i < j,
{
    if j < i {
        lemma_pow2_strictly_increases(j, i);
    }
}

/// The binary number nearest to the fraction that the limbs of `n` and `d`
/// spell.
fn nearest_big(n: Vec<u32>, d: Vec<u32>) -> (r: (u64, i64))
    requires
        big(n@) > 0,
        big(d@) > 0,
        big(n@) < big(d@) * pow2(128),
        big(d@) < big(n@) * pow2(128),
    ensures
        (r.0 as nat, r.1 as int) == nearest(big(n@), big(d@)),
        0x10_0000_0000_0000 <= r.0 <= 0x20_0000_0000_0000,
        -181 <= r.1 <= 76,
{
    let ghost n0 = big(n@);
    let ghost d0 = big(d@);
    let mut n = n;
    let mut d = d;
    let mut e: i64 = 0;
    proof {
        lemma2_to64();
        lemma2_to64_rest();
        assert(d0 * 1 == d0);
        assert(n0 * 1 == n0);
    }
    if at_least(&n, &d) {
        let mut twice = d.clone();
        scale_up(&mut twice, 2, 0);
        while at_least(&n, &twice)
            invariant
                0 < d0,
                big(n@) == n0,
                big(twice@) == 2 * big(d@),
                big(d@) == d0 * pow2(e as nat),
                0 < big(d@) <= n0,
                n0 < d0 * pow2(128),
                0 <= e < 128,
                normal(n0, d0) == halved_down(n0, big(d@), e as int),
            decreases n0 - big(d@),
        {
            proof {
                lemma_pow2_unfold((e + 1) as nat);
                let p = pow2(e as nat);
                assert(2 * (d0 * p) == d0 * (2 * p)) by (nonlinear_arith);
                assert(d0 * pow2((e + 1) as nat) < d0 * pow2(128));
                let q = pow2((e + 1) as nat);
                let top = pow2(128);
                assert(q < top) by (nonlinear_arith)
                    requires
                        d0 * q < d0 * top,
                        d0 > 0,
                ;
                pow2_below((e + 1) as nat, 128);
            }
            d = twice.clone();
            scale_up(&mut twice, 2, 0);
            e = e + 1;
        }
        proof {
            assert(normal(n0, d0) == (n0, big(d@), e as int));
        }
    } else {
        while !at_least(&n, &d)
            invariant
                0 < n0,
                big(d@) == d0,
                big(n@) == n0 * pow2((-e) as nat),
                0 < big(n@) < 2 * d0,
                d0 < n0 * pow2(128),
                -128 <= e <= 0,
                e < 0 ==> big(n@) < 2 * d0,
                normal(n0, d0) == doubled_up(big(n@), d0, e as int),
            decreases 2 * d0 - big(n@),
        {
            proof {
                lemma_pow2_unfold((1 - e) as nat);
                let p = pow2((-e) as nat);
                assert(2 * (n0 * p) == n0 * (2 * p)) by (nonlinear_arith);
                let top = pow2(128);
                assert(p < top) by (nonlinear_arith)
                    requires
                        n0 * p < d0,
                        d0 < n0 * top,
                        n0 > 0,
                ;
                pow2_below((-e) as nat, 128);
            }
            scale_up(&mut n, 2, 0);
            e = e - 1;
        }
        proof {
            assert(normal(n0, d0) == (big(n@), d0, e as int));
        }
    }
    // 1 <= n / d < 2: read 53 bits off the quotient
    let ghost a = big(n@);
    let ghost b = big(d@);
    let mut q: u64 = 1;
    let mut rem = n;
    take_off(&mut rem, &d);
    let mut i: u32 = 0;
    assert(a * 1 == 1 * b + big(rem@));
    while i < 52
        invariant
            0 < b,
            b == big(d@),
            i <= 52,
            a * pow2(i as nat) == q * b + big(rem@),
            big(rem@) < b,
            pow2(i as nat) <= q < 2 * pow2(i as nat),
            pow2(52) == 0x10_0000_0000_0000,
        decreases 52 - i,
    {
        let ghost q0 = q;
        let ghost r0 = big(rem@);
        let ghost p = pow2(i as nat);
        proof {
            lemma_pow2_unfold((i + 1) as nat);
            if i < 51 {
                lemma_pow2_strictly_increases((i + 1) as nat, 52);
            }
            assert(a * (2 * p) == (2 * q0) * b + 2 * r0) by (nonlinear_arith)
                requires
                    a * p == q0 * b + r0,
            ;
        }
        scale_up(&mut rem, 2, 0);
        q = 2 * q;
        if at_least(&rem, &d) {
            take_off(&mut rem, &d);
            q = q + 1;
            assert((2 * q0) * b + 2 * r0 == (2 * q0 + 1) * b + (2 * r0 - b)) by (nonlinear_arith);
        }
        i = i + 1;
    }
    let ghost r = big(rem@);
    proof {
        let top = a * pow2(52);
        assert(top == q * b + r);
        vstd::arithmetic::div_mod::lemma_fundamental_div_mod_converse(
            top as int,
            b as int,
            q as int,
            r as int,
        );
    }
    scale_up(&mut rem, 2, 0);
    proof {
        big_step(rem@, 0);
        big_step(d@, 0);
    }
    let order: u8 = order_from(&rem, &d, 0);
    if order == 0 || (order == 1 && q % 2 == 0) {
        (q, e - 52)
    } else {
        (q + 1, e - 52)
    }
}

// --- whole numbers out of binary ones ------------------------------------------------

/// The binary number nearest to `n / d`, cut to a whole number and held to
/// what 64 bits can hold.
pub open spec fn truncated(n: nat, d: nat) -> nat {
    let (m, e) = nearest(n, d);
    if floor_scaled(m, e) <= u64::MAX {
        floor_scaled(m, e)
    } else {
        u64::MAX as nat
    }
}

/// Two to the `j`.
fn power_of_two(j: u32) -> (p: u64)
    requires
        j < 64,
    ensures
        p == pow2(j as nat),
{
    let mut p: u64 = 1;
    let mut i: u32 = 0;
    proof {
        lemma2_to64();
        lemma2_to64_rest();
    }
    while i < j
        invariant
            i <= j < 64,
            p == pow2(i as nat),
            pow2(63) == 0x8000_0000_0000_0000,
        decreases j - i,
    {
        proof {
            lemma_pow2_unfold((i + 1) as nat);
            if i < 62 {
                lemma_pow2_strictly_increases((i + 1) as nat, 63);
            }
        }
        p = 2 * p;
        i = i + 1;
    }
    p
}

/// `m` times two to the `e`, cut to a whole number and held to 64 bits.
fn floor_of(m: u64, e: i64) -> (r: u64)
    requires
        0x10_0000_0000_0000 <= m <= 0x20_0000_0000_0000,
        -1000 <= e <= 76,
    ensures
        r == (if floor_scaled(m as nat, e as int) <= u64::MAX {
            floor_scaled(m as nat, e as int)
        } else {
            u64::MAX as nat
        }),
{
    proof {
        lemma2_to64();
        lemma2_to64_rest();
    }
    if e >= 12 {
        proof {
            if e > 12 {
                lemma_pow2_strictly_increases(12, e as nat);
            }
            let p = pow2(e as nat);
            assert(m * p >= 0x10_0000_0000_0000 * 4096) by (nonlinear_arith)
                requires
                    m >= 0x10_0000_0000_0000,
                    p >= 4096,
            ;
        }
        u64::MAX
    } else if e >= 0 {
        let p: u64 = power_of_two(e as u32);
        proof {
            if e < 11 {
                lemma_pow2_strictly_increases(e as nat, 11);
            }
            assert(m * p <= 0x20_0000_0000_0000 * 2048) by (nonlinear_arith)
                requires
                    m <= 0x20_0000_0000_0000,
                    p <= 2048,
            ;
        }
        let product: u128 = (m as u128) * (p as u128);
        if product <= 0xffff_ffff_ffff_ffff {
            product as u64
        } else {
            u64::MAX
        }
    } else if e > -64 {
        m / power_of_two((-e) as u32)
    } else {
        proof {
            if e < -64 {
                lemma_pow2_strictly_increases(64, (-e) as nat);
            }
            vstd::arithmetic::div_mod::lemma_basic_div(m as int, pow2((-e) as nat) as int);
        }
        0
    }
}

/// A fraction of at least two to the 64 is beyond what 64 bits can hold.
proof fn truncated_large(n: nat, d: nat)
    requires
        0 < d,
        n >= d * pow2(64),
    ensures
        truncated(n, d) == u64::MAX,
{
    lemma2_to64();
    lemma2_to64_rest();
    assert(d * pow2(64) >= d) by (nonlinear_arith)
        requires
            pow2(64) >= 1,
    ;
    halved_down_facts(n, d, 0);
    let (a, b, f) = halved_down(n, d, 0);
    let p = pow2(f as nat);
    let top = pow2(64);
    assert(2 * p > top) by (nonlinear_arith)
        requires
            d * top <= n,
            n < 2 * (d * p),
            d > 0,
    ;
    if f < 64 {
        lemma_pow2_strictly_increases(f as nat, 64);
        lemma_pow2_unfold(64);
        if f < 63 {
            lemma_pow2_strictly_increases(f as nat, 63);
        }
    }
    let m = rounded(a * pow2(52), b);
    assert(m >= pow2(52)) by {
        assert(a * pow2(52) >= pow2(52) * b) by (nonlinear_arith)
            requires
                a >= b,
        ;
        vstd::arithmetic::div_mod::lemma_div_is_ordered(
            (pow2(52) * b) as int,
            (a * pow2(52)) as int,
            b as int,
        );
        vstd::arithmetic::div_mod::lemma_div_by_multiple(pow2(52) as int, b as int);
    }
    let k = (f - 52) as nat;
    if k > 12 {
        lemma_pow2_strictly_increases(12, k);
    }
    let q = pow2(k);
    assert(m * q >= 0x10_0000_0000_0000 * 4096) by (nonlinear_arith)
        requires
            m >= 0x10_0000_0000_0000,
            q >= 4096,
    ;
}

/// A fraction below a quarter is cut to nothing.
proof fn truncated_small(n: nat, d: nat)
    requires
        0 < n,
        4 * n < d,
    ensures
        truncated(n, d) == 0,
{
    lemma2_to64();
    lemma2_to64_rest();
    doubled_up_facts(n, d, 0);
    let (a, b, f) = doubled_up(n, d, 0);
    let k = (-f) as nat;
    let p = pow2(k);
    assert(p > 4) by (nonlinear_arith)
        requires
            n * p >= d,
            4 * n < d,
            n > 0,
    ;
    if k < 2 {
        lemma_pow2_strictly_increases(k, 2);
    }
    assert(k >= 3);
    let m = rounded(a * pow2(52), b);
    assert(m <= pow2(53)) by {
        assert(a * pow2(52) < pow2(53) * b) by (nonlinear_arith)
            requires
                a < 2 * b,
                pow2(53) == 2 * pow2(52),
                pow2(52) > 0,
        ;
        vstd::arithmetic::div_mod::lemma_multiply_divide_lt(
            (a * pow2(52)) as int,
            b as int,
            pow2(53) as int,
        );
    }
    let j = (52 - f) as nat;
    lemma_pow2_strictly_increases(54, j);
    vstd::arithmetic::div_mod::lemma_basic_div(m as int, pow2(j) as int);
}

// --- decimal numerals ---------------------------------------------------------------

/// Ten to the `e`.
pub open spec fn ten(e: nat) -> nat
    decreases e,
{
    if e == 0 {
        1
    } else {
        10 * ten((e - 1) as nat)
    }
}

/// What a decimal numeral stands for.
pub enum FloatView {
    Nan,
    Infinite { negative: bool },
    /// `mantissa` times ten to the `scale`, or its negative.
    Finite { negative: bool, mantissa: nat, scale: int },
}

/// How many digits `s` starts with.
pub open spec fn leading_digits(s: Seq<char>) -> nat
    decreases s.len(),
{
    if s.len() == 0 || !is_digit(s[0]) {
        0
    } else {
        1 + leading_digits(s.skip(1))
    }
}

/// `c` in lower case, where it is a letter of the Latin alphabet.
pub open spec fn lower(c: char) -> char {
    if 'A' <= c <= 'Z' {
        (c as u32 + 32) as char
    } else {
        c
    }
}

/// Whether `s` is the lower-case word `w`, in either case.
pub open spec fn same_word(s: Seq<char>, w: Seq<char>) -> bool {
    s.len() == w.len() && forall|i: int| 0 <= i < s.len() ==> lower(#[trigger] s[i]) == w[i]
}

/// `s` without a sign in front.
pub open spec fn unsigned_part(s: Seq<char>) -> Seq<char> {
    if s.len() > 0 && (s[0] == '+' || s[0] == '-') {
        s.skip(1)
    } else {
        s
    }
}

/// Whether `s` has a minus sign in front.
pub open spec fn is_negative(s: Seq<char>) -> bool {
    s.len() > 0 && s[0] == '-'
}

/// The exponent that follows the digits of a numeral: none, or an `e`, a sign
/// or none, and digits.
pub open spec fn exponent_of(r: Seq<char>) -> Option<int> {
    if r.len() == 0 {
        Some(0)
    } else if lower(r[0]) != 'e' {
        None
    } else {
        let q = r.skip(1);
        let t = unsigned_part(q);
        if t.len() == 0 || leading_digits(t) != t.len() {
            None
        } else if is_negative(q) {
            Some(-(digits_value(t) as int))
        } else {
            Some(digits_value(t) as int)
        }
    }
}

/// The digits behind the decimal point of a numeral whose whole part has `a` digits.
pub open spec fn fraction_of(t: Seq<char>, a: int) -> Seq<char> {
    if a < t.len() && t[a] == '.' {
        t.subrange(a + 1, a + 1 + leading_digits(t.skip(a + 1)))
    } else {
        seq![]
    }
}

/// What follows the digits of a numeral whose whole part has `a` digits.
pub open spec fn behind_digits(t: Seq<char>, a: int) -> Seq<char> {
    if a < t.len() && t[a] == '.' {
        t.skip(a + 1 + leading_digits(t.skip(a + 1)))
    } else {
        t.skip(a)
    }
}

/// The digits and the scale of a numeral without a sign.
pub open spec fn number_of(t: Seq<char>) -> Option<(nat, int)> {
    let a = leading_digits(t) as int;
    let fraction = fraction_of(t, a);
    if a + fraction.len() == 0 {
        None
    } else {
        match exponent_of(behind_digits(t, a)) {
            None => None,
            Some(e) => Some((digits_value(t.take(a) + fraction), e - fraction.len())),
        }
    }
}

/// What a numeral reads as: a sign or none, then `inf`, `infinity` or `nan` in
/// either case, or digits with a point among them or not and an exponent or none.
pub open spec fn float_of(s: Seq<char>) -> Option<FloatView> {
    let t = unsigned_part(s);
    let negative = is_negative(s);
    if same_word(t, seq!['i', 'n', 'f']) || same_word(
        t,
        seq!['i', 'n', 'f', 'i', 'n', 'i', 't', 'y'],
    ) {
        Some(FloatView::Infinite { negative })
    } else if same_word(t, seq!['n', 'a', 'n']) {
        Some(FloatView::Nan)
    } else {
        match number_of(t) {
            None => None,
            Some((mantissa, scale)) => Some(FloatView::Finite { negative, mantissa, scale }),
        }
    }
}

/// The binary number nearest to `mantissa` times ten to the `scale`, times two
/// to the `k`, cut to a whole number and held to 64 bits.
pub open spec fn scaled_truncated(mantissa: nat, scale: int, k: nat) -> nat {
    if mantissa == 0 {
        0
    } else if scale >= 0 {
        truncated(mantissa * ten(scale as nat) * pow2(k), 1)
    } else {
        truncated(mantissa * pow2(k), ten((-scale) as nat))
    }
}

/// The binary number that a numeral reads as, times two to the `k`, cut to a
/// whole number: nothing below zero, and held to 64 bits.
pub open spec fn float_times(f: FloatView, k: nat) -> nat {
    match f {
        FloatView::Nan => 0,
        FloatView::Infinite { negative } => if negative {
            0
        } else {
            u64::MAX as nat
        },
        FloatView::Finite { negative, mantissa, scale } => if negative {
            0
        } else {
            scaled_truncated(mantissa, scale, k)
        },
    }
}

/// The largest exponent that is told from larger ones.
const EXPONENT_CAP: i128 = 1_000_000_000_000_000_000_000_000_000_000;

/// An exponent held between the cap and its negative.
spec fn capped(e: int) -> int {
    if e > EXPONENT_CAP {
        EXPONENT_CAP as int
    } else if e < -EXPONENT_CAP {
        -EXPONENT_CAP
    } else {
        e
    }
}

/// A numeral that has been read.
#[derive(Debug)]
pub enum Float {
    Nan,
    Infinite { negative: bool },
    Finite(Digits),
}

/// The digits of a numeral that has been read.
#[derive(Debug)]
pub struct Digits {
    negative: bool,
    digits: Vec<char>,
    fraction: usize,
    exponent: i128,
}

impl Digits {
    /// Whether these are digits with exponent `e`.
    spec fn holds(&self, e: int) -> bool {
        &&& all_digits(self.digits@)
        &&& self.fraction <= self.digits@.len()
        &&& self.exponent == capped(e)
    }
}

impl Float {
    /// Whether this is what `f` says.
    pub closed spec fn reads(&self, f: FloatView) -> bool {
        match (self, f) {
            (Float::Nan, FloatView::Nan) => true,
            (Float::Infinite { negative: a }, FloatView::Infinite { negative: b }) => *a == b,
            (Float::Finite(d), FloatView::Finite { negative, mantissa, scale }) => {
                &&& d.negative == negative
                &&& digits_value(d.digits@) == mantissa
                &&& d.holds(scale + d.fraction)
            },
            _ => false,
        }
    }
}

/// Leading digits are digits, and none follows them directly.
proof fn leading_digits_facts(s: Seq<char>)
    ensures
        leading_digits(s) <= s.len(),
        all_digits(s.take(leading_digits(s) as int)),
        leading_digits(s) < s.len() ==> !is_digit(s[leading_digits(s) as int]),
    decreases s.len(),
{
    if s.len() != 0 && is_digit(s[0]) {
        leading_digits_facts(s.skip(1));
        let n = leading_digits(s) as int;
        let t = s.take(n);
        assert forall|i: int| 0 <= i < t.len() implies is_digit(#[trigger] t[i]) by {
            if i > 0 {
                assert(s.skip(1).take(n - 1)[i - 1] == t[i]);
            }
        }
    }
}

/// The place behind the digits of `v` from `from`.
fn digits_end(v: &Vec<char>, from: usize) -> (at: usize)
    requires
        from <= v@.len(),
    ensures
        from <= at <= v@.len(),
        at == from + leading_digits(v@.skip(from as int)),
{
    let mut i: usize = from;
    while i < v.len() && '0' <= v[i] && v[i] <= '9'
        invariant
            from <= i <= v@.len(),
            from + leading_digits(v@.skip(from as int)) == i + leading_digits(v@.skip(i as int)),
        decreases v@.len() - i,
    {
        assert(v@.skip(i as int).skip(1) =~= v@.skip(i + 1));
        i = i + 1;
    }
    i
}

/// Whether the characters of `v` from `from` are the lower-case word `w`, in
/// either case.
fn is_word(v: &Vec<char>, from: usize, w: &Vec<char>) -> (r: bool)
    requires
        from <= v@.len(),
    ensures
        r == same_word(v@.skip(from as int), w@),
{
    let ghost t = v@.skip(from as int);
    let n: usize = v.len();
    if n - from != w.len() {
        return false;
    }
    let mut i: usize = 0;
    while i < w.len()
        invariant
            i <= w@.len(),
            n == v@.len(),
            from + w@.len() == v@.len(),
            t == v@.skip(from as int),
            forall|k: int| 0 <= k < i ==> lower(#[trigger] t[k]) == w@[k],
        decreases w@.len() - i,
    {
        let c = v[from + i];
        assert(t[i as int] == c);
        if lower_char(c) != w[i] {
            return false;
        }
        i = i + 1;
    }
    true
}

/// `c` in lower case, where it is a letter of the Latin alphabet.
fn lower_char(c: char) -> (r: char)
    ensures
        r == lower(c),
{
    if 'A' <= c && c <= 'Z' {
        (c as u8 + 32) as char
    } else {
        c
    }
}

/// Digits spell at least what their first ones spell.
proof fn digits_value_grows(s: Seq<char>, n: int)
    requires
        0 <= n <= s.len(),
        all_digits(s),
    ensures
        digits_value(s.take(n)) <= digits_value(s),
    decreases s.len(),
{
    if n == s.len() {
        assert(s.take(n) =~= s);
    } else {
        assert(s.drop_last().take(n) =~= s.take(n));
        assert forall|i: int| 0 <= i < s.drop_last().len() implies is_digit(
            #[trigger] s.drop_last()[i],
        ) by {
            assert(is_digit(s[i]));
        }
        digits_value_grows(s.drop_last(), n);
    }
}

/// What the digits of `v` from `from` to its end spell, held to the cap.
fn capped_value(v: &Vec<char>, from: usize) -> (n: i128)
    requires
        from <= v@.len(),
        leading_digits(v@.skip(from as int)) == v@.len() - from,
    ensures
        n == capped(digits_value(v@.skip(from as int)) as int),
        n >= 0,
{
    let ghost t = v@.skip(from as int);
    let mut n: i128 = 0;
    let mut i: usize = from;
    proof {
        leading_digits_facts(t);
        assert(t.take(t.len() as int) =~= t);
    }
    while i < v.len()
        invariant
            from <= i <= v@.len(),
            t == v@.skip(from as int),
            all_digits(t),
            0 <= n < EXPONENT_CAP,
            n == digits_value(t.take(i - from)),
        decreases v@.len() - i,
    {
        let c = v[i];
        assert(is_digit(t[i - from]));
        let d: i128 = (c as u32 - 48) as i128;
        proof {
            assert(t.take(i + 1 - from).drop_last() =~= t.take(i - from));
            assert(t.take(i + 1 - from).last() == c);
        }
        n = n * 10 + d;
        i = i + 1;
        if n >= EXPONENT_CAP {
            proof {
                digits_value_grows(t, i - from);
            }
            return EXPONENT_CAP;
        }
    }
    assert(t.take(i - from) =~= t);
    n
}

/// Reads a numeral.
pub fn read_float(s: &str) -> (r: Option<Float>)
    ensures
        match r {
            Some(f) => float_of(s@) matches Some(view) && f.reads(view),
            None => float_of(s@) is None,
        },
{
    let v = chars_of(s);
    let signed = v.len() > 0 && (v[0] == '+' || v[0] == '-');
    let negative = v.len() > 0 && v[0] == '-';
    let from: usize = if signed {
        1
    } else {
        0
    };
    let ghost t = unsigned_part(s@);
    assert(t =~= v@.skip(from as int));
    let inf: Vec<char> = vec!['i', 'n', 'f'];
    let infinity: Vec<char> = vec!['i', 'n', 'f', 'i', 'n', 'i', 't', 'y'];
    let nan: Vec<char> = vec!['n', 'a', 'n'];
    assert(inf@ =~= seq!['i', 'n', 'f']);
    assert(infinity@ =~= seq!['i', 'n', 'f', 'i', 'n', 'i', 't', 'y']);
    assert(nan@ =~= seq!['n', 'a', 'n']);
    if is_word(&v, from, &inf) || is_word(&v, from, &infinity) {
        return Some(Float::Infinite { negative });
    }
    if is_word(&v, from, &nan) {
        return Some(Float::Nan);
    }
    match read_digits(&v, from) {
        None => None,
        Some((digits, fraction, after)) => match read_exponent(&v, after) {
            None => None,
            Some(exponent) => Some(
                Float::Finite(Digits { negative, digits, fraction, exponent }),
            ),
        },
    }
}

/// The digits of the numeral in `v` from `from`, how many of them stand behind
/// the point, and where they end.
fn read_digits(v: &Vec<char>, from: usize) -> (r: Option<(Vec<char>, usize, usize)>)
    requires
        from <= v@.len(),
    ensures
        ({
            let t = v@.skip(from as int);
            let a = leading_digits(t) as int;
            let fraction = fraction_of(t, a);
            match r {
                None => a + fraction.len() == 0,
                Some((digits, behind, after)) => {
                    &&& a + fraction.len() > 0
                    &&& digits@ == t.take(a) + fraction
                    &&& all_digits(digits@)
                    &&& behind == fraction.len()
                    &&& after <= v@.len()
                    &&& v@.skip(after as int) == behind_digits(t, a)
                },
            }
        }),
{
    let ghost t = v@.skip(from as int);
    let whole = digits_end(v, from);
    let ghost a = whole - from;
    proof {
        leading_digits_facts(t);
    }
    let mut digits: Vec<char> = Vec::new();
    push_part(&mut digits, v, from, whole);
    assert(digits@ =~= t.take(a));
    let mut after: usize = whole;
    let mut behind: usize = 0;
    if whole < v.len() && v[whole] == '.' {
        assert(t[a] == '.');
        let end = digits_end(v, whole + 1);
        assert(v@.skip(whole + 1) =~= t.skip(a + 1));
        proof {
            leading_digits_facts(t.skip(a + 1));
            let b = leading_digits(t.skip(a + 1)) as int;
            assert(t.skip(a + 1).take(b) =~= t.subrange(a + 1, a + 1 + b));
            assert(v@.subrange(whole + 1, end as int) =~= fraction_of(t, a));
            assert(behind_digits(t, a) =~= v@.skip(end as int));
        }
        push_part(&mut digits, v, whole + 1, end);
        behind = end - (whole + 1);
        after = end;
    } else {
        proof {
            if a < t.len() {
                assert(t[a] == v@[whole as int]);
            }
            assert(fraction_of(t, a) =~= seq![]);
            assert(digits@ =~= t.take(a) + fraction_of(t, a));
            assert(behind_digits(t, a) =~= v@.skip(whole as int));
        }
    }
    proof {
        let f = fraction_of(t, a);
        assert forall|i: int| 0 <= i < digits@.len() implies is_digit(#[trigger] digits@[i]) by {
            if i < a {
                assert(is_digit(t.take(a)[i]));
            } else {
                assert(digits@[i] == f[i - a]);
                assert(is_digit(t.skip(a + 1).take(f.len() as int)[i - a]));
            }
        }
    }
    if digits.len() == 0 {
        return None;
    }
    Some((digits, behind, after))
}

/// The exponent in `v` from `after` on, held to the cap.
fn read_exponent(v: &Vec<char>, after: usize) -> (r: Option<i128>)
    requires
        after <= v@.len(),
    ensures
        match r {
            None => exponent_of(v@.skip(after as int)) is None,
            Some(e) => exponent_of(v@.skip(after as int)) matches Some(x) && e == capped(x),
        },
{
    let ghost rest = v@.skip(after as int);
    if after == v.len() {
        return Some(0);
    }
    assert(rest[0] == v@[after as int]);
    if lower_char(v[after]) != 'e' {
        return None;
    }
    let ghost q = rest.skip(1);
    assert(q =~= v@.skip(after + 1));
    let minus = after + 1 < v.len() && v[after + 1] == '-';
    let plus = after + 1 < v.len() && v[after + 1] == '+';
    let start: usize = if minus || plus {
        after + 2
    } else {
        after + 1
    };
    assert(unsigned_part(q) =~= v@.skip(start as int));
    let end = digits_end(v, start);
    if start == v.len() || end != v.len() {
        return None;
    }
    let size = capped_value(v, start);
    if minus {
        Some(-size)
    } else {
        Some(size)
    }
}

/// Appends the part of `v` from `from` up to `to`.
fn push_part(out: &mut Vec<char>, v: &Vec<char>, from: usize, to: usize)
    requires
        from <= to <= v@.len(),
    ensures
        final(out)@ == old(out)@ + v@.subrange(from as int, to as int),
{
    let ghost before = out@;
    let mut i: usize = from;
    while i < to
        invariant
            from <= i <= to <= v@.len(),
            out@ == before + v@.subrange(from as int, i as int),
        decreases to - i,
    {
        out.push(v[i]);
        i = i + 1;
        assert(v@.subrange(from as int, i as int) =~= v@.subrange(from as int, i - 1).push(
            v@[i - 1],
        ));
    }
}

/// Powers of ten multiply by adding exponents.
proof fn ten_adds(a: nat, b: nat)
    ensures
        ten(a + b) == ten(a) * ten(b),
        ten(a) >= 1,
    decreases a,
{
    if a == 0 {
        assert(ten(0) == 1);
        assert(1 * ten(b) == ten(b));
    } else {
        ten_adds((a - 1) as nat, b);
        let x = ten((a - 1) as nat);
        let y = ten(b);
        assert(10 * (x * y) == (10 * x) * y) by (nonlinear_arith);
    }
}

/// A larger power of ten is larger.
proof fn ten_grows(a: nat, b: nat)
    requires
        a <= b,
    ensures
        1 <= ten(a) <= ten(b),
{
    ten_adds(a, (b - a) as nat);
    ten_adds((b - a) as nat, 0);
    let x = ten(a);
    let y = ten((b - a) as nat);
    assert(x <= x * y) by (nonlinear_arith)
        requires
            y >= 1,
    ;
}

/// The powers of ten and two that bounds are given in.
proof fn power_facts()
    ensures
        ten(1) == 10,
        ten(14) == 100_000_000_000_000,
        ten(20) == 100_000_000_000_000_000_000,
        pow2(40) == 0x100_0000_0000,
        pow2(64) == 0x1_0000_0000_0000_0000,
        pow2(128) == 0x1_0000_0000_0000_0000_0000_0000_0000_0000,
{
    reveal_with_fuel(ten, 21);
    lemma2_to64();
    lemma2_to64_rest();
    lemma_pow2_adds(64, 64);
    assert(0x1_0000_0000_0000_0000 * 0x1_0000_0000_0000_0000
        == 0x1_0000_0000_0000_0000_0000_0000_0000_0000) by (nonlinear_arith);
}

/// Digits spell less than ten to their number, and at least ten to one less
/// where the first is not zero.
proof fn digits_value_bounds(s: Seq<char>)
    requires
        all_digits(s),
    ensures
        digits_value(s) < ten(s.len()),
        s.len() > 0 && s[0] != '0' ==> digits_value(s) >= ten((s.len() - 1) as nat),
    decreases s.len(),
{
    if s.len() > 0 {
        let t = s.drop_last();
        assert forall|i: int| 0 <= i < t.len() implies is_digit(#[trigger] t[i]) by {
            assert(is_digit(s[i]));
        }
        assert(is_digit(s[s.len() - 1]));
        digits_value_bounds(t);
        if t.len() == 0 {
            assert(digits_value(t) == 0);
        }
    }
}

/// Zeros in front do not change what digits spell.
proof fn digits_value_skips_zeros(s: Seq<char>, z: int)
    requires
        0 <= z <= s.len(),
        forall|i: int| 0 <= i < z ==> s[i] == '0',
    ensures
        digits_value(s) == digits_value(s.skip(z)),
    decreases s.len(),
{
    if z == s.len() {
        if s.len() > 0 {
            digits_value_skips_zeros(s.drop_last(), z - 1);
            assert(s.drop_last().skip(z - 1) =~= seq![]);
            assert(s.skip(z) =~= seq![]);
            assert(s.last() == '0');
        } else {
            assert(s.skip(z) =~= s);
        }
    } else {
        digits_value_skips_zeros(s.drop_last(), z);
        assert(s.drop_last().skip(z) =~= s.skip(z).drop_last());
    }
}

/// Digits whose point stands far to the right spell too much for 64 bits.
proof fn far_right(mantissa: nat, len: nat, scale: int, k: nat)
    requires
        len > 0,
        mantissa >= ten((len - 1) as nat),
        len + scale >= 21,
    ensures
        scaled_truncated(mantissa, scale, k) == u64::MAX,
{
    power_facts();
    lemma_pow2_pos(k);
    let p = pow2(k);
    ten_grows(0, (len - 1) as nat);
    if scale >= 0 {
        let s = ten(scale as nat);
        ten_adds((len - 1) as nat, scale as nat);
        ten_grows(20, (len - 1 + scale) as nat);
        let low = ten((len - 1) as nat);
        assert(mantissa * s * p >= low * s) by (nonlinear_arith)
            requires
                mantissa >= low,
                p >= 1,
        ;
        truncated_large(mantissa * s * p, 1);
    } else {
        let d = ten((-scale) as nat);
        ten_adds((len - 1 + scale) as nat, (-scale) as nat);
        ten_grows(20, (len - 1 + scale) as nat);
        ten_grows(0, (-scale) as nat);
        let w = ten((len - 1 + scale) as nat);
        let top = pow2(64);
        assert(mantissa * p >= d * top) by (nonlinear_arith)
            requires
                mantissa >= w * d,
                w >= top,
                p >= 1,
                d >= 1,
        ;
        truncated_large(mantissa * p, d);
    }
}

/// Digits whose point stands far to the left spell next to nothing.
proof fn far_left(mantissa: nat, len: nat, scale: int, k: nat)
    requires
        0 < mantissa < ten(len),
        len + scale <= -14,
        k <= 40,
    ensures
        scaled_truncated(mantissa, scale, k) == 0,
{
    power_facts();
    lemma_pow2_pos(k);
    if k < 40 {
        lemma_pow2_strictly_increases(k, 40);
    }
    let p = pow2(k);
    let d = ten((-scale) as nat);
    ten_adds(len, (-scale - len) as nat);
    ten_grows(14, (-scale - len) as nat);
    let w = ten((-scale - len) as nat);
    let top = ten(len);
    assert(4 * (mantissa * p) < top * w) by (nonlinear_arith)
        requires
            mantissa < top,
            0 < p <= 0x100_0000_0000,
            w >= 100_000_000_000_000,
    ;
    assert(mantissa * p > 0) by (nonlinear_arith)
        requires
            mantissa > 0,
            p > 0,
    ;
    truncated_small(mantissa * p, d);
}

/// The fraction that digits with a point near them spell is neither very
/// large nor very small.
proof fn near_bounds(mantissa: nat, len: nat, scale: int, k: nat)
    requires
        len > 0,
        ten((len - 1) as nat) <= mantissa < ten(len),
        -13 <= len + scale <= 20,
        k <= 40,
    ensures
        scale >= 0 ==> 1 <= mantissa * ten(scale as nat) * pow2(k) < pow2(128),
        scale < 0 ==> mantissa * pow2(k) >= 1 && mantissa * pow2(k) < ten((-scale) as nat) * pow2(
            128,
        ) && ten((-scale) as nat) < mantissa * pow2(k) * pow2(128),
{
    power_facts();
    lemma_pow2_pos(k);
    if k < 40 {
        lemma_pow2_strictly_increases(k, 40);
    }
    let p = pow2(k);
    let top = ten(len);
    let low = ten((len - 1) as nat);
    let limit = pow2(128);
    ten_grows(0, (len - 1) as nat);
    if scale >= 0 {
        let s = ten(scale as nat);
        ten_adds(len, scale as nat);
        ten_grows((len + scale) as nat, 20);
        ten_grows(0, scale as nat);
        assert(mantissa * s <= top * s) by (nonlinear_arith)
            requires
                mantissa < top,
        ;
        assert(1 <= mantissa * s) by (nonlinear_arith)
            requires
                mantissa >= 1,
                s >= 1,
        ;
        let ms = mantissa * s;
        assert(1 <= ms * p < limit) by (nonlinear_arith)
            requires
                1 <= ms <= 100_000_000_000_000_000_000,
                1 <= p <= 0x100_0000_0000,
                limit == 0x1_0000_0000_0000_0000_0000_0000_0000_0000,
        ;
    } else {
        let d = ten((-scale) as nat);
        ten_grows(0, (-scale) as nat);
        assert(top <= d * 100_000_000_000_000_000_000) by {
            if len + scale >= 0 {
                ten_adds((len + scale) as nat, (-scale) as nat);
                ten_grows((len + scale) as nat, 20);
                let w = ten((len + scale) as nat);
                assert(w * d <= d * 100_000_000_000_000_000_000) by (nonlinear_arith)
                    requires
                        w <= 100_000_000_000_000_000_000,
                ;
            } else {
                ten_grows(len, (-scale) as nat);
                assert(d <= d * 100_000_000_000_000_000_000) by (nonlinear_arith);
            }
        }
        assert(mantissa * p < d * limit) by (nonlinear_arith)
            requires
                mantissa < d * 100_000_000_000_000_000_000,
                d >= 1,
                1 <= p <= 0x100_0000_0000,
                limit == 0x1_0000_0000_0000_0000_0000_0000_0000_0000,
        ;
        assert(d <= low * 100_000_000_000_000) by {
            if 1 - len - scale >= 0 {
                ten_adds((len - 1) as nat, (1 - len - scale) as nat);
                ten_grows((1 - len - scale) as nat, 14);
                let w = ten((1 - len - scale) as nat);
                assert(low * w <= low * 100_000_000_000_000) by (nonlinear_arith)
                    requires
                        w <= 100_000_000_000_000,
                ;
            } else {
                ten_grows((-scale) as nat, (len - 1) as nat);
                assert(low <= low * 100_000_000_000_000) by (nonlinear_arith);
            }
        }
        assert(mantissa * p >= 1 && d < mantissa * p * limit) by (nonlinear_arith)
            requires
                d <= low * 100_000_000_000_000,
                1 <= low <= mantissa,
                1 <= p,
                limit == 0x1_0000_0000_0000_0000_0000_0000_0000_0000,
        ;
    }
}

/// Multiplies by ten, `times` times.
fn times_ten(v: &mut Vec<u32>, times: i128)
    requires
        0 <= times,
    ensures
        big(final(v)@) == big(old(v)@) * ten(times as nat),
{
    let ghost n = big(v@);
    let mut i: i128 = 0;
    assert(n * 1 == n);
    while i < times
        invariant
            0 <= i <= times,
            big(v@) == n * ten(i as nat),
        decreases times - i,
    {
        let ghost t = ten(i as nat);
        scale_up(v, 10, 0);
        i = i + 1;
        assert((n * t) * 10 == n * (10 * t)) by (nonlinear_arith);
    }
}

/// Doubles, `times` times.
fn times_two(v: &mut Vec<u32>, times: u32)
    ensures
        big(final(v)@) == big(old(v)@) * pow2(times as nat),
{
    let ghost n = big(v@);
    let mut i: u32 = 0;
    proof {
        lemma2_to64();
        assert(n * 1 == n);
    }
    while i < times
        invariant
            i <= times,
            big(v@) == n * pow2(i as nat),
        decreases times - i,
    {
        let ghost t = pow2(i as nat);
        scale_up(v, 2, 0);
        proof {
            lemma_pow2_unfold((i + 1) as nat);
            assert((n * t) * 2 == n * (2 * t)) by (nonlinear_arith);
        }
        i = i + 1;
    }
}

impl Digits {
    /// These digits times two to the `k`, cut to a whole number.
    #[verifier::rlimit(40)]
    fn times(&self, k: u32, Ghost(e): Ghost<int>) -> (r: u64)
        requires
            self.holds(e),
            k <= 40,
        ensures
            r == scaled_truncated(digits_value(self.digits@), e - self.fraction, k as nat),
    {
        let ghost mantissa = digits_value(self.digits@);
        let ghost scale = e - self.fraction;
        let n: usize = self.digits.len();
        let mut z: usize = 0;
        while z < n && self.digits[z] == '0'
            invariant
                n == self.digits@.len(),
                z <= n,
                forall|i: int| 0 <= i < z ==> self.digits@[i] == '0',
            decreases n - z,
        {
            z = z + 1;
        }
        let ghost t = self.digits@.skip(z as int);
        proof {
            digits_value_skips_zeros(self.digits@, z as int);
            assert forall|i: int| 0 <= i < t.len() implies is_digit(#[trigger] t[i]) by {
                assert(is_digit(self.digits@[i + z]));
            }
            digits_value_bounds(t);
        }
        let len: usize = n - z;
        if len == 0 {
            assert(t =~= seq![]);
            return 0;
        }
        assert(t[0] == self.digits@[z as int]);
        let point: i128 = (len as i128) + self.exponent - (self.fraction as i128);
        proof {
            ten_grows(0, (len - 1) as nat);
        }
        if point >= 21 {
            proof {
                far_right(mantissa, len as nat, scale, k as nat);
            }
            return u64::MAX;
        }
        if point <= -14 {
            proof {
                far_left(mantissa, len as nat, scale, k as nat);
            }
            return 0;
        }
        let mut big_n: Vec<u32> = Vec::new();
        let mut i: usize = 0;
        assert(t.take(0) =~= seq![]);
        while i < len
            invariant
                len == t.len(),
                n == self.digits@.len(),
                z + len == n,
                t == self.digits@.skip(z as int),
                all_digits(t),
                i <= len,
                big(big_n@) == digits_value(t.take(i as int)),
            decreases len - i,
        {
            let c = self.digits[z + i];
            assert(is_digit(t[i as int]));
            scale_up(&mut big_n, 10, c as u32 - 48);
            proof {
                assert(t.take(i + 1).drop_last() =~= t.take(i as int));
                assert(t.take(i + 1).last() == c);
            }
            i = i + 1;
        }
        assert(t.take(len as int) =~= t);
        let shift: i128 = self.exponent - (self.fraction as i128);
        assert(shift == scale);
        let mut big_d: Vec<u32> = limbs_of(1);
        proof {
            near_bounds(mantissa, len as nat, scale, k as nat);
        }
        if shift >= 0 {
            times_ten(&mut big_n, shift);
        } else {
            times_ten(&mut big_d, -shift);
            assert(1 * ten((-scale) as nat) == ten((-scale) as nat));
        }
        times_two(&mut big_n, k);
        proof {
            lemma_pow2_pos(128);
            let x = big(big_n@);
            let top = pow2(128);
            if shift >= 0 {
                assert(1 < x * top && x < 1 * top) by (nonlinear_arith)
                    requires
                        1 <= x < top,
                        top > 1,
                ;
            }
            power_facts();
        }
        let (m, f) = nearest_big(big_n, big_d);
        floor_of(m, f)
    }
}

impl Float {
    /// This number times two to the `k`, cut to a whole number.
    pub(crate) fn times_power(&self, k: u32, Ghost(view): Ghost<FloatView>) -> (r: u64)
        requires
            self.reads(view),
            k <= 40,
        ensures
            r == float_times(view, k as nat),
    {
        match self {
            Float::Nan => 0,
            Float::Infinite { negative } => if *negative {
                0
            } else {
                u64::MAX
            },
            Float::Finite(d) => {
                if d.negative {
                    return 0;
                }
                let ghost e = view->scale + d.fraction;
                d.times(k, Ghost(e))
            },
        }
    }
}

// --- printing with one decimal ---------------------------------------------------------

/// The binary number nearest to a whole number.
pub open spec fn as_binary(n: nat) -> (nat, int) {
    if n == 0 {
        (0, 0)
    } else {
        nearest(n, 1)
    }
}

/// Ten times `m` times two to the `e`, rounded to a whole number, a half to the
/// even neighbour.
pub open spec fn tenths(m: nat, e: int) -> nat {
    if e >= 0 {
        10 * m * pow2(e as nat)
    } else {
        rounded(10 * m, pow2((-e) as nat))
    }
}

/// A number of tenths in decimal, with one digit behind the point.
pub open spec fn one_decimal(t: nat) -> Seq<char> {
    decimal(t / 10) + seq!['.', digit(t % 10)]
}

/// A number of tenths in decimal, with one digit behind the point.
pub fn one_decimal_text(t: u64) -> (out: String)
    ensures
        out@ == one_decimal(t as nat),
{
    let mut out = decimal_text(t / 10);
    out.push('.');
    out.push(digit_char((t % 10) as u8));
    assert(out@ =~= one_decimal(t as nat));
    out
}

/// The tenths of `m` times two to the `e`.
fn tenths_of(m: u64, e: i64) -> (t: u64)
    requires
        m <= 0x20_0000_0000_0000,
        -1000 <= e < 0,
    ensures
        t == tenths(m as nat, e as int),
{
    let x: u64 = 10 * m;
    proof {
        lemma2_to64();
        lemma2_to64_rest();
        lemma_pow2_pos((-e) as nat);
    }
    if e <= -63 {
        proof {
            if e < -63 {
                lemma_pow2_strictly_increases(63, (-e) as nat);
            }
            let p = pow2((-e) as nat) as int;
            vstd::arithmetic::div_mod::lemma_basic_div(x as int, p);
            vstd::arithmetic::div_mod::lemma_small_mod(x as nat, p as nat);
        }
        return 0;
    }
    let p: u64 = power_of_two((-e) as u32);
    let q: u64 = x / p;
    let r: u64 = x % p;
    proof {
        if e > -62 {
            lemma_pow2_strictly_increases((-e) as nat, 62);
        }
        assert(q <= x) by {
            vstd::arithmetic::div_mod::lemma_div_is_ordered_by_denominator(x as int, 1, p as int);
        }
    }
    if 2 * r < p || (2 * r == p && q % 2 == 0) {
        q
    } else {
        q + 1
    }
}

/// The binary number nearest to `n`, as significand and exponent.
fn binary_of(n: u128) -> (r: (u64, i64))
    requires
        n <= 0x1_0000_0000_0000_0000,
    ensures
        (r.0 as nat, r.1 as int) == as_binary(n as nat),
        n == 0 ==> r == (0u64, 0i64),
        n != 0 ==> 0x10_0000_0000_0000 <= r.0 <= 0x20_0000_0000_0000 && -181 <= r.1 <= 12,
        n < 0x1_0000_0000_0000_0000 ==> r.1 <= 11,
{
    if n == 0 {
        return (0, 0);
    }
    proof {
        power_facts();
        halved_down_facts(n as nat, 1, 0);
        let (a, b, f) = halved_down(n as nat, 1, 0);
        assert(1 * pow2(f as nat) == pow2(f as nat));
        if f > 64 {
            lemma_pow2_strictly_increases(64, f as nat);
        }
    }
    nearest_big(limbs_of(n), limbs_of(1))
}

/// What a binary number of bytes prints as in gigabytes, with one decimal.
pub open spec fn gigabytes(bytes: nat) -> Seq<char> {
    let (m, e) = as_binary(bytes);
    if m == 0 {
        one_decimal(0)
    } else {
        let (q, f) = nearest(floor_scaled(m, e), 1_000_000_000);
        one_decimal(tenths(q, f))
    }
}

/// The size the unit at `u` leaves to print: each unit is 1024 of the one before.
pub open spec fn unit_for(m: nat, e: int, u: nat) -> nat
    decreases 4 - u,
{
    if u < 4 && floor_scaled(m, e - 10 * u) >= 1024 {
        unit_for(m, e, u + 1)
    } else {
        u
    }
}

/// The names of the units.
pub open spec fn unit_name(u: nat) -> Seq<char> {
    if u == 0 {
        "B"@
    } else if u == 1 {
        "KB"@
    } else if u == 2 {
        "MB"@
    } else if u == 3 {
        "GB"@
    } else {
        "TB"@
    }
}

/// What a number of bytes prints as: with one decimal, in the largest of five
/// units in which it is at least one.
pub open spec fn human(bytes: nat) -> Seq<char> {
    let (m, e) = as_binary(bytes);
    let u = unit_for(m, e, 0);
    one_decimal(
        if m == 0 {
            0
        } else {
            tenths(m, e - 10 * u)
        },
    ) + " "@ + unit_name(u)
}

/// What a number of bytes prints as in the largest unit in which it is at
/// least one.
pub fn human_bytes(bytes: u64) -> (out: String)
    ensures
        out@ == human(bytes as nat),
{
    let (m, e) = binary_of(bytes as u128);
    proof {
        lemma2_to64();
        lemma2_to64_rest();
    }
    let mut u: u32 = 0;
    let mut f: i64 = e;
    while u < 4 && m != 0 && floor_of(m, f) >= 1024
        invariant
            u <= 4,
            -181 <= e <= 11,
            f == e - 10 * u,
            m != 0 ==> 0x10_0000_0000_0000 <= m <= 0x20_0000_0000_0000,
            -221 <= f,
            unit_for(m as nat, e as int, 0) == unit_for(m as nat, e as int, u as nat),
        decreases 4 - u,
    {
        u = u + 1;
        f = f - 10;
    }
    proof {
        if m != 0 && f >= 0 {
            lemma_pow2_pos(f as nat);
            let p = pow2(f as nat);
            assert(m * p >= m) by (nonlinear_arith)
                requires
                    p >= 1,
            ;
        }
    }
    let mut out = if m == 0 {
        one_decimal_text(0)
    } else {
        one_decimal_text(tenths_of(m, f))
    };
    out.append(" ");
    out.append(
        if u == 0 {
            "B"
        } else if u == 1 {
            "KB"
        } else if u == 2 {
            "MB"
        } else if u == 3 {
            "GB"
        } else {
            "TB"
        },
    );
    out
}

/// What a number of bytes prints as in gigabytes, with one decimal.
pub fn gigabytes_text(bytes: u64) -> (out: String)
    ensures
        out@ == gigabytes(bytes as nat),
{
    let (m, e) = binary_of(bytes as u128);
    if m == 0 {
        return one_decimal_text(0);
    }
    proof {
        power_facts();
        lemma2_to64();
        lemma2_to64_rest();
        halved_down_facts(bytes as nat, 1, 0);
        if e >= 0 && e < 11 {
            lemma_pow2_strictly_increases(e as nat, 11);
        }
        if -52 < e && e < 0 {
            lemma_pow2_strictly_increases((-e) as nat, 52);
        }
    }
    let whole: u128 = if e >= 0 {
        let p: u64 = power_of_two(e as u32);
        assert(m * p <= 0x20_0000_0000_0000 * 2048 && m * p >= m) by (nonlinear_arith)
            requires
                m <= 0x20_0000_0000_0000,
                1 <= p <= 2048,
        ;
        (m as u128) * (p as u128)
    } else {
        let p: u64 = power_of_two((-e) as u32);
        proof {
            vstd::arithmetic::div_mod::lemma_div_is_ordered_by_denominator(m as int, 1, p as int);
            vstd::arithmetic::div_mod::lemma_div_is_ordered(p as int, m as int, p as int);
            assert(p as int / p as int == 1) by (nonlinear_arith)
                requires
                    p > 0,
            ;
        }
        (m / p) as u128
    };
    assert(whole == floor_scaled(m as nat, e as int));
    proof {
        let top = pow2(128);
        assert(whole < 1_000_000_000 * top && 1_000_000_000 < whole * top) by (nonlinear_arith)
            requires
                1 <= whole <= 0x1_0000_0000_0000_0000,
                top == 0x1_0000_0000_0000_0000_0000_0000_0000_0000,
        ;
        if whole >= 1_000_000_000 {
            halved_down_facts(whole as nat, 1_000_000_000, 0);
            let (a, b, f) = halved_down(whole as nat, 1_000_000_000, 0);
            if f > 35 {
                lemma_pow2_strictly_increases(35, f as nat);
            }
        } else {
            doubled_up_facts(whole as nat, 1_000_000_000, 0);
        }
    }
    let (q, f) = nearest_big(limbs_of(whole), limbs_of(1_000_000_000));
    one_decimal_text(tenths_of(q, f))
}

// --- laws ------------------------------------------------------------------------------------

/// Rounding gives a nearest whole number, and of two that are equally near the even
/// one.
pub proof fn law_rounded(n: nat, d: nat)
    requires
        0 < d,
    ensures
        -(d as int) <= 2 * (rounded(n, d) * d - n) <= d,
        (2 * (rounded(n, d) * d - n) == d || 2 * (n - rounded(n, d) * d) == d) ==> rounded(n, d)
            % 2 == 0,
        n % d == 0 ==> rounded(n, d) * d == n,
{
    let q = (n / d) as int;
    let r = (n % d) as int;
    vstd::arithmetic::div_mod::lemma_fundamental_div_mod(n as int, d as int);
    vstd::arithmetic::div_mod::lemma_mod_division_less_than_divisor(n as int, d as int);
    assert(d * q == q * d) by (nonlinear_arith);
    assert((q + 1) * d == q * d + d) by (nonlinear_arith);
}

/// A fraction that is scaled on both sides rounds to the same.
proof fn rounded_scaled(n: nat, d: nat, k: nat)
    requires
        0 < d,
        0 < k,
    ensures
        rounded(n * k, d * k) == rounded(n, d),
{
    let q = (n / d) as int;
    let r = (n % d) as int;
    vstd::arithmetic::div_mod::lemma_fundamental_div_mod(n as int, d as int);
    vstd::arithmetic::div_mod::lemma_mod_division_less_than_divisor(n as int, d as int);
    let nk = (n * k) as int;
    let dk = (d * k) as int;
    assert(nk == q * dk + r * k) by (nonlinear_arith)
        requires
            n == d * q + r,
            nk == n * k,
            dk == d * k,
    ;
    assert(0 <= r * k < dk) by (nonlinear_arith)
        requires
            0 <= r < d,
            0 < k,
            dk == d * k,
    ;
    vstd::arithmetic::div_mod::lemma_fundamental_div_mod_converse(nk, dk, q, r * k);
    assert(2 * (r * k) < dk <==> 2 * r < d) by (nonlinear_arith)
        requires
            0 < k,
            dk == d * k,
    ;
    assert(2 * (r * k) == dk <==> 2 * r == d) by (nonlinear_arith)
        requires
            0 < k,
            dk == d * k,
    ;
}

/// A fraction that is a whole number rounds to it.
proof fn rounded_exact(q: nat, d: nat)
    requires
        0 < d,
    ensures
        rounded(q * d, d) == q,
{
    vstd::arithmetic::div_mod::lemma_div_by_multiple(q as int, d as int);
    vstd::arithmetic::div_mod::lemma_mod_multiples_basic(q as int, d as int);
}

/// The binary number nearest to a fraction has 53 significant bits, and is off by half
/// of the last of them at most.
pub proof fn law_nearest(n: nat, d: nat)
    requires
        0 < n,
        0 < d,
    ensures
        ({
            let (m, e) = nearest(n, d);
            &&& pow2(52) <= m <= pow2(53)
            &&& e >= 0 ==> {
                let unit = (d * pow2(e as nat)) as int;
                -unit <= 2 * (m * unit - n) <= unit
            }
            &&& e < 0 ==> -(d as int) <= 2 * (m * d - n * pow2((-e) as nat)) <= d
        }),
{
    lemma2_to64();
    lemma2_to64_rest();
    let (a, b, f) = normal(n, d);
    let p52 = pow2(52);
    if n >= d {
        halved_down_facts(n, d, 0);
    } else {
        doubled_up_facts(n, d, 0);
    }
    let (m, e) = nearest(n, d);
    law_rounded(a * p52, b);
    let off = m * b - a * p52;
    assert(p52 <= m <= 2 * p52) by (nonlinear_arith)
        requires
            -(b as int) <= 2 * (m * b - a * p52) <= b,
            0 < b <= a < 2 * b,
            p52 > 0,
    ;
    if n >= d && e >= 0 {
        let pe = pow2(e as nat);
        lemma_pow2_adds(e as nat, 52);
        assert(b == (d * pe) * p52) by (nonlinear_arith)
            requires
                b == d * pow2(f as nat),
                pow2(f as nat) == pe * p52,
        ;
        let unit = (d * pe) as int;
        assert(-unit <= 2 * (m * unit - n) <= unit) by (nonlinear_arith)
            requires
                -(b as int) <= 2 * (m * b - a * p52) <= b,
                b == unit * p52,
                a == n,
                p52 > 0,
        ;
    } else if n >= d {
        let k = (-e) as nat;
        let pf = pow2(f as nat);
        let pk = pow2(k);
        lemma_pow2_adds(k, f as nat);
        lemma_pow2_pos(f as nat);
        assert(-(d as int) <= 2 * (m * d - n * pk) <= d) by (nonlinear_arith)
            requires
                -(b as int) <= 2 * (m * b - a * p52) <= b,
                b == d * pf,
                a == n,
                p52 == pk * pf,
                pf > 0,
        ;
    } else {
        let k = (-e) as nat;
        let g = (-f) as nat;
        lemma_pow2_adds(g, 52);
        let pg = pow2(g);
        let pk = pow2(k);
        assert(a * p52 == n * pk) by (nonlinear_arith)
            requires
                a == n * pg,
                pk == pg * p52,
        ;
    }
}

/// A fraction that is a whole number below two to the 53 is held exactly.
proof fn nearest_exact(q: nat, d: nat) -> (k: nat)
    requires
        0 < q < pow2(53),
        0 < d,
    ensures
        nearest(q * d, d) == ((q * pow2(k)) as nat, -(k as int)),
        k <= 52,
{
    lemma2_to64();
    lemma2_to64_rest();
    let n = (q * d) as nat;
    assert(n >= d) by (nonlinear_arith)
        requires
            n == q * d,
            q >= 1,
            d > 0,
    ;
    halved_down_facts(n, d, 0);
    let (a, b, f) = halved_down(n, d, 0);
    let pf = pow2(f as nat);
    assert(pf <= q) by (nonlinear_arith)
        requires
            d * pf <= q * d,
            d > 0,
    ;
    pow2_below(f as nat, 53);
    let k = (52 - f) as nat;
    lemma_pow2_adds(k, f as nat);
    let pk = pow2(k);
    assert(a * pow2(52) == (q * pk) * b) by (nonlinear_arith)
        requires
            a == q * d,
            b == d * pf,
            pow2(52) == pk * pf,
    ;
    rounded_exact((q * pk) as nat, b);
    k
}

/// A fraction that is a whole number below two to the 53 is cut to just that.
pub proof fn law_whole_numbers_stay(q: nat, d: nat)
    requires
        0 < q < pow2(53),
        0 < d,
    ensures
        truncated(q * d, d) == q,
{
    lemma2_to64();
    lemma2_to64_rest();
    let k = nearest_exact(q, d);
    let pk = pow2(k);
    lemma_pow2_pos(k);
    if k == 0 {
        assert(q * pk * pow2(0) == q) by (nonlinear_arith)
            requires
                pk == 1,
                pow2(0) == 1,
        ;
    } else {
        vstd::arithmetic::div_mod::lemma_div_by_multiple(q as int, pk as int);
    }
}

/// Every power of ten is ten times the one before.
pub proof fn law_ten(e: nat)
    ensures
        ten(0) == 1,
        ten(e + 1) == 10 * ten(e),
        ten(3) == 1000,
{
    reveal_with_fuel(ten, 4);
}

/// A numeral stands for a number of bytes, kilobytes, megabytes or the like: a whole
/// number times two to the `k`, exactly as long as 53 bits hold it; a fraction of one
/// that comes out whole, too.
pub proof fn law_scaled_exactly(mantissa: nat, scale: nat, k: nat, q: nat)
    ensures
        scaled_truncated(0, scale as int, k) == 0,
        0 < mantissa && mantissa * ten(scale) * pow2(k) < pow2(53) ==> scaled_truncated(
            mantissa,
            scale as int,
            k,
        ) == mantissa * ten(scale) * pow2(k),
        0 < scale && 0 < q < pow2(53) && mantissa * pow2(k) == q * ten(scale) ==> scaled_truncated(
            mantissa,
            -(scale as int),
            k,
        ) == q,
{
    lemma_pow2_pos(k);
    ten_positive(scale);
    if 0 < mantissa && mantissa * ten(scale) * pow2(k) < pow2(53) {
        let v = (mantissa * ten(scale) * pow2(k)) as nat;
        assert(v > 0) by (nonlinear_arith)
            requires
                v == mantissa * ten(scale) * pow2(k),
                mantissa > 0,
                ten(scale) > 0,
                pow2(k) > 0,
        ;
        law_whole_numbers_stay(v, 1);
        assert(v * 1 == v);
    }
    if 0 < scale && 0 < q < pow2(53) && mantissa * pow2(k) == q * ten(scale) {
        assert(mantissa > 0) by (nonlinear_arith)
            requires
                mantissa * pow2(k) == q * ten(scale),
                q > 0,
                ten(scale) > 0,
        ;
        law_whole_numbers_stay(q, ten(scale));
    }
}

/// Powers of ten are positive.
proof fn ten_positive(e: nat)
    ensures
        ten(e) > 0,
    decreases e,
{
    if e > 0 {
        ten_positive((e - 1) as nat);
    }
}

/// What is not a number, or below zero, comes to nothing; what is endless, to the most
/// that 64 bits hold.
pub proof fn law_odd_numerals(mantissa: nat, scale: int, k: nat)
    ensures
        float_times(FloatView::Nan, k) == 0,
        float_times(FloatView::Infinite { negative: true }, k) == 0,
        float_times(FloatView::Infinite { negative: false }, k) == u64::MAX,
        float_times(FloatView::Finite { negative: true, mantissa, scale }, k) == 0,
        float_times(FloatView::Finite { negative: false, mantissa, scale }, k)
            == scaled_truncated(mantissa, scale, k),
{
}

/// How many digits a text starts with that is made of digits and then something else.
proof fn leading_digits_of(ds: Seq<char>, rest: Seq<char>)
    requires
        forall|i: int| 0 <= i < ds.len() ==> is_digit(#[trigger] ds[i]),
        rest.len() == 0 || !is_digit(rest[0]),
    ensures
        leading_digits(ds + rest) == ds.len(),
    decreases ds.len(),
{
    if ds.len() == 0 {
        assert(ds + rest =~= rest);
    } else {
        assert((ds + rest).skip(1) =~= ds.skip(1) + rest);
        leading_digits_of(ds.skip(1), rest);
    }
}

/// Digits, with a point among them or not, are the number that the digits spell, with as
/// many places behind the point as there are digits there; an exponent moves the point.
pub proof fn law_numerals(a: Seq<char>, b: Seq<char>, x: Seq<char>, e: int)
    requires
        forall|i: int| 0 <= i < a.len() ==> is_digit(#[trigger] a[i]),
        forall|i: int| 0 <= i < b.len() ==> is_digit(#[trigger] b[i]),
        a.len() + b.len() > 0,
        exponent_of(x) == Some(e),
    ensures
        number_of(a + seq!['.'] + b + x) == Some((digits_value(a + b), e - b.len())),
        a.len() > 0 ==> number_of(a + x) == Some((digits_value(a), e)),
{
    assert(x.len() == 0 || lower(x[0]) == 'e');
    assert(x.len() == 0 || (!is_digit(x[0]) && x[0] != '.'));
    let t = a + seq!['.'] + b + x;
    let n = a.len() as int;
    leading_digits_of(a, seq!['.'] + b + x);
    assert(t =~= a + (seq!['.'] + b + x));
    assert(t[n] == '.');
    assert(t.skip(n + 1) =~= b + x);
    leading_digits_of(b, x);
    assert(t.subrange(n + 1, n + 1 + b.len() as int) =~= b);
    assert(t.skip(n + 1 + b.len() as int) =~= x);
    assert(t.take(n) =~= a);
    if a.len() > 0 {
        let u = a + x;
        leading_digits_of(a, x);
        assert(fraction_of(u, n) =~= seq![]);
        assert(behind_digits(u, n) =~= x);
        assert(u.take(n) + Seq::<char>::empty() =~= a);
    }
}

/// An exponent is what its digits spell, behind an `e` in either case; a minus turns it
/// round, and a plus does nothing. Without one it is nothing.
pub proof fn law_exponents(ds: Seq<char>)
    requires
        ds.len() > 0,
        forall|i: int| 0 <= i < ds.len() ==> is_digit(#[trigger] ds[i]),
    ensures
        exponent_of(seq![]) == Some(0int),
        exponent_of(seq!['e'] + ds) == Some(digits_value(ds) as int),
        exponent_of(seq!['E'] + ds) == Some(digits_value(ds) as int),
        exponent_of(seq!['e', '+'] + ds) == Some(digits_value(ds) as int),
        exponent_of(seq!['e', '-'] + ds) == Some(-(digits_value(ds) as int)),
{
    leading_digits_of(ds, seq![]);
    assert(ds + seq![] =~= ds);
    assert((seq!['e'] + ds).skip(1) =~= ds);
    assert((seq!['E'] + ds).skip(1) =~= ds);
    assert((seq!['e', '+'] + ds).skip(1) =~= seq!['+'] + ds);
    assert((seq!['e', '-'] + ds).skip(1) =~= seq!['-'] + ds);
    assert((seq!['+'] + ds).skip(1) =~= ds);
    assert((seq!['-'] + ds).skip(1) =~= ds);
    assert(is_digit(ds[0]));
}

/// What `number_of` reads of a text, `float_of` reads as a number: a minus in front makes
/// it negative, and a plus changes nothing.
pub proof fn law_signs_of_numerals(t: Seq<char>, mantissa: nat, scale: int)
    requires
        number_of(t) == Some((mantissa, scale)),
        t.len() > 0,
        t[0] == '.' || is_digit(t[0]),
    ensures
        float_of(t) == Some(FloatView::Finite { negative: false, mantissa, scale }),
        float_of(seq!['+'] + t) == Some(FloatView::Finite { negative: false, mantissa, scale }),
        float_of(seq!['-'] + t) == Some(FloatView::Finite { negative: true, mantissa, scale }),
{
    assert((seq!['+'] + t).skip(1) =~= t);
    assert((seq!['-'] + t).skip(1) =~= t);
    assert(lower(t[0]) == t[0]);
    assert(!same_word(t, seq!['i', 'n', 'f']));
    assert(!same_word(t, seq!['i', 'n', 'f', 'i', 'n', 'i', 't', 'y']));
    assert(!same_word(t, seq!['n', 'a', 'n']));
}

/// The words for what is endless and what is not a number are read in either case.
pub proof fn law_words_for_odd_numerals(t: Seq<char>)
    requires
        t.len() == 3,
    ensures
        (t[0] == 'i' || t[0] == 'I') && (t[1] == 'n' || t[1] == 'N') && (t[2] == 'f' || t[2]
            == 'F') ==> float_of(t) == Some(FloatView::Infinite { negative: false }) && float_of(
            seq!['-'] + t,
        ) == Some(FloatView::Infinite { negative: true }),
        (t[0] == 'n' || t[0] == 'N') && (t[1] == 'a' || t[1] == 'A') && (t[2] == 'n' || t[2]
            == 'N') ==> float_of(t) == Some(FloatView::Nan),
{
    assert((seq!['-'] + t).skip(1) =~= t);
    let inf = seq!['i', 'n', 'f'];
    let nan = seq!['n', 'a', 'n'];
    if (t[0] == 'i' || t[0] == 'I') && (t[1] == 'n' || t[1] == 'N') && (t[2] == 'f' || t[2]
        == 'F') {
        assert(same_word(t, inf));
    }
    if (t[0] == 'n' || t[0] == 'N') && (t[1] == 'a' || t[1] == 'A') && (t[2] == 'n' || t[2]
        == 'N') {
        assert(lower(t[0]) == 'n');
        assert(!same_word(t, inf)) by {
            assert(inf[0] == 'i');
        }
        assert(same_word(t, nan));
    }
}

/// Ten times a number has one more digit, and the one behind the point is the last.
pub proof fn law_one_decimal(whole: nat, tenth: nat)
    requires
        tenth < 10,
    ensures
        one_decimal(10 * whole + tenth) == decimal(whole) + seq!['.', digit(tenth)],
{
}

/// A whole number below two to the 53, cut to a number of kilobytes, megabytes and so on.
proof fn scaled_down(bytes: nat, u: nat) -> (k: nat)
    requires
        0 < bytes < pow2(53),
    ensures
        as_binary(bytes) == ((bytes * pow2(k)) as nat, -(k as int)),
        floor_scaled((bytes * pow2(k)) as nat, -(k as int) - 10 * u) == bytes / pow2(10 * u),
        tenths((bytes * pow2(k)) as nat, -(k as int) - 10 * u) == rounded(
            10 * bytes,
            pow2(10 * u),
        ),
{
    lemma2_to64();
    let k = nearest_exact(bytes, 1);
    assert(bytes * 1 == bytes);
    let pk = pow2(k);
    let pu = pow2(10 * u);
    lemma_pow2_pos(k);
    lemma_pow2_pos(10 * u);
    lemma_pow2_adds(k, 10 * u);
    let m = (bytes * pk) as nat;
    let e = -(k as int) - 10 * u;
    if k + 10 * u == 0 {
        assert(pk == 1 && pu == 1);
        assert(m == bytes) by (nonlinear_arith)
            requires
                m == bytes * pk,
                pk == 1,
        ;
        assert(m * pow2(0) == m) by (nonlinear_arith)
            requires
                pow2(0) == 1,
        ;
        assert(10 * m * pow2(0) == 10 * m) by (nonlinear_arith)
            requires
                pow2(0) == 1,
        ;
        assert(bytes / pu == bytes);
        rounded_exact(10 * bytes, 1);
        assert(10 * bytes * 1 == 10 * bytes);
    } else {
        assert(pow2((-e) as nat) == pu * pk) by (nonlinear_arith)
            requires
                pow2((-e) as nat) == pk * pu,
        ;
        vstd::arithmetic::div_mod::lemma_div_denominator(m as int, pk as int, pu as int);
        vstd::arithmetic::div_mod::lemma_div_by_multiple(bytes as int, pk as int);
        assert(m as int / (pk as int * pu as int) == bytes as int / pu as int);
        assert(10 * m == (10 * bytes) * pk) by (nonlinear_arith)
            requires
                m == bytes * pk,
        ;
        rounded_scaled(10 * bytes, pu, pk);
    }
    k
}

/// A number of bytes is shown in the largest of the units, each 1024 of the one before,
/// in which it is at least one, rounded to a tenth of it.
pub proof fn law_human(bytes: nat, u: nat)
    requires
        bytes < pow2(53),
        u <= 4,
        u > 0 ==> bytes >= pow2(10 * u),
        u < 4 ==> bytes < pow2(10 * u + 10),
    ensures
        human(bytes) == one_decimal(rounded(10 * bytes, pow2(10 * u))) + " "@ + (if u == 0 {
            "B"@
        } else if u == 1 {
            "KB"@
        } else if u == 2 {
            "MB"@
        } else if u == 3 {
            "GB"@
        } else {
            "TB"@
        }),
{
    lemma2_to64();
    if bytes == 0 {
        if u > 0 {
            lemma_pow2_pos(10 * u);
        }
        assert(floor_scaled(0, 0) == 0) by {
            assert(0 * pow2(0) == 0);
        }
        assert(unit_for(0, 0, 0) == 0);
        rounded_exact(0, 1);
    } else {
        let k = scaled_down(bytes, u);
        let m = (bytes * pow2(k)) as nat;
        lemma_pow2_pos(k);
        assert(m > 0) by (nonlinear_arith)
            requires
                m == bytes * pow2(k),
                bytes > 0,
                pow2(k) > 0,
        ;
        unit_is(bytes, k, u, u);
    }
}

/// Going up the units from one `below` ends at the one that fits.
proof fn unit_is(bytes: nat, k: nat, u: nat, below: nat)
    requires
        0 < bytes < pow2(53),
        as_binary(bytes) == ((bytes * pow2(k)) as nat, -(k as int)),
        u <= 4,
        below <= u,
        u > 0 ==> bytes >= pow2(10 * u),
        u < 4 ==> bytes < pow2(10 * u + 10),
    ensures
        unit_for((bytes * pow2(k)) as nat, -(k as int), (u - below) as nat) == u,
    decreases below,
{
    let v = (u - below) as nat;
    let m = (bytes * pow2(k)) as nat;
    let j = scaled_down(bytes, v);
    assert(j == k);
    let pv = pow2(10 * v);
    lemma_pow2_pos(10 * v);
    lemma_pow2_adds(10 * v, 10);
    lemma2_to64();
    let q = bytes / pv;
    vstd::arithmetic::div_mod::lemma_fundamental_div_mod(bytes as int, pv as int);
    vstd::arithmetic::div_mod::lemma_mod_division_less_than_divisor(bytes as int, pv as int);
    assert(q >= 1024 <==> bytes >= pv * 1024) by (nonlinear_arith)
        requires
            bytes == pv * q + bytes % pv,
            0 <= bytes % pv < pv,
    ;
    if below == 0 {
    } else {
        unit_is(bytes, k, u, (below - 1) as nat);
        if 10 * v + 10 < 10 * u {
            lemma_pow2_strictly_increases(10 * v + 10, 10 * u);
        }
    }
}

/// A number of bytes in gigabytes is right to a tenth, and a whole number of them is
/// shown as just that.
pub proof fn law_gigabytes(bytes: nat) -> (t: nat)
    requires
        bytes < pow2(53),
    ensures
        gigabytes(bytes) == one_decimal(t),
        -100_000_000 <= t * 100_000_000 - bytes <= 100_000_000,
        bytes % 1_000_000_000 == 0 ==> t * 100_000_000 == bytes,
{
    lemma2_to64();
    lemma2_to64_rest();
    if bytes == 0 {
        0
    } else {
        let k = scaled_down(bytes, 0);
        let m = (bytes * pow2(k)) as nat;
        lemma_pow2_pos(k);
        assert(m > 0) by (nonlinear_arith)
            requires
                m == bytes * pow2(k),
                bytes > 0,
                pow2(k) > 0,
        ;
        assert(floor_scaled(m, -(k as int)) == bytes) by {
            assert(-(k as int) - 10 * 0nat == -(k as int));
            assert(pow2(10 * 0nat) == 1);
            assert(bytes / 1 == bytes);
        }
        let (q, f) = nearest(bytes, 1_000_000_000);
        law_nearest(bytes, 1_000_000_000);
        assert(f < 0) by {
            if f >= 0 {
                let p = pow2(f as nat);
                lemma_pow2_pos(f as nat);
                assert(2 * bytes >= pow2(52) * 1_000_000_000) by (nonlinear_arith)
                    requires
                        2 * (q * (1_000_000_000nat * p) - bytes) <= 1_000_000_000nat * p,
                        q >= pow2(52),
                        p >= 1,
                        pow2(52) >= 2,
                ;
            }
        }
        let j = (-f) as nat;
        let p = pow2(j);
        lemma_pow2_pos(j);
        let t = tenths(q, f);
        law_rounded(10 * q, p);
        assert(p >= 16) by (nonlinear_arith)
            requires
                2 * (q * 1_000_000_000 - bytes * p) <= 1_000_000_000,
                q >= 0x10_0000_0000_0000,
                bytes < 0x20_0000_0000_0000,
                p >= 1,
        ;
        assert(-100_000_000 <= t * 100_000_000 - bytes <= 100_000_000) by (nonlinear_arith)
            requires
                -1_000_000_000 <= 2 * (q * 1_000_000_000 - bytes * p) <= 1_000_000_000,
                -(p as int) <= 2 * (t * p - 10 * q) <= p,
                p >= 16,
        ;
        if bytes % 1_000_000_000 == 0 {
            let w = bytes / 1_000_000_000;
            assert(bytes == w * 1_000_000_000);
            let i = nearest_exact(w, 1_000_000_000);
            let pi = pow2(i);
            assert(i == j);
            assert(10 * q == (10 * w) * p) by (nonlinear_arith)
                requires
                    q == w * p,
            ;
            rounded_exact(10 * w, p);
        }
        t
    }
}

} // verus!
