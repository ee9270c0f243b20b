//! The size of a level from the size of the level above it: a product in
//! double precision, computed on integers.

use vstd::prelude::*;

verus! {

/// Integers below this are double-precision numbers.
pub const EXACT_LIMIT: u128 = 0x20_0000_0000_0000;

/// The distance between neighbouring double-precision integers around `n`.
pub open spec fn spacing(n: nat) -> nat
    decreases n,
{
    if n < EXACT_LIMIT {
        1
    } else {
        2 * spacing(n / 2)
    }
}

/// The multiple of `unit` that is nearest to `n`, and of two equally near ones
/// the one that is an even multiple.
pub open spec fn round_to_multiple(n: nat, unit: nat) -> nat {
    let q = n / unit;
    let r = n % unit;
    if 2 * r < unit || (2 * r == unit && q % 2 == 0) {
        q * unit
    } else {
        (q + 1) * unit
    }
}

/// The double-precision number nearest to the integer `n`.
pub open spec fn as_double(n: nat) -> nat {
    round_to_multiple(n, spacing(n))
}

/// The product of two integers in double precision, cut off to 64 bits.
pub open spec fn double_product(a: u64, b: u64) -> u64 {
    let p = as_double(as_double(a as nat) * as_double(b as nat));
    if p > u64::MAX {
        u64::MAX
    } else {
        p as u64
    }
}

proof fn lemma_spacing_bounds(n: nat)
    requires
        n >= 1,
    ensures
        1 <= spacing(n) <= n,
    decreases n,
{
    if n >= EXACT_LIMIT {
        lemma_spacing_bounds(n / 2);
    }
}

/// Rounding moves a number by at most half the spacing, and so does not bring
/// it from at least `2^64` to below `2^64`.
proof fn lemma_as_double_large(n: nat)
    requires
        n > u64::MAX,
    ensures
        as_double(n) > u64::MAX,
{
    lemma_round_keeps_floor(n, 0x1_0000_0000_0000_0000);
}

/// A power of two that is at most `n` is also at most the rounded `n`.
proof fn lemma_round_keeps_floor(n: nat, bound: nat)
    requires
        n >= bound,
        bound == 0x1_0000_0000_0000_0000,
    ensures
        as_double(n) >= bound,
{
    let u = spacing(n);
    lemma_spacing_bounds(n);
    lemma_spacing_divides(n);
    let q = n / u;
    assert(n == q * u + n % u) by {
        vstd::arithmetic::div_mod::lemma_fundamental_div_mod(n as int, u as int);
        vstd::arithmetic::mul::lemma_mul_is_commutative(q as int, u as int);
    }
    assert(q * u >= bound) by {
        let k = if u <= bound {
            bound / u
        } else {
            0
        };
        if u <= bound {
            vstd::arithmetic::div_mod::lemma_fundamental_div_mod(bound as int, u as int);
            vstd::arithmetic::div_mod::lemma_div_is_ordered(bound as int, n as int, u as int);
            vstd::arithmetic::mul::lemma_mul_inequality(k as int, q as int, u as int);
            vstd::arithmetic::mul::lemma_mul_is_commutative(k as int, u as int);
        } else {
            vstd::arithmetic::div_mod::lemma_div_is_ordered(u as int, n as int, u as int);
            vstd::arithmetic::div_mod::lemma_div_by_self(u as int);
            vstd::arithmetic::mul::lemma_mul_inequality(1, q as int, u as int);
        }
    }
    assert((q + 1) * u == q * u + u) by {
        vstd::arithmetic::mul::lemma_mul_is_distributive_add_other_way(u as int, q as int, 1);
    }
}

/// A spacing of at most `2^64` divides `2^64`.
proof fn lemma_spacing_divides(n: nat)
    ensures
        spacing(n) <= 0x1_0000_0000_0000_0000 ==> 0x1_0000_0000_0000_0000nat % spacing(n) == 0,
{
    lemma_spacing_is_power(n);
    let e = choose|e: nat| spacing(n) == #[trigger] vstd::arithmetic::power2::pow2(e);
    if spacing(n) <= 0x1_0000_0000_0000_0000 {
        vstd::arithmetic::power2::lemma2_to64();
        if e > 64 {
            vstd::arithmetic::power2::lemma_pow2_strictly_increases(64, e);
        }
        vstd::arithmetic::power2::lemma_pow2_adds(e, (64 - e) as nat);
        vstd::arithmetic::power2::lemma_pow2_pos(e);
        let (a, b) = (
            vstd::arithmetic::power2::pow2(e),
            vstd::arithmetic::power2::pow2((64 - e) as nat),
        );
        vstd::arithmetic::div_mod::lemma_mod_multiples_basic(b as int, a as int);
        vstd::arithmetic::mul::lemma_mul_is_commutative(a as int, b as int);
    }
}

proof fn lemma_spacing_is_power(n: nat)
    ensures
        exists|e: nat| spacing(n) == #[trigger] vstd::arithmetic::power2::pow2(e),
    decreases n,
{
    if n < EXACT_LIMIT {
        vstd::arithmetic::power2::lemma2_to64();
        assert(spacing(n) == vstd::arithmetic::power2::pow2(0));
    } else {
        lemma_spacing_is_power(n / 2);
        let e = choose|e: nat| spacing(n / 2) == #[trigger] vstd::arithmetic::power2::pow2(e);
        vstd::arithmetic::power2::lemma_pow2_unfold(e + 1);
        assert(spacing(n) == vstd::arithmetic::power2::pow2(e + 1));
    }
}

/// The double-precision number nearest to an integer of at most 64 bits.
fn nearest_double(n: u128) -> (r: u128)
    requires
        n <= u64::MAX,
    ensures
        r == as_double(n as nat),
        r <= 0x1_0000_0000_0000_0000,
{
    let mut unit: u128 = 1;
    let mut head: u128 = n;
    while head >= EXACT_LIMIT
        invariant
            n <= u64::MAX,
            head <= n,
            unit >= 1,
            unit * spacing(head as nat) == spacing(n as nat),
            unit * head <= n,
            unit <= 4096,
        decreases head,
    {
        let half: u128 = head / 2;
        proof {
            assert(unit * 2 * spacing(half as nat) == unit * (2 * spacing(half as nat))) by (nonlinear_arith);
            assert((unit * 2) * half <= unit * head) by (nonlinear_arith)
                requires
                    half * 2 <= head,
            ;
            assert(unit <= 2048) by (nonlinear_arith)
                requires
                    unit * head <= 0xffff_ffff_ffff_ffff,
                    head >= 0x20_0000_0000_0000,
                    unit >= 1,
            ;
        }
        head = half;
        unit = unit * 2;
    }
    proof {
        assert(spacing(head as nat) == 1);
        assert(unit * 1 == unit);
    }
    let q: u128 = n / unit;
    let r: u128 = n % unit;
    proof {
        vstd::arithmetic::div_mod::lemma_fundamental_div_mod(n as int, unit as int);
        assert(q * unit <= n) by (nonlinear_arith)
            requires
                n == unit * q + r,
                r >= 0,
        ;
        assert((q + 1) * unit == q * unit + unit) by (nonlinear_arith);
        if 2 * r >= unit {
            lemma_round_up_fits(n as nat, unit as nat);
        }
    }
    if 2 * r < unit || (2 * r == unit && q % 2 == 0) {
        q * unit
    } else {
        (q + 1) * unit
    }
}

/// Rounding up a 64-bit number stays within `2^64`.
proof fn lemma_round_up_fits(n: nat, unit: nat)
    requires
        n <= u64::MAX,
        unit == spacing(n),
        1 <= unit <= 4096,
    ensures
        (n / unit + 1) * unit <= 0x1_0000_0000_0000_0000,
{
    lemma_spacing_divides(n);
    let m = 0x1_0000_0000_0000_0000nat / unit;
    vstd::arithmetic::div_mod::lemma_fundamental_div_mod(0x1_0000_0000_0000_0000, unit as int);
    vstd::arithmetic::div_mod::lemma_fundamental_div_mod(n as int, unit as int);
    let q = n / unit;
    assert(q + 1 <= m) by (nonlinear_arith)
        requires
            unit * m == 0x1_0000_0000_0000_0000nat,
            n < 0x1_0000_0000_0000_0000nat,
            unit * q <= n,
            unit >= 1,
    ;
    assert((q + 1) * unit <= m * unit) by (nonlinear_arith)
        requires
            q + 1 <= m,
    ;
    assert(m * unit == unit * m) by (nonlinear_arith);
}

/// The product of two integers in double precision, cut off to 64 bits.
pub fn scale_level_size(level_size: u64, multiplier: u64) -> (r: u64)
    ensures
        r == double_product(level_size, multiplier),
{
    let a: u128 = nearest_double(level_size as u128);
    let b: u128 = nearest_double(multiplier as u128);
    let limit: u128 = u64::MAX as u128;
    let ghost product = a * b;
    if a > limit && b > limit {
        proof {
            assert(product > u64::MAX) by (nonlinear_arith)
                requires
                    product == a * b,
                    a > 0xffff_ffff_ffff_ffff,
                    b > 0xffff_ffff_ffff_ffff,
            ;
            lemma_as_double_large(product as nat);
        }
        return u64::MAX;
    }
    proof {
        assert(product <= u128::MAX) by (nonlinear_arith)
            requires
                product == a * b,
                a <= 0xffff_ffff_ffff_ffff || b <= 0xffff_ffff_ffff_ffff,
                a <= 0x1_0000_0000_0000_0000,
                b <= 0x1_0000_0000_0000_0000,
        ;
    }
    let p: u128 = a * b;
    if p > limit {
        proof {
            lemma_as_double_large(p as nat);
        }
        return u64::MAX;
    }
    let rounded: u128 = nearest_double(p);
    if rounded > limit {
        u64::MAX
    } else {
        rounded as u64
    }
}

/// Below `2^53` the product is exact.
pub proof fn law_double_product_exact(a: u64, b: u64)
    requires
        a < EXACT_LIMIT,
        b < EXACT_LIMIT,
        a * b < EXACT_LIMIT,
    ensures
        double_product(a, b) == a * b,
{
    assert(as_double(a as nat) == a);
    assert(as_double(b as nat) == b);
    assert(as_double((a * b) as nat) == a * b);
}

/// The spacing is the power of two that leaves 53 binary digits of the number.
pub proof fn law_spacing_leaves_digits(n: nat)
    ensures
        n < 0x20_0000_0000_0000 ==> spacing(n) == 1,
        n >= 0x20_0000_0000_0000 ==> 0x10_0000_0000_0000 * spacing(n) <= n < 0x20_0000_0000_0000 * spacing(n),
        exists|k: nat| spacing(n) == #[trigger] vstd::arithmetic::power2::pow2(k),
    decreases n,
{
    vstd::arithmetic::power2::lemma2_to64();
    if n >= EXACT_LIMIT {
        law_spacing_leaves_digits(n / 2);
        let k = choose|k: nat| spacing(n / 2) == #[trigger] vstd::arithmetic::power2::pow2(k);
        vstd::arithmetic::power2::lemma_pow2_unfold(k + 1);
        assert(spacing(n) == vstd::arithmetic::power2::pow2(k + 1));
    } else {
        assert(spacing(n) == vstd::arithmetic::power2::pow2(0));
    }
}

/// The double-precision number of an integer is a multiple of the spacing around it, no other multiple is
/// nearer, and of two equally near ones it is the even one.
pub proof fn law_nearest_double_is_taken(n: nat, k: nat)
    ensures
        ({
            let u = spacing(n);
            let d = as_double(n);
            &&& u > 0
            &&& d % u == 0
            &&& d - n <= k * u - n || d - n <= n - k * u
            &&& n - d <= k * u - n || n - d <= n - k * u
            &&& (d - n == n - k * u || n - d == k * u - n) && d != k * u ==> (d / u) % 2 == 0
        }),
{
    let u = spacing(n);
    if n >= 1 {
        lemma_spacing_bounds(n);
    }
    assert(u > 0);
    let q = n / u;
    let d = as_double(n);
    vstd::arithmetic::div_mod::lemma_fundamental_div_mod(n as int, u as int);
    vstd::arithmetic::mul::lemma_mul_is_commutative(q as int, u as int);
    assert((q + 1) * u == q * u + u) by {
        vstd::arithmetic::mul::lemma_mul_is_distributive_add_other_way(u as int, q as int, 1);
    }
    vstd::arithmetic::div_mod::lemma_mod_multiples_basic(q as int, u as int);
    vstd::arithmetic::div_mod::lemma_mod_multiples_basic((q + 1) as int, u as int);
    vstd::arithmetic::div_mod::lemma_div_by_multiple(q as int, u as int);
    vstd::arithmetic::div_mod::lemma_div_by_multiple((q + 1) as int, u as int);
    if k <= q {
        vstd::arithmetic::mul::lemma_mul_inequality(k as int, q as int, u as int);
        if k < q {
            vstd::arithmetic::mul::lemma_mul_inequality((k + 1) as int, q as int, u as int);
            vstd::arithmetic::mul::lemma_mul_is_distributive_add_other_way(u as int, k as int, 1);
        }
    } else {
        vstd::arithmetic::mul::lemma_mul_inequality((q + 1) as int, k as int, u as int);
        if k > q + 1 {
            vstd::arithmetic::mul::lemma_mul_inequality((q + 2) as int, k as int, u as int);
            vstd::arithmetic::mul::lemma_mul_is_distributive_add_other_way(u as int, q as int, 2);
        }
    }
}

/// A level size that does not fit in 64 bits is the largest one that does.
pub proof fn law_large_product_is_cut_off(a: u64, b: u64)
    ensures
        as_double(as_double(a as nat) * as_double(b as nat)) <= u64::MAX ==> double_product(a, b) == as_double(
            as_double(a as nat) * as_double(b as nat),
        ),
        as_double(as_double(a as nat) * as_double(b as nat)) > u64::MAX ==> double_product(a, b) == 0xffff_ffff_ffff_ffff,
{
}

} // verus!
