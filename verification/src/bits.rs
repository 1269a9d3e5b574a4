//! Powers of two and two's complement.
use vstd::prelude::*;
#[allow(unused_imports)]
use vstd::arithmetic::power2;

verus! {

/// Two to the power of `n`.
pub fn power_of_two(n: u32) -> (p: u64)
    requires
        n < 64,
    ensures
        p == power2::pow2(n as nat),
{
    proof {
        vstd::bits::lemma_u64_pow2_no_overflow(n as nat);
        vstd::bits::lemma_u64_shl_is_mul(1, n as u64);
        vstd::arithmetic::mul::lemma_mul_basics(power2::pow2(n as nat) as int);
    }
    1u64 << n
}

/// The number that the lowest `bits` bits of `value` stand for.
pub open spec fn low_bits(value: int, bits: nat) -> nat {
    (value % (power2::pow2(bits) as int)) as nat
}

/// The two's complement reading of `raw`, which has `bits` bits.
pub open spec fn two_complement(raw: int, bits: nat) -> int {
    if bits > 0 && raw >= power2::pow2((bits - 1) as nat) {
        raw - power2::pow2(bits)
    } else {
        raw
    }
}

/// Doubling.
pub proof fn pow2_next(n: nat)
    ensures
        power2::pow2(n + 1) == 2 * power2::pow2(n),
        power2::pow2(n) > 0,
{
    power2::lemma_pow2_unfold(n + 1);
    power2::lemma_pow2_pos(n);
}

/// Powers of two grow.
pub proof fn pow2_monotone(a: nat, b: nat)
    requires
        a <= b,
    ensures
        0 < power2::pow2(a) <= power2::pow2(b),
{
    power2::lemma_pow2_pos(a);
    if a < b {
        power2::lemma_pow2_strictly_increases(a, b);
    }
}

/// The sixty-fourth power.
pub proof fn pow2_64()
    ensures
        power2::pow2(64) == 0x1_0000_0000_0000_0000,
        power2::pow2(63) == 0x8000_0000_0000_0000,
{
    power2::lemma2_to64();
    power2::lemma2_to64_rest();
}

/// The lowest `bits` bits of `value`.
pub fn mask_low_bits(value: i64, bits: u32) -> (raw: u64)
    requires
        bits <= 64,
    ensures
        raw == low_bits(value as int, bits as nat),
{
    proof {
        pow2_64();
    }
    let wide: u64 = if value < 0 {
        (value as i128 + 0x1_0000_0000_0000_0000) as u64
    } else {
        value as u64
    };
    if bits == 64 {
        proof {
            if value < 0 {
                vstd::arithmetic::div_mod::lemma_mod_add_multiples_vanish(
                    value as int,
                    power2::pow2(64) as int,
                );
                vstd::arithmetic::div_mod::lemma_small_mod(wide as nat, power2::pow2(64));
            } else {
                vstd::arithmetic::div_mod::lemma_small_mod(wide as nat, power2::pow2(64));
            }
        }
        wide
    } else {
        let p = power_of_two(bits);
        proof {
            let d = power2::pow2(bits as nat) as int;
            let q = power2::pow2((64 - bits) as nat) as int;
            pow2_monotone(0, bits as nat);
            power2::lemma2_to64();
            power2::lemma_pow2_adds(bits as nat, (64 - bits) as nat);
            if value < 0 {
                vstd::arithmetic::div_mod::lemma_mod_multiples_vanish(q, value as int, d);
                assert(wide as int == d * q + value);
            }
        }
        wide % p
    }
}

} // verus!
