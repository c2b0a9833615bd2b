//! The score of a reduced password: a whole-number logarithm, computed exactly
//! on numbers of any size.

use vstd::arithmetic::div_mod::lemma_fundamental_div_mod;
use vstd::arithmetic::logarithm::{lemma_log0, lemma_log_is_ordered, lemma_log_pow, lemma_log_s, log};
use vstd::arithmetic::power::{
    lemma1_pow, lemma_pow0, lemma_pow1, lemma_pow_adds, lemma_pow_increases, lemma_pow_multiplies,
    lemma_pow_positive, lemma_pow_strictly_increases_converse, pow,
};
use vstd::arithmetic::power2::lemma2_to64;
use vstd::prelude::*;

verus! {

/// The number that a sequence of digits in base 65536 stands for, the least
/// significant digit first.
pub open spec fn limbs_value(limbs: Seq<u16>) -> int
    decreases limbs.len(),
{
    if limbs.len() == 0 {
        0
    } else {
        limbs_value(limbs.drop_last()) + limbs.last() * pow(65536, (limbs.len() - 1) as nat)
    }
}

/// The entropy of a reduced password of the given length whose base score is
/// `score`: the whole-number logarithm, in base two, of the score to the power
/// `length - 1`. This is the sum of `length - 1` terms `log2(score)` with the
/// fraction cut off. A password of at most one unit, or a score of zero, gives
/// 0.
pub open spec fn entropy_of(length: int, score: int) -> int {
    if length <= 1 || score <= 0 {
        0
    } else {
        log(2, pow(score, (length - 1) as nat))
    }
}

/// A value as 16 bits hold it: the largest such number in place of a larger
/// value.
pub open spec fn saturated(value: int) -> int {
    if value > i16::MAX {
        i16::MAX as int
    } else {
        value
    }
}

/// A power with one more factor.
pub proof fn lemma_pow_step(base: int, e: nat)
    ensures
        pow(base, e + 1) == base * pow(base, e),
{
    reveal(pow);
}

/// The whole-number logarithm of a value is the largest power of the base
/// that does not exceed the value.
pub proof fn lemma_log_bounds(base: int, value: int)
    requires
        base >= 2,
        value >= 1,
    ensures
        log(base, value) >= 0,
        pow(base, log(base, value) as nat) <= value < pow(base, (log(base, value) + 1) as nat),
    decreases value,
{
    if value < base {
        lemma_log0(base, value);
        lemma_pow0(base);
        lemma_pow1(base);
    } else {
        let quotient = value / base;
        lemma_log_s(base, value);
        lemma_fundamental_div_mod(value, base);
        assert(1 <= quotient < value) by (nonlinear_arith)
            requires
                value == base * quotient + (value % base),
                0 <= value % base < base,
                value >= base,
                base >= 2,
        ;
        lemma_log_bounds(base, quotient);
        let k = log(base, quotient) as nat;
        lemma_pow_step(base, k);
        lemma_pow_step(base, k + 1);
        assert(pow(base, k + 1) <= value < pow(base, k + 2)) by (nonlinear_arith)
            requires
                pow(base, k) <= quotient < pow(base, k + 1),
                pow(base, k + 1) == base * pow(base, k),
                pow(base, k + 2) == base * pow(base, k + 1),
                value == base * quotient + (value % base),
                0 <= value % base < base,
                base >= 2,
        ;
    }
}

/// A value between two neighbouring powers of two has the smaller exponent
/// as its whole-number logarithm.
pub proof fn lemma_log_between(value: int, k: nat)
    requires
        pow(2, k) <= value < pow(2, k + 1),
    ensures
        log(2, value) == k,
{
    lemma_pow_positive(2, k);
    lemma_log_bounds(2, value);
    let j = log(2, value) as nat;
    lemma_pow_strictly_increases_converse(2, j, k + 1);
    lemma_pow_strictly_increases_converse(2, k, j + 1);
}

/// A larger base gives a power that is no smaller.
pub proof fn lemma_base_grows(small: int, large: int, e: nat)
    requires
        1 <= small <= large,
    ensures
        1 <= pow(small, e) <= pow(large, e),
    decreases e,
{
    reveal(pow);
    if e > 0 {
        lemma_base_grows(small, large, (e - 1) as nat);
        assert(small * pow(small, (e - 1) as nat) <= large * pow(large, (e - 1) as nat))
            by (nonlinear_arith)
            requires
                1 <= small <= large,
                1 <= pow(small, (e - 1) as nat) <= pow(large, (e - 1) as nat),
        ;
        assert(1 <= small * pow(small, (e - 1) as nat)) by (nonlinear_arith)
            requires
                1 <= small,
                1 <= pow(small, (e - 1) as nat),
        ;
    }
}

/// The entropy is the largest whole number `e` for which two to the power `e`
/// does not exceed the score to the power `length - 1`: the largest `e` with
/// `e <= (length - 1) * log2(score)`.
pub proof fn lemma_entropy_bounds(length: int, score: int)
    requires
        length >= 2,
        score >= 1,
    ensures
        0 <= entropy_of(length, score),
        pow(2, entropy_of(length, score) as nat) <= pow(score, (length - 1) as nat) < pow(
            2,
            (entropy_of(length, score) + 1) as nat,
        ),
{
    lemma_pow_positive(score, (length - 1) as nat);
    lemma_log_bounds(2, pow(score, (length - 1) as nat));
}

/// With a score of two or more, the entropy is at least one less than the
/// length.
pub proof fn lemma_entropy_at_least(length: int, score: int)
    requires
        length >= 1,
        score >= 2,
    ensures
        entropy_of(length, score) >= length - 1,
{
    if length >= 2 {
        let n = (length - 1) as nat;
        lemma_base_grows(2, score, n);
        lemma_log_is_ordered(2, pow(2, n), pow(score, n));
        lemma_log_pow(2, n);
    }
}

/// A power of 65536 is a power of two with sixteen times the exponent.
pub proof fn lemma_base_power(m: nat)
    ensures
        pow(65536, m) == pow(2, 16 * m),
        pow(65536, m) >= 1,
{
    lemma2_to64();
    lemma_pow_positive(2, 16);
    lemma_pow_multiplies(2, 16, m);
    lemma_pow_positive(65536, m);
}

/// Digits in base 65536 stand for a number below 65536 to the power of their
/// count.
pub proof fn lemma_limbs_bounds(limbs: Seq<u16>)
    ensures
        0 <= limbs_value(limbs) < pow(65536, limbs.len()),
    decreases limbs.len(),
{
    if limbs.len() == 0 {
        lemma_pow0(65536);
    } else {
        let m = (limbs.len() - 1) as nat;
        lemma_limbs_bounds(limbs.drop_last());
        lemma_pow_step(65536, m);
        lemma_pow_positive(65536, m);
        assert(limbs_value(limbs.drop_last()) + limbs.last() * pow(65536, m) < 65536 * pow(
            65536,
            m,
        )) by (nonlinear_arith)
            requires
                limbs_value(limbs.drop_last()) < pow(65536, m),
                0 <= limbs.last() <= 65535,
                pow(65536, m) > 0,
        ;
        assert(limbs.last() * pow(65536, m) >= 0) by (nonlinear_arith)
            requires
                limbs.last() >= 0,
                pow(65536, m) > 0,
        ;
    }
}

/// Multiplies a number, given as digits in base 65536, by a small number.
/// Digits without a leading zero stay without one when the factor is not zero.
pub fn times(limbs: &Vec<u16>, factor: u16) -> (product: Vec<u16>)
    requires
        limbs.len() < usize::MAX,
    ensures
        limbs_value(product@) == limbs_value(limbs@) * factor,
        limbs.len() <= product.len() <= limbs.len() + 1,
        limbs.len() > 0 && limbs@.last() != 0 && factor != 0 ==> product@.last() != 0,
{
    let mut product: Vec<u16> = Vec::new();
    let mut carry: u32 = 0;
    let mut i: usize = 0;
    proof {
        assert(limbs@.take(0) =~= Seq::<u16>::empty());
        assert(limbs_value(limbs@.take(0)) * factor == 0) by (nonlinear_arith)
            requires
                limbs_value(limbs@.take(0)) == 0,
        ;
        assert(carry * pow(65536, 0) == 0) by (nonlinear_arith)
            requires
                carry == 0,
        ;
    }
    while i < limbs.len()
        invariant
            i <= limbs.len(),
            product.len() == i,
            carry <= 65534,
            limbs_value(product@) + carry * pow(65536, i as nat) == limbs_value(limbs@.take(i as int))
                * factor,
            i > 0 && carry == 0 && limbs@[i - 1] != 0 && factor != 0 ==> product@[i - 1] != 0,
        decreases limbs.len() - i,
    {
        let limb = limbs[i];
        assert(limb * factor + carry <= 65535 * 65535 + 65534) by (nonlinear_arith)
            requires
                0 <= limb <= 65535,
                0 <= factor <= 65535,
                0 <= carry <= 65534,
        ;
        let current: u32 = limb as u32 * factor as u32 + carry;
        let digit: u32 = current % 65536;
        let next_carry: u32 = current / 65536;
        proof {
            let x = pow(65536, i as nat);
            let before = limbs_value(limbs@.take(i as int));
            lemma_pow_step(65536, i as nat);
            assert(limbs@.take(i + 1).drop_last() =~= limbs@.take(i as int));
            assert(limbs@.take(i + 1).last() == limb);
            assert(product@.push(digit as u16).drop_last() =~= product@);
            assert(limbs_value(product@) + digit * x + next_carry * (65536 * x) == (before + limb
                * x) * factor) by (nonlinear_arith)
                requires
                    limbs_value(product@) + carry * x == before * factor,
                    current == limb * factor + carry,
                    current == 65536 * next_carry + digit,
            ;
            if next_carry == 0 && limb != 0 && factor != 0 {
                assert(limb * factor >= 1) by (nonlinear_arith)
                    requires
                        limb >= 1,
                        factor >= 1,
                ;
            }
        }
        product.push(digit as u16);
        carry = next_carry;
        i += 1;
    }
    proof {
        assert(limbs@.take(limbs.len() as int) =~= limbs@);
    }
    if carry > 0 {
        proof {
            assert(product@.push(carry as u16).drop_last() =~= product@);
        }
        product.push(carry as u16);
    } else {
        proof {
            assert(carry * pow(65536, i as nat) == 0) by (nonlinear_arith)
                requires
                    carry == 0,
            ;
        }
    }
    product
}

/// The whole-number logarithm in base two of a number given as digits in base
/// 65536 without a leading zero.
pub fn whole_log2(limbs: &Vec<u16>) -> (bits: usize)
    requires
        0 < limbs.len() <= usize::MAX / 16,
        limbs@.last() != 0,
    ensures
        bits == log(2, limbs_value(limbs@)),
        16 * (limbs.len() - 1) <= bits <= 16 * (limbs.len() - 1) + 15,
{
    let top: u32 = limbs[limbs.len() - 1] as u32;
    let mut bits: usize = 0;
    let mut bound: u32 = 1;
    proof {
        lemma_pow0(2);
    }
    while bound * 2 <= top
        invariant
            bound == pow(2, bits as nat),
            1 <= bound <= top <= 65535,
            bits <= 15,
        decreases top - bound,
    {
        proof {
            lemma_pow_step(2, bits as nat);
            if bits >= 15 {
                lemma2_to64();
                lemma_pow_positive(2, 15);
                lemma_pow_increases(2, 15, bits as nat);
            }
        }
        bound = bound * 2;
        bits += 1;
    }
    proof {
        let m = (limbs.len() - 1) as nat;
        let unit = pow(65536, m);
        let low = limbs_value(limbs@.drop_last());
        lemma_base_power(m);
        lemma_limbs_bounds(limbs@.drop_last());
        lemma_pow_step(2, bits as nat);
        lemma_pow_adds(2, 16 * m, bits as nat);
        lemma_pow_adds(2, 16 * m, (bits + 1) as nat);
        assert(unit * bound <= low + top * unit < unit * (2 * bound)) by (nonlinear_arith)
            requires
                unit >= 1,
                0 <= low < unit,
                bound <= top < 2 * bound,
        ;
        lemma_log_between(limbs_value(limbs@), 16 * m + bits as nat);
    }
    16 * (limbs.len() - 1) + bits
}

/// The entropy of a reduced password from its length and its base score, as
/// 16 bits hold it.
pub fn entropy(length: u16, score: u16) -> (bits: i16)
    ensures
        bits == saturated(entropy_of(length as int, score as int)),
        bits >= 0,
{
    if length <= 1 || score == 0 {
        return 0;
    }
    let terms: u16 = length - 1;
    if score == 1 {
        proof {
            lemma1_pow(terms as nat);
            lemma_log0(2, 1);
        }
        return 0;
    }
    let mut power: Vec<u16> = Vec::new();
    power.push(1);
    let mut count: u16 = 0;
    proof {
        assert(power@.drop_last() =~= Seq::<u16>::empty());
        lemma_pow0(65536);
        lemma_pow0(score as int);
        assert(limbs_value(power@.drop_last()) == 0);
        assert(power@.last() * pow(65536, 0) == 1) by (nonlinear_arith)
            requires
                power@.last() == 1,
                pow(65536, 0) == 1,
        ;
    }
    while count < terms
        invariant
            count <= terms,
            terms == length - 1,
            length >= 2,
            score >= 2,
            0 < power.len() <= 2048,
            power@.last() != 0,
            limbs_value(power@) == pow(score as int, count as nat),
        decreases terms - count,
    {
        proof {
            lemma_pow_step(score as int, count as nat);
        }
        power = times(&power, score);
        count += 1;
        if power.len() > 2048 {
            proof {
                let m = (power.len() - 1) as nat;
                let reached = pow(score as int, count as nat);
                let whole = pow(score as int, terms as nat);
                lemma_limbs_bounds(power@.drop_last());
                lemma_base_power(m);
                assert(reached >= pow(65536, m)) by (nonlinear_arith)
                    requires
                        reached == limbs_value(power@.drop_last()) + power@.last() * pow(
                            65536,
                            m,
                        ),
                        limbs_value(power@.drop_last()) >= 0,
                        power@.last() >= 1,
                        pow(65536, m) >= 1,
                ;
                assert(m == 2048);
                assert(16 * m == 32768);
                lemma_pow_increases(score as nat, count as nat, terms as nat);
                lemma_pow_positive(2, 32768);
                assert(pow(2, 32768) <= reached <= whole);
                lemma_log_is_ordered(2, pow(2, 32768), whole);
                lemma_log_pow(2, 32768);
            }
            return i16::MAX;
        }
    }
    let bits = whole_log2(&power);
    bits as i16
}

} // verus!
