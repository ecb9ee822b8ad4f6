//! Arbitrary-precision integers and the primality test, from `num-bigint`
//! and `num-prime`.

use vstd::prelude::*;
use num_bigint::{BigInt, BigUint, Sign};
use vstd::arithmetic::div_mod::{lemma_fundamental_div_mod, lemma_mod_multiples_basic, lemma_mul_mod_noop};
use vstd::arithmetic::mul::lemma_mul_inequality;

verus! {

#[verifier::external_type_specification]
#[verifier::external_body]
pub struct ExBigInt(BigInt);

#[verifier::external_type_specification]
#[verifier::external_body]
pub struct ExBigUint(BigUint);

#[verifier::external_type_specification]
pub struct ExSign(Sign);

/// The integer that a `num_bigint::BigInt` holds.
pub uninterp spec fn bigint_value(n: BigInt) -> int;

/// The natural number that a `num_bigint::BigUint` holds.
pub uninterp spec fn biguint_value(n: BigUint) -> nat;

pub open spec fn is_digit(c: char) -> bool {
    '0' <= c && c <= '9'
}

/// Decimal digits, possibly with `_` between them, starting with a digit.
pub open spec fn is_digit_run(s: Seq<char>) -> bool {
    &&& s.len() > 0
    &&& is_digit(s[0])
    &&& forall|i: int| 0 <= i < s.len() ==> is_digit(s[i]) || s[i] == '_'
}

/// The value of a digit run; `_` is skipped.
pub open spec fn digit_run_value(s: Seq<char>) -> nat
    decreases s.len(),
{
    if s.len() == 0 {
        0
    } else {
        let last = s.last();
        if last == '_' {
            digit_run_value(s.drop_last())
        } else {
            10 * digit_run_value(s.drop_last()) + (last as nat - '0' as nat) as nat
        }
    }
}

/// Whether a text is a decimal integer: a digit run, after an optional sign.
pub open spec fn is_integer_text(s: Seq<char>) -> bool {
    is_digit_run(s) || (s.len() > 0 && (s[0] == '-' || s[0] == '+') && is_digit_run(s.drop_first()))
}

/// The value of a decimal integer text.
pub open spec fn integer_text_value(s: Seq<char>) -> int {
    if s.len() > 0 && s[0] == '-' {
        -digit_run_value(s.drop_first())
    } else if s.len() > 0 && s[0] == '+' {
        digit_run_value(s.drop_first()) as int
    } else {
        digit_run_value(s) as int
    }
}

/// Relies on `num_bigint::BigInt::parse_bytes` in base 10: an optional `-` or
/// `+`, then decimal digits that may have `_` between them.
#[verifier::external_body]
pub(crate) fn parse_decimal(text: &str) -> (r: Option<BigInt>)
    ensures
        r.is_some() == is_integer_text(text@),
        r.is_some() ==> bigint_value(r.unwrap()) == integer_text_value(text@),
{
    BigInt::parse_bytes(text.as_bytes(), 10)
}

/// Relies on `num_bigint::BigInt::sign`: the sign of the value, `NoSign` for 0.
pub assume_specification[ BigInt::sign ](n: &BigInt) -> (r: Sign)
    ensures
        (r == Sign::Minus) == (bigint_value(*n) < 0),
        (r == Sign::NoSign) == (bigint_value(*n) == 0),
        (r == Sign::Plus) == (bigint_value(*n) > 0),
;

/// Relies on `num_bigint::BigInt::magnitude`: the absolute value.
pub assume_specification<'a>[ BigInt::magnitude ](n: &'a BigInt) -> (r: &'a BigUint)
    ensures
        biguint_value(*r) == (if bigint_value(*n) < 0 { -bigint_value(*n) } else { bigint_value(*n) }),
;

/// Primality as mathematics defines it: at least 2, and no divisor between.
pub open spec fn is_prime_number(n: nat) -> bool {
    n >= 2 && forall|d: nat| 2 <= d < n ==> #[trigger] (n % d) != 0
}

/// Primality by trial division: 0 and 1 are not prime, 2 is, no other even
/// number is, and an odd number is when no odd number from 3 up to its square
/// root divides it.
pub open spec fn prime_by_trial_division(n: nat) -> bool {
    if n < 2 {
        false
    } else if n == 2 {
        true
    } else if n % 2 == 0 {
        false
    } else {
        forall|d: nat| 3 <= d && d % 2 == 1 && d * d <= n ==> #[trigger] (n % d) != 0
    }
}

/// A product is odd only where both factors are.
proof fn lemma_odd_product(a: int, b: int)
    ensures
        (a * b) % 2 == 1 ==> a % 2 == 1 && b % 2 == 1,
{
    lemma_mul_mod_noop(a, b, 2);
    assert(a % 2 == 0 || a % 2 == 1);
    assert(b % 2 == 0 || b % 2 == 1);
    if a % 2 == 0 {
        assert((a % 2) * (b % 2) == 0);
    } else if b % 2 == 0 {
        assert((a % 2) * (b % 2) == 0);
    }
}

/// Trial division up to the square root decides primality.
pub proof fn lemma_trial_division(n: nat)
    ensures
        is_prime_number(n) == prime_by_trial_division(n),
{
    if n >= 2 && n % 2 == 0 && n != 2 {
        assert(2 <= 2 < n && n % 2 == 0);
    }
    if is_prime_number(n) && n > 2 && n % 2 == 1 {
        assert forall|d: nat| 3 <= d && d % 2 == 1 && d * d <= n implies #[trigger] (n % d) != 0 by {
            assert(d < d * d) by (nonlinear_arith)
                requires
                    d >= 3,
            ;
        }
    }
    if prime_by_trial_division(n) && n > 2 {
        assert forall|d: nat| 2 <= d < n implies #[trigger] (n % d) != 0 by {
            if n % d == 0 {
                let e = (n / d) as int;
                lemma_fundamental_div_mod(n as int, d as int);
                assert(n == d * e);
                assert(e >= 2) by (nonlinear_arith)
                    requires
                        n == d * e,
                        d < n,
                        d >= 2,
                ;
                lemma_odd_product(d as int, e);
                let s: int = if d <= e { d as int } else { e };
                lemma_mul_inequality(s, d as int, s);
                lemma_mul_inequality(s, e, d as int);
                assert(s * d == d * s) by (nonlinear_arith);
                assert(s * s <= n);
                lemma_mod_multiples_basic(d as int, e);
                lemma_mod_multiples_basic(e, d as int);
                assert(e * d == d * e) by (nonlinear_arith);
                assert(n % (s as nat) == 0);
                assert(3 <= s && s % 2 == 1);
                assert(n % (s as nat) != 0);
            }
        }
    }
}

/// 2^64: below it `num-prime` decides primality deterministically.
pub const DETERMINISTIC_LIMIT: u128 = 0x1_0000_0000_0000_0000;

/// What the Baillie-PSW test of `num-prime` (a strong probable prime test to
/// base 2, then a strong Lucas test) says of an odd number of 2^64 or more.
pub uninterp spec fn bpsw_verdict(n: nat) -> bool;

/// The verdict of `num-prime` on a natural number: even numbers and numbers
/// below 2^64 are decided exactly, larger odd ones by Baillie-PSW.
pub open spec fn prime_verdict(n: nat) -> bool {
    if n % 2 == 0 {
        n == 2
    } else if n < DETERMINISTIC_LIMIT {
        is_prime_number(n)
    } else {
        bpsw_verdict(n)
    }
}

/// Relies on `num_prime::nt_funcs::is_prime` with `PrimalityTestConfig::bpsw()`,
/// read through `Primality::probably`: an even number is prime exactly when it
/// is 2, a number below 2^64 goes to the deterministic `is_prime64`, and a
/// larger one to base-2 SPRP and strong Lucas tests, which draw no random
/// numbers.
#[verifier::external_body]
pub(crate) fn probably_prime(n: &BigUint) -> (r: bool)
    ensures
        r == prime_verdict(biguint_value(*n)),
        biguint_value(*n) % 2 == 1 && biguint_value(*n) >= DETERMINISTIC_LIMIT ==> r == bpsw_verdict(
            biguint_value(*n),
        ),
{
    num_prime::nt_funcs::is_prime(n, Some(num_prime::PrimalityTestConfig::bpsw())).probably()
}

} // verus!
