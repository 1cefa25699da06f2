//! The primality oracle: deterministic trial division over
//! arbitrary-precision integers, proved equal to the mathematical
//! definition of primality.

use vstd::prelude::*;
use vstd::arithmetic::div_mod::{lemma_fundamental_div_mod, lemma_fundamental_div_mod_converse};

use crate::bignum::{
    lemma_canonical_nonempty_positive, lemma_mag_singleton, lemma_mag_two_limbs, mag, mag_add,
    mag_le, mag_mul, mag_rem, BigNum,
};

verus! {

/// Mathematical primality: at least 2, and no divisor strictly between
/// 1 and itself.
pub open spec fn spec_prime(n: int) -> bool {
    n >= 2 && forall|d: int| 2 <= d < n ==> #[trigger] (n % d) != 0
}

/// No integer at most 1 is prime.
pub proof fn lemma_small_not_prime(n: int)
    requires
        n <= 1,
    ensures
        !spec_prime(n),
{
}

/// 2 and 3 are prime.
pub proof fn lemma_two_three_prime()
    ensures
        spec_prime(2),
        spec_prime(3),
{
    assert forall|d: int| 2 <= d < 3 implies #[trigger] (3int % d) != 0 by {
        assert(d == 2);
        assert(3int % 2int == 1);
    }
}

/// A product of two factors that are both at least 2 is not prime.
pub proof fn lemma_composite_not_prime(n: int, a: int, b: int)
    requires
        2 <= a,
        a <= b,
        n == a * b,
    ensures
        !spec_prime(n),
{
    assert(a < n && n % a == 0) by {
        assert(a * 2 <= a * b && a * 1 == a && a * 2 == a + a) by (nonlinear_arith)
            requires
                2 <= a,
                a <= b,
            ;
        lemma_fundamental_div_mod_converse(n, a, b, 0);
    }
    assert(2 <= a < n && n % a == 0);
}

/// If no integer in `[2, k)` divides `m` and `(k - 1)^2 > m`, then `m` has
/// no nontrivial divisor at all: a divisor `d >= k` would pair with the
/// cofactor `m / d < k`, which the hypothesis rules out.
proof fn lemma_trial_division_complete(m: int, k: int)
    requires
        m >= 4,
        k >= 2,
        (k - 1) * (k - 1) > m,
        forall|d: int| 2 <= d < k ==> #[trigger] (m % d) != 0,
    ensures
        spec_prime(m),
{
    assert forall|d: int| 2 <= d < m implies #[trigger] (m % d) != 0 by {
        if d >= k && m % d == 0 {
            let q = m / d;
            lemma_fundamental_div_mod(m, d);
            assert(m == d * q);
            assert(q >= 2) by (nonlinear_arith)
                requires
                    m == d * q,
                    2 <= d < m,
                    m >= 4,
                ;
            assert(q < k) by (nonlinear_arith)
                requires
                    m == d * q,
                    d >= k,
                    k >= 2,
                    q >= 2,
                    (k - 1) * (k - 1) > m,
                ;
            lemma_fundamental_div_mod_converse(m, q, d, 0);
            assert(m % q == 0);
        }
    }
}

impl BigNum {
    /// Whether this value is at most the small bound `x`.
    fn le_small(&self, x: u32) -> (r: bool)
        requires
            self.wf(),
        ensures
            r == (self.value() <= x),
    {
        if self.negative {
            proof {
                lemma_canonical_nonempty_positive(self.limbs@);
            }
            true
        } else if self.limbs.len() == 0 {
            true
        } else if self.limbs.len() == 1 {
            proof {
                lemma_mag_singleton(self.limbs@);
            }
            self.limbs[0] <= x
        } else {
            proof {
                lemma_mag_two_limbs(self.limbs@);
            }
            false
        }
    }
}

/// Decides primality of an arbitrary-precision integer by trial division:
/// nothing at most 1 is prime, 2 and 3 are, and a larger `n` is prime
/// exactly when no `i` with `(i - 1)^2 <= n` — that is, no `i` up to
/// `floor(sqrt(n)) + 1` — divides it.
pub fn is_prime(n: &BigNum) -> (r: bool)
    requires
        n.wf(),
    ensures
        r == spec_prime(n.value()),
{
    if n.le_small(1) {
        proof {
            lemma_small_not_prime(n.value());
        }
        return false;
    }
    if n.le_small(3) {
        proof {
            lemma_two_three_prime();
        }
        return true;
    }
    let ghost m: int = n.value();
    proof {
        assert(!n.negative);
        assert(m == mag(n.limbs@));
    }
    let one = BigNum::from_u32(1).limbs;
    let mut im1 = BigNum::from_u32(1).limbs;
    let mut i = BigNum::from_u32(2).limbs;
    let mut sq = mag_mul(&im1, &im1);
    while mag_le(&sq, &n.limbs)
        invariant
            n.wf(),
            m == mag(n.limbs@),
            m >= 4,
            mag(one@) == 1,
            mag(im1@) + 1 == mag(i@),
            2 <= mag(i@),
            mag(sq@) == mag(im1@) * mag(im1@),
            mag(i@) <= m + 1,
            forall|d: int| 2 <= d < mag(i@) ==> #[trigger] (m % d) != 0,
        decreases m + 2 - mag(i@),
    {
        let ghost iv: int = mag(i@) as int;
        let r = mag_rem(&n.limbs, &i);
        if r.len() == 0 {
            proof {
                assert(mag(r@) == 0);
                assert(iv < m) by (nonlinear_arith)
                    requires
                        (iv - 1) * (iv - 1) <= m,
                        2 <= iv,
                        m >= 4,
                    ;
                assert(2 <= iv < m && m % iv == 0);
            }
            return false;
        }
        proof {
            lemma_canonical_nonempty_positive(r@);
            assert(m % iv != 0);
            assert(forall|d: int| 2 <= d < iv + 1 ==> #[trigger] (m % d) != 0);
            assert(iv <= m) by (nonlinear_arith)
                requires
                    (iv - 1) * (iv - 1) <= m,
                    2 <= iv,
                    m >= 4,
                ;
        }
        im1 = i;
        i = mag_add(&im1, &one);
        sq = mag_mul(&im1, &im1);
    }
    proof {
        let k = mag(i@) as int;
        assert((k - 1) * (k - 1) > m);
        lemma_trial_division_complete(m, k);
    }
    true
}

} // verus!
