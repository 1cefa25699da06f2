//! Arbitrary-precision signed integers, held as little-endian base-2^32
//! limbs plus a sign. Arithmetic on magnitudes is delegated to `num_bigint`
//! through trusted wrappers whose contracts speak of the mathematical value
//! of the limb sequence.

use vstd::prelude::*;
use vstd::arithmetic::power::pow;

verus! {

/// Mathematical value of a little-endian sequence of base-2^32 limbs.
pub open spec fn mag(s: Seq<u32>) -> nat
    decreases s.len(),
{
    if s.len() == 0 {
        0
    } else {
        (s[0] + 0x1_0000_0000 * mag(s.drop_first())) as nat
    }
}

/// Canonical form: no trailing zero limb, so `mag` is zero only on the
/// empty sequence.
pub open spec fn canonical(s: Seq<u32>) -> bool {
    s.len() == 0 || s[s.len() - 1] != 0
}

/// A signed arbitrary-precision integer.
pub struct BigNum {
    /// Magnitude, little-endian base-2^32 limbs, canonical.
    pub limbs: Vec<u32>,
    /// Sign; never set on a zero magnitude.
    pub negative: bool,
}

impl BigNum {
    /// Structural invariant.
    pub open spec fn wf(&self) -> bool {
        &&& canonical(self.limbs@)
        &&& self.negative ==> self.limbs@.len() > 0
    }

    /// The integer this value stands for.
    pub open spec fn value(&self) -> int {
        if self.negative {
            -(mag(self.limbs@) as int)
        } else {
            mag(self.limbs@) as int
        }
    }

    /// A `BigNum` holding a small nonnegative value.
    pub fn from_u32(x: u32) -> (r: BigNum)
        ensures
            r.wf(),
            r.value() == x,
            !r.negative,
    {
        if x == 0 {
            let r = BigNum { limbs: Vec::new(), negative: false };
            assert(r.limbs@ =~= Seq::<u32>::empty());
            r
        } else {
            let mut limbs: Vec<u32> = Vec::new();
            limbs.push(x);
            let r = BigNum { limbs, negative: false };
            assert(mag(r.limbs@) == x + 0x1_0000_0000 * mag(r.limbs@.drop_first()));
            assert(r.limbs@.drop_first() =~= Seq::<u32>::empty());
            r
        }
    }
}

/// Digits of a decimal literal, most significant first, skipping the
/// separator underscores; `num_bigint` reads such a body left to right.
pub open spec fn dec_digits_value(s: Seq<char>) -> int
    decreases s.len(),
{
    if s.len() == 0 {
        0
    } else if s.last() == '_' {
        dec_digits_value(s.drop_last())
    } else {
        10 * dec_digits_value(s.drop_last()) + (s.last() as int - '0' as int)
    }
}

pub open spec fn is_dec_digit(c: char) -> bool {
    '0' <= c && c <= '9'
}

/// The body of a decimal literal: what stands after the optional sign.
pub open spec fn dec_body(s: Seq<char>) -> Seq<char> {
    if s.len() > 0 && (s[0] == '-' || s[0] == '+') {
        s.drop_first()
    } else {
        s
    }
}

/// Exactly the strings that `num_bigint`'s base-10 `from_str` accepts: an
/// optional sign, then a leading digit followed by digits and separator
/// underscores.
pub open spec fn is_dec_literal(s: Seq<char>) -> bool {
    let body = dec_body(s);
    &&& body.len() > 0
    &&& is_dec_digit(body[0])
    &&& forall|i: int| 1 <= i < body.len() ==> is_dec_digit(#[trigger] body[i]) || body[i] == '_'
}

/// The signed value of a decimal literal.
pub open spec fn dec_value(s: Seq<char>) -> int {
    if s.len() > 0 && s[0] == '-' {
        -dec_digits_value(dec_body(s))
    } else {
        dec_digits_value(dec_body(s))
    }
}

/// Relies on `num_bigint::BigInt`'s `FromStr` (base 10): it accepts an
/// optional `-` or `+`, then a digit followed by digits or non-leading `_`
/// separators, and returns the signed decimal value; `into_parts` splits
/// sign and magnitude, and `BigUint::to_u32_digits` renders the magnitude
/// as little-endian base-2^32 limbs without trailing zeros.
#[verifier::external_body]
pub(crate) fn big_from_decimal(s: &str) -> (r: Option<BigNum>)
    ensures
        r is Some <==> is_dec_literal(s@),
        r matches Some(b) ==> b.wf() && b.value() == dec_value(s@),
{
    match <num_bigint::BigInt as core::str::FromStr>::from_str(s) {
        Ok(n) => {
            let (sign, magnitude) = n.into_parts();
            Some(BigNum {
                limbs: magnitude.to_u32_digits(),
                negative: sign == num_bigint::Sign::Minus,
            })
        },
        Err(_) => None,
    }
}

/// Relies on `num_bigint::BigUint::from_slice` (little-endian base-2^32
/// digits) and `Mul for BigUint`.
#[verifier::external_body]
pub(crate) fn mag_mul(a: &Vec<u32>, b: &Vec<u32>) -> (r: Vec<u32>)
    ensures
        mag(r@) == mag(a@) * mag(b@),
        canonical(r@),
{
    let p = num_bigint::BigUint::from_slice(a) * num_bigint::BigUint::from_slice(b);
    p.to_u32_digits()
}

/// Relies on `num_bigint::BigUint::from_slice` and `Add for BigUint`.
#[verifier::external_body]
pub(crate) fn mag_add(a: &Vec<u32>, b: &Vec<u32>) -> (r: Vec<u32>)
    ensures
        mag(r@) == mag(a@) + mag(b@),
        canonical(r@),
{
    let s = num_bigint::BigUint::from_slice(a) + num_bigint::BigUint::from_slice(b);
    s.to_u32_digits()
}

/// Relies on `num_bigint::BigUint::from_slice` and `Rem for BigUint`, the
/// remainder of Euclidean division on nonnegative values.
#[verifier::external_body]
pub(crate) fn mag_rem(a: &Vec<u32>, b: &Vec<u32>) -> (r: Vec<u32>)
    requires
        mag(b@) > 0,
    ensures
        mag(r@) == mag(a@) % mag(b@),
        canonical(r@),
{
    let m = num_bigint::BigUint::from_slice(a) % num_bigint::BigUint::from_slice(b);
    m.to_u32_digits()
}

/// Relies on `num_bigint::BigUint::from_slice` and `Sub for BigUint`,
/// which panics when the subtrahend is the larger value; the precondition
/// rules that out.
#[verifier::external_body]
pub(crate) fn mag_sub(a: &Vec<u32>, b: &Vec<u32>) -> (r: Vec<u32>)
    requires
        mag(b@) <= mag(a@),
    ensures
        mag(r@) == mag(a@) - mag(b@),
        canonical(r@),
{
    let d = num_bigint::BigUint::from_slice(a) - num_bigint::BigUint::from_slice(b);
    d.to_u32_digits()
}

/// Relies on `num_bigint::BigUint::from_slice` and `Div for BigUint`, the
/// quotient of Euclidean division on nonnegative values; division by zero
/// panics and is ruled out by the precondition.
#[verifier::external_body]
pub(crate) fn mag_div(a: &Vec<u32>, b: &Vec<u32>) -> (r: Vec<u32>)
    requires
        mag(b@) > 0,
    ensures
        mag(r@) == mag(a@) / mag(b@),
        canonical(r@),
{
    let q = num_bigint::BigUint::from_slice(a) / num_bigint::BigUint::from_slice(b);
    q.to_u32_digits()
}

/// Relies on `num_bigint::BigUint::from_slice` and `Ord for BigUint`,
/// which orders by numeric value.
#[verifier::external_body]
pub(crate) fn mag_le(a: &Vec<u32>, b: &Vec<u32>) -> (r: bool)
    ensures
        r == (mag(a@) <= mag(b@)),
{
    num_bigint::BigUint::from_slice(a) <= num_bigint::BigUint::from_slice(b)
}

/// Ten raised to an arbitrary-precision exponent, as a limb magnitude.
pub(crate) fn pow10_mag(x: Vec<u32>) -> (r: Vec<u32>)
    requires
        canonical(x@),
    ensures
        mag(r@) == pow(10, mag(x@)),
        canonical(r@),
{
    let ghost total: nat = mag(x@);
    let one = BigNum::from_u32(1).limbs;
    let ten = BigNum::from_u32(10).limbs;
    let mut p = BigNum::from_u32(1).limbs;
    let mut cnt = x;
    proof {
        vstd::arithmetic::power::lemma_pow0(10);
    }
    while cnt.len() > 0
        invariant
            canonical(cnt@),
            mag(cnt@) <= total,
            mag(p@) == pow(10, (total - mag(cnt@)) as nat),
            canonical(p@),
            mag(one@) == 1,
            mag(ten@) == 10,
        decreases mag(cnt@),
    {
        proof {
            lemma_canonical_nonempty_positive(cnt@);
        }
        p = mag_mul(&p, &ten);
        cnt = mag_sub(&cnt, &one);
        proof {
            let k: nat = (total - mag(cnt@)) as nat;
            reveal(pow);
            assert(pow(10, k) == 10 * pow(10, (k - 1) as nat));
        }
    }
    proof {
        assert(cnt@ =~= Seq::<u32>::empty());
        assert(mag(cnt@) == 0);
    }
    p
}

/// A canonical nonempty limb sequence has a positive value.
pub proof fn lemma_canonical_nonempty_positive(s: Seq<u32>)
    requires
        canonical(s),
        s.len() > 0,
    ensures
        mag(s) > 0,
    decreases s.len(),
{
    if s.len() == 1 {
        assert(s.drop_first() =~= Seq::<u32>::empty());
    } else {
        assert(canonical(s.drop_first()));
        lemma_canonical_nonempty_positive(s.drop_first());
    }
}

/// A limb sequence with a positive value is nonempty.
pub proof fn lemma_positive_nonempty(s: Seq<u32>)
    requires
        mag(s) > 0,
    ensures
        s.len() > 0,
{
    if s.len() == 0 {
        assert(mag(s) == 0);
    }
}

/// A single limb stands for its own value.
pub proof fn lemma_mag_singleton(s: Seq<u32>)
    requires
        s.len() == 1,
    ensures
        mag(s) == s[0],
{
    assert(s.drop_first() =~= Seq::<u32>::empty());
    assert(mag(Seq::<u32>::empty()) == 0);
}

/// With two or more canonical limbs the value is at least 2^32.
pub proof fn lemma_mag_two_limbs(s: Seq<u32>)
    requires
        canonical(s),
        s.len() >= 2,
    ensures
        mag(s) >= 0x1_0000_0000,
{
    assert(canonical(s.drop_first()));
    lemma_canonical_nonempty_positive(s.drop_first());
}

} // verus!
