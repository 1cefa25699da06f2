//! Request parsing and validation. The JSON text parser is a black box
//! behind a trusted boundary: it turns one line into the shape the
//! validator reads (object or not, and the `method` and `number` fields).
//! The validation policy itself — `method` must be exactly `"isPrime"`,
//! `number` must be numeric, a number with a decimal point counts as the
//! integer zero — is verified code over that shape.

use vstd::prelude::*;
use vstd::string::StrSliceExecFns;
use vstd::string::StringExecFns;
use vstd::arithmetic::power::pow;
use vstd::arithmetic::div_mod::{lemma_fundamental_div_mod, lemma_fundamental_div_mod_converse};

use crate::bignum::{
    big_from_decimal, dec_body, dec_value, is_dec_digit, is_dec_literal,
    lemma_canonical_nonempty_positive, mag, mag_div, mag_mul, mag_rem, pow10_mag, BigNum,
};

verus! {

/// What the validator reads of one field of the request object.
pub enum FieldKind {
    /// A JSON string, with its content.
    Text(String),
    /// A JSON number, with its literal text.
    Numeric(String),
    /// Any other JSON value.
    OtherKind,
}

/// What the validator reads of one line.
pub enum LineShape {
    /// The line is not valid JSON.
    NotJson,
    /// The line is JSON, but not an object.
    NotObject,
    /// A JSON object, with its `method` and `number` fields, if present.
    Fields { method: Option<FieldKind>, number: Option<FieldKind> },
}

/// Mathematical model of a field: the same shape over character sequences.
pub enum FieldModel {
    Text(Seq<char>),
    Numeric(Seq<char>),
    OtherKind,
}

/// Mathematical model of a line's shape.
pub enum ShapeModel {
    NotJson,
    NotObject,
    Fields { method: Option<FieldModel>, number: Option<FieldModel> },
}

pub open spec fn field_model(f: FieldKind) -> FieldModel {
    match f {
        FieldKind::Text(s) => FieldModel::Text(s@),
        FieldKind::Numeric(s) => FieldModel::Numeric(s@),
        FieldKind::OtherKind => FieldModel::OtherKind,
    }
}

pub open spec fn opt_field_model(f: Option<FieldKind>) -> Option<FieldModel> {
    match f {
        Some(x) => Some(field_model(x)),
        None => None,
    }
}

pub open spec fn shape_model(s: LineShape) -> ShapeModel {
    match s {
        LineShape::NotJson => ShapeModel::NotJson,
        LineShape::NotObject => ShapeModel::NotObject,
        LineShape::Fields { method, number } => ShapeModel::Fields {
            method: opt_field_model(method),
            number: opt_field_model(number),
        },
    }
}

/// The shape that parsing a given line yields. JSON's grammar is not
/// restated here; the parse is deterministic, so the shape is a function
/// of the line's text alone.
pub uninterp spec fn shape_of(line: Seq<char>) -> ShapeModel;

#[verifier::external_type_specification]
#[verifier::external_body]
pub struct ExJsonValue(serde_json::Value);

/// Relies on `serde_json::Value`'s `String` variant holding the string's
/// content, and on `serde_json::Number::to_string` returning the number's
/// token text as the parser stored it. Under the `arbitrary_precision`
/// feature that token is the scanned digits, normalized: a lowercase
/// exponent marker with an explicit sign, integers within 64-bit range
/// re-rendered as plain digits; a decimal point is never added or
/// removed. Also relies on `String::clone`.
#[verifier::external_body]
fn classify_field(f: &serde_json::Value) -> FieldKind {
    match f {
        serde_json::Value::String(s) => FieldKind::Text(s.clone()),
        serde_json::Value::Number(n) => FieldKind::Numeric(n.to_string()),
        _ => FieldKind::OtherKind,
    }
}

/// Relies on `serde_json::from_str::<Value>` to parse the line (failing on
/// malformed JSON, ignoring trailing whitespace) and on
/// `serde_json::Map::get` for the two field lookups.
#[verifier::external_body]
pub(crate) fn parse_line(line: &str) -> (r: LineShape)
    ensures
        shape_model(r) == shape_of(line@),
{
    match serde_json::from_str::<serde_json::Value>(line) {
        Err(_) => LineShape::NotJson,
        Ok(serde_json::Value::Object(m)) => LineShape::Fields {
            method: m.get("method").map(classify_field),
            number: m.get("number").map(classify_field),
        },
        Ok(_) => LineShape::NotObject,
    }
}

/// Whether a character sequence contains a decimal point.
pub open spec fn contains_dot(s: Seq<char>) -> bool {
    exists|i: int| 0 <= i < s.len() && s[i] == '.'
}

/// Position of the first exponent marker in a token.
pub open spec fn exp_marker_pos(s: Seq<char>) -> Option<int>
    decreases s.len(),
{
    if s.len() == 0 {
        None
    } else if s[0] == 'e' || s[0] == 'E' {
        Some(0)
    } else {
        match exp_marker_pos(s.drop_first()) {
            Some(k) => Some(k + 1),
            None => None,
        }
    }
}

/// An optional sign followed by one or more digits, nothing else.
pub open spec fn is_signed_digits(s: Seq<char>) -> bool {
    let b = dec_body(s);
    b.len() > 0 && forall|j: int| 0 <= j < b.len() ==> is_dec_digit(#[trigger] b[j])
}

/// A numeric token in exponent form without a decimal point: a signed
/// digit mantissa, the marker, and a signed digit exponent.
pub open spec fn is_exp_literal(s: Seq<char>) -> bool {
    match exp_marker_pos(s) {
        Some(i) => is_signed_digits(s.take(i)) && is_signed_digits(s.skip(i + 1)),
        None => false,
    }
}

/// The integer a mantissa `m` scaled by `10^x` queries: the exact value
/// where it is integral, zero — the lossy policy for fractional values —
/// where it is not.
pub open spec fn exp_query(m: int, x: int) -> int {
    if x >= 0 {
        m * pow(10, x as nat)
    } else if m % pow(10, (-x) as nat) == 0 {
        m / pow(10, (-x) as nat)
    } else {
        0
    }
}

/// The query an exponent-form token yields.
pub open spec fn exp_literal_value(s: Seq<char>) -> int {
    match exp_marker_pos(s) {
        Some(i) => exp_query(dec_value(s.take(i)), dec_value(s.skip(i + 1))),
        None => 0,
    }
}

/// The validated query a line's shape yields, if any: the `method` field
/// must be the string `"isPrime"` and the `number` field must be numeric.
/// A number whose text has a decimal point counts as zero; a plain
/// integer token is read exactly; an exponent-form token queries its
/// exact value when integral and zero when fractional. (The parser hands
/// on every numeric token in one of these three forms.)
pub open spec fn query_of(sh: ShapeModel) -> Option<int> {
    match sh {
        ShapeModel::Fields { method: Some(FieldModel::Text(m)), number: Some(FieldModel::Numeric(t)) } => {
            if m == "isPrime"@ {
                if contains_dot(t) {
                    Some(0)
                } else if is_dec_literal(t) {
                    Some(dec_value(t))
                } else if is_exp_literal(t) {
                    Some(exp_literal_value(t))
                } else {
                    None
                }
            } else {
                None
            }
        },
        _ => None,
    }
}

/// Whether the number text contains a decimal point.
fn has_dot(s: &str) -> (r: bool)
    ensures
        r == contains_dot(s@),
{
    let n = s.unicode_len();
    let mut j: usize = 0;
    while j < n
        invariant
            j <= n,
            n == s@.len(),
            forall|k: int| 0 <= k < j ==> s@[k] != '.',
        decreases n - j,
    {
        if s.get_char(j) == '.' {
            assert(s@[j as int] == '.');
            return true;
        }
        j += 1;
    }
    false
}

proof fn lemma_exp_marker_found(s: Seq<char>, i: int)
    requires
        0 <= i < s.len(),
        s[i] == 'e' || s[i] == 'E',
        forall|k: int| 0 <= k < i ==> s[k] != 'e' && s[k] != 'E',
    ensures
        exp_marker_pos(s) == Some(i),
    decreases s.len(),
{
    if i > 0 {
        let t = s.drop_first();
        assert(forall|k: int| 0 <= k < i - 1 ==> #[trigger] t[k] == s[k + 1]);
        lemma_exp_marker_found(t, i - 1);
    }
}

proof fn lemma_exp_marker_missing(s: Seq<char>)
    requires
        forall|k: int| 0 <= k < s.len() ==> s[k] != 'e' && s[k] != 'E',
    ensures
        exp_marker_pos(s) is None,
    decreases s.len(),
{
    if s.len() > 0 {
        let t = s.drop_first();
        assert(forall|k: int| 0 <= k < t.len() ==> #[trigger] t[k] == s[k + 1]);
        lemma_exp_marker_missing(t);
    }
}

/// A token of sign and digits alone is a decimal literal.
proof fn lemma_signed_digits_literal(s: Seq<char>)
    requires
        is_signed_digits(s),
    ensures
        is_dec_literal(s),
{
    assert(is_dec_digit(dec_body(s)[0]));
}

/// Divisibility, and the quotient of an exact division, carry over to
/// the negated dividend.
proof fn lemma_neg_div(a: int, p: int)
    requires
        p > 0,
        a >= 0,
        a % p == 0,
    ensures
        (-a) % p == 0,
        (-a) / p == -(a / p),
{
    let k = a / p;
    lemma_fundamental_div_mod(a, p);
    assert(p * (-k) == -(p * k)) by (nonlinear_arith);
    lemma_fundamental_div_mod_converse(-a, p, -k, 0);
}

/// A dividend not divisible by `p` stays so when negated.
proof fn lemma_neg_not_div(a: int, p: int)
    requires
        p > 0,
        a >= 0,
        a % p != 0,
    ensures
        (-a) % p != 0,
{
    if (-a) % p == 0 {
        let k = (-a) / p;
        lemma_fundamental_div_mod(-a, p);
        assert(p * (-k) == -(p * k)) by (nonlinear_arith);
        lemma_fundamental_div_mod_converse(a, p, -k, 0);
    }
}

/// Finds the first exponent marker in the token.
fn find_exp_marker(s: &str) -> (r: Option<usize>)
    ensures
        match r {
            Some(i) => exp_marker_pos(s@) == Some(i as int) && i < s@.len(),
            None => exp_marker_pos(s@) is None,
        },
{
    let n = s.unicode_len();
    let mut j: usize = 0;
    while j < n
        invariant
            j <= n,
            n == s@.len(),
            forall|k: int| 0 <= k < j ==> s@[k] != 'e' && s@[k] != 'E',
        decreases n - j,
    {
        let c = s.get_char(j);
        if c == 'e' || c == 'E' {
            proof {
                lemma_exp_marker_found(s@, j as int);
            }
            return Some(j);
        }
        j += 1;
    }
    proof {
        lemma_exp_marker_missing(s@);
    }
    None
}

/// Whether the token is an optional sign followed by digits alone.
fn check_signed_digits(s: &str) -> (r: bool)
    ensures
        r == is_signed_digits(s@),
{
    let n = s.unicode_len();
    if n == 0 {
        return false;
    }
    let c0 = s.get_char(0);
    let start: usize = if c0 == '-' || c0 == '+' {
        1
    } else {
        0
    };
    proof {
        if start == 1 {
            assert(dec_body(s@) =~= s@.drop_first());
        } else {
            assert(dec_body(s@) =~= s@);
        }
    }
    if n == start {
        return false;
    }
    let mut j = start;
    while j < n
        invariant
            start <= j <= n,
            start <= 1,
            n == s@.len(),
            n > start,
            dec_body(s@).len() == n - start,
            forall|k: int| 0 <= k < n - start ==> #[trigger] dec_body(s@)[k] == s@[k + start],
            forall|k: int| start <= k < j ==> is_dec_digit(#[trigger] s@[k]),
        decreases n - j,
    {
        let c = s.get_char(j);
        if !(c >= '0' && c <= '9') {
            assert(!is_dec_digit(dec_body(s@)[j - start]));
            return false;
        }
        j += 1;
    }
    true
}

/// Evaluates an exponent-form numeric token to the integer it queries,
/// or `None` where the token is not of that form.
fn exp_number(t: &str) -> (r: Option<BigNum>)
    ensures
        match r {
            Some(q) => q.wf() && is_exp_literal(t@) && q.value() == exp_literal_value(t@),
            None => !is_exp_literal(t@),
        },
{
    let i = match find_exp_marker(t) {
        Some(i) => i,
        None => {
            return None;
        },
    };
    let n = t.unicode_len();
    let mant = t.substring_char(0, i);
    let ex = t.substring_char(i + 1, n);
    proof {
        assert(mant@ =~= t@.take(i as int));
        assert(ex@ =~= t@.skip(i as int + 1));
    }
    if !check_signed_digits(mant) || !check_signed_digits(ex) {
        return None;
    }
    proof {
        lemma_signed_digits_literal(mant@);
        lemma_signed_digits_literal(ex@);
    }
    // Both parts are signed-digit tokens, hence decimal literals, so
    // neither parse can fail; the fallback arms are provably dead.
    let mb = match big_from_decimal(mant) {
        Some(b) => b,
        None => {
            return None;
        },
    };
    let xb = match big_from_decimal(ex) {
        Some(b) => b,
        None => {
            return None;
        },
    };
    let ghost mv: int = mb.value();
    let ghost xv: int = xb.value();
    let ghost xmag: nat = mag(xb.limbs@);
    let xneg = xb.negative;
    proof {
        if xneg {
            lemma_canonical_nonempty_positive(xb.limbs@);
        }
    }
    let p = pow10_mag(xb.limbs);
    proof {
        vstd::arithmetic::power::lemma_pow_positive(10, xmag);
    }
    if !xneg {
        let limbs = mag_mul(&mb.limbs, &p);
        proof {
            if mb.negative {
                lemma_canonical_nonempty_positive(mb.limbs@);
                assert(mag(mb.limbs@) * mag(p@) > 0) by (nonlinear_arith)
                    requires
                        mag(mb.limbs@) > 0,
                        mag(p@) > 0,
                    ;
                crate::bignum::lemma_positive_nonempty(limbs@);
                assert(-(mag(mb.limbs@) as int) * (mag(p@) as int) == -((mag(mb.limbs@) as int) * (
                mag(p@) as int))) by (nonlinear_arith);
            }
        }
        Some(BigNum { limbs, negative: mb.negative })
    } else {
        let r = mag_rem(&mb.limbs, &p);
        if r.len() == 0 {
            let q = mag_div(&mb.limbs, &p);
            proof {
                assert(mag(r@) == 0);
                if mb.negative {
                    lemma_canonical_nonempty_positive(mb.limbs@);
                    if mag(mb.limbs@) < mag(p@) {
                        vstd::arithmetic::div_mod::lemma_small_mod(mag(mb.limbs@), mag(p@));
                    }
                    vstd::arithmetic::div_mod::lemma_div_non_zero(
                        mag(mb.limbs@) as int,
                        mag(p@) as int,
                    );
                    crate::bignum::lemma_positive_nonempty(q@);
                    lemma_neg_div(mag(mb.limbs@) as int, mag(p@) as int);
                }
            }
            Some(BigNum { limbs: q, negative: mb.negative })
        } else {
            proof {
                lemma_canonical_nonempty_positive(r@);
                if mb.negative {
                    lemma_neg_not_div(mag(mb.limbs@) as int, mag(p@) as int);
                }
            }
            Some(BigNum::from_u32(0))
        }
    }
}

/// Turns one line into a validated query, or `None` where the line is a
/// protocol violation.
pub fn extract_number(line: &str) -> (r: Option<BigNum>)
    ensures
        match r {
            Some(q) => q.wf() && query_of(shape_of(line@)) == Some(q.value()),
            None => query_of(shape_of(line@)) is None,
        },
{
    let sh = parse_line(line);
    match sh {
        LineShape::Fields {
            method: Some(FieldKind::Text(m)),
            number: Some(FieldKind::Numeric(t)),
        } => {
            let expected = String::from_str("isPrime");
            if m == expected {
                if has_dot(t.as_str()) {
                    Some(BigNum::from_u32(0))
                } else {
                    match big_from_decimal(t.as_str()) {
                        Some(b) => Some(b),
                        None => exp_number(t.as_str()),
                    }
                }
            } else {
                None
            }
        },
        _ => None,
    }
}

} // verus!
