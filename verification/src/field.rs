//! Field elements in their canonical 32-byte big-endian encoding.
//!
//! The rank oracle sums reconstructed secrets in a 252-bit prime field and
//! elects the party whose rank encoding is largest. The engine holds every
//! element as its canonical encoding: comparison is then plain byte
//! comparison, which is verified here, while the modular arithmetic and the
//! Lagrange interpolation are calls into the field library behind the
//! trusted wrappers below.

use vstd::prelude::*;
use crate::codec::le_bytes;
use lambdaworks_math::field::element::FieldElement;
use lambdaworks_math::field::fields::fft_friendly::stark_252_prime_field::Stark252PrimeField;
use lambdaworks_math::polynomial::Polynomial;
use lambdaworks_math::traits::ByteConversion;
use rand::SeedableRng;
use rand::RngExt;

verus! {

/// Length of the canonical encoding.
pub open spec fn fe_len() -> int {
    32
}

/// A well-formed encoding: exactly 32 bytes.
pub open spec fn is_fe(b: Seq<u8>) -> bool {
    b.len() == 32
}

/// The field prime: the 252-bit Stark modulus.
pub open spec fn field_prime() -> int {
    0x800000000000011000000000000000000000000000000000000000000000001int
}

/// The integer a big-endian byte string denotes.
pub open spec fn be_val(s: Seq<u8>) -> int {
    crate::codec::de_le(s.reverse())
}

/// The canonical 32-byte big-endian encoding of `x` mod the field prime.
pub open spec fn fe_enc(x: int) -> Seq<u8> {
    le_bytes(x % field_prime(), 32).reverse()
}

/// The canonical encoding of the sum, mod the field prime, of the elements
/// the two encodings denote (each itself taken mod the prime).
pub open spec fn add_mod_p(a: Seq<u8>, b: Seq<u8>) -> Seq<u8> {
    fe_enc(be_val(a) + be_val(b))
}

/// The canonical encoding of `P(x)`, where `P` is the Lagrange interpolation
/// of the points `(xs[i], ys[i])` over the field.
pub uninterp spec fn lagrange_at(xs: Seq<u64>, ys: Seq<Seq<u8>>, x: u64) -> Seq<u8>;

/// The canonical encoding of `P(x)` for the polynomial with the given
/// coefficient encodings, constant term first.
pub uninterp spec fn poly_eval_at(coeffs: Seq<Seq<u8>>, x: u64) -> Seq<u8>;

/// The party index the seeded generator draws from `[0, n)`.
pub uninterp spec fn leader_draw(seed: Seq<u8>, n: int) -> int;

/// The canonical encoding of zero: 32 zero bytes.
pub fn fe_zero() -> (r: Vec<u8>)
    ensures
        r@ == fe_zero_spec(),
        is_fe(r@),
{
    let mut r: Vec<u8> = Vec::new();
    let mut i: usize = 0;
    while i < 32
        invariant
            i <= 32,
            r@ =~= Seq::new(i as nat, |j: int| 0u8),
        decreases 32 - i,
    {
        r.push(0u8);
        proof {
            assert(r@ =~= Seq::new((i + 1) as nat, |j: int| 0u8));
        }
        i = i + 1;
    }
    r
}

pub open spec fn fe_zero_spec() -> Seq<u8> {
    Seq::new(32, |j: int| 0u8)
}

/// Relies on `lambdaworks_math`: `FieldElement::from_bytes_be` on the
/// 252-bit Stark field accepts any 32 bytes, `+` is the field addition, and
/// `to_bytes_be` returns the canonical 32-byte encoding. The result is a
/// function of the operand bytes alone.
#[verifier::external_body]
pub(crate) fn fe_add(a: &Vec<u8>, b: &Vec<u8>) -> (r: Vec<u8>)
    requires
        is_fe(a@),
        is_fe(b@),
    ensures
        r@ == add_mod_p(a@, b@),
        is_fe(r@),
{
    let x = FieldElement::<Stark252PrimeField>::from_bytes_be(a.as_slice()).unwrap();
    let y = FieldElement::<Stark252PrimeField>::from_bytes_be(b.as_slice()).unwrap();
    (x + y).to_bytes_be().to_vec()
}

/// Relies on `lambdaworks_math`: `Polynomial::interpolate` over distinct
/// evaluation points returns the unique interpolating polynomial, and
/// `evaluate` gives its value at `x`, both functions of the points and `x`
/// alone. Canonically re-encoded with `to_bytes_be`.
#[verifier::external_body]
pub(crate) fn interpolate_eval(xs: &Vec<u64>, ys: &Vec<Vec<u8>>, x: u64) -> (r: Vec<u8>)
    requires
        xs@.len() == ys@.len(),
        xs@.len() >= 1,
        forall|i: int, j: int| 0 <= i < j < xs@.len() ==> xs@[i] != xs@[j],
        forall|i: int| 0 <= i < ys@.len() ==> is_fe(#[trigger] ys@[i]@),
    ensures
        r@ == lagrange_at(xs@, ys@.map_values(|v: Vec<u8>| v@), x),
        is_fe(r@),
{
    let points: Vec<FieldElement<Stark252PrimeField>> =
        xs.iter().map(|p| FieldElement::<Stark252PrimeField>::from(*p)).collect();
    let values: Vec<FieldElement<Stark252PrimeField>> =
        ys.iter().map(|y| FieldElement::<Stark252PrimeField>::from_bytes_be(y.as_slice()).unwrap()).collect();
    let poly = Polynomial::interpolate(points.as_slice(), values.as_slice()).unwrap();
    poly.evaluate(&FieldElement::<Stark252PrimeField>::from(x)).to_bytes_be().to_vec()
}

/// Interpolates and evaluates at zero: the secret of a sharing.
pub fn interpolate_at_zero(xs: &Vec<u64>, ys: &Vec<Vec<u8>>) -> (r: Vec<u8>)
    requires
        xs@.len() == ys@.len(),
        xs@.len() >= 1,
        forall|i: int, j: int| 0 <= i < j < xs@.len() ==> xs@[i] != xs@[j],
        forall|i: int| 0 <= i < ys@.len() ==> is_fe(#[trigger] ys@[i]@),
    ensures
        r@ == lagrange_at(xs@, ys@.map_values(|v: Vec<u8>| v@), 0),
        is_fe(r@),
{
    interpolate_eval(xs, ys, 0)
}

/// Relies on `lambdaworks_math`: Horner evaluation of the polynomial with
/// the given coefficients, a function of the coefficients and the point
/// alone. Canonically re-encoded with `to_bytes_be`.
#[verifier::external_body]
pub(crate) fn poly_eval(coeffs: &Vec<Vec<u8>>, x: u64) -> (r: Vec<u8>)
    requires
        forall|i: int| 0 <= i < coeffs@.len() ==> is_fe(#[trigger] coeffs@[i]@),
    ensures
        r@ == poly_eval_at(coeffs@.map_values(|v: Vec<u8>| v@), x),
        is_fe(r@),
{
    let cs: Vec<FieldElement<Stark252PrimeField>> =
        coeffs.iter().map(|c| FieldElement::<Stark252PrimeField>::from_bytes_be(c.as_slice()).unwrap()).collect();
    let poly = Polynomial::new(cs.as_slice());
    poly.evaluate(&FieldElement::<Stark252PrimeField>::from(x)).to_bytes_be().to_vec()
}

/// Relies on `rand`: `StdRng::from_seed` is a deterministic generator of
/// the 32-byte seed, and `random_range(0..n)` draws an index below `n`.
/// The draw is a function of the seed and `n` alone for the generator the
/// locked `rand` version ships; a deployment must run one version
/// fleet-wide, or parties draw different leaders from the same coin.
#[verifier::external_body]
pub(crate) fn draw_leader(seed: &Vec<u8>, n: usize) -> (r: usize)
    requires
        is_fe(seed@),
        n >= 1,
    ensures
        r < n,
        r as int == leader_draw(seed@, n as int),
{
    let mut arr = [0u8; 32];
    arr.copy_from_slice(seed.as_slice());
    let mut rng = rand::rngs::StdRng::from_seed(arr);
    rng.random_range(0..n)
}

/// Lexicographic order on equal-length byte strings from index `i` on.
pub open spec fn lex_gt_from(a: Seq<u8>, b: Seq<u8>, i: int) -> bool
    decreases a.len() - i,
{
    if i < 0 || i >= a.len() || a.len() != b.len() {
        false
    } else if a[i] != b[i] {
        a[i] > b[i]
    } else {
        lex_gt_from(a, b, i + 1)
    }
}

/// `a > b` as canonical big-endian encodings: the numeric order of the
/// elements they denote.
pub open spec fn fe_gt(a: Seq<u8>, b: Seq<u8>) -> bool {
    lex_gt_from(a, b, 0)
}

/// Compares two canonical encodings numerically.
pub fn fe_greater(a: &Vec<u8>, b: &Vec<u8>) -> (r: bool)
    requires
        a@.len() == b@.len(),
    ensures
        r == fe_gt(a@, b@),
{
    let mut i: usize = 0;
    while i < a.len()
        invariant
            i <= a@.len(),
            a@.len() == b@.len(),
            forall|j: int| 0 <= j < i ==> a@[j] == b@[j],
            fe_gt(a@, b@) == lex_gt_from(a@, b@, i as int),
        decreases a@.len() - i,
    {
        proof {
            lemma_lex_unfold(a@, b@, i as int);
        }
        if a[i] > b[i] {
            return true;
        }
        if a[i] < b[i] {
            return false;
        }
        i = i + 1;
    }
    false
}

proof fn lemma_lex_unfold(a: Seq<u8>, b: Seq<u8>, i: int)
    requires
        a.len() == b.len(),
        0 <= i < a.len(),
    ensures
        a[i] > b[i] ==> lex_gt_from(a, b, i),
        a[i] < b[i] ==> !lex_gt_from(a, b, i),
        a[i] == b[i] ==> lex_gt_from(a, b, i) == lex_gt_from(a, b, i + 1),
{
}

/// The low bit of the leading canonical byte, which decides a reconstructed
/// coin.
pub fn fe_low_bit_even(a: &Vec<u8>) -> (r: bool)
    requires
        is_fe(a@),
    ensures
        r == (a@[0] % 2 == 0),
{
    a[0] % 2 == 0
}

/// Folds `add_mod_p` over a list of encodings, starting from zero: the rank
/// of a party is this sum over the reconstructed secrets it depends on.
pub open spec fn sum_mod_p(xs: Seq<Seq<u8>>) -> Seq<u8>
    decreases xs.len(),
{
    if xs.len() == 0 {
        fe_zero_spec()
    } else {
        add_mod_p(sum_mod_p(xs.drop_last()), xs.last())
    }
}

/// Sums a list of canonical encodings in order.
pub fn fe_sum(xs: &Vec<Vec<u8>>) -> (r: Vec<u8>)
    requires
        forall|i: int| 0 <= i < xs@.len() ==> is_fe(#[trigger] xs@[i]@),
    ensures
        r@ == sum_mod_p(xs@.map_values(|v: Vec<u8>| v@)),
        is_fe(r@),
{
    let mut acc = fe_zero();
    let mut i: usize = 0;
    while i < xs.len()
        invariant
            i <= xs@.len(),
            forall|k: int| 0 <= k < xs@.len() ==> is_fe(#[trigger] xs@[k]@),
            acc@ == sum_mod_p(xs@.take(i as int).map_values(|v: Vec<u8>| v@)),
            is_fe(acc@),
        decreases xs@.len() - i,
    {
        acc = fe_add(&acc, &xs[i]);
        proof {
            let m0 = xs@.take(i as int).map_values(|v: Vec<u8>| v@);
            let m1 = xs@.take(i + 1).map_values(|v: Vec<u8>| v@);
            assert(m1.drop_last() =~= m0);
            assert(m1.last() == xs@[i as int]@);
        }
        i = i + 1;
    }
    proof {
        assert(xs@.take(xs@.len() as int) =~= xs@);
    }
    acc
}

} // verus!
