//! The KoalaBear prime field `2^31 - 2^24 + 1`, with elements held as their
//! canonical representatives in a `u32`.

use p3_field::extension::BinomialExtensionField;
use p3_field::AbstractExtensionField;
use p3_field::AbstractField;
use p3_field::Field;
use p3_field::PrimeField32;
use p3_field::TwoAdicField;
use p3_koala_bear::KoalaBear;
use vstd::prelude::*;

verus! {

/// A base-field element, as its canonical representative.
pub type Felt = u32;

/// An element of the degree-four extension field `F[X] / (X^4 - 3)`, by its
/// coefficients from the constant term up.
#[derive(Clone, Copy, Debug, PartialEq, Eq, Structural)]
pub struct Ext {
    pub c0: Felt,
    pub c1: Felt,
    pub c2: Felt,
    pub c3: Felt,
}

/// The KoalaBear prime.
pub const P: u32 = 0x7f00_0001;

/// The largest `k` for which the field has a multiplicative subgroup of order `2^k`.
pub const TWO_ADICITY: usize = 24;

/// `x` is the canonical representative of a field element.
pub open spec fn is_canonical(x: Felt) -> bool {
    x < P
}

/// Every entry of `s` is canonical.
pub open spec fn all_canonical(s: Seq<Felt>) -> bool {
    forall|i: int| 0 <= i < s.len() ==> is_canonical(#[trigger] s[i])
}

/// Whether every entry of `values` is canonical.
pub fn is_all_canonical(values: &[Felt]) -> (ok: bool)
    ensures
        ok == all_canonical(values@),
{
    let mut i: usize = 0;
    while i < values.len()
        invariant
            i <= values@.len(),
            forall|j: int| 0 <= j < i ==> is_canonical(#[trigger] values@[j]),
        decreases values@.len() - i,
    {
        if values[i] >= P {
            return false;
        }
        i += 1;
    }
    true
}

/// Sum of two field elements.
pub open spec fn felt_add(a: Felt, b: Felt) -> Felt {
    ((a as int + b as int) % (P as int)) as u32
}

/// Difference of two field elements.
pub open spec fn felt_sub(a: Felt, b: Felt) -> Felt {
    ((a as int - b as int) % (P as int)) as u32
}

/// Product of two field elements.
pub open spec fn felt_mul(a: Felt, b: Felt) -> Felt {
    ((a as int * b as int) % (P as int)) as u32
}

/// `base` raised to the power `exp`.
pub open spec fn felt_pow(base: Felt, exp: nat) -> Felt
    decreases exp,
{
    if exp == 0 {
        1
    } else {
        felt_mul(base, felt_pow(base, (exp - 1) as nat))
    }
}

/// The multiplicative inverse of a nonzero element, by Fermat's little
/// theorem; zero is mapped to zero.
pub open spec fn felt_inv(a: Felt) -> Felt {
    felt_pow(a, (P - 2) as nat)
}

/// Adds two canonical elements.
pub fn add_felt(a: Felt, b: Felt) -> (r: Felt)
    requires
        is_canonical(a),
        is_canonical(b),
    ensures
        r == felt_add(a, b),
        is_canonical(r),
{
    let s: u32 = a + b;
    if s >= P {
        s - P
    } else {
        s
    }
}

/// Subtracts one canonical element from another.
pub fn sub_felt(a: Felt, b: Felt) -> (r: Felt)
    requires
        is_canonical(a),
        is_canonical(b),
    ensures
        r == felt_sub(a, b),
        is_canonical(r),
{
    if a >= b {
        a - b
    } else {
        a + (P - b)
    }
}

/// Multiplies two canonical elements.
pub fn mul_felt(a: Felt, b: Felt) -> (r: Felt)
    requires
        is_canonical(a),
        is_canonical(b),
    ensures
        r == felt_mul(a, b),
        is_canonical(r),
{
    assert((a as u64) * (b as u64) <= 0x7f00_0000u64 * 0x7f00_0000u64) by (nonlinear_arith)
        requires
            a <= 0x7f00_0000u32,
            b <= 0x7f00_0000u32,
    ;
    let wide: u64 = (a as u64) * (b as u64);
    (wide % (P as u64)) as u32
}

/// The generator of the multiplicative subgroup of order `2^bits`, for
/// `bits` up to the field's two-adicity.
pub open spec fn spec_two_adic_generator(bits: nat) -> Felt {
    seq![
        0x1u32,
        0x7f000000,
        0x7e010002,
        0x6832fe4a,
        0x8dbd69c,
        0xa28f031,
        0x5c4a5b99,
        0x29b75a80,
        0x17668b8a,
        0x27ad539b,
        0x334d48c7,
        0x7744959c,
        0x768fc6fa,
        0x303964b2,
        0x3e687d4d,
        0x45a60e61,
        0x6e2f4d7a,
        0x163bd499,
        0x6c4a8a45,
        0x143ef899,
        0x514ddcad,
        0x484ef19b,
        0x205d63c3,
        0x68e7dd49,
        0x6ac49f88,
    ][bits as int]
}

/// Calls `TwoAdicField::two_adic_generator` of `p3_koala_bear::KoalaBear` and
/// takes the canonical representative of what comes back. The field keeps
/// these generators in a table of 25 entries, which the contract repeats;
/// above 24 bits the outside function panics.
#[verifier::external_body]
pub(crate) fn koala_bear_two_adic_generator(bits: usize) -> (g: Felt)
    requires
        bits <= TWO_ADICITY,
    ensures
        g == spec_two_adic_generator(bits as nat),
{
    KoalaBear::two_adic_generator(bits).as_canonical_u32()
}

/// Every generator in the table is canonical.
pub proof fn lemma_two_adic_generator_canonical(bits: nat)
    requires
        bits <= TWO_ADICITY,
    ensures
        is_canonical(spec_two_adic_generator(bits)),
        bits == 0 ==> spec_two_adic_generator(bits) == 1,
{
}

/// The generator of the subgroup of order `2^bits`.
pub fn two_adic_generator(bits: usize) -> (g: Felt)
    requires
        bits <= TWO_ADICITY,
    ensures
        g == spec_two_adic_generator(bits as nat),
        is_canonical(g),
{
    proof {
        lemma_two_adic_generator_canonical(bits as nat);
    }
    koala_bear_two_adic_generator(bits)
}

/// Multiplication in the field is associative.
pub proof fn lemma_felt_mul_associative(a: Felt, b: Felt, c: Felt)
    ensures
        felt_mul(felt_mul(a, b), c) == felt_mul(a, felt_mul(b, c)),
{
    let p = P as int;
    let (x, y, z) = (a as int, b as int, c as int);
    vstd::arithmetic::div_mod::lemma_mul_mod_noop_general(x * y, z, p);
    vstd::arithmetic::div_mod::lemma_mul_mod_noop_general(x, y * z, p);
    vstd::arithmetic::mul::lemma_mul_is_associative(x, y, z);
}

/// Multiplication in the field is commutative.
pub proof fn lemma_felt_mul_commutative(a: Felt, b: Felt)
    ensures
        felt_mul(a, b) == felt_mul(b, a),
{
    vstd::arithmetic::mul::lemma_mul_is_commutative(a as int, b as int);
}

/// A power is canonical.
pub proof fn lemma_felt_pow_canonical(base: Felt, exp: nat)
    ensures
        is_canonical(felt_pow(base, exp)),
{
    if exp > 0 {
        assert(felt_pow(base, exp) == felt_mul(base, felt_pow(base, (exp - 1) as nat)));
    }
}

/// Powers of one base multiply by adding their exponents.
pub proof fn lemma_felt_pow_add(base: Felt, m: nat, n: nat)
    ensures
        felt_pow(base, m + n) == felt_mul(felt_pow(base, m), felt_pow(base, n)),
    decreases m,
{
    lemma_felt_pow_canonical(base, n);
    if m == 0 {
        assert(felt_mul(1, felt_pow(base, n)) == felt_pow(base, n));
    } else {
        lemma_felt_pow_add(base, (m - 1) as nat, n);
        lemma_felt_mul_associative(base, felt_pow(base, (m - 1) as nat), felt_pow(base, n));
        assert(felt_pow(base, m + n) == felt_mul(base, felt_pow(base, (m + n - 1) as nat)));
    }
}

/// The power of a square is the power with twice the exponent.
pub proof fn lemma_felt_pow_square(base: Felt, q: nat)
    ensures
        felt_pow(felt_mul(base, base), q) == felt_pow(base, 2 * q),
    decreases q,
{
    if q > 0 {
        lemma_felt_pow_square(base, (q - 1) as nat);
        let tail = felt_pow(base, (2 * q - 2) as nat);
        assert(felt_pow(base, (2 * q - 1) as nat) == felt_mul(base, tail));
        assert(felt_pow(base, 2 * q) == felt_mul(base, felt_pow(base, (2 * q - 1) as nat)));
        lemma_felt_mul_associative(base, base, tail);
    }
}

/// Raises a canonical element to a power.
pub fn pow(base: Felt, exp: u32) -> (r: Felt)
    requires
        is_canonical(base),
    ensures
        r == felt_pow(base, exp as nat),
        is_canonical(r),
{
    let mut result: Felt = 1;
    let mut square: Felt = base;
    let mut rest: u32 = exp;
    proof {
        lemma_felt_pow_canonical(base, exp as nat);
        assert(felt_mul(1, felt_pow(base, exp as nat)) == felt_pow(base, exp as nat));
    }
    while rest > 0
        invariant
            is_canonical(result),
            is_canonical(square),
            felt_mul(result, felt_pow(square, rest as nat)) == felt_pow(base, exp as nat),
        decreases rest,
    {
        let ghost q = (rest / 2) as nat;
        proof {
            lemma_felt_pow_square(square, q);
            if rest % 2 == 1 {
                assert(felt_pow(square, rest as nat) == felt_mul(
                    square,
                    felt_pow(square, (rest - 1) as nat),
                ));
                lemma_felt_mul_associative(result, square, felt_pow(square, 2 * q));
            }
        }
        if rest % 2 == 1 {
            result = mul_felt(result, square);
        }
        square = mul_felt(square, square);
        rest = rest / 2;
    }
    assert(felt_mul(result, 1) == result);
    result
}

/// The inverse of a canonical element; zero for zero.
pub fn inverse(a: Felt) -> (r: Felt)
    requires
        is_canonical(a),
    ensures
        r == felt_inv(a),
        is_canonical(r),
{
    pow(a, P - 2)
}

/// The coefficients of `e` are canonical.
pub open spec fn ext_canonical(e: Ext) -> bool {
    is_canonical(e.c0) && is_canonical(e.c1) && is_canonical(e.c2) && is_canonical(e.c3)
}

/// Every entry of `s` is canonical.
pub open spec fn all_ext_canonical(s: Seq<Ext>) -> bool {
    forall|i: int| 0 <= i < s.len() ==> ext_canonical(#[trigger] s[i])
}

/// The coefficients of `e`, from the constant term up.
pub open spec fn ext_coefficients(e: Ext) -> Seq<Felt> {
    seq![e.c0, e.c1, e.c2, e.c3]
}

/// The zero of the extension field.
pub open spec fn ext_zero() -> Ext {
    Ext { c0: 0, c1: 0, c2: 0, c3: 0 }
}

/// Sum of two extension-field elements.
pub open spec fn ext_add(a: Ext, b: Ext) -> Ext {
    Ext {
        c0: felt_add(a.c0, b.c0),
        c1: felt_add(a.c1, b.c1),
        c2: felt_add(a.c2, b.c2),
        c3: felt_add(a.c3, b.c3),
    }
}

/// Difference of two extension-field elements.
pub open spec fn ext_sub(a: Ext, b: Ext) -> Ext {
    Ext {
        c0: felt_sub(a.c0, b.c0),
        c1: felt_sub(a.c1, b.c1),
        c2: felt_sub(a.c2, b.c2),
        c3: felt_sub(a.c3, b.c3),
    }
}

/// An extension-field element less a base-field element.
pub open spec fn ext_sub_base(a: Ext, b: Felt) -> Ext {
    Ext { c0: felt_sub(a.c0, b), c1: a.c1, c2: a.c2, c3: a.c3 }
}

/// An extension-field element times a base-field element.
pub open spec fn ext_scale(a: Ext, b: Felt) -> Ext {
    Ext {
        c0: felt_mul(a.c0, b),
        c1: felt_mul(a.c1, b),
        c2: felt_mul(a.c2, b),
        c3: felt_mul(a.c3, b),
    }
}

/// Product of two extension-field elements: the product of the two
/// polynomials, with `X^4` standing for 3.
pub open spec fn ext_mul(a: Ext, b: Ext) -> Ext {
    let p = P as int;
    let (a0, a1, a2, a3) = (a.c0 as int, a.c1 as int, a.c2 as int, a.c3 as int);
    let (b0, b1, b2, b3) = (b.c0 as int, b.c1 as int, b.c2 as int, b.c3 as int);
    Ext {
        c0: ((a0 * b0 + 3 * (a1 * b3 + a2 * b2 + a3 * b1)) % p) as u32,
        c1: ((a0 * b1 + a1 * b0 + 3 * (a2 * b3 + a3 * b2)) % p) as u32,
        c2: ((a0 * b2 + a1 * b1 + a2 * b0 + 3 * (a3 * b3)) % p) as u32,
        c3: ((a0 * b3 + a1 * b2 + a2 * b1 + a3 * b0) % p) as u32,
    }
}

/// Adds two extension-field elements.
pub fn add_ext(a: Ext, b: Ext) -> (r: Ext)
    requires
        ext_canonical(a),
        ext_canonical(b),
    ensures
        r == ext_add(a, b),
        ext_canonical(r),
{
    Ext { c0: add_felt(a.c0, b.c0), c1: add_felt(a.c1, b.c1), c2: add_felt(a.c2, b.c2), c3: add_felt(a.c3, b.c3) }
}

/// Subtracts one extension-field element from another.
pub fn sub_ext(a: Ext, b: Ext) -> (r: Ext)
    requires
        ext_canonical(a),
        ext_canonical(b),
    ensures
        r == ext_sub(a, b),
        ext_canonical(r),
{
    Ext { c0: sub_felt(a.c0, b.c0), c1: sub_felt(a.c1, b.c1), c2: sub_felt(a.c2, b.c2), c3: sub_felt(a.c3, b.c3) }
}

/// Subtracts a base-field element from an extension-field element.
pub fn sub_base(a: Ext, b: Felt) -> (r: Ext)
    requires
        ext_canonical(a),
        is_canonical(b),
    ensures
        r == ext_sub_base(a, b),
        ext_canonical(r),
{
    Ext { c0: sub_felt(a.c0, b), c1: a.c1, c2: a.c2, c3: a.c3 }
}

/// Multiplies an extension-field element by a base-field element.
pub fn scale(a: Ext, b: Felt) -> (r: Ext)
    requires
        ext_canonical(a),
        is_canonical(b),
    ensures
        r == ext_scale(a, b),
        ext_canonical(r),
{
    Ext { c0: mul_felt(a.c0, b), c1: mul_felt(a.c1, b), c2: mul_felt(a.c2, b), c3: mul_felt(a.c3, b) }
}

/// The product of two canonical elements, not reduced.
fn wide_mul(a: Felt, b: Felt) -> (r: u128)
    requires
        is_canonical(a),
        is_canonical(b),
    ensures
        r == (a as int) * (b as int),
        r <= 0x3f01_0000_0000_0000,
{
    assert((a as int) * (b as int) <= 0x7f00_0000 * 0x7f00_0000) by (nonlinear_arith)
        requires
            a <= 0x7f00_0000u32,
            b <= 0x7f00_0000u32,
    ;
    assert(0 <= (a as int) * (b as int)) by (nonlinear_arith);
    (a as u128) * (b as u128)
}

/// Multiplies two extension-field elements.
pub fn mul_ext(a: Ext, b: Ext) -> (r: Ext)
    requires
        ext_canonical(a),
        ext_canonical(b),
    ensures
        r == ext_mul(a, b),
        ext_canonical(r),
{
    let p: u128 = P as u128;
    let c0 = (wide_mul(a.c0, b.c0) + 3 * (wide_mul(a.c1, b.c3) + wide_mul(a.c2, b.c2) + wide_mul(
        a.c3,
        b.c1,
    ))) % p;
    let c1 = (wide_mul(a.c0, b.c1) + wide_mul(a.c1, b.c0) + 3 * (wide_mul(a.c2, b.c3) + wide_mul(
        a.c3,
        b.c2,
    ))) % p;
    let c2 = (wide_mul(a.c0, b.c2) + wide_mul(a.c1, b.c1) + wide_mul(a.c2, b.c0) + 3 * wide_mul(
        a.c3,
        b.c3,
    )) % p;
    let c3 = (wide_mul(a.c0, b.c3) + wide_mul(a.c1, b.c2) + wide_mul(a.c2, b.c1) + wide_mul(
        a.c3,
        b.c0,
    )) % p;
    Ext { c0: c0 as u32, c1: c1 as u32, c2: c2 as u32, c3: c3 as u32 }
}

/// The one of the extension field.
pub open spec fn ext_one() -> Ext {
    Ext { c0: 1, c1: 0, c2: 0, c3: 0 }
}

/// The coefficients of the inverse of a nonzero extension-field element,
/// as `Field::try_inverse` of `p3_field` computes them for the
/// degree-four extension of KoalaBear, from the element's coefficients.
pub uninterp spec fn ext_inverse_coefficients(coefficients: Seq<u32>) -> Seq<u32>;

/// The inverse of a nonzero extension-field element.
pub open spec fn ext_inv(e: Ext) -> Ext {
    let c = ext_inverse_coefficients(ext_coefficients(e));
    Ext { c0: c[0], c1: c[1], c2: c[2], c3: c[3] }
}

/// Calls `Field::try_inverse` of `p3_field` on the element of
/// `BinomialExtensionField<KoalaBear, 4>` with the coefficients of `e`.
/// Zero, and only zero, has no inverse. Otherwise the contract names what
/// comes back and says what makes it the inverse: it is canonical, and its
/// product with `e` is one.
#[verifier::external_body]
fn koala_bear_ext_try_inverse(e: Ext) -> (inv: Option<Ext>)
    requires
        ext_canonical(e),
    ensures
        inv is None <==> e == ext_zero(),
        inv matches Some(r) ==> ext_coefficients(r) == ext_inverse_coefficients(
            ext_coefficients(e),
        ) && ext_canonical(r) && ext_mul(e, r) == ext_one(),
{
    let base = [e.c0, e.c1, e.c2, e.c3].map(KoalaBear::from_canonical_u32);
    let x = BinomialExtensionField::<KoalaBear, 4>::from_base_slice(&base);
    x.try_inverse().map(
        |y| {
            let c: &[KoalaBear] = y.as_base_slice();
            Ext {
                c0: c[0].as_canonical_u32(),
                c1: c[1].as_canonical_u32(),
                c2: c[2].as_canonical_u32(),
                c3: c[3].as_canonical_u32(),
            }
        },
    )
}

/// The inverse of an extension-field element, if it has one.
pub fn try_inverse_ext(e: Ext) -> (inv: Option<Ext>)
    requires
        ext_canonical(e),
    ensures
        inv == (if e == ext_zero() {
            None
        } else {
            Some(ext_inv(e))
        }),
        inv matches Some(r) ==> ext_canonical(r) && ext_mul(e, r) == ext_one(),
{
    let inv = koala_bear_ext_try_inverse(e);
    proof {
        if let Some(r) = inv {
            let c = ext_coefficients(r);
            assert(c[0] == r.c0 && c[1] == r.c1 && c[2] == r.c2 && c[3] == r.c3);
        }
    }
    inv
}

/// The generator of the field's multiplicative group that cosets are
/// shifted by.
pub open spec fn spec_generator() -> Felt {
    3
}

/// Calls `AbstractField::generator` of `p3_koala_bear::KoalaBear`, which is
/// the constant 3, and takes its canonical representative.
#[verifier::external_body]
fn koala_bear_generator() -> (g: Felt)
    ensures
        g == spec_generator(),
{
    KoalaBear::generator().as_canonical_u32()
}

/// The generator of the field's multiplicative group.
pub fn generator() -> (g: Felt)
    ensures
        g == spec_generator(),
        is_canonical(g),
{
    koala_bear_generator()
}

/// Whether the coefficients of `e` are canonical.
pub fn is_ext_canonical(e: &Ext) -> (ok: bool)
    ensures
        ok == ext_canonical(*e),
{
    e.c0 < P && e.c1 < P && e.c2 < P && e.c3 < P
}

} // verus!
