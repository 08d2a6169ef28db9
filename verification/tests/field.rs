use p3_field::extension::BinomialExtensionField;
use p3_field::{AbstractExtensionField, AbstractField, Field, PrimeField32, TwoAdicField};
use p3_koala_bear::KoalaBear;
use recursion_verifier::field::{
    add_ext, add_felt, generator, inverse, is_all_canonical, is_ext_canonical, mul_ext, mul_felt,
    pow, scale, sub_base, sub_ext, sub_felt, try_inverse_ext, two_adic_generator, Ext, P,
    TWO_ADICITY,
};

type EF = BinomialExtensionField<KoalaBear, 4>;

fn kb(x: u32) -> KoalaBear {
    KoalaBear::from_canonical_u32(x)
}

fn to_ef(e: Ext) -> EF {
    EF::from_base_slice(&[kb(e.c0), kb(e.c1), kb(e.c2), kb(e.c3)])
}

fn from_ef(e: EF) -> Ext {
    let c: &[KoalaBear] = e.as_base_slice();
    Ext {
        c0: c[0].as_canonical_u32(),
        c1: c[1].as_canonical_u32(),
        c2: c[2].as_canonical_u32(),
        c3: c[3].as_canonical_u32(),
    }
}

fn samples() -> Vec<u32> {
    let mut out = vec![0, 1, 2, 3, P - 1, P - 2, 0x3fff_ffff, 0x4000_0000, 0x7eff_ffff];
    let mut x: u64 = 0x1234_5678;
    for _ in 0..40 {
        x = (x * 6364136223846793005 + 1442695040888963407) % (1 << 63);
        out.push((x >> 20) as u32 % P);
    }
    out
}

#[test]
fn prime_is_koala_bear() {
    assert_eq!(P, 2130706433);
    assert_eq!(P, KoalaBear::ORDER_U32);
    assert_eq!(TWO_ADICITY, KoalaBear::TWO_ADICITY);
}

#[test]
fn base_field_arithmetic_matches_koala_bear() {
    let xs = samples();
    for &a in &xs {
        for &b in &xs {
            assert_eq!(add_felt(a, b), (kb(a) + kb(b)).as_canonical_u32());
            assert_eq!(sub_felt(a, b), (kb(a) - kb(b)).as_canonical_u32());
            assert_eq!(mul_felt(a, b), (kb(a) * kb(b)).as_canonical_u32());
        }
    }
}

#[test]
fn exact_sums_and_products() {
    assert_eq!(add_felt(P - 1, 5), 4);
    assert_eq!(sub_felt(3, 5), P - 2);
    assert_eq!(mul_felt(P - 1, P - 1), 1);
    assert_eq!(mul_felt(0x4000_0000, 4), 0x0200_0000 - 2);
    assert_eq!(pow(2, 31), 0x0100_0000 - 1);
    assert_eq!(pow(5, 0), 1);
    assert_eq!(pow(0, 0), 1);
    assert_eq!(pow(0, 7), 0);
}

#[test]
fn powers_and_inverses_match_koala_bear() {
    for &a in &samples() {
        for &e in &[0u32, 1, 2, 3, 31, 1 << 24, P - 2, u32::MAX] {
            assert_eq!(pow(a, e), kb(a).exp_u64(e as u64).as_canonical_u32());
        }
        if a != 0 {
            assert_eq!(inverse(a), kb(a).inverse().as_canonical_u32());
            assert_eq!(mul_felt(a, inverse(a)), 1);
        }
    }
    assert_eq!(inverse(0), 0);
}

#[test]
fn two_adic_generators_are_those_of_koala_bear() {
    for bits in 0..=TWO_ADICITY {
        let g = two_adic_generator(bits);
        assert_eq!(g, KoalaBear::two_adic_generator(bits).as_canonical_u32());
        assert_eq!(pow(g, 1 << bits), 1);
        if bits > 0 {
            assert_eq!(pow(g, 1 << (bits - 1)), P - 1);
        }
    }
    assert_eq!(two_adic_generator(0), 1);
    assert_eq!(two_adic_generator(1), P - 1);
    assert_eq!(two_adic_generator(24), 0x6ac49f88);
}

#[test]
fn generator_is_three() {
    assert_eq!(generator(), 3);
    assert_eq!(generator(), KoalaBear::generator().as_canonical_u32());
}

#[test]
fn extension_arithmetic_matches_koala_bear() {
    let xs = samples();
    let mut elems = Vec::new();
    for i in 0..xs.len() - 3 {
        elems.push(Ext { c0: xs[i], c1: xs[i + 1], c2: xs[i + 2], c3: xs[i + 3] });
    }
    for &a in &elems {
        for &b in &elems {
            assert_eq!(add_ext(a, b), from_ef(to_ef(a) + to_ef(b)));
            assert_eq!(sub_ext(a, b), from_ef(to_ef(a) - to_ef(b)));
            assert_eq!(mul_ext(a, b), from_ef(to_ef(a) * to_ef(b)));
        }
        assert_eq!(scale(a, xs[5]), from_ef(to_ef(a) * kb(xs[5])));
        assert_eq!(sub_base(a, xs[7]), from_ef(to_ef(a) - kb(xs[7])));
    }
}

#[test]
fn extension_product_wraps_at_x4_equals_3() {
    let x = Ext { c0: 0, c1: 1, c2: 0, c3: 0 };
    let x2 = mul_ext(x, x);
    assert_eq!(x2, Ext { c0: 0, c1: 0, c2: 1, c3: 0 });
    let x4 = mul_ext(x2, x2);
    assert_eq!(x4, Ext { c0: 3, c1: 0, c2: 0, c3: 0 });
    let a = Ext { c0: 1, c1: 2, c2: 3, c3: 4 };
    let b = Ext { c0: 5, c1: 6, c2: 7, c3: 8 };
    assert_eq!(
        mul_ext(a, b),
        Ext { c0: 5 + 3 * (16 + 21 + 24), c1: 6 + 10 + 3 * (24 + 28), c2: 7 + 12 + 15 + 3 * 32, c3: 8 + 14 + 18 + 20 }
    );
}

#[test]
fn extension_inverse_is_that_of_koala_bear() {
    let one = Ext { c0: 1, c1: 0, c2: 0, c3: 0 };
    let zero = Ext { c0: 0, c1: 0, c2: 0, c3: 0 };
    assert_eq!(try_inverse_ext(zero), None);
    assert_eq!(try_inverse_ext(one), Some(one));
    let xs = samples();
    for i in 0..xs.len() - 3 {
        let a = Ext { c0: xs[i], c1: xs[i + 1], c2: xs[i + 2], c3: xs[i + 3] };
        if a == zero {
            continue;
        }
        let inv = try_inverse_ext(a).unwrap();
        assert_ne!(inv, a);
        assert_eq!(mul_ext(a, inv), one);
        assert_eq!(inv, from_ef(to_ef(a).inverse()));
    }
}

#[test]
fn canonical_form_is_checked() {
    assert!(is_all_canonical(&[0, 1, P - 1]));
    assert!(!is_all_canonical(&[0, P, 1]));
    assert!(!is_all_canonical(&[u32::MAX]));
    assert!(is_all_canonical(&[]));
    assert!(is_ext_canonical(&Ext { c0: 0, c1: P - 1, c2: 5, c3: 6 }));
    assert!(!is_ext_canonical(&Ext { c0: 0, c1: 1, c2: 5, c3: P }));
}
