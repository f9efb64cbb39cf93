//! The decomposition, substitution, and composer primitives exercised one by
//! one: digit values, digit bounds, substitution-table behaviour, boundary
//! inputs, rejected inputs, and the satisfaction checker on unsatisfied
//! circuits.
use zelbet::{bar_gadget, Fe, StandardComposer, DECOMPOSITION_S_I, INVERSES_S_I, SBOX_BLS};

#[test]
fn decomposition_digits_match_reference_division() {
    // 12345678901234567890123456789012345678 decomposed by hand with the
    // radix table, least-significant position first.
    let x = Fe::from_u128(12345678901234567890123456789012345678u128);
    let expected: [u64; 27] = [
        198, 432, 543, 43, 221, 227, 272, 259, 461, 24, 425, 210, 343, 1, 0, 0, 0, 0, 0, 0, 0, 0,
        0, 0, 0, 0, 0,
    ];
    let mut composer = StandardComposer::new();
    let v = composer.add_input(x);
    let nibbles = composer.decomposition_gadget(v, DECOMPOSITION_S_I, INVERSES_S_I);
    for k in 0..27 {
        let d = composer.value_of(nibbles[k]);
        assert_eq!(d, Fe::from_u64(expected[k]));
    }
    // The recomposition constraint pinning the digits to the input holds.
    assert!(composer.check_circuit_satisfied());
    // one gate pinning the zero witness, then the decomposition's 108
    assert_eq!(composer.circuit_size(), 109);
}

#[test]
fn decomposition_digits_are_below_their_radix() {
    let x = Fe::from_u128(340282366920938463463374607431768211455u128);
    let mut composer = StandardComposer::new();
    let v = composer.add_input(x);
    let nibbles = composer.decomposition_gadget(v, DECOMPOSITION_S_I, INVERSES_S_I);
    for k in 0..27 {
        let d = composer.value_of(nibbles[k]);
        assert_eq!(d.limbs[1], 0);
        assert_eq!(d.limbs[2], 0);
        assert_eq!(d.limbs[3], 0);
        assert!(d.limbs[0] < DECOMPOSITION_S_I[k]);
    }
    assert!(composer.check_circuit_satisfied());
}

#[test]
fn zero_decomposes_to_zero_digits_and_recomposes_to_zero() {
    let mut composer = StandardComposer::new();
    let v = composer.add_input(Fe::zero());
    let nibbles = composer.decomposition_gadget(v, DECOMPOSITION_S_I, INVERSES_S_I);
    for k in 0..27 {
        assert_eq!(composer.value_of(nibbles[k]), Fe::zero());
    }
    // The weighted recomposition is constrained to equal the (zero) input,
    // and that constraint is satisfied.
    assert!(composer.check_circuit_satisfied());
}

#[test]
fn s_box_applies_table_below_domain_bound() {
    let mut composer = StandardComposer::new();
    let v0 = composer.add_input(Fe::zero());
    let o0 = composer.s_box(v0);
    assert_eq!(composer.value_of(o0), Fe::from_u64(15));

    let v1 = composer.add_input(Fe::one());
    let o1 = composer.s_box(v1);
    assert_eq!(composer.value_of(o1), Fe::from_u64(187));

    let v658 = composer.add_input(Fe::from_u64(658));
    let o658 = composer.s_box(v658);
    assert_eq!(composer.value_of(o658), Fe::from_u64(346));
    assert!(composer.check_circuit_satisfied());
}

#[test]
fn s_box_passes_values_at_and_above_domain_bound_through() {
    let mut composer = StandardComposer::new();
    let v659 = composer.add_input(Fe::from_u64(659));
    let o659 = composer.s_box(v659);
    assert_eq!(composer.value_of(o659), Fe::from_u64(659));

    let v_big = composer.add_input(Fe::from_u128(1u128 << 100));
    let o_big = composer.s_box(v_big);
    assert_eq!(composer.value_of(o_big), Fe::from_u128(1u128 << 100));
    assert!(composer.check_circuit_satisfied());
}

#[test]
fn s_box_table_entry_with_wide_value_is_carried_exactly() {
    // One table entry does not fit in 64 bits; the substitution must carry
    // it into the field without truncation.
    let mut composer = StandardComposer::new();
    let v = composer.add_input(Fe::from_u64(319));
    let o = composer.s_box(v);
    assert_eq!(composer.value_of(o), Fe::from_u128(SBOX_BLS[319]));
    assert_eq!(composer.value_of(o), Fe::from_u128(184467440737095516227u128));
}

#[test]
fn from_limbs_rejects_values_at_or_above_the_modulus() {
    let modulus_limbs: [u64; 4] = [
        18446744069414584321,
        6034159408538082302,
        3691218898639771653,
        8353516859464449352,
    ];
    assert!(Fe::from_limbs(modulus_limbs).is_none());
    let max_limbs: [u64; 4] = [u64::MAX, u64::MAX, u64::MAX, u64::MAX];
    assert!(Fe::from_limbs(max_limbs).is_none());
    let modulus_minus_one: [u64; 4] = [
        18446744069414584320,
        6034159408538082302,
        3691218898639771653,
        8353516859464449352,
    ];
    let fe = Fe::from_limbs(modulus_minus_one).unwrap();
    assert_eq!(fe.limbs, modulus_minus_one);
    assert!(Fe::from_limbs([0, 0, 0, 0]).is_some());
}

#[test]
fn arithmetic_gates_compute_weighted_sums_and_products() {
    let mut composer = StandardComposer::new();
    let two = composer.add_input(Fe::from_u64(2));
    let three = composer.add_input(Fe::from_u64(3));
    let four = composer.add_input(Fe::from_u64(4));
    // 1*2*3 + 1*4 + 0 + 0 = 10
    let prod = composer.big_mul(
        Fe::one(),
        two,
        three,
        Some((Fe::one(), four)),
        Fe::zero(),
        Fe::zero(),
    );
    assert_eq!(composer.value_of(prod), Fe::from_u64(10));
    // 5*2 + 1*3 + 0 + 7 + 1 = 21
    let sum = composer.big_add(
        (Fe::from_u64(5), two),
        (Fe::one(), three),
        None,
        Fe::from_u64(7),
        Fe::one(),
    );
    assert_eq!(composer.value_of(sum), Fe::from_u64(21));
    // 1*2 + (p - 1)*1 = p + 1, which reduces to 1 in the field
    let one_var = composer.add_input(Fe::one());
    let wrapped = composer.big_add(
        (Fe::one(), two),
        (Fe::minus_one(), one_var),
        None,
        Fe::zero(),
        Fe::zero(),
    );
    assert_eq!(composer.value_of(wrapped), Fe::one());
    assert!(composer.check_circuit_satisfied());
}

#[test]
fn checker_rejects_an_unsatisfied_constant_constraint() {
    let mut composer = StandardComposer::new();
    let five = composer.add_input(Fe::from_u64(5));
    composer.constrain_to_constant(five, Fe::from_u64(6), Fe::zero());
    assert!(!composer.check_circuit_satisfied());
}

#[test]
fn checker_rejects_an_unsatisfied_range_gate() {
    let mut composer = StandardComposer::new();
    let v = composer.add_input(Fe::from_u64(700));
    composer.range_gate(v, 10);
    assert!(!composer.check_circuit_satisfied());
    let mut ok_composer = StandardComposer::new();
    let w = ok_composer.add_input(Fe::from_u64(5));
    ok_composer.range_gate(w, 10);
    assert!(ok_composer.check_circuit_satisfied());
}

#[test]
fn checker_rejects_a_wrong_substitution_witness() {
    let mut composer = StandardComposer::new();
    let input = composer.add_input(Fe::zero());
    let wrong = composer.add_input(Fe::zero());
    composer.lookup_gate(input, wrong);
    assert!(!composer.check_circuit_satisfied());
}
