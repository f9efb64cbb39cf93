//! The Bar gadget exercised as a whole circuit: build, run, and check every
//! emitted constraint against the witness assignment the gadgets produced.
use zelbet::{bar_gadget, Fe, StandardComposer};

#[test]
fn test_new_bar() {
    let mut composer = StandardComposer::new();
    let one = composer.add_input(Fe::one());
    // check that the output is what we expected (in Montgomery)
    let output = composer.big_add(
        (Fe::one(), one),
        (Fe::one(), one),
        Some((Fe::minus_one(), one)),
        Fe::zero(),
        Fe::zero(),
    );
    composer.constrain_to_constant(output, Fe::one(), Fe::zero());
    println!("first circuit is {:?}", composer.circuit_size());
    bar_gadget(&mut composer, one);
    println!("second circuit is {:?}", composer.circuit_size());
    let res = composer.check_circuit_satisfied();
    assert!(res);
}

#[test]
fn test_bar() {
    let mut composer = StandardComposer::new();
    let one = composer.add_input(Fe::one());
    let _output = bar_gadget(&mut composer, one);
    println!("circuit is {:?}", composer.circuit_size());
    // one gate pinning the zero witness, then the Bar gadget's 162
    assert_eq!(composer.circuit_size(), 163);
    let res = composer.check_circuit_satisfied();
    assert!(res);
}

#[test]
fn print_test() {
    let composer = &mut StandardComposer::new();
    let one = composer.add_input(Fe::one());
    let output = bar_gadget(composer, one);
    println!("output is {:?}", output);
}

#[test]
fn bar_fixed_vector() {
    // Input 1 must reproduce the previously-published output, bit for bit,
    // in the internal (Montgomery) encoding of the field crate.
    let mut composer = StandardComposer::new();
    let one = composer.add_input(Fe::one());
    let output = bar_gadget(&mut composer, one);
    let out_fe = composer.value_of(output);
    let mont = dusk_bls12_381::BlsScalar::from_raw(out_fe.limbs);
    assert_eq!(
        mont.0,
        [
            2921300856332839541,
            8943181998193365483,
            12554333934768435622,
            1625679107374292725,
        ]
    );
    // And the canonical encoding must match the same value.
    assert_eq!(
        out_fe.limbs,
        [
            13492033701253526638,
            5320592447692869419,
            4667364227751516833,
            184813865863948427,
        ]
    );
}

#[test]
fn bar_deterministic_across_fresh_circuits() {
    let x = Fe::from_u128(987654321987654321987654321u128);
    let mut c1 = StandardComposer::new();
    let v1 = c1.add_input(x);
    let o1 = bar_gadget(&mut c1, v1);
    let r1 = c1.value_of(o1);

    let mut c2 = StandardComposer::new();
    let v2 = c2.add_input(x);
    let o2 = bar_gadget(&mut c2, v2);
    let r2 = c2.value_of(o2);

    assert_eq!(r1, r2);
    assert!(c1.check_circuit_satisfied());
    assert!(c2.check_circuit_satisfied());
}

#[test]
fn bar_on_larger_input() {
    // bar over a 127-bit input, checked against an independently computed
    // value of the decompose-substitute-recompose pipeline.
    let x = Fe::from_u128(12345678901234567890123456789012345678u128);
    let mut composer = StandardComposer::new();
    let v = composer.add_input(x);
    let output = bar_gadget(&mut composer, v);
    let out_fe = composer.value_of(output);
    assert_eq!(
        out_fe.limbs,
        [
            9701348102261264950,
            9099215286174177101,
            4667364227751516837,
            184813865863948427,
        ]
    );
    assert!(composer.check_circuit_satisfied());
}
