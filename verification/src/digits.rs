//! The mixed-radix number system behind the Bar function: what the 27 digits
//! of a field value are, how they recompose, and the facts that make the
//! decomposition gadget sound — every digit is within its radix bound and the
//! Horner fold restores the input exactly.
use crate::field::field_modulus;
use crate::tables::{
    inv_val, lemma_cap_covers_field, lemma_radix_inverse, lemma_radix_range, radix, radix_cap,
    sbox_spec,
};
use vstd::arithmetic::div_mod::{
    lemma_div_nonincreasing, lemma_fundamental_div_mod, lemma_mod_bound, lemma_mul_mod_noop_right,
    lemma_multiply_divide_lt, lemma_small_mod,
};
use vstd::arithmetic::mul::lemma_mul_is_associative;
use vstd::prelude::*;

verus! {

/// The intermediate value left after the first k division steps: the input
/// divided by the first k radix moduli.
pub open spec fn residue(v: nat, k: int) -> nat
    decreases k when k >= 0
{
    if k <= 0 {
        v
    } else {
        residue(v, k - 1) / radix(k - 1)
    }
}

/// Digit k of the mixed-radix decomposition: the remainder of the k-th
/// intermediate value, except the last digit, which is the final quotient.
pub open spec fn digit(v: nat, k: int) -> nat {
    if k < 26 {
        residue(v, k) % radix(k)
    } else {
        residue(v, 26)
    }
}

/// All 27 digits of a field value, in production order.
pub open spec fn digits_of(v: nat) -> Seq<nat> {
    Seq::new(27, |k: int| digit(v, k))
}

/// Exact Horner recomposition of a digit sequence from position k on:
/// the deeper digits scaled by this position's radix, plus this digit.
pub open spec fn horner(ds: Seq<nat>, k: int) -> nat
    decreases 27 - k when k <= 26
{
    if k >= 26 {
        ds[26]
    } else {
        horner(ds, k + 1) * radix(k) + ds[k]
    }
}

/// The weighted mixed-radix recomposition of a full digit sequence.
pub open spec fn recompose(ds: Seq<nat>) -> nat {
    horner(ds, 0)
}

/// Horner recomposition as the circuit gates perform it: reduced into the
/// field at every fold.
pub open spec fn horner_mod(ds: Seq<nat>, k: int) -> nat
    decreases 27 - k when k <= 26
{
    if k >= 26 {
        ds[26] % field_modulus()
    } else {
        (horner_mod(ds, k + 1) * radix(k) + ds[k]) % field_modulus()
    }
}

/// The digits of a field value after each has passed the substitution box.
pub open spec fn sub_digits_of(v: nat) -> Seq<nat> {
    Seq::new(27, |k: int| sbox_spec(digit(v, k)))
}

/// The Bar function on field values: decompose, substitute every digit,
/// recompose in the field.
pub open spec fn bar_value(v: nat) -> nat {
    horner_mod(sub_digits_of(v), 0)
}

/// Each intermediate value stays within the product of the radix moduli
/// still to come, and never grows.
pub proof fn lemma_residue_bound(v: nat, k: int)
    requires
        v < field_modulus(),
        0 <= k <= 26,
    ensures
        residue(v, k) < radix_cap(k),
        residue(v, k) <= v,
    decreases k,
{
    if k == 0 {
        lemma_cap_covers_field();
    } else {
        lemma_residue_bound(v, k - 1);
        lemma_radix_range(k - 1);
        assert(radix_cap(k - 1) == radix(k - 1) * radix_cap(k));
        lemma_multiply_divide_lt(residue(v, k - 1) as int, radix(k - 1) as int, radix_cap(k) as int);
        lemma_div_nonincreasing(residue(v, k - 1) as int, radix(k - 1) as int);
    }
}

/// Every digit is strictly below its radix modulus.
pub proof fn lemma_digit_bound(v: nat, k: int)
    requires
        v < field_modulus(),
        0 <= k < 27,
    ensures
        digit(v, k) < radix(k),
        digit(v, k) < field_modulus(),
{
    lemma_radix_range(k);
    if k < 26 {
        lemma_mod_bound(residue(v, k) as int, radix(k) as int);
        assert(digit(v, k) == residue(v, k) % radix(k));
    } else {
        lemma_residue_bound(v, 26);
        assert(radix_cap(26) == radix(26) * radix_cap(27));
        assert(radix_cap(27) == 1);
        assert(digit(v, 26) == residue(v, 26));
        assert(residue(v, 26) < radix(26) * 1);
    }
}

/// Horner recomposition from position k restores the k-th intermediate
/// value: each fold undoes one division step.
#[verifier::spinoff_prover]
#[verifier::rlimit(50)]
pub proof fn lemma_recompose_residue(v: nat, k: int)
    requires
        v < field_modulus(),
        0 <= k <= 26,
    ensures
        horner(digits_of(v), k) == residue(v, k),
    decreases 26 - k,
{
    let ds = digits_of(v);
    if k == 26 {
        assert(ds[26] == digit(v, 26));
        assert(horner(ds, 26) == ds[26]);
        assert(horner(ds, 26) == residue(v, 26));
    } else {
        lemma_recompose_residue(v, k + 1);
        lemma_radix_range(k);
        assert(horner(ds, k) == horner(ds, k + 1) * radix(k) + ds[k]);
        assert(ds[k] == digit(v, k));
        assert(digit(v, k) == residue(v, k) % radix(k));
        assert(residue(v, k + 1) == residue(v, k) / radix(k));
        lemma_fundamental_div_mod(residue(v, k) as int, radix(k) as int);
        assert(residue(v, k) == radix(k) * (residue(v, k) / radix(k)) + residue(v, k) % radix(k));
        let q = residue(v, k) / radix(k);
        assert(horner(ds, k + 1) == q);
        vstd::arithmetic::mul::lemma_mul_is_commutative(q as int, radix(k) as int);
        assert(q * radix(k) == radix(k) * q);
        assert(horner(ds, k + 1) * radix(k) == q * radix(k));
        assert(horner(ds, k) == residue(v, k));
    }
}

/// Recomposing the 27 digits of any representable field value, with no
/// substitution, reproduces that value exactly.
pub proof fn lemma_decomposition_roundtrip(v: nat)
    requires
        v < field_modulus(),
    ensures
        recompose(digits_of(v)) == v,
{
    lemma_recompose_residue(v, 0);
}

/// Subtracting the remainder and multiplying by the table inverse performs
/// one exact division step inside the field.
pub proof fn lemma_mul_inv_division(x: nat, k: int)
    requires
        x < field_modulus(),
        0 <= k < 26,
    ensures
        ((x - x % radix(k)) * inv_val(k)) % (field_modulus() as int) == x / radix(k),
{
    let s = radix(k) as int;
    let q = (x as int) / s;
    let m = (x as int) % s;
    lemma_radix_range(k);
    lemma_fundamental_div_mod(x as int, s);
    lemma_mod_bound(x as int, s);
    assert(x - m == s * q);
    lemma_mul_is_associative(s, q, inv_val(k) as int);
    lemma_mul_is_associative(q, s, inv_val(k) as int);
    assert((s * q) * inv_val(k) == q * (s * inv_val(k)));
    lemma_mul_mod_noop_right(q, s * inv_val(k), field_modulus() as int);
    lemma_radix_inverse(k);
    let p = field_modulus() as int;
    assert(((x - x % radix(k)) * inv_val(k)) == (s * q) * inv_val(k));
    assert(((s * q) * inv_val(k)) % p == (q * (s * inv_val(k))) % p);
    assert((s * inv_val(k)) % p == 1);
    assert((q * (s * inv_val(k))) % p == (q * 1) % p);
    assert((q * 1) % p == q % p);
    lemma_div_nonincreasing(x as int, s);
    vstd::arithmetic::div_mod::lemma_div_pos_is_pos(x as int, s);
    lemma_small_mod(q as nat, field_modulus());
    assert(q % p == q);
}

/// One division step read backwards: an intermediate value is its radix
/// times the next intermediate value, plus this position's digit.
pub proof fn lemma_residue_unfold(v: nat, j: int)
    requires
        v < field_modulus(),
        0 <= j < 26,
    ensures
        residue(v, j) == radix(j) * residue(v, j + 1) + digit(v, j),
        residue(v, j) < field_modulus(),
        residue(v, j + 1) < field_modulus(),
{
    lemma_radix_range(j);
    lemma_fundamental_div_mod(residue(v, j) as int, radix(j) as int);
    assert(residue(v, j + 1) == residue(v, j) / radix(j));
    lemma_residue_bound(v, j);
    lemma_residue_bound(v, j + 1);
}

} // verus!
