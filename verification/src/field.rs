//! The scalar field of BLS12-381, seen through its canonical (reduced)
//! representation: four little-endian 64-bit limbs whose value lies below the
//! field modulus. The modular arithmetic itself is done by the
//! `dusk_bls12_381` and `bigint` crates behind the trusted items at the end of
//! this file; everything else is verified against the limb value.
use vstd::arithmetic::div_mod::{
    lemma_fundamental_div_mod, lemma_fundamental_div_mod_converse, lemma_small_mod,
};
use vstd::prelude::*;

verus! {

/// The order of the BLS12-381 scalar field.
pub open spec fn field_modulus() -> nat {
    0x73eda753299d7d483339d80809a1d80553bda402fffe5bfeffffffff00000001nat
}

/// The integer denoted by four little-endian base-2^64 limbs.
pub open spec fn limbs_val(l: [u64; 4]) -> nat {
    l[0] as nat + l[1] as nat * 0x10000000000000000nat + l[2] as nat
        * 0x100000000000000000000000000000000nat + l[3] as nat
        * 0x1000000000000000000000000000000000000000000000000nat
}

/// A field element in canonical (reduced) form.
#[derive(Clone, Copy, PartialEq, Eq, Debug)]
pub struct Fe {
    pub limbs: [u64; 4],
}

impl Fe {
    /// The integer this element denotes.
    pub open spec fn val(self) -> nat {
        limbs_val(self.limbs)
    }

    /// Canonical form: the value is a proper residue.
    pub open spec fn wf(self) -> bool {
        self.val() < field_modulus()
    }

    pub fn zero() -> (r: Fe)
        ensures
            r.val() == 0,
            r.wf(),
    {
        Fe { limbs: [0, 0, 0, 0] }
    }

    pub fn one() -> (r: Fe)
        ensures
            r.val() == 1,
            r.wf(),
    {
        Fe { limbs: [1, 0, 0, 0] }
    }

    /// The additive inverse of one, used as a weight of minus one in gates.
    pub fn minus_one() -> (r: Fe)
        ensures
            r.val() == field_modulus() - 1,
            r.wf(),
    {
        Fe {
            limbs: [
                0xffffffff00000000,
                0x53bda402fffe5bfe,
                0x3339d80809a1d805,
                0x73eda753299d7d48,
            ],
        }
    }

    pub fn from_u64(v: u64) -> (r: Fe)
        ensures
            r.val() == v,
            r.wf(),
    {
        Fe { limbs: [v, 0, 0, 0] }
    }

    pub fn from_u128(v: u128) -> (r: Fe)
        ensures
            r.val() == v,
            r.wf(),
    {
        let lo: u64 = (v & 0xffff_ffff_ffff_ffff) as u64;
        let hi: u64 = (v >> 64) as u64;
        proof {
            assert(v == (v & 0xffff_ffff_ffff_ffff) + (v >> 64) * 0x10000000000000000
                && (v & 0xffff_ffff_ffff_ffff) < 0x10000000000000000 && (v >> 64)
                < 0x10000000000000000) by (bit_vector);
        }
        Fe { limbs: [lo, hi, 0, 0] }
    }

    /// Accept four limbs as a field element exactly when they are a proper
    /// residue; reject a value at or above the modulus.
    pub fn from_limbs(l: [u64; 4]) -> (r: Option<Fe>)
        ensures
            match r {
                Some(fe) => fe.limbs == l && fe.wf(),
                None => limbs_val(l) >= field_modulus(),
            },
    {
        let below: bool = if l[3] != 0x73eda753299d7d48 {
            l[3] < 0x73eda753299d7d48
        } else if l[2] != 0x3339d80809a1d805 {
            l[2] < 0x3339d80809a1d805
        } else if l[1] != 0x53bda402fffe5bfe {
            l[1] < 0x53bda402fffe5bfe
        } else {
            l[0] < 0xffffffff00000001
        };
        proof {
            lemma_lex_below(l);
        }
        if below {
            Some(Fe { limbs: l })
        } else {
            None
        }
    }
}

/// Lexicographic comparison of limbs, highest first, decides the order of the
/// denoted values against the modulus.
proof fn lemma_lex_below(l: [u64; 4])
    ensures
        limbs_val(l) < field_modulus() <==> (if l[3] != 0x73eda753299d7d48 {
            l[3] < 0x73eda753299d7d48
        } else if l[2] != 0x3339d80809a1d805 {
            l[2] < 0x3339d80809a1d805
        } else if l[1] != 0x53bda402fffe5bfe {
            l[1] < 0x53bda402fffe5bfe
        } else {
            (l[0] < 0xffffffff00000001)
        }),
{
    assert(l[0] as nat + l[1] as nat * 0x10000000000000000nat < 0x100000000000000000000000000000000nat);
    assert(l[0] as nat + l[1] as nat * 0x10000000000000000nat + l[2] as nat
        * 0x100000000000000000000000000000000nat
        < 0x1000000000000000000000000000000000000000000000000nat);
}

/// A value below 2^64 sits entirely in the lowest limb.
pub proof fn lemma_small_limbs(l: [u64; 4])
    requires
        limbs_val(l) < 0x10000000000000000nat,
    ensures
        l[1] == 0 && l[2] == 0 && l[3] == 0,
        limbs_val(l) == l[0],
{
}

/// Limbs are determined by the value they denote.
pub proof fn lemma_limbs_val_injective(a: [u64; 4], b: [u64; 4])
    requires
        limbs_val(a) == limbs_val(b),
    ensures
        a[0] == b[0] && a[1] == b[1] && a[2] == b[2] && a[3] == b[3],
{
    let m: int = 0x10000000000000000;
    lemma_limb_split(a);
    lemma_limb_split(b);
    let ra: int = a[1] + a[2] * m + a[3] * m * m;
    let rb: int = b[1] + b[2] * m + b[3] * m * m;
    lemma_fundamental_div_mod_converse(limbs_val(a) as int, m, ra, a[0] as int);
    lemma_fundamental_div_mod_converse(limbs_val(b) as int, m, rb, b[0] as int);
    assert(a[0] == b[0] && ra == rb);
    lemma_fundamental_div_mod_converse(ra, m, a[2] + a[3] * m, a[1] as int);
    lemma_fundamental_div_mod_converse(rb, m, b[2] + b[3] * m, b[1] as int);
    assert(a[1] == b[1] && a[2] + a[3] * m == b[2] + b[3] * m);
    lemma_fundamental_div_mod_converse(a[2] + a[3] * m, m, a[3] as int, a[2] as int);
    lemma_fundamental_div_mod_converse(b[2] + b[3] * m, m, b[3] as int, b[2] as int);
}

/// Regroup the limb value around the lowest limb.
proof fn lemma_limb_split(a: [u64; 4])
    ensures
        limbs_val(a) == a[0] + (a[1] + a[2] * 0x10000000000000000
            + a[3] * 0x10000000000000000 * 0x10000000000000000) * 0x10000000000000000,
{
    let m: int = 0x10000000000000000;
    assert((a[1] + a[2] * m + a[3] * m * m) * m == a[1] * m + a[2] * m * m + a[3] * m * m * m)
        by (nonlinear_arith);
}

/// Exact multiplication in the field: the canonical representative of the
/// product of two limb values.
///
/// Relies on `dusk_bls12_381::BlsScalar`: `from_raw` takes little-endian
/// limbs to the congruent field element, `*` multiplies in the scalar field,
/// and `to_bytes` returns the canonical little-endian byte representation.
#[verifier::external_body]
pub(crate) fn fe_mul_limbs(a: [u64; 4], b: [u64; 4]) -> (r: [u64; 4])
    ensures
        limbs_val(r) == (limbs_val(a) * limbs_val(b)) % field_modulus(),
{
    let s = dusk_bls12_381::BlsScalar::from_raw(a) * dusk_bls12_381::BlsScalar::from_raw(b);
    let by = s.to_bytes();
    let mut r = [0u64; 4];
    for i in 0..4 {
        r[i] = u64::from_le_bytes(by[i * 8..(i + 1) * 8].try_into().unwrap());
    }
    r
}

/// Exact addition in the field: the canonical representative of the sum of
/// two limb values.
///
/// Relies on `dusk_bls12_381::BlsScalar`: `from_raw` takes little-endian
/// limbs to the congruent field element, `+` adds in the scalar field, and
/// `to_bytes` returns the canonical little-endian byte representation.
#[verifier::external_body]
pub(crate) fn fe_add_limbs(a: [u64; 4], b: [u64; 4]) -> (r: [u64; 4])
    ensures
        limbs_val(r) == (limbs_val(a) + limbs_val(b)) % field_modulus(),
{
    let s = dusk_bls12_381::BlsScalar::from_raw(a) + dusk_bls12_381::BlsScalar::from_raw(b);
    let by = s.to_bytes();
    let mut r = [0u64; 4];
    for i in 0..4 {
        r[i] = u64::from_le_bytes(by[i * 8..(i + 1) * 8].try_into().unwrap());
    }
    r
}

/// The remainder of a 256-bit value by a one-limb divisor.
///
/// Relies on `bigint::U256`'s `%` (bitwise long division); it asserts that
/// the divisor is nonzero, which the precondition guarantees. The divisor
/// fits one limb, so the remainder does too.
#[verifier::external_body]
pub(crate) fn u256_rem_u64(a: [u64; 4], d: u64) -> (r: u64)
    requires
        d > 0,
    ensures
        r as nat == limbs_val(a) % (d as nat),
{
    (bigint::U256(a) % bigint::U256([d, 0, 0, 0])).0[0]
}

/// The difference of a 256-bit value and a one-limb value that does not
/// exceed it.
///
/// Relies on `bigint::U256`'s `-`, which panics on underflow; the
/// precondition rules that out.
#[verifier::external_body]
pub(crate) fn u256_sub_u64(a: [u64; 4], b: u64) -> (r: [u64; 4])
    requires
        b as nat <= limbs_val(a),
    ensures
        limbs_val(r) == limbs_val(a) - b as nat,
{
    (bigint::U256(a) - bigint::U256([b, 0, 0, 0])).0
}

/// Verified face of `fe_mul_limbs` on field elements.
pub(crate) fn fe_mul(a: &Fe, b: &Fe) -> (r: Fe)
    ensures
        r.val() == (a.val() * b.val()) % field_modulus(),
        r.wf(),
{
    Fe { limbs: fe_mul_limbs(a.limbs, b.limbs) }
}

/// Verified face of `fe_add_limbs` on field elements.
pub(crate) fn fe_add(a: &Fe, b: &Fe) -> (r: Fe)
    ensures
        r.val() == (a.val() + b.val()) % field_modulus(),
        r.wf(),
{
    Fe { limbs: fe_add_limbs(a.limbs, b.limbs) }
}

/// Equality of field elements, decided limb by limb; agrees with equality of
/// the denoted values because limbs are determined by the value.
pub fn fe_eq(a: &Fe, b: &Fe) -> (r: bool)
    ensures
        r == (a.val() == b.val()),
{
    let r = a.limbs[0] == b.limbs[0] && a.limbs[1] == b.limbs[1] && a.limbs[2] == b.limbs[2]
        && a.limbs[3] == b.limbs[3];
    proof {
        if !r && a.val() == b.val() {
            lemma_limbs_val_injective(a.limbs, b.limbs);
        }
    }
    r
}

} // verus!
