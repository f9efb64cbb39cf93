//! The three gadgets of the Bar function: mixed-radix decomposition into 27
//! digits, per-digit substitution through the fixed table, and Horner
//! recomposition — each emitting the constraints that bind its witnesses.
use crate::composer::{extends, gate_uses, lemma_extends_trans, Gate, StandardComposer, Variable};
use crate::digits::{
    bar_value, digit, digits_of, horner_mod, lemma_decomposition_roundtrip, lemma_digit_bound,
    lemma_mul_inv_division, lemma_residue_unfold, recompose, residue, sub_digits_of,
};
use crate::field::{
    fe_mul_limbs, field_modulus, lemma_small_limbs, limbs_val, u256_rem_u64, u256_sub_u64, Fe,
};
use crate::tables::{
    bumped_radix, inv_val, lemma_inv_entry, lemma_radix_entry, lemma_radix_range, radix, sbox_spec,
    sbox_value, DECOMPOSITION_S_I, INVERSES_S_I,
};
use vstd::arithmetic::div_mod::{
    lemma_div_nonincreasing, lemma_mod_decreases, lemma_mod_multiples_basic, lemma_small_mod,
};
use vstd::arithmetic::mul::lemma_mul_is_distributive_add_other_way;
use vstd::prelude::*;

verus! {

/// One exact division step of the decomposition, off-circuit: the remainder
/// is this position's digit, the quotient — obtained by multiplying with the
/// precomputed field inverse — is the next intermediate value.
fn division_step(intermediate: &Fe, k: usize, s_k: u64, inv_limbs: [u64; 4]) -> (res: (u64, Fe))
    requires
        intermediate.wf(),
        k < 26,
        s_k as nat == radix(k as int),
        limbs_val(inv_limbs) == inv_val(k as int),
    ensures
        res.0 as nat == intermediate.val() % radix(k as int),
        res.1.val() == intermediate.val() / radix(k as int),
        res.1.wf(),
{
    proof {
        lemma_radix_range(k as int);
    }
    let r64 = u256_rem_u64(intermediate.limbs, s_k);
    proof {
        lemma_mod_decreases(intermediate.val(), s_k as nat);
    }
    let diff = u256_sub_u64(intermediate.limbs, r64);
    proof {
        lemma_mul_inv_division(intermediate.val(), k as int);
        lemma_div_nonincreasing(intermediate.val() as int, radix(k as int) as int);
    }
    let q_limbs = fe_mul_limbs(diff, inv_limbs);
    (r64, Fe { limbs: q_limbs })
}

/// The three gates the decomposition emits for digit k, starting at gate
/// index g0 + 3k over witnesses allocated from index nv0 + 3k: a range check
/// bounding the digit witness below the bumped radix, and a weighted
/// difference with the parallel internal-encoding witness, pinned to zero.
pub open spec fn digit_block_ok(
    c: StandardComposer,
    g0: int,
    nv0: int,
    nib: Variable,
    k: int,
    dval: nat,
) -> bool {
    &&& nib.idx == nv0 + 3 * k
    &&& (c.gates@[g0 + 3 * k] matches Gate::Range { a, bound } && a == nib && bound as nat
        == bumped_radix(k))
    &&& (c.gates@[g0 + 3 * k + 1] matches Gate::Add {
        q_a,
        a: g_a,
        q_b,
        b: g_b,
        q_d,
        d,
        konst,
        out: g_out,
    } && g_a == nib && g_b.idx == nv0 + 3 * k + 1 && c.value_spec(g_b) == dval && q_a.val() == 1
        && q_b.val() == field_modulus() - 1 && q_d.val() == 0 && konst.val() == 0 && (c.gates@[g0
        + 3 * k + 2] matches Gate::ConstEq { a: c_a, val } && c_a == g_out && val.val() == 0))
}

/// Prefixes compose.
proof fn lemma_prefix_trans(gs1: Seq<Gate>, gs2: Seq<Gate>, gs3: Seq<Gate>)
    requires
        gs1.is_prefix_of(gs2),
        gs2.is_prefix_of(gs3),
    ensures
        gs1.is_prefix_of(gs3),
{
    assert(gs1 =~= gs3.subrange(0, gs1.len() as int));
}

/// A digit's gate block survives any later append-only growth of the
/// composer.
proof fn lemma_digit_block_preserved(
    c1: StandardComposer,
    c2: StandardComposer,
    g0: int,
    nv0: int,
    nib: Variable,
    k: int,
    dval: nat,
)
    requires
        digit_block_ok(c1, g0, nv0, nib, k, dval),
        0 <= g0,
        0 <= k,
        0 <= nv0,
        g0 + 3 * k + 2 < c1.gates@.len(),
        nv0 + 3 * k + 1 < c1.num_vars(),
        extends(c2, c1),
        c1.gates@.is_prefix_of(c2.gates@),
    ensures
        digit_block_ok(c2, g0, nv0, nib, k, dval),
{
    lemma_prefix_index(c1.gates@, c2.gates@, g0 + 3 * k);
    lemma_prefix_index(c1.gates@, c2.gates@, g0 + 3 * k + 1);
    lemma_prefix_index(c1.gates@, c2.gates@, g0 + 3 * k + 2);
    match c1.gates@[g0 + 3 * k + 1] {
        Gate::Add { q_a, a, q_b, b, q_d, d, konst, out } => {
            assert(c1.var_ok(b));
            assert(c2.value_spec(b) == c1.value_spec(b));
        },
        _ => {},
    }
}

/// An entry of a prefix is the same entry of the longer sequence.
proof fn lemma_prefix_index(gs1: Seq<Gate>, gs2: Seq<Gate>, i: int)
    requires
        gs1.is_prefix_of(gs2),
        0 <= i < gs1.len(),
    ensures
        gs2[i] == gs1[i],
{
    assert(gs1 =~= gs2.subrange(0, gs1.len() as int));
}

/// A value plus its product with the modulus minus one is a multiple of the
/// modulus, so the constrained difference of the two digit encodings is zero.
proof fn lemma_difference_vanishes(dv: nat, qb: nat)
    requires
        qb == field_modulus() - 1,
    ensures
        (1 * dv + qb * dv + 0 + 0 + 0) % field_modulus() == 0,
{
    let p = field_modulus() as int;
    lemma_mul_is_distributive_add_other_way(dv as int, 1, p - 1);
    assert(1 * (dv as int) + (p - 1) * (dv as int) == p * (dv as int));
    lemma_mod_multiples_basic(dv as int, p);
}

impl StandardComposer {
    /// Constrain two witnesses known to hold the same value to be equal:
    /// their weighted difference is allocated and pinned to zero.
    fn bind_encodings(&mut self, n_var: Variable, m_var: Variable)
        requires
            old(self).wf(),
            old(self).var_ok(n_var),
            old(self).var_ok(m_var),
            old(self).value_spec(n_var) == old(self).value_spec(m_var),
        ensures
            final(self).wf(),
            final(self).satisfied() == old(self).satisfied(),
            extends(*final(self), *old(self)),
            final(self).num_vars() == old(self).num_vars() + 1,
            final(self).gates@.len() == old(self).gates@.len() + 2,
            old(self).gates@.is_prefix_of(final(self).gates@),
            (final(self).gates@[old(self).gates@.len() as int] matches Gate::Add {
                q_a,
                a: g_a,
                q_b,
                b: g_b,
                q_d,
                d,
                konst,
                out: g_out,
            } && g_a == n_var && g_b == m_var && q_a.val() == 1 && q_b.val() == field_modulus() - 1
                && q_d.val() == 0 && konst.val() == 0 && (final(self).gates@[(old(self).gates@.len()
                + 1) as int] matches Gate::ConstEq { a: c_a, val } && c_a == g_out && val.val()
                == 0)),
    {
        let ghost pre = *old(self);
        let zero = Fe::zero();
        let d_var = self.big_add(
            (Fe::one(), n_var),
            (Fe::minus_one(), m_var),
            Option::None,
            zero,
            zero,
        );
        let ghost c1 = *self;
        proof {
            lemma_difference_vanishes(pre.value_spec(n_var), (field_modulus() - 1) as nat);
            assert(self.value_spec(d_var) == 0);
        }
        self.constrain_to_constant(d_var, zero, zero);
        proof {
            lemma_small_mod(0, field_modulus());
            lemma_extends_trans(*self, c1, pre);
            lemma_prefix_index(c1.gates@, self.gates@, pre.gates@.len() as int);
            assert(self.gates@[pre.gates@.len() as int] == c1.gates@.last());
            assert(self.gates@[(pre.gates@.len() + 1) as int] == self.gates@.last());
        }
    }

    /// Allocate the two parallel encodings of one digit, range-check the
    /// digit below its bound, and constrain the two encodings to be equal
    /// through a pinned difference.
    fn allocate_digit(&mut self, rem: u64, bound: u64) -> (vars: (Variable, Variable))
        requires
            old(self).wf(),
            (rem as nat) < bound,
        ensures
            final(self).wf(),
            final(self).satisfied() == old(self).satisfied(),
            extends(*final(self), *old(self)),
            final(self).num_vars() == old(self).num_vars() + 3,
            final(self).gates@.len() == old(self).gates@.len() + 3,
            old(self).gates@.is_prefix_of(final(self).gates@),
            final(self).var_ok(vars.0),
            final(self).var_ok(vars.1),
            vars.0.idx == old(self).num_vars(),
            vars.1.idx == old(self).num_vars() + 1,
            final(self).value_spec(vars.0) == rem as nat,
            final(self).value_spec(vars.1) == rem as nat,
            final(self).gates@[old(self).gates@.len() as int] == (Gate::Range {
                a: vars.0,
                bound,
            }),
            (final(self).gates@[(old(self).gates@.len() + 1) as int] matches Gate::Add {
                q_a,
                a: g_a,
                q_b,
                b: g_b,
                q_d,
                d,
                konst,
                out: g_out,
            } && g_a == vars.0 && g_b == vars.1 && q_a.val() == 1 && q_b.val() == field_modulus()
                - 1 && q_d.val() == 0 && konst.val() == 0 && (final(self).gates@[(old(
                self,
            ).gates@.len() + 2) as int] matches Gate::ConstEq { a: c_a, val } && c_a == g_out
                && val.val() == 0)),
    {
        let ghost pre = *old(self);
        let rem_fe = Fe::from_u64(rem);
        let n_var = self.add_input(rem_fe);
        let ghost c1 = *self;
        let m_var = self.add_input(rem_fe);
        let ghost c2 = *self;
        proof {
            lemma_extends_trans(c2, c1, pre);
        }
        self.range_gate(n_var, bound);
        let ghost c3 = *self;
        proof {
            assert(c3.gates@.last() == (Gate::Range { a: n_var, bound }));
        }
        self.bind_encodings(n_var, m_var);
        proof {
            lemma_extends_trans(*self, c3, pre);
            lemma_prefix_index(c3.gates@, self.gates@, pre.gates@.len() as int);
            assert(self.gates@[pre.gates@.len() as int] == (Gate::Range { a: n_var, bound }));
        }
        (n_var, m_var)
    }

    /// One Horner fold in gates: a fresh witness bound to the radix modulus,
    /// then a multiply-and-add gate onto the accumulator.
    fn fold_step(&mut self, acc: Variable, s_k: u64, digit_var: Variable) -> (r: Variable)
        requires
            old(self).wf(),
            old(self).var_ok(acc),
            old(self).var_ok(digit_var),
        ensures
            final(self).wf(),
            final(self).satisfied() == old(self).satisfied(),
            extends(*final(self), *old(self)),
            final(self).num_vars() == old(self).num_vars() + 2,
            final(self).gates@.len() == old(self).gates@.len() + 1,
            old(self).gates@.is_prefix_of(final(self).gates@),
            r.idx == old(self).num_vars() + 1,
            (final(self).gates@.last() matches Gate::Mul {
                q_m,
                a: g_a,
                b: g_b,
                q_d,
                d: g_d,
                konst,
                out: g_out,
            } && q_m.val() == 1 && g_a == acc && g_b.idx == old(self).num_vars()
                && final(self).value_spec(g_b) == s_k as nat && q_d.val() == 1 && g_d == digit_var
                && konst.val() == 0 && g_out == r),
            final(self).var_ok(r),
            final(self).value_spec(r) == (old(self).value_spec(acc) * (s_k as nat) + old(
                self,
            ).value_spec(digit_var)) % field_modulus(),
    {
        let ghost pre = *old(self);
        let s_fe = Fe::from_u64(s_k);
        let s_var = self.add_input(s_fe);
        let ghost c1 = *self;
        let one = Fe::one();
        let zero = Fe::zero();
        let out = self.big_mul(one, acc, s_var, Option::Some((one, digit_var)), zero, zero);
        proof {
            lemma_extends_trans(*self, c1, pre);
            assert(self.value_spec(out) == (pre.value_spec(acc) * (s_k as nat) + pre.value_spec(
                digit_var,
            )) % field_modulus());
        }
        out
    }
}

impl StandardComposer {
    /// Decompose the input into its 27 mixed-radix digits, allocating each
    /// digit as two parallel witnesses (reduced and internal encoding, bound
    /// equal by a constrained difference), range-checking every digit below
    /// its bumped radix, and constraining the weighted recomposition of the
    /// digits to equal the input.
    #[verifier::spinoff_prover]
    #[verifier::rlimit(100)]
    pub fn decomposition_gadget(
        &mut self,
        x: Variable,
        s_i: [u64; 27],
        s_i_inv: [[u64; 4]; 27],
    ) -> (nibbles: [Variable; 27])
        requires
            old(self).wf(),
            old(self).var_ok(x),
            s_i == DECOMPOSITION_S_I,
            s_i_inv == INVERSES_S_I,
        ensures
            final(self).wf(),
            final(self).satisfied() == old(self).satisfied(),
            extends(*final(self), *old(self)),
            final(self).num_vars() == old(self).num_vars() + 133,
            final(self).gates@.len() == old(self).gates@.len() + 108,
            forall|k: int| 0 <= k < 27 ==> final(self).var_ok(#[trigger] nibbles[k]),
            forall|k: int|
                0 <= k < 27 ==> final(self).value_spec(#[trigger] nibbles[k]) == digit(
                    old(self).value_spec(x),
                    k,
                ),
            forall|k: int| 0 <= k < 27 ==> digit(old(self).value_spec(x), k) < radix(k),
            recompose(digits_of(old(self).value_spec(x))) == old(self).value_spec(x),
            old(self).gates@.is_prefix_of(final(self).gates@),
            forall|k: int|
                0 <= k < 27 ==> digit_block_ok(
                    *final(self),
                    old(self).gates@.len() as int,
                    old(self).num_vars() as int,
                    #[trigger] nibbles[k],
                    k,
                    digit(old(self).value_spec(x), k),
                ),
            (final(self).gates@.last() matches Gate::ConstEq { a: c_a, val } && val.val() == old(
                self,
            ).value_spec(x) && final(self).value_spec(c_a) == old(self).value_spec(x)),
    {
        let x_fe = self.value_of(x);
        let ghost v = old(self).value_spec(x);
        proof {
            assert(v < field_modulus());
            lemma_decomposition_roundtrip(v);
            assert forall|k: int| 0 <= k < 27 implies digit(v, k) < radix(k) by {
                lemma_digit_bound(v, k);
            }
        }
        let mut nibbles: [Variable; 27] = [x; 27];
        let mut twins: [Variable; 27] = [x; 27];
        let mut intermediate: Fe = x_fe;
        let mut k: usize = 0;
        while k < 27
            invariant
                0 <= k <= 27,
                self.wf(),
                v < field_modulus(),
                old(self).wf(),
                extends(*self, *old(self)),
                self.satisfied() == old(self).satisfied(),
                self.num_vars() == old(self).num_vars() + 3 * k,
                self.gates@.len() == old(self).gates@.len() + 3 * k,
                intermediate.wf(),
                k <= 26 ==> intermediate.val() == residue(v, k as int),
                s_i == DECOMPOSITION_S_I,
                s_i_inv == INVERSES_S_I,
                old(self).gates@.is_prefix_of(self.gates@),
                forall|j: int|
                    0 <= j < k ==> self.var_ok(#[trigger] nibbles[j]) && self.value_spec(
                        nibbles[j],
                    ) == digit(v, j),
                forall|j: int|
                    0 <= j < k ==> self.var_ok(#[trigger] twins[j]) && self.value_spec(twins[j])
                        == digit(v, j),
                forall|j: int|
                    0 <= j < k ==> digit_block_ok(
                        *self,
                        old(self).gates@.len() as int,
                        old(self).num_vars() as int,
                        #[trigger] nibbles[j],
                        j,
                        digit(v, j),
                    ),
            decreases 27 - k,
        {
            let ghost pre = *self;
            let s_k: u64 = s_i[k];
            proof {
                lemma_radix_entry(k as int);
                lemma_radix_range(k as int);
            }
            let rem: u64;
            if k < 26 {
                proof {
                    lemma_inv_entry(k as int);
                }
                let step = division_step(&intermediate, k, s_k, s_i_inv[k]);
                rem = step.0;
                intermediate = step.1;
                proof {
                    assert(rem as nat == digit(v, k as int));
                    assert(intermediate.val() == residue(v, k as int + 1));
                }
            } else {
                proof {
                    lemma_digit_bound(v, 26);
                    assert(intermediate.val() == digit(v, 26));
                    assert(intermediate.val() < 0x10000000000000000nat);
                    lemma_small_limbs(intermediate.limbs);
                }
                rem = intermediate.limbs[0];
            }
            let bound: u64 = if s_k % 2 == 1 {
                s_k + 1
            } else {
                s_k
            };
            proof {
                lemma_digit_bound(v, k as int);
                assert((rem as nat) < bound);
                assert(bound as nat == bumped_radix(k as int));
            }
            let vars = self.allocate_digit(rem, bound);
            nibbles[k] = vars.0;
            twins[k] = vars.1;
            k += 1;
            proof {
                let g0 = old(self).gates@.len() as int;
                let nv0 = old(self).num_vars() as int;
                lemma_extends_trans(*self, pre, *old(self));
                lemma_prefix_trans(old(self).gates@, pre.gates@, self.gates@);
                assert forall|j: int|
                    0 <= j < k implies self.var_ok(#[trigger] nibbles[j]) && self.value_spec(
                    nibbles[j],
                ) == digit(v, j) by {
                    if j < k - 1 {
                        assert(pre.var_ok(nibbles[j]));
                    }
                }
                assert forall|j: int|
                    0 <= j < k implies self.var_ok(#[trigger] twins[j]) && self.value_spec(
                    twins[j],
                ) == digit(v, j) by {
                    if j < k - 1 {
                        assert(pre.var_ok(twins[j]));
                    }
                }
                assert(digit_block_ok(*self, g0, nv0, nibbles[k - 1], k - 1, digit(v, k - 1)));
                assert forall|j: int|
                    0 <= j < k implies digit_block_ok(
                    *self,
                    g0,
                    nv0,
                    #[trigger] nibbles[j],
                    j,
                    digit(v, j),
                ) by {
                    if j < k - 1 {
                        lemma_digit_block_preserved(
                            pre,
                            *self,
                            g0,
                            nv0,
                            nibbles[j],
                            j,
                            digit(v, j),
                        );
                    }
                }
            }
        }
        let ghost after_digits = *self;
        // Horner recomposition over the internal-encoding digits, most
        // significant pair first, with fresh witnesses for the moduli.
        proof {
            lemma_radix_entry(25);
        }
        let mut acc = self.fold_step(twins[26], s_i[25], twins[25]);
        proof {
            let g0 = old(self).gates@.len() as int;
            let nv0 = old(self).num_vars() as int;
            lemma_extends_trans(*self, after_digits, *old(self));
            lemma_prefix_trans(old(self).gates@, after_digits.gates@, self.gates@);
            lemma_residue_unfold(v, 25);
            lemma_small_mod(residue(v, 25), field_modulus());
            assert(self.value_spec(acc) == residue(v, 25));
            assert forall|j: int|
                0 <= j < 27 implies digit_block_ok(
                *self,
                g0,
                nv0,
                #[trigger] nibbles[j],
                j,
                digit(v, j),
            ) by {
                lemma_digit_block_preserved(after_digits, *self, g0, nv0, nibbles[j], j, digit(v, j));
            }
        }
        let mut k2: usize = 1;
        while k2 < 26
            invariant
                1 <= k2 <= 26,
                self.wf(),
                v < field_modulus(),
                old(self).wf(),
                after_digits.wf(),
                extends(*self, *old(self)),
                extends(*self, after_digits),
                self.satisfied() == old(self).satisfied(),
                self.num_vars() == old(self).num_vars() + 81 + 2 * k2,
                self.gates@.len() == old(self).gates@.len() + 81 + k2,
                old(self).gates@.is_prefix_of(self.gates@),
                self.var_ok(acc),
                self.value_spec(acc) == residue(v, 26 - k2),
                forall|j: int|
                    0 <= j < 27 ==> digit_block_ok(
                        *self,
                        old(self).gates@.len() as int,
                        old(self).num_vars() as int,
                        #[trigger] nibbles[j],
                        j,
                        digit(v, j),
                    ),
                s_i == DECOMPOSITION_S_I,
                forall|j: int|
                    0 <= j < 27 ==> after_digits.var_ok(#[trigger] twins[j])
                        && after_digits.value_spec(twins[j]) == digit(v, j),
            decreases 26 - k2,
        {
            let ghost pre = *self;
            let j: usize = 25 - k2;
            proof {
                lemma_radix_entry(j as int);
                assert(self.var_ok(twins[j as int]));
                assert(self.value_spec(twins[j as int]) == digit(v, j as int));
            }
            acc = self.fold_step(acc, s_i[j], twins[j]);
            proof {
                let g0 = old(self).gates@.len() as int;
                let nv0 = old(self).num_vars() as int;
                assert(s_i[j as int] as nat == radix(j as int));
                assert(self.value_spec(acc) == (residue(v, j as int + 1) * radix(j as int) + digit(
                    v,
                    j as int,
                )) % field_modulus());
                lemma_residue_unfold(v, j as int);
                assert(residue(v, j as int) == radix(j as int) * residue(v, j as int + 1) + digit(
                    v,
                    j as int,
                ));
                lemma_small_mod(residue(v, j as int), field_modulus());
                assert(self.value_spec(acc) == residue(v, j as int));
                lemma_extends_trans(*self, pre, *old(self));
                lemma_extends_trans(*self, pre, after_digits);
                lemma_prefix_trans(old(self).gates@, pre.gates@, self.gates@);
                assert forall|jj: int|
                    0 <= jj < 27 implies digit_block_ok(
                    *self,
                    g0,
                    nv0,
                    #[trigger] nibbles[jj],
                    jj,
                    digit(v, jj),
                ) by {
                    lemma_digit_block_preserved(pre, *self, g0, nv0, nibbles[jj], jj, digit(v, jj));
                }
            }
            k2 += 1;
        }
        let zero = Fe::zero();
        proof {
            assert(self.value_spec(acc) == residue(v, 0));
            assert(residue(v, 0) == v);
            lemma_small_mod(v, field_modulus());
        }
        let ghost before_pin = *self;
        self.constrain_to_constant(acc, x_fe, zero);
        proof {
            let g0 = old(self).gates@.len() as int;
            let nv0 = old(self).num_vars() as int;
            assert(self.satisfied() == old(self).satisfied());
            lemma_extends_trans(*self, before_pin, *old(self));
            lemma_prefix_trans(old(self).gates@, before_pin.gates@, self.gates@);
            assert forall|j: int|
                0 <= j < 27 implies self.var_ok(#[trigger] nibbles[j]) && self.value_spec(
                nibbles[j],
            ) == digit(v, j) by {
                assert(after_digits.var_ok(nibbles[j]));
            }
            assert forall|j: int|
                0 <= j < 27 implies digit_block_ok(
                *self,
                g0,
                nv0,
                #[trigger] nibbles[j],
                j,
                digit(v, j),
            ) by {
                lemma_digit_block_preserved(before_pin, *self, g0, nv0, nibbles[j], j, digit(v, j));
            }
            assert(self.value_spec(acc) == v);
        }
        nibbles
    }
}

impl StandardComposer {
    /// The substitution gadget: allocate a fresh witness bound to the
    /// substitution of the input digit — the table entry below the domain
    /// bound, the digit itself above it — and emit the lookup gate binding
    /// output to input through the table.
    pub fn s_box(&mut self, input: Variable) -> (out: Variable)
        requires
            old(self).wf(),
            old(self).var_ok(input),
        ensures
            final(self).wf(),
            final(self).satisfied() == old(self).satisfied(),
            extends(*final(self), *old(self)),
            final(self).num_vars() == old(self).num_vars() + 1,
            final(self).gates@.len() == old(self).gates@.len() + 1,
            old(self).gates@.is_prefix_of(final(self).gates@),
            final(self).gates@ == old(self).gates@.push((Gate::Lookup { a: input, out })),
            out.idx == old(self).num_vars(),
            out != input,
            final(self).var_ok(out),
            final(self).value_spec(out) == sbox_spec(old(self).value_spec(input)),
    {
        let ghost pre = *old(self);
        let v_fe = self.value_of(input);
        let out_fe = sbox_value(&v_fe);
        let out = self.add_input(out_fe);
        let ghost c1 = *self;
        self.lookup_gate(input, out);
        proof {
            lemma_extends_trans(*self, c1, pre);
        }
        out
    }
}

/// The Bar gadget: decompose the input into 27 digits, substitute every
/// digit independently, and recompose the substituted digits with the same
/// weighted mixed-radix scheme, least-significant digit seeding the fold.
/// The output stays a private witness; no equality-to-constant is applied.
pub fn bar_gadget(composer: &mut StandardComposer, input: Variable) -> (out: Variable)
    requires
        old(composer).wf(),
        old(composer).var_ok(input),
    ensures
        final(composer).wf(),
        final(composer).satisfied() == old(composer).satisfied(),
        extends(*final(composer), *old(composer)),
        final(composer).num_vars() == old(composer).num_vars() + 213,
        final(composer).gates@.len() == old(composer).gates@.len() + 162,
        old(composer).gates@.is_prefix_of(final(composer).gates@),
        final(composer).var_ok(out),
        out.idx == final(composer).num_vars() - 1,
        out.idx >= old(composer).num_vars(),
        forall|i: int|
            0 <= i < final(composer).gates@.len() ==> (match (#[trigger] final(composer).gates@[i]) {
                Gate::ConstEq { a, val } => a.idx < out.idx,
                _ => true,
            }),
        final(composer).value_spec(out) == bar_value(old(composer).value_spec(input)),
{
    let ghost v = old(composer).value_spec(input);
    proof {
        assert(v < field_modulus());
    }
    let mut tuple = composer.decomposition_gadget(input, DECOMPOSITION_S_I, INVERSES_S_I);
    let ghost after_dec = *composer;
    let ghost ds = sub_digits_of(v);
    let mut k: usize = 0;
    while k < 27
        invariant
            0 <= k <= 27,
            composer.wf(),
            v < field_modulus(),
            old(composer).wf(),
            extends(*composer, *old(composer)),
            composer.satisfied() == old(composer).satisfied(),
            composer.num_vars() == old(composer).num_vars() + 133 + k,
            composer.gates@.len() == old(composer).gates@.len() + 108 + k,
            after_dec.wf(),
            after_dec.num_vars() == old(composer).num_vars() + 133,
            after_dec.gates@.len() == old(composer).gates@.len() + 108,
            old(composer).gates@.is_prefix_of(composer.gates@),
            after_dec.gates@.is_prefix_of(composer.gates@),
            forall|i: int|
                after_dec.gates@.len() <= i < composer.gates@.len() ==> (match #[trigger] composer.gates@[i] {
                    Gate::ConstEq { a, val } => false,
                    _ => true,
                }),
            ds == sub_digits_of(v),
            forall|j: int|
                0 <= j < k ==> composer.var_ok(#[trigger] tuple[j]) && composer.value_spec(
                    tuple[j],
                ) == ds[j],
            forall|j: int|
                k <= j < 27 ==> composer.var_ok(#[trigger] tuple[j]) && composer.value_spec(
                    tuple[j],
                ) == digit(v, j),
        decreases 27 - k,
    {
        let ghost pre = *composer;
        let subbed = composer.s_box(tuple[k]);
        tuple[k] = subbed;
        k += 1;
        proof {
            lemma_extends_trans(*composer, pre, *old(composer));
            lemma_prefix_trans(old(composer).gates@, pre.gates@, composer.gates@);
            lemma_prefix_trans(after_dec.gates@, pre.gates@, composer.gates@);
            assert forall|i: int|
                after_dec.gates@.len() <= i < composer.gates@.len() implies (match #[trigger] composer.gates@[i] {
                Gate::ConstEq { a, val } => false,
                _ => true,
            }) by {
                if i < pre.gates@.len() {
                    assert(composer.gates@[i] == pre.gates@[i]);
                } else {
                    assert(composer.gates@[i] == composer.gates@.last());
                }
            }
            assert(ds[k - 1] == sbox_spec(digit(v, k - 1)));
            assert forall|j: int|
                0 <= j < k implies composer.var_ok(#[trigger] tuple[j]) && composer.value_spec(
                tuple[j],
            ) == ds[j] by {
                if j < k - 1 {
                    assert(pre.var_ok(tuple[j]));
                }
            }
            assert forall|j: int|
                k <= j < 27 implies composer.var_ok(#[trigger] tuple[j]) && composer.value_spec(
                tuple[j],
            ) == digit(v, j) by {
                assert(pre.var_ok(tuple[j]));
            }
        }
    }
    let ghost after_sub = *composer;
    let one = Fe::one();
    let zero = Fe::zero();
    let zv = composer.zero_var;
    // Seed the fold with the least-significant substituted digit.
    let mut acc = composer.big_add((one, zv), (one, tuple[26]), Option::None, zero, zero);
    proof {
        lemma_extends_trans(*composer, after_sub, *old(composer));
        lemma_prefix_trans(old(composer).gates@, after_sub.gates@, composer.gates@);
        lemma_prefix_trans(after_dec.gates@, after_sub.gates@, composer.gates@);
        assert forall|i: int|
            after_dec.gates@.len() <= i < composer.gates@.len() implies (match #[trigger] composer.gates@[i] {
            Gate::ConstEq { a, val } => false,
            _ => true,
        }) by {
            if i < after_sub.gates@.len() {
                assert(composer.gates@[i] == after_sub.gates@[i]);
            } else {
                assert(composer.gates@[i] == composer.gates@.last());
            }
        }
        assert(composer.value_spec(acc) == (1nat * 0 + 1nat * ds[26] + 0 + 0 + 0)
            % field_modulus());
        assert(composer.value_spec(acc) == horner_mod(ds, 26));
    }
    let mut k2: usize = 0;
    while k2 < 26
        invariant
            0 <= k2 <= 26,
            composer.wf(),
            v < field_modulus(),
            old(composer).wf(),
            after_sub.wf(),
            extends(*composer, *old(composer)),
            extends(*composer, after_sub),
            composer.satisfied() == old(composer).satisfied(),
            composer.num_vars() == old(composer).num_vars() + 161 + 2 * k2,
            composer.gates@.len() == old(composer).gates@.len() + 136 + k2,
            after_dec.wf(),
            after_dec.num_vars() == old(composer).num_vars() + 133,
            after_dec.gates@.len() == old(composer).gates@.len() + 108,
            old(composer).gates@.is_prefix_of(composer.gates@),
            after_dec.gates@.is_prefix_of(composer.gates@),
            forall|i: int|
                after_dec.gates@.len() <= i < composer.gates@.len() ==> (match #[trigger] composer.gates@[i] {
                    Gate::ConstEq { a, val } => false,
                    _ => true,
                }),
            acc.idx == composer.num_vars() - 1,
            composer.var_ok(acc),
            ds == sub_digits_of(v),
            composer.value_spec(acc) == horner_mod(ds, 26 - k2),
            forall|j: int|
                0 <= j < 27 ==> after_sub.var_ok(#[trigger] tuple[j]) && after_sub.value_spec(
                    tuple[j],
                ) == ds[j],
        decreases 26 - k2,
    {
        let ghost pre = *composer;
        let j: usize = 25 - k2;
        let s_k: u64 = DECOMPOSITION_S_I[j];
        proof {
            lemma_radix_entry(j as int);
            assert(composer.var_ok(tuple[j as int]));
            assert(composer.value_spec(tuple[j as int]) == ds[j as int]);
        }
        acc = composer.fold_step(acc, s_k, tuple[j]);
        proof {
            assert(composer.value_spec(acc) == (horner_mod(ds, j as int + 1) * radix(j as int)
                + ds[j as int]) % field_modulus());
            assert(composer.value_spec(acc) == horner_mod(ds, j as int));
            lemma_extends_trans(*composer, pre, *old(composer));
            lemma_extends_trans(*composer, pre, after_sub);
            lemma_prefix_trans(old(composer).gates@, pre.gates@, composer.gates@);
            lemma_prefix_trans(after_dec.gates@, pre.gates@, composer.gates@);
            assert forall|i: int|
                after_dec.gates@.len() <= i < composer.gates@.len() implies (match #[trigger] composer.gates@[i] {
                Gate::ConstEq { a, val } => false,
                _ => true,
            }) by {
                if i < pre.gates@.len() {
                    assert(composer.gates@[i] == pre.gates@[i]);
                } else {
                    assert(composer.gates@[i] == composer.gates@.last());
                }
            }
        }
        k2 += 1;
    }
    proof {
        assert(composer.value_spec(acc) == horner_mod(ds, 0));
        assert(composer.value_spec(acc) == bar_value(v));
        assert(acc.idx == composer.num_vars() - 1);
        assert forall|i: int|
            0 <= i < composer.gates@.len() implies (match #[trigger] composer.gates@[i] {
            Gate::ConstEq { a, val } => a.idx < acc.idx,
            _ => true,
        }) by {
            if i < after_dec.gates@.len() {
                lemma_prefix_index(after_dec.gates@, composer.gates@, i);
                assert(gate_uses(after_dec.gates@[i], after_dec.num_vars()));
            }
        }
    }
    acc
}

} // verus!
