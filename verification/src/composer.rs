//! A model of the arithmetic-circuit constraint system the gadgets build
//! against: a witness vector of field values and the gates emitted over it.
//! Each gate-emitting method says exactly how satisfiability of the whole
//! circuit changes, states which gate it appended, and never removes or
//! rewrites earlier gates, so a gadget can show both that the witnesses it
//! assigns satisfy every constraint it emits and which constraints those are.
use crate::field::{fe_add, fe_eq, fe_mul, field_modulus, Fe};
use crate::tables::{sbox_spec, sbox_value};
use vstd::arithmetic::div_mod::{
    lemma_add_mod_noop, lemma_add_mod_noop_right, lemma_mul_mod_noop_left,
};
use vstd::prelude::*;

verus! {

/// An opaque handle into the constraint system's witness vector.
#[derive(Clone, Copy, PartialEq, Eq, Structural, Debug)]
pub struct Variable {
    pub idx: usize,
}

/// One emitted constraint: a weighted addition, a weighted multiplication,
/// an equality to a public constant, a range check, or a substitution-box
/// lookup.
#[derive(Clone, Copy)]
pub enum Gate {
    Add { q_a: Fe, a: Variable, q_b: Fe, b: Variable, q_d: Fe, d: Variable, konst: Fe, out: Variable },
    Mul { q_m: Fe, a: Variable, b: Variable, q_d: Fe, d: Variable, konst: Fe, out: Variable },
    ConstEq { a: Variable, val: Fe },
    Range { a: Variable, bound: u64 },
    Lookup { a: Variable, out: Variable },
}

/// Every handle a gate mentions lies inside a witness vector of length n.
pub open spec fn gate_uses(g: Gate, n: nat) -> bool {
    match g {
        Gate::Add { q_a, a, q_b, b, q_d, d, konst, out } => a.idx < n && b.idx < n && d.idx < n
            && out.idx < n,
        Gate::Mul { q_m, a, b, q_d, d, konst, out } => a.idx < n && b.idx < n && d.idx < n
            && out.idx < n,
        Gate::ConstEq { a, val } => a.idx < n,
        Gate::Range { a, bound } => a.idx < n,
        Gate::Lookup { a, out } => a.idx < n && out.idx < n,
    }
}

/// The algebraic relation a gate imposes on a witness assignment.
pub open spec fn gate_holds(g: Gate, w: Seq<nat>) -> bool {
    match g {
        Gate::Add { q_a, a, q_b, b, q_d, d, konst, out } => w[out.idx as int] == (q_a.val() * w[
            a.idx as int
        ] + q_b.val() * w[b.idx as int] + q_d.val() * w[d.idx as int] + konst.val())
            % field_modulus(),
        Gate::Mul { q_m, a, b, q_d, d, konst, out } => w[out.idx as int] == (q_m.val() * w[
            a.idx as int
        ] * w[b.idx as int] + q_d.val() * w[d.idx as int] + konst.val()) % field_modulus(),
        Gate::ConstEq { a, val } => w[a.idx as int] == val.val(),
        Gate::Range { a, bound } => w[a.idx as int] < bound,
        Gate::Lookup { a, out } => w[out.idx as int] == sbox_spec(w[a.idx as int]),
    }
}

/// The witness values denoted by a vector of field elements.
pub open spec fn wit_of(vars: Seq<Fe>) -> Seq<nat> {
    vars.map(|i: int, fe: Fe| fe.val())
}

/// The constraint system under construction.
pub struct StandardComposer {
    pub variables: Vec<Fe>,
    pub gates: Vec<Gate>,
    pub zero_var: Variable,
}

impl StandardComposer {
    /// The current witness assignment, as the values the handles denote.
    pub open spec fn wit(self) -> Seq<nat> {
        wit_of(self.variables@)
    }

    pub open spec fn num_vars(self) -> nat {
        self.variables@.len()
    }

    /// The handle points into the witness vector.
    pub open spec fn var_ok(self, v: Variable) -> bool {
        v.idx < self.num_vars()
    }

    /// The value assigned to a handle.
    pub open spec fn value_spec(self, v: Variable) -> nat {
        self.wit()[v.idx as int]
    }

    /// Well-formed: every witness is a proper residue, every gate points
    /// inside the witness vector, and the distinguished zero handle denotes
    /// zero.
    pub open spec fn wf(self) -> bool {
        &&& (forall|i: int|
            0 <= i < self.variables@.len() ==> (#[trigger] self.variables@[i]).wf())
        &&& (forall|i: int|
            0 <= i < self.gates@.len() ==> gate_uses(#[trigger] self.gates@[i], self.num_vars()))
        &&& self.zero_var.idx < self.num_vars()
        &&& self.value_spec(self.zero_var) == 0
    }

    /// Every emitted gate holds of the current witness assignment.
    pub open spec fn satisfied(self) -> bool {
        forall|i: int|
            0 <= i < self.gates@.len() ==> gate_holds(#[trigger] self.gates@[i], self.wit())
    }
}

/// The later composer state grew out of the earlier one: old handles keep
/// their values and the zero handle is unchanged.
pub open spec fn extends(post: StandardComposer, pre: StandardComposer) -> bool {
    &&& pre.wit().is_prefix_of(post.wit())
    &&& post.zero_var == pre.zero_var
    &&& (forall|v: Variable| pre.var_ok(v) ==> post.value_spec(v) == pre.value_spec(v))
}

/// Appending a witness does not change what any gate over the old witnesses
/// means.
proof fn lemma_gate_holds_prefix(g: Gate, w1: Seq<nat>, w2: Seq<nat>)
    requires
        gate_uses(g, w1.len()),
        w1.is_prefix_of(w2),
    ensures
        gate_holds(g, w2) == gate_holds(g, w1),
{
}

/// Appending witnesses changes the meaning of no emitted gate, so
/// satisfiability is unchanged.
proof fn lemma_satisfied_extend(gates: Seq<Gate>, w1: Seq<nat>, w2: Seq<nat>)
    requires
        forall|i: int| 0 <= i < gates.len() ==> gate_uses(#[trigger] gates[i], w1.len()),
        w1.is_prefix_of(w2),
    ensures
        (forall|i: int| 0 <= i < gates.len() ==> gate_holds(#[trigger] gates[i], w2)) == (forall|
            i: int,
        | 0 <= i < gates.len() ==> gate_holds(#[trigger] gates[i], w1)),
{
    assert forall|i: int| 0 <= i < gates.len() implies (gate_holds(#[trigger] gates[i], w2)
        == gate_holds(gates[i], w1)) by {
        lemma_gate_holds_prefix(gates[i], w1, w2);
    }
}

/// A sequence is a prefix of itself with one element appended.
proof fn lemma_gates_push_prefix(gs: Seq<Gate>, g: Gate)
    ensures
        gs.is_prefix_of(gs.push(g)),
{
    assert(gs =~= gs.push(g).subrange(0, gs.len() as int));
}

/// Mapping values over a grown vector grows the witness sequence in step.
proof fn lemma_wit_push(vars: Seq<Fe>, fe: Fe)
    ensures
        wit_of(vars.push(fe)) == wit_of(vars).push(fe.val()),
{
    assert(wit_of(vars.push(fe)) =~= wit_of(vars).push(fe.val()));
}

impl StandardComposer {
    /// A fresh, satisfied circuit holding only the zero witness, pinned to
    /// zero by a constant gate.
    pub fn new() -> (c: StandardComposer)
        ensures
            c.wf(),
            c.satisfied(),
            c.num_vars() == 1,
            c.gates@.len() == 1,
            c.value_spec(c.zero_var) == 0,
            (c.gates@[0] matches Gate::ConstEq { a, val } && a == c.zero_var && val.val() == 0),
    {
        let zero = Fe::zero();
        let mut variables: Vec<Fe> = Vec::new();
        variables.push(zero);
        let zero_var = Variable { idx: 0 };
        let mut gates: Vec<Gate> = Vec::new();
        gates.push(Gate::ConstEq { a: zero_var, val: zero });
        let c = StandardComposer { variables, gates, zero_var };
        proof {
            assert(c.wit() =~= seq![zero.val()]);
        }
        c
    }

    /// Read the value a handle denotes; drives witness assignment, never
    /// constraint checking.
    pub fn value_of(&self, v: Variable) -> (r: Fe)
        requires
            self.wf(),
            self.var_ok(v),
        ensures
            r.val() == self.value_spec(v),
            r.wf(),
    {
        self.variables[v.idx]
    }

    /// The number of gates emitted so far.
    pub fn circuit_size(&self) -> (n: usize)
        ensures
            n == self.gates@.len(),
    {
        self.gates.len()
    }

    /// Allocate a fresh witness with the given value; emits no gate.
    pub fn add_input(&mut self, value: Fe) -> (v: Variable)
        requires
            old(self).wf(),
            value.wf(),
        ensures
            final(self).wf(),
            final(self).satisfied() == old(self).satisfied(),
            extends(*final(self), *old(self)),
            final(self).num_vars() == old(self).num_vars() + 1,
            v.idx == old(self).num_vars(),
            final(self).value_spec(v) == value.val(),
            final(self).gates@ == old(self).gates@,
    {
        let v = Variable { idx: self.variables.len() };
        self.variables.push(value);
        proof {
            lemma_wit_push(old(self).variables@, value);
            lemma_satisfied_extend(self.gates@, old(self).wit(), self.wit());
        }
        v
    }
}

/// A gate keeps pointing inside a witness vector that only grew.
proof fn lemma_gate_uses_mono(g: Gate, n1: nat, n2: nat)
    requires
        gate_uses(g, n1),
        n1 <= n2,
    ensures
        gate_uses(g, n2),
{
}

/// Appending a gate adds exactly its own condition to satisfiability.
proof fn lemma_satisfied_push(gates: Seq<Gate>, g: Gate, w: Seq<nat>)
    ensures
        (forall|i: int|
            0 <= i < gates.push(g).len() ==> gate_holds(#[trigger] gates.push(g)[i], w)) == ((
        forall|i: int| 0 <= i < gates.len() ==> gate_holds(#[trigger] gates[i], w)) && gate_holds(
            g,
            w,
        )),
{
    if forall|i: int| 0 <= i < gates.push(g).len() ==> gate_holds(#[trigger] gates.push(g)[i], w) {
        assert forall|i: int| 0 <= i < gates.len() implies gate_holds(#[trigger] gates[i], w) by {
            assert(gates.push(g)[i] == gates[i]);
        }
        assert(gates.push(g)[gates.len() as int] == g);
    } else if (forall|i: int| 0 <= i < gates.len() ==> gate_holds(#[trigger] gates[i], w))
        && gate_holds(g, w) {
        assert forall|i: int| 0 <= i < gates.push(g).len() implies gate_holds(
            #[trigger] gates.push(g)[i],
            w,
        ) by {
            if i < gates.len() {
                assert(gates.push(g)[i] == gates[i]);
            } else {
                assert(gates.push(g)[i] == g);
            }
        }
    }
}

/// Folding four summands through the field one pair at a time equals one
/// reduction of the whole sum.
proof fn lemma_mod_add_chain(x1: int, x2: int, x3: int, x4: int)
    requires
        x1 >= 0,
        x2 >= 0,
        x3 >= 0,
        x4 >= 0,
    ensures
        ((x1 % (field_modulus() as int) + x2 % (field_modulus() as int)) % (field_modulus() as int)
            + (x3 % (field_modulus() as int) + x4 % (field_modulus() as int)) % (
        field_modulus() as int)) % (field_modulus() as int) == (x1 + x2 + x3 + x4) % (
        field_modulus() as int),
{
    let p = field_modulus() as int;
    lemma_add_mod_noop(x1, x2, p);
    lemma_add_mod_noop(x3, x4, p);
    lemma_add_mod_noop(x1 + x2, x3 + x4, p);
}

impl StandardComposer {
    /// Weighted-addition gate: allocates and returns a witness constrained
    /// to the weighted sum of up to three inputs plus the constants.
    pub fn big_add(
        &mut self,
        q_l_a: (Fe, Variable),
        q_r_b: (Fe, Variable),
        q_4_d: Option<(Fe, Variable)>,
        q_c: Fe,
        pi: Fe,
    ) -> (out: Variable)
        requires
            old(self).wf(),
            old(self).var_ok(q_l_a.1),
            old(self).var_ok(q_r_b.1),
            (match q_4_d {
                Some(qd) => old(self).var_ok(qd.1),
                None => true,
            }),
        ensures
            final(self).wf(),
            final(self).satisfied() == old(self).satisfied(),
            extends(*final(self), *old(self)),
            final(self).num_vars() == old(self).num_vars() + 1,
            final(self).gates@.len() == old(self).gates@.len() + 1,
            old(self).gates@.is_prefix_of(final(self).gates@),
            (final(self).gates@.last() matches Gate::Add { q_a, a, q_b, b, q_d, d, konst, out: g_out }
                && q_a == q_l_a.0 && a == q_l_a.1 && q_b == q_r_b.0 && b == q_r_b.1 && (match q_4_d {
                Some(qd) => q_d == qd.0 && d == qd.1,
                None => q_d.val() == 0 && d == old(self).zero_var,
            }) && konst.val() == (q_c.val() + pi.val()) % field_modulus() && g_out == out),
            out.idx == old(self).num_vars(),
            final(self).var_ok(out),
            final(self).value_spec(out) == (q_l_a.0.val() * old(self).value_spec(q_l_a.1)
                + q_r_b.0.val() * old(self).value_spec(q_r_b.1) + (match q_4_d {
                Some(qd) => qd.0.val() * old(self).value_spec(qd.1),
                None => 0nat,
            }) + q_c.val() + pi.val()) % field_modulus(),
    {
        let (q_a, a) = q_l_a;
        let (q_b, b) = q_r_b;
        let (q_d, d) = match q_4_d {
            Some(qd) => qd,
            None => (Fe::zero(), self.zero_var),
        };
        let wa = self.value_of(a);
        let wb = self.value_of(b);
        let wd = self.value_of(d);
        let t1 = fe_mul(&q_a, &wa);
        let t2 = fe_mul(&q_b, &wb);
        let t3 = fe_mul(&q_d, &wd);
        let konst = fe_add(&q_c, &pi);
        let s1 = fe_add(&t1, &t2);
        let s2 = fe_add(&t3, &konst);
        let out_fe = fe_add(&s1, &s2);
        let out = Variable { idx: self.variables.len() };
        let g = Gate::Add { q_a, a, q_b, b, q_d, d, konst, out };
        proof {
            let p = field_modulus() as int;
            let x1 = (q_a.val() * old(self).value_spec(a)) as int;
            let x2 = (q_b.val() * old(self).value_spec(b)) as int;
            let x3 = (q_d.val() * old(self).value_spec(d)) as int;
            let x4 = (q_c.val() + pi.val()) as int;
            lemma_mod_add_chain(x1, x2, x3, x4);
            lemma_add_mod_noop_right(x1 + x2 + x3, x4, p);
            assert(out_fe.val() == (x1 + x2 + x3 + x4) % p);
            assert((x1 + x2 + x3 + konst.val()) % p == (x1 + x2 + x3 + x4) % p);
        }
        self.variables.push(out_fe);
        self.gates.push(g);
        proof {
            lemma_wit_push(old(self).variables@, out_fe);
            assert forall|i: int| 0 <= i < self.gates@.len() implies gate_uses(
                #[trigger] self.gates@[i],
                self.num_vars(),
            ) by {
                if i < old(self).gates@.len() {
                    assert(self.gates@[i] == old(self).gates@[i]);
                    lemma_gate_uses_mono(old(self).gates@[i], old(self).num_vars(), self.num_vars());
                } else {
                    assert(self.gates@[i] == g);
                }
            }
            lemma_satisfied_extend(old(self).gates@, old(self).wit(), self.wit());
            lemma_satisfied_push(old(self).gates@, g, self.wit());
            lemma_gates_push_prefix(old(self).gates@, g);
            assert(gate_holds(g, self.wit()));
        }
        out
    }

    /// Weighted-multiplication gate: allocates and returns a witness
    /// constrained to the weighted product of two inputs, plus an optional
    /// weighted third input and the constants.
    pub fn big_mul(
        &mut self,
        q_m: Fe,
        a: Variable,
        b: Variable,
        q_4_d: Option<(Fe, Variable)>,
        q_c: Fe,
        pi: Fe,
    ) -> (out: Variable)
        requires
            old(self).wf(),
            old(self).var_ok(a),
            old(self).var_ok(b),
            (match q_4_d {
                Some(qd) => old(self).var_ok(qd.1),
                None => true,
            }),
        ensures
            final(self).wf(),
            final(self).satisfied() == old(self).satisfied(),
            extends(*final(self), *old(self)),
            final(self).num_vars() == old(self).num_vars() + 1,
            final(self).gates@.len() == old(self).gates@.len() + 1,
            old(self).gates@.is_prefix_of(final(self).gates@),
            (final(self).gates@.last() matches Gate::Mul { q_m: g_qm, a: g_a, b: g_b, q_d, d, konst, out: g_out }
                && g_qm == q_m && g_a == a && g_b == b && (match q_4_d {
                Some(qd) => q_d == qd.0 && d == qd.1,
                None => q_d.val() == 0 && d == old(self).zero_var,
            }) && konst.val() == (q_c.val() + pi.val()) % field_modulus() && g_out == out),
            out.idx == old(self).num_vars(),
            final(self).var_ok(out),
            final(self).value_spec(out) == (q_m.val() * old(self).value_spec(a) * old(
                self,
            ).value_spec(b) + (match q_4_d {
                Some(qd) => qd.0.val() * old(self).value_spec(qd.1),
                None => 0nat,
            }) + q_c.val() + pi.val()) % field_modulus(),
    {
        let (q_d, d) = match q_4_d {
            Some(qd) => qd,
            None => (Fe::zero(), self.zero_var),
        };
        let wa = self.value_of(a);
        let wb = self.value_of(b);
        let wd = self.value_of(d);
        let t0 = fe_mul(&fe_mul(&q_m, &wa), &wb);
        let t3 = fe_mul(&q_d, &wd);
        let konst = fe_add(&q_c, &pi);
        let s2 = fe_add(&t3, &konst);
        let out_fe = fe_add(&t0, &s2);
        let out = Variable { idx: self.variables.len() };
        let g = Gate::Mul { q_m, a, b, q_d, d, konst, out };
        proof {
            let p = field_modulus() as int;
            let x1 = (q_m.val() * old(self).value_spec(a) * old(self).value_spec(b)) as int;
            let x3 = (q_d.val() * old(self).value_spec(d)) as int;
            let x4 = (q_c.val() + pi.val()) as int;
            lemma_mul_mod_noop_left(
                (q_m.val() * old(self).value_spec(a)) as int,
                old(self).value_spec(b) as int,
                p,
            );
            assert(t0.val() == x1 % p);
            lemma_add_mod_noop(x3, x4, p);
            lemma_add_mod_noop(x1, x3 + x4, p);
            assert(out_fe.val() == (x1 + x3 + x4) % p);
            lemma_add_mod_noop_right(x1 + x3, x4, p);
            assert((x1 + x3 + konst.val()) % p == (x1 + x3 + x4) % p);
        }
        self.variables.push(out_fe);
        self.gates.push(g);
        proof {
            lemma_wit_push(old(self).variables@, out_fe);
            assert forall|i: int| 0 <= i < self.gates@.len() implies gate_uses(
                #[trigger] self.gates@[i],
                self.num_vars(),
            ) by {
                if i < old(self).gates@.len() {
                    assert(self.gates@[i] == old(self).gates@[i]);
                    lemma_gate_uses_mono(old(self).gates@[i], old(self).num_vars(), self.num_vars());
                } else {
                    assert(self.gates@[i] == g);
                }
            }
            lemma_satisfied_extend(old(self).gates@, old(self).wit(), self.wit());
            lemma_satisfied_push(old(self).gates@, g, self.wit());
            lemma_gates_push_prefix(old(self).gates@, g);
            assert(gate_holds(g, self.wit()));
        }
        out
    }

    /// Pin a witness to a public constant: the circuit stays satisfiable
    /// exactly when the witness already denotes that constant.
    pub fn constrain_to_constant(&mut self, a: Variable, constant: Fe, pi: Fe)
        requires
            old(self).wf(),
            old(self).var_ok(a),
        ensures
            final(self).wf(),
            extends(*final(self), *old(self)),
            final(self).num_vars() == old(self).num_vars(),
            final(self).wit() == old(self).wit(),
            final(self).gates@.len() == old(self).gates@.len() + 1,
            old(self).gates@.is_prefix_of(final(self).gates@),
            (final(self).gates@.last() matches Gate::ConstEq { a: g_a, val } && g_a == a
                && val.val() == (constant.val() + pi.val()) % field_modulus()),
            final(self).satisfied() == (old(self).satisfied() && old(self).value_spec(a) == (
            constant.val() + pi.val()) % field_modulus()),
    {
        let val = fe_add(&constant, &pi);
        let g = Gate::ConstEq { a, val };
        self.gates.push(g);
        proof {
            assert forall|i: int| 0 <= i < self.gates@.len() implies gate_uses(
                #[trigger] self.gates@[i],
                self.num_vars(),
            ) by {
                if i < old(self).gates@.len() {
                    assert(self.gates@[i] == old(self).gates@[i]);
                } else {
                    assert(self.gates@[i] == g);
                }
            }
            lemma_satisfied_push(old(self).gates@, g, self.wit());
            lemma_gates_push_prefix(old(self).gates@, g);
        }
    }

    /// Range-check gate: the circuit stays satisfiable exactly when the
    /// witness denotes a value strictly below the bound.
    pub fn range_gate(&mut self, a: Variable, bound: u64)
        requires
            old(self).wf(),
            old(self).var_ok(a),
        ensures
            final(self).wf(),
            extends(*final(self), *old(self)),
            final(self).num_vars() == old(self).num_vars(),
            final(self).wit() == old(self).wit(),
            final(self).gates@.len() == old(self).gates@.len() + 1,
            final(self).gates@ == old(self).gates@.push((Gate::Range { a, bound })),
            old(self).gates@.is_prefix_of(final(self).gates@),
            final(self).satisfied() == (old(self).satisfied() && old(self).value_spec(a) < bound),
    {
        let g = Gate::Range { a, bound };
        self.gates.push(g);
        proof {
            assert forall|i: int| 0 <= i < self.gates@.len() implies gate_uses(
                #[trigger] self.gates@[i],
                self.num_vars(),
            ) by {
                if i < old(self).gates@.len() {
                    assert(self.gates@[i] == old(self).gates@[i]);
                } else {
                    assert(self.gates@[i] == g);
                }
            }
            lemma_satisfied_push(old(self).gates@, g, self.wit());
            lemma_gates_push_prefix(old(self).gates@, g);
        }
    }

    /// Substitution-lookup gate: the circuit stays satisfiable exactly when
    /// the output witness is the substitution of the input witness.
    pub fn lookup_gate(&mut self, a: Variable, out: Variable)
        requires
            old(self).wf(),
            old(self).var_ok(a),
            old(self).var_ok(out),
        ensures
            final(self).wf(),
            extends(*final(self), *old(self)),
            final(self).num_vars() == old(self).num_vars(),
            final(self).wit() == old(self).wit(),
            final(self).gates@.len() == old(self).gates@.len() + 1,
            final(self).gates@ == old(self).gates@.push((Gate::Lookup { a, out })),
            old(self).gates@.is_prefix_of(final(self).gates@),
            final(self).satisfied() == (old(self).satisfied() && old(self).value_spec(out)
                == sbox_spec(old(self).value_spec(a))),
    {
        let g = Gate::Lookup { a, out };
        self.gates.push(g);
        proof {
            assert forall|i: int| 0 <= i < self.gates@.len() implies gate_uses(
                #[trigger] self.gates@[i],
                self.num_vars(),
            ) by {
                if i < old(self).gates@.len() {
                    assert(self.gates@[i] == old(self).gates@[i]);
                } else {
                    assert(self.gates@[i] == g);
                }
            }
            lemma_satisfied_push(old(self).gates@, g, self.wit());
            lemma_gates_push_prefix(old(self).gates@, g);
        }
    }
}

impl StandardComposer {
    /// Whether a weighted-addition gate holds of the current assignment.
    #[verifier::spinoff_prover]
    #[verifier::rlimit(100)]
    fn eval_add_gate(&self, q_a: Fe, a: Variable, q_b: Fe, b: Variable, q_d: Fe, d: Variable, konst: Fe, out: Variable) -> (r: bool)
        requires
            self.wf(),
            gate_uses((Gate::Add { q_a, a, q_b, b, q_d, d, konst, out }), self.num_vars()),
        ensures
            r == gate_holds((Gate::Add { q_a, a, q_b, b, q_d, d, konst, out }), self.wit()),
    {
        let wa = self.value_of(a);
        let wb = self.value_of(b);
        let wd = self.value_of(d);
        let t1 = fe_mul(&q_a, &wa);
        let t2 = fe_mul(&q_b, &wb);
        let t3 = fe_mul(&q_d, &wd);
        let s1 = fe_add(&t1, &t2);
        let s2 = fe_add(&t3, &konst);
        let e = fe_add(&s1, &s2);
        let wo = self.value_of(out);
        proof {
            let p = field_modulus() as int;
            let x1 = (q_a.val() * self.value_spec(a)) as int;
            let x2 = (q_b.val() * self.value_spec(b)) as int;
            let x3 = (q_d.val() * self.value_spec(d)) as int;
            let x4 = konst.val() as int;
            lemma_add_mod_noop(x1, x2, p);
            lemma_add_mod_noop_right(x4, x3, p);
            assert(s2.val() == (x3 + x4) % p);
            lemma_add_mod_noop(x1 + x2, x3 + x4, p);
            assert(e.val() == (x1 + x2 + x3 + x4) % p);
        }
        fe_eq(&e, &wo)
    }

    /// Whether a weighted-multiplication gate holds of the current
    /// assignment.
    #[verifier::spinoff_prover]
    #[verifier::rlimit(100)]
    fn eval_mul_gate(&self, q_m: Fe, a: Variable, b: Variable, q_d: Fe, d: Variable, konst: Fe, out: Variable) -> (r: bool)
        requires
            self.wf(),
            gate_uses((Gate::Mul { q_m, a, b, q_d, d, konst, out }), self.num_vars()),
        ensures
            r == gate_holds((Gate::Mul { q_m, a, b, q_d, d, konst, out }), self.wit()),
    {
        let wa = self.value_of(a);
        let wb = self.value_of(b);
        let wd = self.value_of(d);
        let t0 = fe_mul(&fe_mul(&q_m, &wa), &wb);
        let t3 = fe_mul(&q_d, &wd);
        let s2 = fe_add(&t3, &konst);
        let e = fe_add(&t0, &s2);
        let wo = self.value_of(out);
        proof {
            let p = field_modulus() as int;
            let x1 = (q_m.val() * self.value_spec(a) * self.value_spec(b)) as int;
            let x3 = (q_d.val() * self.value_spec(d)) as int;
            let x4 = konst.val() as int;
            lemma_mul_mod_noop_left(
                (q_m.val() * self.value_spec(a)) as int,
                self.value_spec(b) as int,
                p,
            );
            assert(t0.val() == x1 % p);
            lemma_add_mod_noop_right(x4, x3, p);
            assert(s2.val() == (x3 + x4) % p);
            lemma_add_mod_noop(x1, x3 + x4, p);
            assert(e.val() == (x1 + x3 + x4) % p);
        }
        fe_eq(&e, &wo)
    }

    /// Whether a range-check gate holds of the current assignment.
    fn eval_range_gate(&self, a: Variable, bound: u64) -> (r: bool)
        requires
            self.wf(),
            gate_uses((Gate::Range { a, bound }), self.num_vars()),
        ensures
            r == gate_holds((Gate::Range { a, bound }), self.wit()),
    {
        let wa = self.value_of(a);
        let r = wa.limbs[1] == 0 && wa.limbs[2] == 0 && wa.limbs[3] == 0 && wa.limbs[0] < bound;
        proof {
            if wa.limbs[1] == 0 && wa.limbs[2] == 0 && wa.limbs[3] == 0 {
                assert(wa.val() == wa.limbs[0]);
            } else {
                assert(wa.val() >= 0x10000000000000000nat);
            }
        }
        r
    }

    /// Whether one gate holds of the current witness assignment.
    fn eval_gate(&self, g: &Gate) -> (r: bool)
        requires
            self.wf(),
            gate_uses(*g, self.num_vars()),
        ensures
            r == gate_holds(*g, self.wit()),
    {
        match *g {
            Gate::Add { q_a, a, q_b, b, q_d, d, konst, out } => self.eval_add_gate(
                q_a,
                a,
                q_b,
                b,
                q_d,
                d,
                konst,
                out,
            ),
            Gate::Mul { q_m, a, b, q_d, d, konst, out } => self.eval_mul_gate(
                q_m,
                a,
                b,
                q_d,
                d,
                konst,
                out,
            ),
            Gate::ConstEq { a, val } => {
                let wa = self.value_of(a);
                fe_eq(&wa, &val)
            },
            Gate::Range { a, bound } => self.eval_range_gate(a, bound),
            Gate::Lookup { a, out } => {
                let wa = self.value_of(a);
                let wo = self.value_of(out);
                let s = sbox_value(&wa);
                fe_eq(&s, &wo)
            },
        }
    }

    /// Check every emitted gate against the witness assignment the gadgets
    /// produced.
    pub fn check_circuit_satisfied(&self) -> (r: bool)
        requires
            self.wf(),
        ensures
            r == self.satisfied(),
    {
        let n = self.gates.len();
        let mut i: usize = 0;
        let mut ok = true;
        while i < n
            invariant
                self.wf(),
                n == self.gates@.len(),
                0 <= i <= n,
                ok == (forall|j: int|
                    0 <= j < i ==> gate_holds(#[trigger] self.gates@[j], self.wit())),
            decreases n - i,
        {
            let g = self.gates[i];
            let h = self.eval_gate(&g);
            proof {
                if ok && h {
                    assert forall|j: int| 0 <= j < i + 1 implies gate_holds(
                        #[trigger] self.gates@[j],
                        self.wit(),
                    ) by {}
                } else if !h {
                    assert(!gate_holds(self.gates@[i as int], self.wit()));
                }
            }
            ok = ok && h;
            i += 1;
        }
        ok
    }
}

/// Growing out of a state is transitive.
pub proof fn lemma_extends_trans(c3: StandardComposer, c2: StandardComposer, c1: StandardComposer)
    requires
        extends(c3, c2),
        extends(c2, c1),
    ensures
        extends(c3, c1),
{
    assert(c1.wit() =~= c3.wit().subrange(0, c1.wit().len() as int));
}

} // verus!
