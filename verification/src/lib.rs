//! The Bar substitution sub-circuit of a field-based hash permutation over
//! the BLS12-381 scalar field: mixed-radix decomposition of a field element
//! into 27 unevenly-based digits, a fixed per-digit substitution box, and
//! Horner recomposition back into one field element — each gadget emitting
//! the arithmetic-circuit constraints that bind its computation.
//!
//! Every digit is range-checked below its (bumped-to-even) radix modulus and
//! every substitution is bound to its input through a lookup gate, so the
//! emitted circuit enforces the decomposition identity rather than trusting
//! the witness generator.

pub mod composer;
pub mod digits;
pub mod field;
pub mod gadgets;
pub mod tables;

pub use composer::{Gate, StandardComposer, Variable};
pub use field::Fe;
pub use gadgets::bar_gadget;
pub use tables::{DECOMPOSITION_S_I, INVERSES_S_I, SBOX_BLS};
