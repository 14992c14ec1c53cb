//! The field in which the circuits compute: the integers modulo the prime
//! `0x40000000000000000000000000000000224698fc094cf91b992d30ed00000001`.
use vstd::prelude::*;
use ethers_core::types::U256;
use halo2_proofs::pasta::group::ff::PrimeField;
use halo2_proofs::pasta::Fp;
use crate::word::{limb_base, Word};

verus! {

/// The prime.
pub open spec fn field_modulus() -> nat {
    0x4000_0000_0000_0000_0000_0000_0000_0000_2246_98fc_094c_f91b_992d_30ed_0000_0001nat
}

/// An element of the field: a number below the prime.
#[derive(Clone, Copy, Debug, PartialEq, Eq)]
pub struct Fe {
    number: Word,
}

/// The product of `a` and `b` in the field, by `Fp`'s `*`. The numbers go in
/// by `Fp::from_raw` and the product comes out by `to_repr`, which gives the
/// number below the prime as 32 bytes, the least significant first;
/// `U256::from_little_endian` turns the bytes into limbs.
#[verifier::external_body]
fn field_product(a: Word, b: Word) -> (r: Word)
    requires
        a.value() < field_modulus(),
        b.value() < field_modulus(),
    ensures
        r.value() == (a.value() * b.value()) % field_modulus(),
{
    let x = Fp::from_raw([a.l0, a.l1, a.l2, a.l3]) * Fp::from_raw([b.l0, b.l1, b.l2, b.l3]);
    let n = U256::from_little_endian(&x.to_repr());
    Word { l0: n.0[0], l1: n.0[1], l2: n.0[2], l3: n.0[3] }
}

/// The sum of `a` and `b` in the field, by `Fp`'s `+`. The numbers go in by
/// `Fp::from_raw` and the sum comes out by `to_repr`, which gives the number
/// below the prime as 32 bytes, the least significant first;
/// `U256::from_little_endian` turns the bytes into limbs.
#[verifier::external_body]
fn field_sum(a: Word, b: Word) -> (r: Word)
    requires
        a.value() < field_modulus(),
        b.value() < field_modulus(),
    ensures
        r.value() == (a.value() + b.value()) % field_modulus(),
{
    let x = Fp::from_raw([a.l0, a.l1, a.l2, a.l3]) + Fp::from_raw([b.l0, b.l1, b.l2, b.l3]);
    let n = U256::from_little_endian(&x.to_repr());
    Word { l0: n.0[0], l1: n.0[1], l2: n.0[2], l3: n.0[3] }
}

impl Fe {
    /// What every element keeps: its number is below the prime.
    #[verifier::type_invariant]
    closed spec fn reduced(&self) -> bool {
        self.number.value() < field_modulus()
    }

    /// The number of the element.
    pub closed spec fn value(&self) -> nat {
        self.number.value()
    }

    /// The element of the number `v`.
    pub fn from_u64(v: u64) -> (e: Fe)
        ensures
            e.value() == v,
    {
        Fe { number: Word::from_u64(v) }
    }

    /// The element of the number of `w`, where that is below the prime.
    pub fn from_word(w: Word) -> (e: Option<Fe>)
        ensures
            w.value() < field_modulus() ==> e.is_some() && e.unwrap().value() == w.value(),
            w.value() >= field_modulus() ==> e.is_none(),
    {
        proof {
            lemma_modulus_by_limbs();
            crate::word::lemma_word_is_canonical(w);
            let base = limb_base() as int;
            assert(w.value() == w.l0 + base * (w.l1 + base * (w.l2 + base * w.l3)))
                by (nonlinear_arith)
                requires
                    w.value() == w.l0 + w.l1 * base + w.l2 * base * base + w.l3 * base * base
                        * base,
            ;
        }
        let below: bool = w.l3 < 0x4000_0000_0000_0000 || (w.l3 == 0x4000_0000_0000_0000 && w.l2
            == 0 && (w.l1 < 0x2246_98fc_094c_f91b || (w.l1 == 0x2246_98fc_094c_f91b && w.l0
            < 0x992d_30ed_0000_0001)));
        proof {
            let base = limb_base() as int;
            let rest: int = w.l1 + base * (w.l2 + base * w.l3);
            let top: int = w.l2 + base * w.l3;
            assert(w.l3 < 0x4000_0000_0000_0000 ==> top < base * 0x4000_0000_0000_0000int)
                by (nonlinear_arith)
                requires
                    top == w.l2 + base * w.l3,
                    0 <= w.l2 < base,
            ;
            assert(w.l3 > 0x4000_0000_0000_0000 ==> top >= base * 0x4000_0000_0000_0001int)
                by (nonlinear_arith)
                requires
                    top == w.l2 + base * w.l3,
                    0 <= w.l2 < base,
                    base > 0,
            ;
            assert(w.l3 == 0x4000_0000_0000_0000 ==> top == base * 0x4000_0000_0000_0000int + w.l2);
            assert(base * top <= rest < base * top + base);
            assert(w.value() == w.l0 + base * rest);
        }
        if below {
            Some(Fe { number: w })
        } else {
            None
        }
    }

    /// The word of the number of the element.
    pub fn to_word(&self) -> (w: Word)
        ensures
            w.value() == self.value(),
            w.value() < field_modulus(),
    {
        proof {
            use_type_invariant(self);
        }
        self.number
    }

    /// The product of two elements.
    pub fn times(&self, other: &Fe) -> (e: Fe)
        ensures
            e.value() == (self.value() * other.value()) % field_modulus(),
    {
        proof {
            use_type_invariant(self);
            use_type_invariant(other);
            vstd::arithmetic::div_mod::lemma_mod_bound(
                (self.value() * other.value()) as int,
                field_modulus() as int,
            );
        }
        Fe { number: field_product(self.number, other.number) }
    }

    /// The sum of two elements.
    pub fn plus(&self, other: &Fe) -> (e: Fe)
        ensures
            e.value() == (self.value() + other.value()) % field_modulus(),
    {
        proof {
            use_type_invariant(self);
            use_type_invariant(other);
            vstd::arithmetic::div_mod::lemma_mod_bound(
                (self.value() + other.value()) as int,
                field_modulus() as int,
            );
        }
        Fe { number: field_sum(self.number, other.number) }
    }
}

/// The prime, by its four limbs.
proof fn lemma_modulus_by_limbs()
    ensures
        field_modulus() == 0x992d_30ed_0000_0001nat + limb_base() * (0x2246_98fc_094c_f91bnat
            + limb_base() * (0nat + limb_base() * 0x4000_0000_0000_0000nat)),
        limb_base() == 0x1_0000_0000_0000_0000nat,
{
}

} // verus!
