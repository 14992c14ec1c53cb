//! 256-bit words and 160-bit account addresses, held as machine integers.
use vstd::prelude::*;
use vstd::arithmetic::power2::pow2;
use ethers_core::types::{H160, U256};
use ethers_core::utils::get_contract_address;

verus! {

/// 2^64.
pub open spec fn limb_base() -> nat {
    0x1_0000_0000_0000_0000
}

/// 2^256.
pub open spec fn word_modulus() -> nat {
    limb_base() * limb_base() * limb_base() * limb_base()
}

/// 2^160.
pub open spec fn address_modulus() -> nat {
    limb_base() * limb_base() * 0x1_0000_0000
}

/// The word that stands for `v`.
pub open spec fn word_of(v: u64) -> Word {
    Word { l0: v, l1: 0, l2: 0, l3: 0 }
}

/// The word 1 for `true` and the word 0 for `false`.
pub open spec fn word_of_flag(b: bool) -> Word {
    word_of(if b { 1 } else { 0 })
}

/// A 256-bit word, as four 64-bit limbs, the least significant first.
#[derive(Clone, Copy, Debug, PartialEq, Eq, Structural)]
pub struct Word {
    pub l0: u64,
    pub l1: u64,
    pub l2: u64,
    pub l3: u64,
}

/// A 160-bit account address: `lo` holds bits 0 to 63, `mid` bits 64 to 127
/// and `hi` bits 128 to 159.
#[derive(Clone, Copy, Debug, PartialEq, Eq, Structural)]
pub struct Address {
    pub hi: u32,
    pub mid: u64,
    pub lo: u64,
}

impl Word {
    /// The number that the word stands for.
    pub open spec fn value(&self) -> nat {
        (self.l0 + self.l1 * limb_base() + self.l2 * limb_base() * limb_base() + self.l3
            * limb_base() * limb_base() * limb_base()) as nat
    }

    /// The word 0.
    pub fn zero() -> (w: Word)
        ensures
            w.value() == 0,
            w == (Word { l0: 0, l1: 0, l2: 0, l3: 0 }),
    {
        Word { l0: 0, l1: 0, l2: 0, l3: 0 }
    }

    /// The word that stands for `v`.
    pub fn from_u64(v: u64) -> (w: Word)
        ensures
            w.value() == v,
            w == word_of(v),
    {
        Word { l0: v, l1: 0, l2: 0, l3: 0 }
    }

    /// The word 1 for `true` and the word 0 for `false`.
    pub fn from_flag(b: bool) -> (w: Word)
        ensures
            w == word_of_flag(b),
            w.value() == (if b { 1nat } else { 0nat }),
    {
        if b {
            Word::from_u64(1)
        } else {
            Word::from_u64(0)
        }
    }

    /// Whether the word is 0.
    pub fn is_zero(&self) -> (r: bool)
        ensures
            r == (self.value() == 0),
    {
        self.l0 == 0 && self.l1 == 0 && self.l2 == 0 && self.l3 == 0
    }

    /// The word as a `u64`, where it is small enough to be one.
    pub fn as_u64(&self) -> (r: Option<u64>)
        ensures
            self.value() < limb_base() ==> r == Some(self.l0) && self.l0 == self.value(),
            self.value() >= limb_base() ==> r.is_none(),
    {
        if self.l1 == 0 && self.l2 == 0 && self.l3 == 0 {
            Some(self.l0)
        } else {
            None
        }
    }

    /// The address in the low 160 bits of the word.
    pub open spec fn low_address(&self) -> Address {
        Address { hi: (self.l2 & 0xffff_ffff) as u32, mid: self.l1, lo: self.l0 }
    }

    /// The address in the low 160 bits of the word.
    pub fn to_address(&self) -> (a: Address)
        ensures
            a == self.low_address(),
            a.value() == self.value() % address_modulus(),
    {
        let hi: u32 = (self.l2 & 0xffff_ffff) as u32;
        proof {
            lemma_low_160(*self);
        }
        Address { hi, mid: self.l1, lo: self.l0 }
    }
}

impl Address {
    /// The number that the address stands for.
    pub open spec fn value(&self) -> nat {
        (self.lo + self.mid * limb_base() + self.hi * limb_base() * limb_base()) as nat
    }

    /// The address 0.
    pub fn zero() -> (a: Address)
        ensures
            a.value() == 0,
            a == (Address { hi: 0, mid: 0, lo: 0 }),
    {
        Address { hi: 0, mid: 0, lo: 0 }
    }

    /// The word that stands for the same number as the address.
    pub open spec fn as_word(&self) -> Word {
        Word { l0: self.lo, l1: self.mid, l2: self.hi as u64, l3: 0 }
    }

    /// The word that stands for the same number as the address.
    pub fn to_word(&self) -> (w: Word)
        ensures
            w == self.as_word(),
            w.value() == self.value(),
    {
        Word { l0: self.lo, l1: self.mid, l2: self.hi as u64, l3: 0 }
    }
}

/// The address that stands for `v` modulo 2^160.
pub open spec fn address_of_value(v: nat) -> Address {
    Address {
        lo: (v % limb_base()) as u64,
        mid: ((v / limb_base()) % limb_base()) as u64,
        hi: ((v / (limb_base() * limb_base())) % 0x1_0000_0000) as u32,
    }
}

/// An address is the one that stands for its number.
pub proof fn lemma_address_is_canonical(a: Address)
    ensures
        address_of_value(a.value()) == a,
{
    let b = limb_base() as int;
    let v = a.value() as int;
    let upper: int = a.mid + a.hi * b;
    assert(v == a.lo + upper * b) by (nonlinear_arith)
        requires
            v == a.lo + a.mid * b + a.hi * b * b,
            upper == a.mid + a.hi * b,
    ;
    vstd::arithmetic::div_mod::lemma_fundamental_div_mod_converse(v, b, upper, a.lo as int);
    vstd::arithmetic::div_mod::lemma_fundamental_div_mod_converse(
        upper,
        b,
        a.hi as int,
        a.mid as int,
    );
    assert(v == (a.lo + a.mid * b) + a.hi * (b * b)) by (nonlinear_arith)
        requires
            v == a.lo + a.mid * b + a.hi * b * b,
    ;
    assert(0 <= a.lo + a.mid * b < b * b) by (nonlinear_arith)
        requires
            0 <= a.lo < b,
            0 <= a.mid < b,
            b > 0,
    ;
    vstd::arithmetic::div_mod::lemma_fundamental_div_mod_converse(
        v,
        b * b,
        a.hi as int,
        a.lo + a.mid * b,
    );
    vstd::arithmetic::div_mod::lemma_small_mod(a.hi as nat, 0x1_0000_0000);
}

/// A word and the address made of its three low limbs, the third cut to 32
/// bits, stand for numbers that agree modulo 2^160.
pub proof fn lemma_low_160(w: Word)
    ensures
        ((w.l0 + w.l1 * limb_base() + ((w.l2 & 0xffff_ffff) as u32) * limb_base() * limb_base()) as nat)
            == w.value() % address_modulus(),
        (w.l2 & 0xffff_ffff) <= 0xffff_ffff,
{
    let l2 = w.l2;
    let low: u64 = l2 & 0xffff_ffff;
    let high: u64 = l2 >> 32;
    assert(low <= 0xffff_ffff && l2 == low + high * 0x1_0000_0000) by (bit_vector)
        requires
            low == l2 & 0xffff_ffff,
            high == l2 >> 32,
    ;
    let b = limb_base() as int;
    let m = address_modulus() as int;
    let rest: int = w.l0 + w.l1 * b + low * b * b;
    let q: int = high + w.l3 * 0x1_0000_0000;
    assert(w.value() == rest + q * m) by (nonlinear_arith)
        requires
            w.value() == w.l0 + w.l1 * b + l2 * b * b + w.l3 * b * b * b,
            l2 == low + high * 0x1_0000_0000,
            rest == w.l0 + w.l1 * b + low * b * b,
            q == high + w.l3 * 0x1_0000_0000,
            b == 0x1_0000_0000 * 0x1_0000_0000,
            m == b * b * 0x1_0000_0000,
    ;
    assert(0 <= rest < m) by (nonlinear_arith)
        requires
            rest == w.l0 + w.l1 * b + low * b * b,
            0 <= w.l0 < b,
            0 <= w.l1 < b,
            0 <= low <= 0xffff_ffff,
            b == 0x1_0000_0000_0000_0000,
            m == b * b * 0x1_0000_0000,
    ;
    assert(q >= 0) by (nonlinear_arith)
        requires
            q == high + w.l3 * 0x1_0000_0000,
            high >= 0,
            w.l3 >= 0,
    ;
    vstd::arithmetic::div_mod::lemma_fundamental_div_mod_converse(w.value() as int, m, q, rest);
}

/// The number of the address of the contract that the account `sender`
/// creates by its transaction with the nonce `nonce`.
pub uninterp spec fn created_address(sender: nat, nonce: u64) -> nat;

/// The address of the contract that the account `sender` creates by its
/// transaction with the nonce `nonce`, by `get_contract_address`, which
/// hashes the two. `U256` takes the addresses to and from their 20 bytes.
#[verifier::external_body]
fn contract_address(sender: Address, nonce: u64) -> (a: Address)
    ensures
        a.value() == created_address(sender.value(), nonce),
{
    let mut bytes = [0u8; 32];
    U256([sender.lo, sender.mid, sender.hi as u64, 0]).to_big_endian(&mut bytes);
    let made = get_contract_address(H160::from_slice(&bytes[12..]), nonce);
    let n = U256::from_big_endian(made.as_bytes());
    Address { hi: n.0[2] as u32, mid: n.0[1], lo: n.0[0] }
}

impl Address {
    /// The address of the contract that this account creates by its
    /// transaction with the nonce `nonce`.
    pub fn create_address(&self, nonce: u64) -> (a: Address)
        ensures
            a == address_of_value(created_address(self.value(), nonce)),
    {
        let a = contract_address(*self, nonce);
        proof {
            lemma_address_is_canonical(a);
        }
        a
    }
}

/// The number that `bytes` stand for, the most significant byte first.
pub open spec fn be_value(bytes: Seq<u8>) -> nat
    decreases bytes.len(),
{
    if bytes.len() == 0 {
        0
    } else {
        (be_value(bytes.drop_last()) * 256 + bytes.last()) as nat
    }
}

/// The byte at the place `k` of the 32 bytes that stand for `v`, the most
/// significant byte first.
pub open spec fn be_byte(v: nat, k: nat) -> u8 {
    ((v / pow2((8 * (31 - k)) as nat)) % 256) as u8
}

/// The word that stands for `v` modulo 2^256.
pub open spec fn word_of_value(v: nat) -> Word {
    Word {
        l0: (v % limb_base()) as u64,
        l1: ((v / limb_base()) % limb_base()) as u64,
        l2: ((v / (limb_base() * limb_base())) % limb_base()) as u64,
        l3: ((v / (limb_base() * limb_base() * limb_base())) % limb_base()) as u64,
    }
}

/// A word is the one that stands for its number.
pub proof fn lemma_word_is_canonical(w: Word)
    ensures
        word_of_value(w.value()) == w,
        w.value() < word_modulus(),
{
    let b = limb_base() as int;
    let v = w.value() as int;
    let r1: int = w.l0 as int;
    let q1: int = w.l1 + w.l2 * b + w.l3 * b * b;
    assert(v == r1 + q1 * b) by (nonlinear_arith)
        requires
            v == w.l0 + w.l1 * b + w.l2 * b * b + w.l3 * b * b * b,
            r1 == w.l0,
            q1 == w.l1 + w.l2 * b + w.l3 * b * b,
    ;
    vstd::arithmetic::div_mod::lemma_fundamental_div_mod_converse(v, b, q1, r1);
    let q2: int = w.l2 + w.l3 * b;
    assert(q1 == w.l1 + q2 * b) by (nonlinear_arith)
        requires
            q1 == w.l1 + w.l2 * b + w.l3 * b * b,
            q2 == w.l2 + w.l3 * b,
    ;
    vstd::arithmetic::div_mod::lemma_fundamental_div_mod_converse(q1, b, q2, w.l1 as int);
    vstd::arithmetic::div_mod::lemma_fundamental_div_mod_converse(q2, b, w.l3 as int, w.l2 as int);
    let r2: int = w.l0 + w.l1 * b;
    assert(v == r2 + q2 * (b * b)) by (nonlinear_arith)
        requires
            v == w.l0 + w.l1 * b + w.l2 * b * b + w.l3 * b * b * b,
            r2 == w.l0 + w.l1 * b,
            q2 == w.l2 + w.l3 * b,
    ;
    assert(0 <= r2 < b * b) by (nonlinear_arith)
        requires
            r2 == w.l0 + w.l1 * b,
            0 <= w.l0 < b,
            0 <= w.l1 < b,
    ;
    vstd::arithmetic::div_mod::lemma_fundamental_div_mod_converse(v, b * b, q2, r2);
    let r3: int = w.l0 + w.l1 * b + w.l2 * b * b;
    assert(v == r3 + w.l3 * (b * b * b)) by (nonlinear_arith)
        requires
            v == w.l0 + w.l1 * b + w.l2 * b * b + w.l3 * b * b * b,
            r3 == w.l0 + w.l1 * b + w.l2 * b * b,
    ;
    assert(0 <= r3 < b * b * b) by (nonlinear_arith)
        requires
            r3 == w.l0 + w.l1 * b + w.l2 * b * b,
            0 <= w.l0 < b,
            0 <= w.l1 < b,
            0 <= w.l2 < b,
    ;
    vstd::arithmetic::div_mod::lemma_fundamental_div_mod_converse(v, b * b * b, w.l3 as int, r3);
    vstd::arithmetic::div_mod::lemma_small_mod(w.l3 as nat, limb_base());
    assert(v < b * b * b * b) by (nonlinear_arith)
        requires
            v == r3 + w.l3 * (b * b * b),
            0 <= r3 < b * b * b,
            0 <= w.l3 < b,
    ;
}

/// The word whose 32 bytes, the most significant first, end in `bytes`, by
/// `U256::from_big_endian`, which panics on more than 32 bytes: the word
/// stands for the number that `bytes` stand for.
#[verifier::external_body]
fn word_from_bytes(bytes: &[u8]) -> (w: Word)
    requires
        bytes@.len() <= 32,
    ensures
        w.value() == be_value(bytes@),
{
    let n = U256::from_big_endian(bytes);
    Word { l0: n.0[0], l1: n.0[1], l2: n.0[2], l3: n.0[3] }
}

/// The 32 bytes of `w`, the most significant first, by
/// `U256::to_big_endian`.
#[verifier::external_body]
fn word_to_bytes(w: Word) -> (bytes: Vec<u8>)
    ensures
        bytes@.len() == 32,
        forall|k: int| 0 <= k < 32 ==> bytes@[k] == be_byte(w.value(), k as nat),
{
    let mut out = [0u8; 32];
    U256([w.l0, w.l1, w.l2, w.l3]).to_big_endian(&mut out);
    out.to_vec()
}

impl Word {
    /// The word that `bytes` stand for, the most significant byte first.
    pub fn from_big_endian(bytes: &[u8]) -> (w: Word)
        requires
            bytes@.len() <= 32,
        ensures
            w.value() == be_value(bytes@),
            w == word_of_value(be_value(bytes@)),
    {
        let w = word_from_bytes(bytes);
        proof {
            lemma_word_is_canonical(w);
        }
        w
    }

    /// The 32 bytes of the word, the most significant first.
    pub fn to_big_endian(&self) -> (bytes: Vec<u8>)
        ensures
            bytes@.len() == 32,
            forall|k: int| 0 <= k < 32 ==> bytes@[k] == be_byte(self.value(), k as nat),
    {
        word_to_bytes(*self)
    }
}

/// `a` shifted left by `n` bits, by `U256`'s `<<`: the bits that leave the
/// 256 are dropped, so the result stands for `a * 2^n` modulo 2^256.
#[verifier::external_body]
pub(crate) fn shift_left(a: Word, n: u32) -> (r: Word)
    ensures
        r.value() == (a.value() * pow2(n as nat)) % word_modulus(),
{
    let shifted = U256([a.l0, a.l1, a.l2, a.l3]) << n;
    Word { l0: shifted.0[0], l1: shifted.0[1], l2: shifted.0[2], l3: shifted.0[3] }
}

/// `a` shifted right by `n` bits, by `U256`'s `>>`: the result stands for the
/// quotient of `a` by `2^n`.
#[verifier::external_body]
pub(crate) fn shift_right(a: Word, n: u32) -> (r: Word)
    ensures
        r.value() == a.value() / pow2(n as nat),
{
    let shifted = U256([a.l0, a.l1, a.l2, a.l3]) >> n;
    Word { l0: shifted.0[0], l1: shifted.0[1], l2: shifted.0[2], l3: shifted.0[3] }
}

/// The sum of `a` and `b`, by `U256`'s `+`, which panics where the sum does
/// not fit in 256 bits.
#[verifier::external_body]
pub(crate) fn sum(a: Word, b: Word) -> (r: Word)
    requires
        a.value() + b.value() < word_modulus(),
    ensures
        r.value() == a.value() + b.value(),
{
    let total = U256([a.l0, a.l1, a.l2, a.l3]) + U256([b.l0, b.l1, b.l2, b.l3]);
    Word { l0: total.0[0], l1: total.0[1], l2: total.0[2], l3: total.0[3] }
}

/// The product of `a` and `b`, by `U256`'s `*`, which panics where the product
/// does not fit in 256 bits.
#[verifier::external_body]
pub(crate) fn product(a: Word, b: Word) -> (r: Word)
    requires
        a.value() * b.value() < word_modulus(),
    ensures
        r.value() == a.value() * b.value(),
{
    let total = U256([a.l0, a.l1, a.l2, a.l3]) * U256([b.l0, b.l1, b.l2, b.l3]);
    Word { l0: total.0[0], l1: total.0[1], l2: total.0[2], l3: total.0[3] }
}

/// The sum of `a` and `b` modulo 2^256, by `U256::overflowing_add`.
#[verifier::external_body]
pub(crate) fn wrapping_sum(a: Word, b: Word) -> (r: Word)
    ensures
        r.value() == (a.value() + b.value()) % word_modulus(),
{
    let (total, _) = U256([a.l0, a.l1, a.l2, a.l3]).overflowing_add(U256([b.l0, b.l1, b.l2, b.l3]));
    Word { l0: total.0[0], l1: total.0[1], l2: total.0[2], l3: total.0[3] }
}

/// The difference of `a` and `b` modulo 2^256, by `U256::overflowing_sub`.
#[verifier::external_body]
pub(crate) fn wrapping_difference(a: Word, b: Word) -> (r: Word)
    ensures
        r.value() == (a.value() - b.value()) % (word_modulus() as int),
{
    let (rest, _) = U256([a.l0, a.l1, a.l2, a.l3]).overflowing_sub(U256([b.l0, b.l1, b.l2, b.l3]));
    Word { l0: rest.0[0], l1: rest.0[1], l2: rest.0[2], l3: rest.0[3] }
}

/// The byte at the place `k` of the bytes that stand for `v`, the least
/// significant byte first.
pub open spec fn le_byte(v: nat, k: nat) -> u8 {
    ((v / pow2((8 * k) as nat)) % 256) as u8
}

/// The 32 bytes of `w`, the least significant first, by
/// `U256::to_little_endian`.
#[verifier::external_body]
pub(crate) fn word_to_le_bytes(w: Word) -> (bytes: Vec<u8>)
    ensures
        bytes@.len() == 32,
        forall|k: int| 0 <= k < 32 ==> bytes@[k] == le_byte(w.value(), k as nat),
{
    let mut out = [0u8; 32];
    U256([w.l0, w.l1, w.l2, w.l3]).to_little_endian(&mut out);
    out.to_vec()
}

} // verus!
