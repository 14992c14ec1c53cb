//! Common utility functions and the challenge containers.
use vstd::prelude::*;
use vstd::arithmetic::power2::*;
use vstd::std_specs::bits::*;
use crate::field::{field_modulus, Fe};
use crate::operation::TxLogFieldTag;
use crate::word::{
    address_modulus, lemma_address_is_canonical, address_of_value, shift_left, sum, word_modulus,
    Address, Word,
};

verus! {

/// `true` when `r` is the least exponent with `n <= 2^r`.
pub open spec fn is_log2_ceil(n: nat, r: nat) -> bool {
    &&& n <= pow2(r)
    &&& r > 0 ==> pow2((r - 1) as nat) < n
}

proof fn lemma_top_bit_bounds(m: u32, k: u32)
    requires
        1 <= k <= 32,
        (m >> (k - 1) as u32) & 1u32 != 0u32,
        k < 32 ==> m >> k == 0,
    ensures
        pow2((k - 1) as nat) <= m,
        m < pow2(k as nat),
        m >= 1,
        (m & ((m - 1) as u32) == 0) <==> m == pow2((k - 1) as nat),
{
    let j: u32 = (k - 1) as u32;
    let top: u32 = 1u32 << j;
    assert(m >= top && m - top < top && top != 0) by (bit_vector)
        requires
            j < 32,
            top == 1u32 << j,
            (m >> j) & 1u32 != 0u32,
            j < 31 ==> m >> ((j + 1) as u32) == 0,
    ;
    let m1: u32 = (m - 1) as u32;
    assert((m & m1 == 0) <==> m == top) by (bit_vector)
        requires
            j < 32,
            m != 0,
            m1 == m - 1,
            top == 1u32 << j,
            (m >> j) & 1u32 != 0u32,
            j < 31 ==> m >> ((j + 1) as u32) == 0,
    ;
    vstd::bits::lemma_u32_pow2_no_overflow(j as nat);
    vstd::bits::lemma_u32_shl_is_mul(1u32, j);
    lemma_pow2_unfold(k as nat);
}

/// Ceiling of the base-2 logarithm of `n`.
pub fn log2_ceil(n: usize) -> (r: u32)
    requires
        1 <= n <= u32::MAX,
    ensures
        r <= 32,
        is_log2_ceil(n as nat, r as nat),
{
    let m: u32 = n as u32;
    let lz: u32 = m.leading_zeros();
    proof {
        axiom_u32_leading_zeros(m);
        let k: u32 = (32 - lz) as u32;
        assert(k >= 1);
        lemma_top_bit_bounds(m, k);
    }
    if m & (m - 1) == 0 {
        proof {
            if 32 - lz - 1 > 0 {
                lemma_pow2_unfold((32 - lz - 1) as nat);
                lemma_pow2_pos((32 - lz - 2) as nat);
            }
        }
        32 - lz - 1
    } else {
        32 - lz
    }
}

/// The number of a field of a log entry.
pub open spec fn field_tag_number(field_tag: TxLogFieldTag) -> u64 {
    match field_tag {
        TxLogFieldTag::Address => 1,
        TxLogFieldTag::Topic => 2,
        TxLogFieldTag::Data => 3,
    }
}

/// The number that the key of a log operation stands for: the place `index`
/// in bits 0 to 31, the field in bits 32 to 47 and the entry from bit 48 on.
pub open spec fn tx_log_key(index: u64, field_tag: TxLogFieldTag, log_id: u64) -> nat {
    (index + field_tag_number(field_tag) * 0x1_0000_0000 + log_id * 0x1_0000_0000_0000) as nat
}

/// The key under which the operation on the place `index` of the field
/// `field_tag` of the log entry `log_id` is found: the three are packed into
/// one address.
pub fn build_tx_log_address(index: u64, field_tag: TxLogFieldTag, log_id: u64) -> (a: Address)
    ensures
        a.value() == tx_log_key(index, field_tag, log_id),
        a == address_of_value(tx_log_key(index, field_tag, log_id)),
{
    let tag: u64 = match field_tag {
        TxLogFieldTag::Address => 1,
        TxLogFieldTag::Topic => 2,
        TxLogFieldTag::Data => 3,
    };
    proof {
        lemma2_to64();
        lemma2_to64_rest();
    }
    let tag_part: Word = shift_left(Word::from_u64(tag), 32);
    let log_part: Word = shift_left(Word::from_u64(log_id), 48);
    proof {
        assert(tag * pow2(32) == tag * 0x1_0000_0000);
        assert(log_id * pow2(48) == log_id * 0x1_0000_0000_0000);
        assert(tag * 0x1_0000_0000 < 0x4_0000_0000);
        assert(log_id * 0x1_0000_0000_0000 < 0x1_0000_0000_0000_0000 * 0x1_0000_0000_0000)
            by (nonlinear_arith)
            requires
                log_id < 0x1_0000_0000_0000_0000,
        ;
        vstd::arithmetic::div_mod::lemma_small_mod(
            (tag * 0x1_0000_0000) as nat,
            word_modulus(),
        );
        vstd::arithmetic::div_mod::lemma_small_mod(
            (log_id * 0x1_0000_0000_0000) as nat,
            word_modulus(),
        );
    }
    let low: Word = sum(Word::from_u64(index), tag_part);
    let all: Word = sum(low, log_part);
    let a = all.to_address();
    proof {
        vstd::arithmetic::div_mod::lemma_small_mod(all.value(), address_modulus());
        lemma_address_is_canonical(a);
    }
    a
}

/// The challenges that the circuits share: one for the encoding of words, one
/// for the input of the hash and one for lookups.
#[derive(Default, Clone, Copy, Debug)]
pub struct Challenges<T> {
    evm_word: T,
    keccak_input: T,
    lookup_input: T,
}

impl<T> Challenges<T> {
    /// The three challenges: that of words, that of the hash input and that
    /// of lookups.
    pub closed spec fn parts(&self) -> (T, T, T) {
        (self.evm_word, self.keccak_input, self.lookup_input)
    }

    /// The challenges made of the three given ones.
    pub fn mock(evm_word: T, keccak_input: T, lookup_input: T) -> (c: Challenges<T>)
        ensures
            c.parts() == (evm_word, keccak_input, lookup_input),
    {
        Challenges { evm_word, keccak_input, lookup_input }
    }

    /// The three challenges by their index: that of words, that of the hash
    /// input and that of lookups.
    pub fn indexed(&self) -> (all: [&T; 3])
        ensures
            *all[0] == self.parts().0,
            *all[1] == self.parts().1,
            *all[2] == self.parts().2,
    {
        [&self.evm_word, &self.keccak_input, &self.lookup_input]
    }
}

impl<T: Clone> Challenges<T> {
    /// A copy of the challenge of words.
    pub fn evm_word(&self) -> (r: T)
        ensures
            cloned(self.parts().0, r),
    {
        self.evm_word.clone()
    }

    /// A copy of the challenge of the hash input.
    pub fn keccak_input(&self) -> (r: T)
        ensures
            cloned(self.parts().1, r),
    {
        self.keccak_input.clone()
    }

    /// A copy of the challenge of lookups.
    pub fn lookup_input(&self) -> (r: T)
        ensures
            cloned(self.parts().2, r),
    {
        self.lookup_input.clone()
    }
}

/// Fixed challenges for tests: small numbers that are easy to tell apart.
#[derive(Clone, Copy, Debug)]
pub struct MockChallenges {
    evm_word: u64,
    keccak_input: u64,
    lookup_input: u64,
}

/// A value that makes a test easy to follow.
pub const DEFAULT_RAND: u128 = 0x10000;

impl MockChallenges {
    /// The three numbers: that of words, that of the hash input and that of
    /// lookups.
    pub closed spec fn parts(&self) -> (u64, u64, u64) {
        (self.evm_word, self.keccak_input, self.lookup_input)
    }

    /// The fixed challenges: 2^16 for words, 2^20 for the hash input and 2^24
    /// for lookups.
    pub fn construct() -> (c: MockChallenges)
        ensures
            c.parts() == (0x10000u64, 0x100000u64, 0x1000000u64),
    {
        MockChallenges { evm_word: 0x10000, keccak_input: 0x100000, lookup_input: 0x1000000 }
    }

    /// The challenges as the numbers that a constraint holds as constants.
    pub fn exprs(&self) -> (c: Challenges<u64>)
        ensures
            c.parts() == self.parts(),
    {
        Challenges {
            evm_word: self.evm_word,
            keccak_input: self.keccak_input,
            lookup_input: self.lookup_input,
        }
    }

    /// The challenges as the numbers that a witness holds as known values.
    pub fn values(&self) -> (c: Challenges<u64>)
        ensures
            c.parts() == self.parts(),
    {
        Challenges {
            evm_word: self.evm_word,
            keccak_input: self.keccak_input,
            lookup_input: self.lookup_input,
        }
    }
}

impl Default for MockChallenges {
    /// The challenges that are all 0.
    fn default() -> (c: MockChallenges)
        ensures
            c.parts() == (0u64, 0u64, 0u64),
    {
        MockChallenges { evm_word: 0, keccak_input: 0, lookup_input: 0 }
    }
}

/// The number that `bytes` stand for when each byte counts `rand` times as
/// much as the one after it, in the field.
pub open spec fn rlc_value(bytes: Seq<u8>, rand: nat) -> nat
    decreases bytes.len(),
{
    if bytes.len() == 0 {
        0
    } else {
        ((rlc_value(bytes.drop_last(), rand) * rand + bytes.last()) % (field_modulus() as int)) as nat
    }
}

/// The random linear combination of `bytes`, the most significant first, with
/// the challenge `rand`; unknown where the challenge is.
pub fn rlc_be_bytes(bytes: &[u8], rand: Option<Fe>) -> (r: Option<Fe>)
    ensures
        rand.is_none() ==> r.is_none(),
        rand.is_some() ==> r.is_some() && r.unwrap().value() == rlc_value(
            bytes@,
            rand.unwrap().value(),
        ),
{
    let rand: Fe = match rand {
        Some(e) => e,
        None => {
            return None;
        },
    };
    let mut acc: Fe = Fe::from_u64(0);
    let n: usize = bytes.len();
    let mut i: usize = 0;
    while i < n
        invariant
            i <= n,
            n == bytes@.len(),
            acc.value() == rlc_value(bytes@.take(i as int), rand.value()),
        decreases n - i,
    {
        let byte: Fe = Fe::from_u64(bytes[i] as u64);
        let ghost before = acc.value();
        acc = acc.times(&rand).plus(&byte);
        proof {
            let upto = bytes@.take(i + 1);
            assert(upto.drop_last() =~= bytes@.take(i as int));
            assert(upto.last() == bytes@[i as int]);
            vstd::arithmetic::div_mod::lemma_add_mod_noop(
                (before * rand.value()) as int,
                bytes@[i as int] as int,
                field_modulus() as int,
            );
            vstd::arithmetic::div_mod::lemma_small_mod(bytes@[i as int] as nat, field_modulus());
        }
        i = i + 1;
    }
    proof {
        assert(bytes@.take(n as int) =~= bytes@);
    }
    Some(acc)
}

/// `base` to the power `n`, for `n` from 1 on, in the field.
pub open spec fn power_value(base: nat, n: nat) -> nat
    decreases n,
{
    if n <= 1 {
        base
    } else {
        (base * power_value(base, (n - 1) as nat)) % field_modulus()
    }
}

/// The first `count` powers of `base`: `base` itself, its square, and so on.
pub fn powers_of(base: Fe, count: usize) -> (powers: Vec<Fe>)
    ensures
        powers@.len() == count,
        forall|i: int| 0 <= i < count ==> (#[trigger] powers@[i]).value() == power_value(
            base.value(),
            (i + 1) as nat,
        ),
{
    let mut powers: Vec<Fe> = Vec::new();
    let mut power: Fe = base;
    let mut i: usize = 0;
    while i < count
        invariant
            i <= count,
            powers@.len() == i,
            power.value() == power_value(base.value(), (i + 1) as nat),
            forall|j: int| 0 <= j < i ==> (#[trigger] powers@[j]).value() == power_value(
                base.value(),
                (j + 1) as nat,
            ),
        decreases count - i,
    {
        powers.push(power);
        power = base.times(&power);
        i = i + 1;
    }
    powers
}

impl Challenges<Fe> {
    /// The first `count` powers of the challenge of words.
    pub fn evm_word_powers_of_randomness(&self, count: usize) -> (powers: Vec<Fe>)
        ensures
            powers@.len() == count,
            forall|i: int| 0 <= i < count ==> (#[trigger] powers@[i]).value() == power_value(
                self.parts().0.value(),
                (i + 1) as nat,
            ),
    {
        powers_of(self.evm_word, count)
    }

    /// The first `count` powers of the challenge of lookups.
    pub fn lookup_input_powers_of_randomness(&self, count: usize) -> (powers: Vec<Fe>)
        ensures
            powers@.len() == count,
            forall|i: int| 0 <= i < count ==> (#[trigger] powers@[i]).value() == power_value(
                self.parts().2.value(),
                (i + 1) as nat,
            ),
    {
        powers_of(self.lookup_input, count)
    }
}

/// The key of a log operation as the circuits compute it, in the field: the
/// place, the field's number times 2^32 and the entry's number times 2^48.
pub fn build_tx_log_expression(index: Fe, field_tag: Fe, log_id: Fe) -> (key: Fe)
    ensures
        key.value() == (index.value() + 0x1_0000_0000 * field_tag.value() + 0x1_0000_0000_0000
            * log_id.value()) % field_modulus(),
{
    let tag_part: Fe = Fe::from_u64(0x1_0000_0000).times(&field_tag);
    let log_part: Fe = Fe::from_u64(0x1_0000_0000_0000).times(&log_id);
    let key: Fe = index.plus(&tag_part).plus(&log_part);
    proof {
        let p = field_modulus() as int;
        let x = index.value() as int;
        let y: int = (0x1_0000_0000 * field_tag.value()) as int;
        let z: int = (0x1_0000_0000_0000 * log_id.value()) as int;
        vstd::arithmetic::div_mod::lemma_add_mod_noop_right(x, y, p);
        vstd::arithmetic::div_mod::lemma_add_mod_noop(x + y, z, p);
        vstd::arithmetic::div_mod::lemma_add_mod_noop_right((x + (y % p)) % p, z, p);
    }
    key
}

} // verus!
