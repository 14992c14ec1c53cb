//! The witness of the chip that checks `a * b + c == d` modulo 2^256 on four
//! 256-bit words.
//!
//! The chip lays one check out on seven rows of five columns:
//!
//! | row | col0      | col1      | col2      | col3      | col4      |
//! |-----|-----------|-----------|-----------|-----------|-----------|
//! | 0   | a_limb0   | a_limb1   | a_limb2   | a_limb3   | -         |
//! | 1   | b_limb0   | b_limb1   | b_limb2   | b_limb3   | -         |
//! | 2   | c_lo      | c_hi      | d_lo      | d_hi      | -         |
//! | 3   | carry_lo0 | carry_lo1 | carry_lo2 | carry_lo3 | carry_lo4 |
//! | 4   | carry_lo5 | carry_lo6 | carry_lo7 | carry_lo8 | -         |
//! | 5   | carry_hi0 | carry_hi1 | carry_hi2 | carry_hi3 | carry_hi4 |
//! | 6   | carry_hi5 | carry_hi6 | carry_hi7 | carry_hi8 | -         |
use vstd::prelude::*;
use vstd::arithmetic::power2::{lemma2_to64, lemma_pow2_adds, pow2};
use crate::word::{
    le_byte, limb_base, product, shift_left, shift_right, sum, word_modulus, word_to_le_bytes,
    wrapping_difference, wrapping_sum, Word,
};

verus! {

/// A cell of the chip, relative to the row at which a check starts.
#[derive(Clone, Copy, Debug, PartialEq, Eq, Structural)]
pub struct Query {
    /// The column, from 0 to 4.
    pub column: usize,
    /// The row, counted from the first row of the check.
    pub rotation: i32,
}

/// A value for a cell of the chip.
#[derive(Clone, Copy, Debug, PartialEq, Eq, Structural)]
pub struct Cell {
    /// The column, from 0 to 4.
    pub column: usize,
    /// The row.
    pub row: usize,
    pub value: u128,
}

/// The layout of the chip.
#[derive(Clone, Copy, Debug, PartialEq, Eq, Structural)]
pub struct MulAddConfig {
    /// The number of rows of one check.
    pub rows: usize,
}

/// The cell of `column` in the row `rotation` of a check.
pub open spec fn query(column: usize, rotation: i32) -> Query {
    Query { column, rotation }
}

/// The cells of the nine bytes of a carry, the least significant first: five
/// in the row `row` and four in the row after it.
pub open spec fn carry_queries(row: i32) -> Seq<Query> {
    seq![
        query(0, row),
        query(1, row),
        query(2, row),
        query(3, row),
        query(4, row),
        query(0, (row + 1) as i32),
        query(1, (row + 1) as i32),
        query(2, (row + 1) as i32),
        query(3, (row + 1) as i32),
    ]
}

/// The cells of the nine bytes of a carry, the least significant first.
fn carry_cells(row: i32) -> (cells: Vec<Query>)
    requires
        row < i32::MAX,
    ensures
        cells@ == carry_queries(row),
{
    let mut cells: Vec<Query> = Vec::new();
    cells.push(Query { column: 0, rotation: row });
    cells.push(Query { column: 1, rotation: row });
    cells.push(Query { column: 2, rotation: row });
    cells.push(Query { column: 3, rotation: row });
    cells.push(Query { column: 4, rotation: row });
    cells.push(Query { column: 0, rotation: row + 1 });
    cells.push(Query { column: 1, rotation: row + 1 });
    cells.push(Query { column: 2, rotation: row + 1 });
    cells.push(Query { column: 3, rotation: row + 1 });
    proof {
        assert(cells@ =~= carry_queries(row));
    }
    cells
}

impl MulAddConfig {
    /// The cells of the nine bytes of the carry out of the low 128 bits, the
    /// least significant first.
    pub fn carry_lo_cells(&self) -> (cells: Vec<Query>)
        ensures
            cells@ == carry_queries(3),
    {
        carry_cells(3)
    }

    /// The cells of the nine bytes of the carry out of the high 128 bits, the
    /// least significant first.
    pub fn carry_hi_cells(&self) -> (cells: Vec<Query>)
        ensures
            cells@ == carry_queries(5),
    {
        carry_cells(5)
    }

    /// The cells of the four 64-bit limbs of `a`, the least significant first.
    pub fn a_limbs_cur(&self) -> (cells: (Query, Query, Query, Query))
        ensures
            cells == (query(0, 0), query(1, 0), query(2, 0), query(3, 0)),
    {
        (
            Query { column: 0, rotation: 0 },
            Query { column: 1, rotation: 0 },
            Query { column: 2, rotation: 0 },
            Query { column: 3, rotation: 0 },
        )
    }

    /// The cells of the four 64-bit limbs of `b`, the least significant first.
    pub fn b_limbs_cur(&self) -> (cells: (Query, Query, Query, Query))
        ensures
            cells == (query(0, 1), query(1, 1), query(2, 1), query(3, 1)),
    {
        (
            Query { column: 0, rotation: 1 },
            Query { column: 1, rotation: 1 },
            Query { column: 2, rotation: 1 },
            Query { column: 3, rotation: 1 },
        )
    }

    /// The cells of the low and the high 128 bits of `c`.
    pub fn c_lo_hi_cur(&self) -> (cells: (Query, Query))
        ensures
            cells == (query(0, 2), query(1, 2)),
    {
        (Query { column: 0, rotation: 2 }, Query { column: 1, rotation: 2 })
    }

    /// The cells of the low and the high 128 bits of `d`.
    pub fn d_lo_hi_cur(&self) -> (cells: (Query, Query))
        ensures
            cells == (query(2, 2), query(3, 2)),
    {
        (Query { column: 2, rotation: 2 }, Query { column: 3, rotation: 2 })
    }

    /// The cells of the low and the high 128 bits of the `d` of the check
    /// that follows.
    pub fn d_lo_hi_next(&self) -> (cells: (Query, Query))
        ensures
            cells == (query(2, 9), query(3, 9)),
    {
        (Query { column: 2, rotation: 9 }, Query { column: 3, rotation: 9 })
    }
}

/// 2^128.
pub open spec fn half_base() -> nat {
    limb_base() * limb_base()
}

/// The number in the low 128 bits of `w`.
pub open spec fn lo128(w: Word) -> nat {
    (w.l0 + w.l1 * limb_base()) as nat
}

/// The number in the high 128 bits of `w`.
pub open spec fn hi128(w: Word) -> nat {
    (w.l2 + w.l3 * limb_base()) as nat
}

/// The part of the product of `a` and `b` at 2^0.
pub open spec fn t0(a: Word, b: Word) -> nat {
    (a.l0 * b.l0) as nat
}

/// The part of the product of `a` and `b` at 2^64.
pub open spec fn t1(a: Word, b: Word) -> nat {
    (a.l0 * b.l1 + a.l1 * b.l0) as nat
}

/// The part of the product of `a` and `b` at 2^128.
pub open spec fn t2(a: Word, b: Word) -> nat {
    (a.l0 * b.l2 + a.l1 * b.l1 + a.l2 * b.l0) as nat
}

/// The part of the product of `a` and `b` at 2^192.
pub open spec fn t3(a: Word, b: Word) -> nat {
    (a.l0 * b.l3 + a.l1 * b.l2 + a.l2 * b.l1 + a.l3 * b.l0) as nat
}

/// The carry out of the low 128 bits of `a * b + c - d`, computed modulo
/// 2^256.
pub open spec fn carry_lo(a: Word, b: Word, c: Word, d: Word) -> nat {
    (((t0(a, b) + t1(a, b) * limb_base() + lo128(c) - lo128(d)) % (word_modulus() as int))
        / (half_base() as int)) as nat
}

/// The carry out of the high 128 bits of `a * b + c - d`, computed modulo
/// 2^256.
pub open spec fn carry_hi(a: Word, b: Word, c: Word, d: Word) -> nat {
    (((t2(a, b) + t3(a, b) * limb_base() + hi128(c) + carry_lo(a, b, c, d) - hi128(d)) % (
    word_modulus() as int)) / (half_base() as int)) as nat
}

/// The word that stands for `v`.
fn limb(v: u64) -> (w: Word)
    ensures
        w.value() == v,
{
    Word::from_u64(v)
}

/// The product of two limbs.
fn limb_product(x: u64, y: u64) -> (w: Word)
    ensures
        w.value() == x * y,
        w.value() < half_base(),
{
    proof {
        assert(x * y < 0x1_0000_0000_0000_0000 * 0x1_0000_0000_0000_0000) by (nonlinear_arith)
            requires
                0 <= x < 0x1_0000_0000_0000_0000,
                0 <= y < 0x1_0000_0000_0000_0000,
        ;
    }
    product(limb(x), limb(y))
}

/// The word of the low 128 bits of `w`.
fn low_half(w: Word) -> (r: Word)
    ensures
        r.value() == lo128(w),
        r.value() < half_base(),
{
    proof {
        assert(w.l0 + w.l1 * 0x1_0000_0000_0000_0000 < 0x1_0000_0000_0000_0000
            * 0x1_0000_0000_0000_0000) by (nonlinear_arith)
            requires
                0 <= w.l0 < 0x1_0000_0000_0000_0000,
                0 <= w.l1 < 0x1_0000_0000_0000_0000,
        ;
    }
    Word { l0: w.l0, l1: w.l1, l2: 0, l3: 0 }
}

/// The word of the high 128 bits of `w`.
fn high_half(w: Word) -> (r: Word)
    ensures
        r.value() == hi128(w),
        r.value() < half_base(),
{
    proof {
        assert(w.l2 + w.l3 * 0x1_0000_0000_0000_0000 < 0x1_0000_0000_0000_0000
            * 0x1_0000_0000_0000_0000) by (nonlinear_arith)
            requires
                0 <= w.l2 < 0x1_0000_0000_0000_0000,
                0 <= w.l3 < 0x1_0000_0000_0000_0000,
        ;
    }
    Word { l0: w.l2, l1: w.l3, l2: 0, l3: 0 }
}

/// The two carries of the check of `a * b + c == d`: the carry out of the low
/// 128 bits and the carry out of the high 128 bits.
pub fn carries(a: Word, b: Word, c: Word, d: Word) -> (r: (Word, Word))
    ensures
        r.0.value() == carry_lo(a, b, c, d),
        r.1.value() == carry_hi(a, b, c, d),
{
    proof {
        lemma2_to64();
        lemma_pow2_adds(64, 64);
    }
    let part0 = limb_product(a.l0, b.l0);
    let part1 = sum(limb_product(a.l0, b.l1), limb_product(a.l1, b.l0));
    let part2 = sum(
        sum(limb_product(a.l0, b.l2), limb_product(a.l1, b.l1)),
        limb_product(a.l2, b.l0),
    );
    let part3 = sum(
        sum(sum(limb_product(a.l0, b.l3), limb_product(a.l1, b.l2)), limb_product(a.l2, b.l1)),
        limb_product(a.l3, b.l0),
    );
    let c_lo = low_half(c);
    let c_hi = high_half(c);
    let d_lo = low_half(d);
    let d_hi = high_half(d);
    let ghost m = word_modulus() as int;
    proof {
        assert(part1.value() * 0x1_0000_0000_0000_0000 < m) by (nonlinear_arith)
            requires
                part1.value() < 2 * (0x1_0000_0000_0000_0000 * 0x1_0000_0000_0000_0000),
                m == 0x1_0000_0000_0000_0000 * 0x1_0000_0000_0000_0000 * 0x1_0000_0000_0000_0000
                    * 0x1_0000_0000_0000_0000,
        ;
        assert(part3.value() * 0x1_0000_0000_0000_0000 < m) by (nonlinear_arith)
            requires
                part3.value() < 4 * (0x1_0000_0000_0000_0000 * 0x1_0000_0000_0000_0000),
                m == 0x1_0000_0000_0000_0000 * 0x1_0000_0000_0000_0000 * 0x1_0000_0000_0000_0000
                    * 0x1_0000_0000_0000_0000,
        ;
        vstd::arithmetic::div_mod::lemma_small_mod(
            (part1.value() * 0x1_0000_0000_0000_0000) as nat,
            word_modulus(),
        );
        vstd::arithmetic::div_mod::lemma_small_mod(
            (part3.value() * 0x1_0000_0000_0000_0000) as nat,
            word_modulus(),
        );
    }
    let shifted1 = shift_left(part1, 64);
    let shifted3 = shift_left(part3, 64);
    proof {
        assert(part0.value() + shifted1.value() < m) by (nonlinear_arith)
            requires
                part0.value() < 0x1_0000_0000_0000_0000 * 0x1_0000_0000_0000_0000,
                shifted1.value() == part1.value() * 0x1_0000_0000_0000_0000,
                part1.value() < 2 * (0x1_0000_0000_0000_0000 * 0x1_0000_0000_0000_0000),
                m == 0x1_0000_0000_0000_0000 * 0x1_0000_0000_0000_0000 * 0x1_0000_0000_0000_0000
                    * 0x1_0000_0000_0000_0000,
        ;
        assert(part2.value() + shifted3.value() + c_hi.value() < m) by (nonlinear_arith)
            requires
                part2.value() < 3 * (0x1_0000_0000_0000_0000 * 0x1_0000_0000_0000_0000),
                c_hi.value() < 0x1_0000_0000_0000_0000 * 0x1_0000_0000_0000_0000,
                shifted3.value() == part3.value() * 0x1_0000_0000_0000_0000,
                part3.value() < 4 * (0x1_0000_0000_0000_0000 * 0x1_0000_0000_0000_0000),
                m == 0x1_0000_0000_0000_0000 * 0x1_0000_0000_0000_0000 * 0x1_0000_0000_0000_0000
                    * 0x1_0000_0000_0000_0000,
        ;
    }
    let c_lo_minus_d_lo = wrapping_difference(c_lo, d_lo);
    let temp = sum(part0, shifted1);
    let low = shift_right(wrapping_sum(temp, c_lo_minus_d_lo), 128);
    proof {
        vstd::arithmetic::div_mod::lemma_add_mod_noop_right(
            temp.value() as int,
            c_lo.value() - d_lo.value(),
            m,
        );
        assert(low.value() == carry_lo(a, b, c, d));
    }
    let low_minus_d_hi = wrapping_difference(low, d_hi);
    let temp = sum(sum(part2, shifted3), c_hi);
    let high = shift_right(wrapping_sum(temp, low_minus_d_hi), 128);
    proof {
        vstd::arithmetic::div_mod::lemma_add_mod_noop_right(
            temp.value() as int,
            low.value() - d_hi.value(),
            m,
        );
        assert(high.value() == carry_hi(a, b, c, d));
    }
    (low, high)
}

/// The value `value` for the cell of `column` in `row`.
pub open spec fn cell(column: usize, row: usize, value: nat) -> Cell {
    Cell { column, row, value: value as u128 }
}

/// The values of a row of limbs: the four 64-bit limbs of `w`, the least
/// significant first, and 0 for the column that the row leaves out.
pub open spec fn limb_row(row: usize, w: Word) -> Seq<Cell> {
    seq![
        cell(0, row, w.l0 as nat),
        cell(1, row, w.l1 as nat),
        cell(2, row, w.l2 as nat),
        cell(3, row, w.l3 as nat),
        cell(4, row, 0),
    ]
}

/// The values of the row of halves: the low and the high 128 bits of `c`,
/// those of `d`, and 0 for the column that the row leaves out.
pub open spec fn halves_row(row: usize, c: Word, d: Word) -> Seq<Cell> {
    seq![
        cell(0, row, lo128(c)),
        cell(1, row, hi128(c)),
        cell(2, row, lo128(d)),
        cell(3, row, hi128(d)),
        cell(4, row, 0),
    ]
}

/// The values of the two rows of a carry: its nine low bytes, the least
/// significant first, five in the first row and four in the second, and 0 for
/// the column that the second row leaves out.
pub open spec fn carry_rows(row: usize, carry: nat) -> Seq<Cell> {
    seq![
        cell(0, row, le_byte(carry, 0) as nat),
        cell(1, row, le_byte(carry, 1) as nat),
        cell(2, row, le_byte(carry, 2) as nat),
        cell(3, row, le_byte(carry, 3) as nat),
        cell(4, row, le_byte(carry, 4) as nat),
        cell(0, (row + 1) as usize, le_byte(carry, 5) as nat),
        cell(1, (row + 1) as usize, le_byte(carry, 6) as nat),
        cell(2, (row + 1) as usize, le_byte(carry, 7) as nat),
        cell(3, (row + 1) as usize, le_byte(carry, 8) as nat),
        cell(4, (row + 1) as usize, 0),
    ]
}

/// The values of the seven rows of the check of `a * b + c == d` that starts
/// at the row `offset`, in the order in which they are assigned.
pub open spec fn assignments(offset: usize, a: Word, b: Word, c: Word, d: Word) -> Seq<Cell> {
    limb_row(offset, a) + limb_row((offset + 1) as usize, b) + halves_row(
        (offset + 2) as usize,
        c,
        d,
    ) + carry_rows((offset + 3) as usize, carry_lo(a, b, c, d)) + carry_rows(
        (offset + 5) as usize,
        carry_hi(a, b, c, d),
    )
}

/// The chip that checks `a * b + c == d` modulo 2^256.
#[derive(Clone, Copy, Debug, PartialEq, Eq, Structural)]
pub struct MulAddChip {
    /// The layout of the chip.
    pub config: MulAddConfig,
}

/// The low 128 bits of `w`.
fn low_bits(w: Word) -> (v: u128)
    ensures
        v == lo128(w),
{
    proof {
        assert(w.l0 + w.l1 * 0x1_0000_0000_0000_0000 < 0x1_0000_0000_0000_0000
            * 0x1_0000_0000_0000_0000) by (nonlinear_arith)
            requires
                0 <= w.l0 < 0x1_0000_0000_0000_0000,
                0 <= w.l1 < 0x1_0000_0000_0000_0000,
        ;
        assert(w.l1 * 0x1_0000_0000_0000_0000 >= 0) by (nonlinear_arith)
            requires
                0 <= w.l1,
        ;
    }
    w.l0 as u128 + (w.l1 as u128) * 0x1_0000_0000_0000_0000
}

/// The high 128 bits of `w`.
fn high_bits(w: Word) -> (v: u128)
    ensures
        v == hi128(w),
{
    low_bits(Word { l0: w.l2, l1: w.l3, l2: 0, l3: 0 })
}

/// Adds the values of a row of limbs to `cells`.
fn push_limb_row(cells: &mut Vec<Cell>, row: usize, w: Word)
    ensures
        final(cells)@ == old(cells)@ + limb_row(row, w),
{
    cells.push(Cell { column: 0, row, value: w.l0 as u128 });
    cells.push(Cell { column: 1, row, value: w.l1 as u128 });
    cells.push(Cell { column: 2, row, value: w.l2 as u128 });
    cells.push(Cell { column: 3, row, value: w.l3 as u128 });
    cells.push(Cell { column: 4, row, value: 0 });
    proof {
        assert(final(cells)@ =~= old(cells)@ + limb_row(row, w));
    }
}

/// Adds the values of the two rows of `carry` to `cells`.
fn push_carry_rows(cells: &mut Vec<Cell>, row: usize, carry: Word)
    requires
        row < usize::MAX,
    ensures
        final(cells)@ == old(cells)@ + carry_rows(row, carry.value()),
{
    let bytes = word_to_le_bytes(carry);
    cells.push(Cell { column: 0, row, value: bytes[0] as u128 });
    cells.push(Cell { column: 1, row, value: bytes[1] as u128 });
    cells.push(Cell { column: 2, row, value: bytes[2] as u128 });
    cells.push(Cell { column: 3, row, value: bytes[3] as u128 });
    cells.push(Cell { column: 4, row, value: bytes[4] as u128 });
    cells.push(Cell { column: 0, row: row + 1, value: bytes[5] as u128 });
    cells.push(Cell { column: 1, row: row + 1, value: bytes[6] as u128 });
    cells.push(Cell { column: 2, row: row + 1, value: bytes[7] as u128 });
    cells.push(Cell { column: 3, row: row + 1, value: bytes[8] as u128 });
    cells.push(Cell { column: 4, row: row + 1, value: 0 });
    proof {
        assert(final(cells)@ =~= old(cells)@ + carry_rows(row, carry.value()));
    }
}

impl MulAddChip {
    /// The layout of the chip: a check takes seven rows.
    pub fn configure() -> (config: MulAddConfig)
        ensures
            config.rows == 7,
    {
        MulAddConfig { rows: 7 }
    }

    /// The chip with the layout `config`.
    pub fn construct(config: MulAddConfig) -> (chip: MulAddChip)
        ensures
            chip.config == config,
    {
        MulAddChip { config }
    }

    /// The values of the check of `a * b + c == d`, where `words` are `a`,
    /// `b`, `c` and `d`, for the seven rows from `offset` on, in the order in
    /// which they are assigned.
    pub fn assign(&self, offset: usize, words: [Word; 4]) -> (cells: Vec<Cell>)
        requires
            offset + 6 <= usize::MAX,
        ensures
            cells@ == assignments(offset, words[0], words[1], words[2], words[3]),
            cells@.len() == 35,
    {
        let a: Word = words[0];
        let b: Word = words[1];
        let c: Word = words[2];
        let d: Word = words[3];
        let (low, high) = carries(a, b, c, d);
        let mut cells: Vec<Cell> = Vec::new();
        push_limb_row(&mut cells, offset, a);
        push_limb_row(&mut cells, offset + 1, b);
        let ghost before = cells@;
        let row: usize = offset + 2;
        cells.push(Cell { column: 0, row, value: low_bits(c) });
        cells.push(Cell { column: 1, row, value: high_bits(c) });
        cells.push(Cell { column: 2, row, value: low_bits(d) });
        cells.push(Cell { column: 3, row, value: high_bits(d) });
        cells.push(Cell { column: 4, row, value: 0 });
        proof {
            assert(cells@ =~= before + halves_row(row, c, d));
        }
        push_carry_rows(&mut cells, offset + 3, low);
        push_carry_rows(&mut cells, offset + 5, high);
        proof {
            assert(cells@ =~= assignments(offset, a, b, c, d));
        }
        cells
    }
}

/// Whether the two equations of the chip hold of `a`, `b`, `c`, `d` and the
/// carries `low` and `high`: the low 128 bits of `a * b + c` are those of `d`
/// and leave the carry `low`, and the next 128 bits, with that carry, are the
/// high 128 bits of `d` and leave the carry `high`.
pub open spec fn gate_holds(a: Word, b: Word, c: Word, d: Word, low: nat, high: nat) -> bool {
    &&& t0(a, b) + t1(a, b) * limb_base() + lo128(c) == lo128(d) + low * half_base()
    &&& t2(a, b) + t3(a, b) * limb_base() + hi128(c) + low == hi128(d) + high * half_base()
}

/// Whether the two equations of the chip hold of `a`, `b`, `c`, `d` and the
/// carries `low` and `high`.
pub fn gate_satisfied(a: Word, b: Word, c: Word, d: Word, low: u128, high: u128) -> (r: bool)
    ensures
        r == gate_holds(a, b, c, d, low as nat, high as nat),
{
    proof {
        lemma2_to64();
        lemma_pow2_adds(64, 64);
    }
    let part0 = limb_product(a.l0, b.l0);
    let part1 = sum(limb_product(a.l0, b.l1), limb_product(a.l1, b.l0));
    let part2 = sum(
        sum(limb_product(a.l0, b.l2), limb_product(a.l1, b.l1)),
        limb_product(a.l2, b.l0),
    );
    let part3 = sum(
        sum(sum(limb_product(a.l0, b.l3), limb_product(a.l1, b.l2)), limb_product(a.l2, b.l1)),
        limb_product(a.l3, b.l0),
    );
    let ghost m = word_modulus() as int;
    let low_word = Word { l0: low as u64, l1: (low >> 64) as u64, l2: 0, l3: 0 };
    let high_word = Word { l0: high as u64, l1: (high >> 64) as u64, l2: 0, l3: 0 };
    proof {
        assert(low == (low as u64) + ((low >> 64) as u64) * 0x1_0000_0000_0000_0000) by (bit_vector);
        assert(high == (high as u64) + ((high >> 64) as u64) * 0x1_0000_0000_0000_0000)
            by (bit_vector);
        assert(part1.value() * 0x1_0000_0000_0000_0000 < m) by (nonlinear_arith)
            requires
                part1.value() < 2 * (0x1_0000_0000_0000_0000 * 0x1_0000_0000_0000_0000),
                m == 0x1_0000_0000_0000_0000 * 0x1_0000_0000_0000_0000 * 0x1_0000_0000_0000_0000
                    * 0x1_0000_0000_0000_0000,
        ;
        assert(part3.value() * 0x1_0000_0000_0000_0000 < m) by (nonlinear_arith)
            requires
                part3.value() < 4 * (0x1_0000_0000_0000_0000 * 0x1_0000_0000_0000_0000),
                m == 0x1_0000_0000_0000_0000 * 0x1_0000_0000_0000_0000 * 0x1_0000_0000_0000_0000
                    * 0x1_0000_0000_0000_0000,
        ;
        assert(low_word.value() * half_base() < m && high_word.value() * half_base() < m)
            by (nonlinear_arith)
            requires
                low_word.value() < 0x1_0000_0000_0000_0000 * 0x1_0000_0000_0000_0000,
                high_word.value() < 0x1_0000_0000_0000_0000 * 0x1_0000_0000_0000_0000,
                half_base() == 0x1_0000_0000_0000_0000 * 0x1_0000_0000_0000_0000,
                m == 0x1_0000_0000_0000_0000 * 0x1_0000_0000_0000_0000 * 0x1_0000_0000_0000_0000
                    * 0x1_0000_0000_0000_0000,
        ;
        vstd::arithmetic::div_mod::lemma_small_mod(
            (part1.value() * 0x1_0000_0000_0000_0000) as nat,
            word_modulus(),
        );
        vstd::arithmetic::div_mod::lemma_small_mod(
            (part3.value() * 0x1_0000_0000_0000_0000) as nat,
            word_modulus(),
        );
        vstd::arithmetic::div_mod::lemma_small_mod(
            (low_word.value() * half_base()) as nat,
            word_modulus(),
        );
        vstd::arithmetic::div_mod::lemma_small_mod(
            (high_word.value() * half_base()) as nat,
            word_modulus(),
        );
    }
    let shifted1 = shift_left(part1, 64);
    let shifted3 = shift_left(part3, 64);
    let low_shifted = shift_left(low_word, 128);
    let high_shifted = shift_left(high_word, 128);
    let c_lo = low_half(c);
    let c_hi = high_half(c);
    let d_lo = low_half(d);
    let d_hi = high_half(d);
    proof {
        assert(part0.value() + shifted1.value() + c_lo.value() < m && part2.value()
            + shifted3.value() + c_hi.value() + low_word.value() < m && d_lo.value()
            + low_shifted.value() < m && d_hi.value() + high_shifted.value() < m)
            by (nonlinear_arith)
            requires
                part0.value() < 0x1_0000_0000_0000_0000 * 0x1_0000_0000_0000_0000,
                part2.value() < 3 * (0x1_0000_0000_0000_0000 * 0x1_0000_0000_0000_0000),
                c_lo.value() < 0x1_0000_0000_0000_0000 * 0x1_0000_0000_0000_0000,
                c_hi.value() < 0x1_0000_0000_0000_0000 * 0x1_0000_0000_0000_0000,
                d_lo.value() < 0x1_0000_0000_0000_0000 * 0x1_0000_0000_0000_0000,
                d_hi.value() < 0x1_0000_0000_0000_0000 * 0x1_0000_0000_0000_0000,
                low_word.value() < 0x1_0000_0000_0000_0000 * 0x1_0000_0000_0000_0000,
                high_word.value() < 0x1_0000_0000_0000_0000 * 0x1_0000_0000_0000_0000,
                shifted1.value() == part1.value() * 0x1_0000_0000_0000_0000,
                part1.value() < 2 * (0x1_0000_0000_0000_0000 * 0x1_0000_0000_0000_0000),
                shifted3.value() == part3.value() * 0x1_0000_0000_0000_0000,
                part3.value() < 4 * (0x1_0000_0000_0000_0000 * 0x1_0000_0000_0000_0000),
                low_shifted.value() == low_word.value() * (0x1_0000_0000_0000_0000
                    * 0x1_0000_0000_0000_0000),
                high_shifted.value() == high_word.value() * (0x1_0000_0000_0000_0000
                    * 0x1_0000_0000_0000_0000),
                m == 0x1_0000_0000_0000_0000 * 0x1_0000_0000_0000_0000 * 0x1_0000_0000_0000_0000
                    * 0x1_0000_0000_0000_0000,
        ;
    }
    let left_a = sum(sum(part0, shifted1), c_lo);
    let right_a = sum(d_lo, low_shifted);
    let left_b = sum(sum(sum(part2, shifted3), c_hi), low_word);
    let right_b = sum(d_hi, high_shifted);
    proof {
        crate::word::lemma_word_is_canonical(left_a);
        crate::word::lemma_word_is_canonical(right_a);
        crate::word::lemma_word_is_canonical(left_b);
        crate::word::lemma_word_is_canonical(right_b);
    }
    left_a == right_a && left_b == right_b
}

/// The part of the product of `a` and `b` beyond 2^256, in units of 2^256.
pub open spec fn beyond_word(a: Word, b: Word) -> nat {
    ((a.l1 * b.l3 + a.l2 * b.l2 + a.l3 * b.l1) + (a.l2 * b.l3 + a.l3 * b.l2) * limb_base() + a.l3
        * b.l3 * half_base()) as nat
}

/// The product of `x`, a number of four limbs, and one limb `y`.
proof fn lemma_times_limb(x: int, x0: int, x1: int, x2: int, x3: int, y: int)
    requires
        x == x0 + x1 * 0x1_0000_0000_0000_0000 + x2 * 0x1_0000_0000_0000_0000_0000_0000_0000_0000
            + x3 * 0x1_0000_0000_0000_0000_0000_0000_0000_0000_0000_0000_0000_0000,
    ensures
        x * y == (x0 * y) + (x1 * y) * 0x1_0000_0000_0000_0000 + (x2 * y)
            * 0x1_0000_0000_0000_0000_0000_0000_0000_0000 + (x3 * y)
            * 0x1_0000_0000_0000_0000_0000_0000_0000_0000_0000_0000_0000_0000,
{
    assert(x * y == (x0 * y) + (x1 * y) * 0x1_0000_0000_0000_0000 + (x2 * y)
        * 0x1_0000_0000_0000_0000_0000_0000_0000_0000 + (x3 * y)
        * 0x1_0000_0000_0000_0000_0000_0000_0000_0000_0000_0000_0000_0000) by (nonlinear_arith)
        requires
            x == x0 + x1 * 0x1_0000_0000_0000_0000 + x2
                * 0x1_0000_0000_0000_0000_0000_0000_0000_0000 + x3
                * 0x1_0000_0000_0000_0000_0000_0000_0000_0000_0000_0000_0000_0000,
    ;
}

/// The number that a word stands for, with the powers of 2^64 written out.
proof fn lemma_value_written_out(w: Word)
    ensures
        w.value() == w.l0 + w.l1 * 0x1_0000_0000_0000_0000 + w.l2
            * 0x1_0000_0000_0000_0000_0000_0000_0000_0000 + w.l3
            * 0x1_0000_0000_0000_0000_0000_0000_0000_0000_0000_0000_0000_0000,
        lo128(w) == w.l0 + w.l1 * 0x1_0000_0000_0000_0000,
        hi128(w) == w.l2 + w.l3 * 0x1_0000_0000_0000_0000,
        w.value() == lo128(w) + hi128(w) * 0x1_0000_0000_0000_0000_0000_0000_0000_0000,
        limb_base() == 0x1_0000_0000_0000_0000,
        half_base() == 0x1_0000_0000_0000_0000_0000_0000_0000_0000,
        word_modulus()
            == 0x1_0000_0000_0000_0000_0000_0000_0000_0000_0000_0000_0000_0000_0000_0000_0000_0000,
{
    let b = limb_base() as int;
    assert(b * b == 0x1_0000_0000_0000_0000_0000_0000_0000_0000);
    assert(b * b * b == 0x1_0000_0000_0000_0000_0000_0000_0000_0000_0000_0000_0000_0000);
    assert(b * b * b * b
        == 0x1_0000_0000_0000_0000_0000_0000_0000_0000_0000_0000_0000_0000_0000_0000_0000_0000);
    assert(w.l2 * b * b == w.l2 * (b * b)) by (nonlinear_arith);
    assert(w.l3 * b * b * b == w.l3 * (b * b * b)) by (nonlinear_arith);
    assert((w.l3 * b) * (b * b) == w.l3 * (b * b * b)) by (nonlinear_arith);
}

/// The product of two words, by the parts that the chip works with.
pub proof fn lemma_product_by_parts(a: Word, b: Word)
    ensures
        a.value() * b.value() == t0(a, b) + t1(a, b) * limb_base() + t2(a, b) * half_base() + t3(
            a,
            b,
        ) * (half_base() * limb_base()) + beyond_word(a, b) * word_modulus(),
{
    lemma_value_written_out(a);
    lemma_value_written_out(b);
    let av = a.value() as int;
    let bv = b.value() as int;
    let (a0, a1, a2, a3) = (a.l0 as int, a.l1 as int, a.l2 as int, a.l3 as int);
    let (b0, b1, b2, b3) = (b.l0 as int, b.l1 as int, b.l2 as int, b.l3 as int);
    lemma_times_limb(bv, b0, b1, b2, b3, a0);
    lemma_times_limb(bv, b0, b1, b2, b3, a1);
    lemma_times_limb(bv, b0, b1, b2, b3, a2);
    lemma_times_limb(bv, b0, b1, b2, b3, a3);
    lemma_times_limb(av, a0, a1, a2, a3, bv);
    assert(a0 * bv == bv * a0 && a1 * bv == bv * a1 && a2 * bv == bv * a2 && a3 * bv == bv * a3)
        by (nonlinear_arith);
    let p00 = b0 * a0;
    let p01 = b1 * a0;
    let p02 = b2 * a0;
    let p03 = b3 * a0;
    let p10 = b0 * a1;
    let p11 = b1 * a1;
    let p12 = b2 * a1;
    let p13 = b3 * a1;
    let p20 = b0 * a2;
    let p21 = b1 * a2;
    let p22 = b2 * a2;
    let p23 = b3 * a2;
    let p30 = b0 * a3;
    let p31 = b1 * a3;
    let p32 = b2 * a3;
    let p33 = b3 * a3;
    assert(t0(a, b) == p00) by (nonlinear_arith)
        requires
            t0(a, b) == a0 * b0,
            p00 == b0 * a0,
    ;
    assert(t1(a, b) == p01 + p10) by (nonlinear_arith)
        requires
            t1(a, b) == a0 * b1 + a1 * b0,
            p01 == b1 * a0,
            p10 == b0 * a1,
    ;
    assert(t2(a, b) == p02 + p11 + p20) by (nonlinear_arith)
        requires
            t2(a, b) == a0 * b2 + a1 * b1 + a2 * b0,
            p02 == b2 * a0,
            p11 == b1 * a1,
            p20 == b0 * a2,
    ;
    assert(t3(a, b) == p03 + p12 + p21 + p30) by (nonlinear_arith)
        requires
            t3(a, b) == a0 * b3 + a1 * b2 + a2 * b1 + a3 * b0,
            p03 == b3 * a0,
            p12 == b2 * a1,
            p21 == b1 * a2,
            p30 == b0 * a3,
    ;
    assert(beyond_word(a, b) == (p13 + p22 + p31) + (p23 + p32) * 0x1_0000_0000_0000_0000 + p33
        * 0x1_0000_0000_0000_0000_0000_0000_0000_0000) by (nonlinear_arith)
        requires
            beyond_word(a, b) == (a1 * b3 + a2 * b2 + a3 * b1) + (a2 * b3 + a3 * b2)
                * 0x1_0000_0000_0000_0000 + a3 * b3 * 0x1_0000_0000_0000_0000_0000_0000_0000_0000,
            p13 == b3 * a1,
            p22 == b2 * a2,
            p31 == b1 * a3,
            p23 == b3 * a2,
            p32 == b2 * a3,
            p33 == b3 * a3,
    ;
    let r0 = bv * a0;
    let r1 = bv * a1;
    let r2 = bv * a2;
    let r3 = bv * a3;
    assert(av * bv == r0 + r1 * 0x1_0000_0000_0000_0000 + r2
        * 0x1_0000_0000_0000_0000_0000_0000_0000_0000 + r3
        * 0x1_0000_0000_0000_0000_0000_0000_0000_0000_0000_0000_0000_0000);
}

/// Where the two equations of the chip hold, `d` is `a * b + c` modulo
/// 2^256.
pub proof fn lemma_gate_is_sound(a: Word, b: Word, c: Word, d: Word, low: nat, high: nat)
    requires
        gate_holds(a, b, c, d, low, high),
    ensures
        (a.value() * b.value() + c.value()) % word_modulus() == d.value(),
{
    lemma_product_by_parts(a, b);
    lemma_value_written_out(c);
    lemma_value_written_out(d);
    let m = word_modulus() as int;
    let quotient: int = (high + beyond_word(a, b)) as int;
    let total: int = (a.value() * b.value() + c.value()) as int;
    assert(total == d.value() + quotient * m) by {
        assert(quotient * m == high * m + beyond_word(a, b) * m) by (nonlinear_arith)
            requires
                quotient == high + beyond_word(a, b),
        ;
        assert(high * m == (high * 0x1_0000_0000_0000_0000_0000_0000_0000_0000)
            * 0x1_0000_0000_0000_0000_0000_0000_0000_0000) by (nonlinear_arith)
            requires
                m
                    == 0x1_0000_0000_0000_0000_0000_0000_0000_0000_0000_0000_0000_0000_0000_0000_0000_0000,
        ;
        assert(t3(a, b) * (half_base() * limb_base()) == (t3(a, b) * 0x1_0000_0000_0000_0000)
            * 0x1_0000_0000_0000_0000_0000_0000_0000_0000) by (nonlinear_arith)
            requires
                half_base() == 0x1_0000_0000_0000_0000_0000_0000_0000_0000,
                limb_base() == 0x1_0000_0000_0000_0000,
        ;
    }
    crate::word::lemma_word_is_canonical(d);
    vstd::arithmetic::div_mod::lemma_fundamental_div_mod_converse(total, m, quotient, d.value() as int);
}

/// The product of two limbs is below 2^128.
proof fn lemma_limb_product_bound(x: u64, y: u64)
    ensures
        0 <= x * y < half_base(),
        half_base() == 0x1_0000_0000_0000_0000_0000_0000_0000_0000,
{
    let xi = x as int;
    let yi = y as int;
    assert(0 <= xi * yi < 0x1_0000_0000_0000_0000 * 0x1_0000_0000_0000_0000) by (nonlinear_arith)
        requires
            0 <= xi < 0x1_0000_0000_0000_0000,
            0 <= yi < 0x1_0000_0000_0000_0000,
    ;
}

/// The sizes of the parts of a product.
proof fn lemma_part_bounds(a: Word, b: Word)
    ensures
        t0(a, b) < half_base(),
        t1(a, b) < 2 * half_base(),
        t2(a, b) < 3 * half_base(),
        t3(a, b) < 4 * half_base(),
{
    lemma_limb_product_bound(a.l0, b.l0);
    lemma_limb_product_bound(a.l0, b.l1);
    lemma_limb_product_bound(a.l1, b.l0);
    lemma_limb_product_bound(a.l0, b.l2);
    lemma_limb_product_bound(a.l1, b.l1);
    lemma_limb_product_bound(a.l2, b.l0);
    lemma_limb_product_bound(a.l0, b.l3);
    lemma_limb_product_bound(a.l1, b.l2);
    lemma_limb_product_bound(a.l2, b.l1);
    lemma_limb_product_bound(a.l3, b.l0);
}

/// Where `d` is `a * b + c` modulo 2^256, the two equations of the chip hold
/// with the carries that the chip is given, and each carry fits in the nine
/// bytes that the chip has for it.
pub proof fn lemma_gate_is_complete(a: Word, b: Word, c: Word, d: Word)
    requires
        (a.value() * b.value() + c.value()) % word_modulus() == d.value(),
    ensures
        gate_holds(a, b, c, d, carry_lo(a, b, c, d), carry_hi(a, b, c, d)),
        carry_lo(a, b, c, d) < pow2(72),
        carry_hi(a, b, c, d) < pow2(72),
{
    lemma_product_by_parts(a, b);
    lemma_value_written_out(a);
    lemma_value_written_out(c);
    lemma_value_written_out(d);
    lemma_part_bounds(a, b);
    crate::word::lemma_word_is_canonical(c);
    crate::word::lemma_word_is_canonical(d);
    let m: int =
        0x1_0000_0000_0000_0000_0000_0000_0000_0000_0000_0000_0000_0000_0000_0000_0000_0000int;
    let h: int = 0x1_0000_0000_0000_0000_0000_0000_0000_0000int;
    let base: int = 0x1_0000_0000_0000_0000int;
    let s0 = t0(a, b) as int;
    let s1 = t1(a, b) as int;
    let s2 = t2(a, b) as int;
    let s3 = t3(a, b) as int;
    let u = beyond_word(a, b) as int;
    let clo = lo128(c) as int;
    let chi = hi128(c) as int;
    let dlo = lo128(d) as int;
    let dhi = hi128(d) as int;
    let total: int = (a.value() * b.value() + c.value()) as int;
    let k: int = total / m;
    vstd::arithmetic::div_mod::lemma_fundamental_div_mod(total, m);
    assert(m * k == k * m) by (nonlinear_arith);
    assert(u * m == (u * h) * h) by (nonlinear_arith)
        requires
            m == h * h,
    ;
    assert(k * m == (k * h) * h) by (nonlinear_arith)
        requires
            m == h * h,
    ;
    assert(s3 * (half_base() * limb_base()) == (s3 * base) * h) by (nonlinear_arith)
        requires
            half_base() == h,
            limb_base() == base,
    ;
    assert(clo < h && chi < h && dlo < h && dhi < h && clo >= 0 && chi >= 0 && dlo >= 0 && dhi
        >= 0) by {
        assert(c.l0 + c.l1 * base < h && c.l2 + c.l3 * base < h && d.l0 + d.l1 * base < h && d.l2
            + d.l3 * base < h) by (nonlinear_arith)
            requires
                c.l0 < base,
                c.l1 < base,
                c.l2 < base,
                c.l3 < base,
                d.l0 < base,
                d.l1 < base,
                d.l2 < base,
                d.l3 < base,
                base == 0x1_0000_0000_0000_0000,
                h == 0x1_0000_0000_0000_0000_0000_0000_0000_0000,
        ;
    }
    let low_sum: int = s0 + s1 * base + clo;
    let q1: int = (k * h - u * h) + dhi - s2 - s3 * base - chi;
    assert(low_sum - dlo == q1 * h) by (nonlinear_arith)
        requires
            total == s0 + s1 * base + s2 * h + (s3 * base) * h + (u * h) * h + (clo + chi * h),
            total == (k * h) * h + (dlo + dhi * h),
            low_sum == s0 + s1 * base + clo,
            q1 == (k * h - u * h) + dhi - s2 - s3 * base - chi,
    ;
    assert(s1 * base < 2 * h * base) by (nonlinear_arith)
        requires
            s1 < 2 * h,
            base > 0,
    ;
    assert(q1 >= 0 && q1 < 2 * base + 2) by (nonlinear_arith)
        requires
            low_sum - dlo == q1 * h,
            0 <= low_sum < h + 2 * h * base + h,
            0 <= dlo < h,
            h == 0x1_0000_0000_0000_0000_0000_0000_0000_0000,
            base == 0x1_0000_0000_0000_0000,
    ;
    assert(0 <= low_sum - dlo < m);
    vstd::arithmetic::div_mod::lemma_small_mod((low_sum - dlo) as nat, m as nat);
    vstd::arithmetic::div_mod::lemma_fundamental_div_mod_converse(low_sum - dlo, h, q1, 0);
    assert(carry_lo(a, b, c, d) == q1);
    let high_sum: int = s2 + s3 * base + chi + q1;
    let q2: int = k - u;
    assert(high_sum - dhi == q2 * h) by (nonlinear_arith)
        requires
            high_sum == s2 + s3 * base + chi + q1,
            q1 == (k * h - u * h) + dhi - s2 - s3 * base - chi,
            q2 == k - u,
    ;
    assert(s3 * base < 4 * h * base) by (nonlinear_arith)
        requires
            s3 < 4 * h,
            base > 0,
    ;
    assert(q2 >= 0 && q2 < 4 * base + 5) by (nonlinear_arith)
        requires
            high_sum - dhi == q2 * h,
            0 <= high_sum < 3 * h + 4 * h * base + h + 2 * base + 2,
            0 <= dhi < h,
            h == 0x1_0000_0000_0000_0000_0000_0000_0000_0000,
            base == 0x1_0000_0000_0000_0000,
    ;
    assert(0 <= high_sum - dhi < m);
    vstd::arithmetic::div_mod::lemma_small_mod((high_sum - dhi) as nat, m as nat);
    vstd::arithmetic::div_mod::lemma_fundamental_div_mod_converse(high_sum - dhi, h, q2, 0);
    assert(carry_hi(a, b, c, d) == q2);
    assert(q1 * h == carry_lo(a, b, c, d) * half_base());
    assert(q2 * h == carry_hi(a, b, c, d) * half_base());
    lemma2_to64();
    vstd::arithmetic::power2::lemma2_to64_rest();
    lemma_pow2_adds(64, 8);
    assert(pow2(72) == base * 0x100);
}

} // verus!
