use bus_mapping::mul_add::{carries, gate_satisfied, Cell, MulAddChip, Query};
use bus_mapping::word::Word;
use ethers_core::types::U256;

fn word(n: U256) -> Word {
    Word { l0: n.0[0], l1: n.0[1], l2: n.0[2], l3: n.0[3] }
}

fn number(w: Word) -> U256 {
    U256([w.l0, w.l1, w.l2, w.l3])
}

/// The carry that nine byte cells stand for, the least significant first.
fn carry_of(cells: &[Cell]) -> u128 {
    assert_eq!(cells.len(), 10);
    let mut carry: u128 = 0;
    for (k, cell) in cells[..9].iter().enumerate() {
        assert!(cell.value < 256);
        carry += cell.value << (8 * k);
    }
    carry
}

/// Whether the values that the chip assigns for `a * b + c == d` meet its
/// two equations.
fn satisfied(a: Word, b: Word, c: Word, d: Word) -> bool {
    let chip = MulAddChip::construct(MulAddChip::configure());
    let cells = chip.assign(0, [a, b, c, d]);
    gate_satisfied(a, b, c, d, carry_of(&cells[15..25]), carry_of(&cells[25..35]))
}

/// Words that follow one another without a pattern.
struct Words(u64);

impl Words {
    fn next_limb(&mut self) -> u64 {
        self.0 ^= self.0 << 13;
        self.0 ^= self.0 >> 7;
        self.0 ^= self.0 << 17;
        self.0
    }

    fn next(&mut self) -> Word {
        Word {
            l0: self.next_limb(),
            l1: self.next_limb(),
            l2: self.next_limb(),
            l3: self.next_limb(),
        }
    }
}

#[test]
fn mul_over_rows() {
    let mut words = Words(0x9e37_79b9_7f4a_7c15);
    let n = 100;
    let mut values = Vec::with_capacity(n);
    for _ in 0..n {
        let a = words.next();
        let b = words.next();
        let (d, _) = number(a).overflowing_mul(number(b));
        values.push((a, b, word(d)));
    }

    let config = MulAddChip::configure();
    let chip = MulAddChip::construct(config);
    let mut offset = 0;
    for (a, b, d) in values.iter() {
        let cells = chip.assign(offset, [*a, *b, Word::zero(), *d]);
        assert_eq!(cells.len(), 35);
        assert!(cells.iter().all(|cell| offset <= cell.row && cell.row < offset + 7));
        assert!(satisfied(*a, *b, Word::zero(), *d));
        offset += 7
    }

    let mut flip = Words(65535);
    for (a, b, d) in values.into_iter() {
        let wrong = if flip.next_limb() % 2 == 0 {
            number(d).overflowing_add(U256::one()).0
        } else {
            number(d).overflowing_sub(U256::one()).0
        };
        assert!(!satisfied(a, b, Word::zero(), word(wrong)));
    }
}

#[test]
fn the_check_of_a_sum_with_a_product() {
    let mut words = Words(0x0123_4567_89ab_cdef);
    for _ in 0..100 {
        let a = words.next();
        let b = words.next();
        let c = words.next();
        let (product, _) = number(a).overflowing_mul(number(b));
        let (d, _) = product.overflowing_add(number(c));
        assert!(satisfied(a, b, c, word(d)));
        assert!(!satisfied(a, b, c, word(d.overflowing_add(U256::one()).0)));
        assert!(!satisfied(a, b, word(number(c).overflowing_add(U256::one()).0), word(d)));
    }
}

#[test]
fn the_cells_of_a_small_check() {
    let chip = MulAddChip::construct(MulAddChip::configure());
    let cells =
        chip.assign(14, [Word::from_u64(2), Word::from_u64(3), Word::from_u64(4), Word::from_u64(10)]);
    let row = |row: usize, values: [u128; 5]| -> Vec<Cell> {
        values.iter().enumerate().map(|(column, value)| Cell { column, row, value: *value }).collect()
    };
    let mut expected = vec![];
    expected.extend(row(14, [2, 0, 0, 0, 0]));
    expected.extend(row(15, [3, 0, 0, 0, 0]));
    expected.extend(row(16, [4, 0, 10, 0, 0]));
    expected.extend(row(17, [0, 0, 0, 0, 0]));
    expected.extend(row(18, [0, 0, 0, 0, 0]));
    expected.extend(row(19, [0, 0, 0, 0, 0]));
    expected.extend(row(20, [0, 0, 0, 0, 0]));
    assert_eq!(cells, expected);
}

#[test]
fn the_cells_of_a_check_with_carries() {
    let max = Word { l0: u64::MAX, l1: u64::MAX, l2: u64::MAX, l3: u64::MAX };
    // (2^256 - 1)^2 + (2^256 - 1) is (2^256 - 1) * 2^256: d is 0.
    let d = Word::zero();
    let chip = MulAddChip::construct(MulAddChip::configure());
    let cells = chip.assign(0, [max, max, max, d]);
    let limb = u64::MAX as u128;
    assert_eq!(
        cells[..15].to_vec(),
        vec![
            Cell { column: 0, row: 0, value: limb },
            Cell { column: 1, row: 0, value: limb },
            Cell { column: 2, row: 0, value: limb },
            Cell { column: 3, row: 0, value: limb },
            Cell { column: 4, row: 0, value: 0 },
            Cell { column: 0, row: 1, value: limb },
            Cell { column: 1, row: 1, value: limb },
            Cell { column: 2, row: 1, value: limb },
            Cell { column: 3, row: 1, value: limb },
            Cell { column: 4, row: 1, value: 0 },
            Cell { column: 0, row: 2, value: u128::MAX },
            Cell { column: 1, row: 2, value: u128::MAX },
            Cell { column: 2, row: 2, value: 0 },
            Cell { column: 3, row: 2, value: 0 },
            Cell { column: 4, row: 2, value: 0 },
        ]
    );
    // t0 = (2^64 - 1)^2, t1 = 2 t0, c_lo = 2^128 - 1:
    // t0 + 2^64 t1 + c_lo = 2^128 (2^65 - 2).
    let low: u128 = (1 << 65) - 2;
    // t2 = 3 t0, t3 = 4 t0, c_hi = 2^128 - 1:
    // t2 + 2^64 t3 + c_hi + low = 2^128 (2^66 - 4).
    let high: u128 = (1 << 66) - 4;
    assert_eq!(carry_of(&cells[15..25]), low);
    assert_eq!(carry_of(&cells[25..35]), high);
    assert_eq!(cells[15], Cell { column: 0, row: 3, value: 0xfe });
    assert_eq!(cells[19], Cell { column: 4, row: 3, value: 0xff });
    assert_eq!(cells[20], Cell { column: 0, row: 4, value: 0xff });
    assert_eq!(cells[23], Cell { column: 3, row: 4, value: 0x01 });
    assert_eq!(cells[24], Cell { column: 4, row: 4, value: 0 });
    assert_eq!(cells[25], Cell { column: 0, row: 5, value: 0xfc });
    assert_eq!(cells[33], Cell { column: 3, row: 6, value: 0x03 });
    assert_eq!(cells[34], Cell { column: 4, row: 6, value: 0 });
    let (carry_lo, carry_hi) = carries(max, max, max, d);
    assert_eq!(carry_lo, Word { l0: low as u64, l1: (low >> 64) as u64, l2: 0, l3: 0 });
    assert_eq!(carry_hi, Word { l0: high as u64, l1: (high >> 64) as u64, l2: 0, l3: 0 });
    assert!(gate_satisfied(max, max, max, d, low, high));
    assert!(!gate_satisfied(max, max, max, d, low + 1, high));
    assert!(!gate_satisfied(max, max, max, d, low, high - 1));
}

#[test]
fn the_cells_that_the_chip_reads() {
    let config = MulAddChip::configure();
    assert_eq!(config.rows, 7);
    let q = |column: usize, rotation: i32| Query { column, rotation };
    assert_eq!(config.a_limbs_cur(), (q(0, 0), q(1, 0), q(2, 0), q(3, 0)));
    assert_eq!(config.b_limbs_cur(), (q(0, 1), q(1, 1), q(2, 1), q(3, 1)));
    assert_eq!(config.c_lo_hi_cur(), (q(0, 2), q(1, 2)));
    assert_eq!(config.d_lo_hi_cur(), (q(2, 2), q(3, 2)));
    assert_eq!(config.d_lo_hi_next(), (q(2, 9), q(3, 9)));
    assert_eq!(
        config.carry_lo_cells(),
        vec![q(0, 3), q(1, 3), q(2, 3), q(3, 3), q(4, 3), q(0, 4), q(1, 4), q(2, 4), q(3, 4)]
    );
    assert_eq!(
        config.carry_hi_cells(),
        vec![q(0, 5), q(1, 5), q(2, 5), q(3, 5), q(4, 5), q(0, 6), q(1, 6), q(2, 6), q(3, 6)]
    );
    assert_eq!(MulAddChip::construct(config).config, config);
}
