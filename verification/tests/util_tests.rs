use bus_mapping::field::Fe;
use bus_mapping::operation::TxLogFieldTag;
use bus_mapping::util::{
    build_tx_log_address, build_tx_log_expression, log2_ceil, powers_of, rlc_be_bytes, Challenges,
    MockChallenges, DEFAULT_RAND,
};
use bus_mapping::word::{Address, Word};
#[test]
fn log2_ceil_of_small_numbers() {
    assert_eq!(log2_ceil(1), 0);
    assert_eq!(log2_ceil(2), 1);
    assert_eq!(log2_ceil(3), 2);
    assert_eq!(log2_ceil(4), 2);
    assert_eq!(log2_ceil(5), 3);
    assert_eq!(log2_ceil(8), 3);
    assert_eq!(log2_ceil(9), 4);
}

#[test]
fn log2_ceil_of_large_numbers() {
    assert_eq!(log2_ceil(1 << 31), 31);
    assert_eq!(log2_ceil((1 << 31) + 1), 32);
    assert_eq!(log2_ceil(u32::MAX as usize), 32);
    assert_eq!(log2_ceil(65535), 16);
    assert_eq!(log2_ceil(65536), 16);
    assert_eq!(log2_ceil(65537), 17);
}



/// The prime of the field, less `less`.
fn prime_less(less: u64) -> Word {
    Word {
        l0: 0x992d_30ed_0000_0001 - less,
        l1: 0x2246_98fc_094c_f91b,
        l2: 0,
        l3: 0x4000_0000_0000_0000,
    }
}

fn fe(v: u64) -> Fe {
    Fe::from_u64(v)
}

#[test]
fn the_key_of_a_log_operation_packs_three_numbers() {
    assert_eq!(
        build_tx_log_address(5, TxLogFieldTag::Topic, 3),
        Address { hi: 0, mid: 0, lo: 5 + (2 << 32) + (3 << 48) }
    );
    assert_eq!(
        build_tx_log_address(0, TxLogFieldTag::Address, 0),
        Address { hi: 0, mid: 0, lo: 1 << 32 }
    );
    assert_eq!(
        build_tx_log_address(0, TxLogFieldTag::Data, 1),
        Address { hi: 0, mid: 0, lo: (3 << 32) + (1 << 48) }
    );
    for (index, tag, number, log_id) in [
        (u64::MAX, TxLogFieldTag::Data, 3u128, u64::MAX),
        (1 << 40, TxLogFieldTag::Address, 1u128, 1 << 20),
        (7, TxLogFieldTag::Topic, 2u128, 0xffff_0000_0000_0001),
    ] {
        let key = index as u128 + (number << 32) + ((log_id as u128) << 48);
        assert_eq!(
            build_tx_log_address(index, tag, log_id),
            Address { hi: 0, mid: (key >> 64) as u64, lo: key as u64 }
        );
    }
}

#[test]
fn the_key_of_a_log_operation_in_the_field() {
    assert_eq!(
        build_tx_log_expression(fe(5), fe(2), fe(3)),
        fe(5 + (2 << 32) + (3 << 48))
    );
    // The prime less 1 is -1: -1 - 2^32 - 2^48 is the prime less 2^48 + 2^32 + 1.
    let minus_one = Fe::from_word(prime_less(1)).unwrap();
    assert_eq!(
        build_tx_log_expression(minus_one, minus_one, minus_one).to_word(),
        prime_less((1 << 48) + (1 << 32) + 1)
    );
}

#[test]
fn a_word_and_its_address() {
    let word = Word { l0: 1, l1: 2, l2: 0xdead_beef_1234_5678, l3: 7 };
    let address = word.to_address();
    assert_eq!(address, Address { hi: 0x1234_5678, mid: 2, lo: 1 });
    assert_eq!(address.to_word(), Word { l0: 1, l1: 2, l2: 0x1234_5678, l3: 0 });
    assert_eq!(Address::zero().to_word(), Word::zero());
    assert!(Word::zero().is_zero());
    assert!(!word.is_zero());
    assert!(!Word { l0: 0, l1: 0, l2: 0, l3: 1 }.is_zero());
    assert_eq!(Word::from_u64(9).as_u64(), Some(9));
    assert_eq!(word.as_u64(), None);
    assert_eq!(Word { l0: 5, l1: 1, l2: 0, l3: 0 }.as_u64(), None);
    assert_eq!(Word::from_flag(true), Word::from_u64(1));
    assert_eq!(Word::from_flag(false), Word::zero());
}

#[test]
fn a_word_and_its_bytes() {
    assert_eq!(Word::from_big_endian(&[]), Word::zero());
    assert_eq!(Word::from_big_endian(&[1, 2]), Word::from_u64(0x0102));
    let bytes: Vec<u8> = (1u8..=32).collect();
    let word = Word {
        l3: 0x0102_0304_0506_0708,
        l2: 0x090a_0b0c_0d0e_0f10,
        l1: 0x1112_1314_1516_1718,
        l0: 0x191a_1b1c_1d1e_1f20,
    };
    assert_eq!(Word::from_big_endian(&bytes), word);
    assert_eq!(word.to_big_endian(), bytes);
    assert_eq!(Word::from_big_endian(&bytes[23..]), Word { l0: 0x191a_1b1c_1d1e_1f20, l1: 0x18, l2: 0, l3: 0 });
    let mut one = vec![0u8; 32];
    one[31] = 1;
    assert_eq!(Word::from_u64(1).to_big_endian(), one);
}

#[test]
fn the_elements_of_the_field_are_below_the_prime() {
    assert_eq!(Fe::from_word(prime_less(0)), None);
    assert_eq!(Fe::from_word(Word { l0: 0, l1: 0, l2: 1, l3: 0x4000_0000_0000_0000 }), None);
    assert_eq!(Fe::from_word(Word { l0: 0, l1: 0, l2: 0, l3: 0x4000_0000_0000_0001 }), None);
    assert_eq!(
        Fe::from_word(Word { l0: 0, l1: 0x2246_98fc_094c_f91c, l2: 0, l3: 0x4000_0000_0000_0000 }),
        None
    );
    assert_eq!(Fe::from_word(Word { l0: u64::MAX, l1: u64::MAX, l2: u64::MAX, l3: u64::MAX }), None);
    assert_eq!(Fe::from_word(prime_less(1)).unwrap().to_word(), prime_less(1));
    let below = Word { l0: u64::MAX, l1: u64::MAX, l2: u64::MAX, l3: 0x3fff_ffff_ffff_ffff };
    assert_eq!(Fe::from_word(below).unwrap().to_word(), below);
    assert_eq!(Fe::from_word(Word::from_u64(7)), Some(fe(7)));
    assert_eq!(fe(7).to_word(), Word::from_u64(7));
}

#[test]
fn sums_and_products_in_the_field() {
    let minus_one = Fe::from_word(prime_less(1)).unwrap();
    assert_eq!(fe(6).times(&fe(7)), fe(42));
    assert_eq!(fe(6).plus(&fe(7)), fe(13));
    assert_eq!(minus_one.times(&minus_one), fe(1));
    assert_eq!(minus_one.plus(&fe(2)), fe(1));
    assert_eq!(minus_one.plus(&minus_one).to_word(), prime_less(2));
    assert_eq!(minus_one.times(&fe(3)).to_word(), prime_less(3));
    assert_eq!(fe(0).times(&minus_one), fe(0));
    assert_eq!(
        fe(u64::MAX).times(&fe(u64::MAX)).to_word(),
        Word { l0: 1, l1: u64::MAX - 1, l2: 0, l3: 0 }
    );
}

#[test]
fn the_random_linear_combination_of_bytes() {
    assert_eq!(rlc_be_bytes(&[1, 2, 3], Some(fe(0x100))), Some(fe(66051)));
    assert_eq!(rlc_be_bytes(&[1, 2, 3], Some(fe(10))), Some(fe(123)));
    assert_eq!(rlc_be_bytes(&[], Some(fe(10))), Some(fe(0)));
    assert_eq!(rlc_be_bytes(&[255], Some(fe(10))), Some(fe(255)));
    assert_eq!(rlc_be_bytes(&[1, 2, 3], None), None);
    assert_eq!(rlc_be_bytes(&[1, 2, 3], Some(fe(DEFAULT_RAND as u64))), Some(fe((1 << 32) + (2 << 16) + 3)));
    // With the challenge -1: (1 * -1 + 2) * -1 + 3 is 2.
    let minus_one = Fe::from_word(prime_less(1)).unwrap();
    assert_eq!(rlc_be_bytes(&[1, 2, 3], Some(minus_one)), Some(fe(2)));
    assert_eq!(rlc_be_bytes(&[0, 0, 5], Some(minus_one)), Some(fe(5)));
    assert_eq!(rlc_be_bytes(&[5, 0], Some(minus_one)).unwrap().to_word(), prime_less(5));
}

#[test]
fn the_powers_of_a_challenge() {
    assert_eq!(powers_of(fe(3), 4), vec![fe(3), fe(9), fe(27), fe(81)]);
    assert_eq!(powers_of(fe(3), 1), vec![fe(3)]);
    assert_eq!(powers_of(fe(3), 0), vec![]);
    let minus_one = Fe::from_word(prime_less(1)).unwrap();
    assert_eq!(powers_of(minus_one, 3), vec![minus_one, fe(1), minus_one]);
    let challenges = Challenges::mock(fe(2), fe(5), fe(10));
    assert_eq!(challenges.evm_word_powers_of_randomness(3), vec![fe(2), fe(4), fe(8)]);
    assert_eq!(challenges.lookup_input_powers_of_randomness(2), vec![fe(10), fe(100)]);
}

#[test]
fn the_challenges_by_name_and_by_index() {
    let challenges = Challenges::mock("word".to_string(), "hash".to_string(), "lookup".to_string());
    assert_eq!(challenges.evm_word(), "word");
    assert_eq!(challenges.keccak_input(), "hash");
    assert_eq!(challenges.lookup_input(), "lookup");
    assert_eq!(challenges.indexed(), [&"word".to_string(), &"hash".to_string(), &"lookup".to_string()]);
    let unset: Challenges<u64> = Challenges::default();
    assert_eq!(unset.indexed(), [&0, &0, &0]);
}

#[test]
fn the_fixed_challenges() {
    let mock = MockChallenges::construct();
    assert_eq!(mock.values().indexed(), [&0x10000, &0x100000, &0x1000000]);
    assert_eq!(mock.exprs().indexed(), [&0x10000, &0x100000, &0x1000000]);
    assert_eq!(mock.values().evm_word(), 0x10000);
    assert_eq!(mock.values().keccak_input(), 0x100000);
    assert_eq!(mock.values().lookup_input(), 0x1000000);
    assert_eq!(MockChallenges::default().values().indexed(), [&0, &0, &0]);
    assert_eq!(DEFAULT_RAND, 0x10000);
}
