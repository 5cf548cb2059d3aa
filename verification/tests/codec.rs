use basebits::codec::{extract_bits, LENGTH_EXCEEDED};
use basebits::{
    Base, BaseBits, CONTAINER_WIDTH, ENCODING_DIST, ENCODING_LENGTH, MAX_BASES, MAX_VAL,
    UNDETERMINED,
};

#[test]
fn constants_are_consistent() {
    assert_eq!(ENCODING_DIST, 2);
    assert_eq!(ENCODING_LENGTH, 3);
    assert_eq!(CONTAINER_WIDTH, 64);
    assert_eq!(MAX_BASES, 21);
    assert_eq!(MAX_BASES, (CONTAINER_WIDTH / ENCODING_LENGTH) as usize);
    assert_eq!(UNDETERMINED, 0b100);
    assert_eq!(MAX_VAL, u64::MAX);
}

#[test]
fn base_codes() {
    assert_eq!(Base::A.bits(), 0b000);
    assert_eq!(Base::C.bits(), 0b110);
    assert_eq!(Base::T.bits(), 0b101);
    assert_eq!(Base::G.bits(), 0b011);
    assert_eq!(Base::N.bits(), UNDETERMINED);
}

#[test]
fn determined_codes_differ_in_two_bits() {
    let bases = [Base::A, Base::C, Base::G, Base::T];
    for x in bases {
        for y in bases {
            let expected = if x == y { 0 } else { ENCODING_DIST };
            assert_eq!((x.bits() ^ y.bits()).count_ones(), expected);
        }
    }
}

#[test]
fn base_from_byte() {
    assert_eq!(Base::from_byte(b'A'), Base::A);
    assert_eq!(Base::from_byte(b'C'), Base::C);
    assert_eq!(Base::from_byte(b'G'), Base::G);
    assert_eq!(Base::from_byte(b'T'), Base::T);
    assert_eq!(Base::from_byte(b'N'), Base::N);
    assert_eq!(Base::from_byte(b'a'), Base::N);
    assert_eq!(Base::from_byte(b'9'), Base::N);
    assert_eq!(Base::from_byte(0), Base::N);
    assert_eq!(Base::from_byte(255), Base::N);
}

#[test]
fn base_to_byte() {
    assert_eq!(Base::A.to_byte(), b'A');
    assert_eq!(Base::C.to_byte(), b'C');
    assert_eq!(Base::G.to_byte(), b'G');
    assert_eq!(Base::T.to_byte(), b'T');
    assert_eq!(Base::N.to_byte(), b'N');
}

#[test]
fn base_from_bits() {
    assert_eq!(Base::from_bits(0b000), Base::A);
    assert_eq!(Base::from_bits(0b110), Base::C);
    assert_eq!(Base::from_bits(0b101), Base::T);
    assert_eq!(Base::from_bits(0b011), Base::G);
    assert_eq!(Base::from_bits(0b100), Base::N);
    assert_eq!(Base::from_bits(0b001), Base::N);
    assert_eq!(Base::from_bits(0b010), Base::N);
    assert_eq!(Base::from_bits(0b111), Base::N);
    assert_eq!(Base::from_bits(8), Base::N);
}

#[test]
fn base_known_bits() {
    assert!(Base::A.is_determined());
    assert!(Base::C.is_determined());
    assert!(Base::G.is_determined());
    assert!(Base::T.is_determined());
    assert!(!Base::N.is_determined());
    assert_eq!(Base::A.known_bits(), 0b111);
    assert_eq!(Base::T.known_bits(), 0b111);
    assert_eq!(Base::N.known_bits(), 0b000);
}

#[test]
fn extract_low_bits() {
    assert_eq!(extract_bits(0b101_110, 3), 0b110);
    assert_eq!(extract_bits(0b101_110, 0), 0);
    assert_eq!(extract_bits(0b101_110, 1), 0);
    assert_eq!(extract_bits(0b101_110, 4), 0b1110);
    assert_eq!(extract_bits(u64::MAX, 3), 0b111);
    assert_eq!(extract_bits(u64::MAX, 63), u64::MAX >> 1);
    assert_eq!(extract_bits(0, 3), 0);
}

#[test]
fn encode_packs_groups_in_input_order() {
    let bb = BaseBits::new(b"ACTG").unwrap();
    assert_eq!(bb.code, 0b000_110_101_011);
    assert_eq!(bb.code(), 0b000_110_101_011);
    assert_eq!(bb.len(), 4);
    assert_eq!(bb.mask(), u64::MAX);
}

#[test]
fn encode_marks_undetermined_groups() {
    let bb = BaseBits::new(b"ANT").unwrap();
    assert_eq!(bb.code, 0b000_100_101);
    assert_eq!(bb.mask(), !0b000_111_000u64);
    assert_eq!(bb.len(), 3);
}

#[test]
fn encode_reads_unrecognized_bytes_as_undetermined() {
    let with_n = BaseBits::new(b"ACNT").unwrap();
    let with_digit = BaseBits::new(b"AC9T").unwrap();
    let with_lower = BaseBits::new(b"ACgT").unwrap();
    assert_eq!(with_n, with_digit);
    assert_eq!(with_n, with_lower);
}

#[test]
fn encode_empty() {
    let bb = BaseBits::new(b"").unwrap();
    assert_eq!(bb.code, 0);
    assert_eq!(bb.mask(), u64::MAX);
    assert_eq!(bb.len(), 0);
    assert_eq!(bb.decode(), Vec::<u8>::new());
    assert_eq!(bb.to_string(), String::new());
}

#[test]
fn encode_at_capacity() {
    let text = b"TTTTTTTTTTTTTTTTTTTTT";
    assert_eq!(text.len(), MAX_BASES);
    let bb = BaseBits::new(text).unwrap();
    assert_eq!(bb.len(), MAX_BASES);
    assert_eq!(bb.code, 0o555555555555555555555);
    assert_eq!(bb.code >> 63, 0);
    assert_eq!(bb.mask(), u64::MAX);
    assert_eq!(bb.decode(), text.to_vec());
}

#[test]
fn encode_over_capacity_fails() {
    let text = b"ACGTACGTACGTACGTACGTAC";
    assert_eq!(text.len(), MAX_BASES + 1);
    assert_eq!(BaseBits::new(text), Err(LENGTH_EXCEEDED));
    assert_eq!(
        BaseBits::new(text),
        Err("Length of string to encode exceeds MAX_BASES")
    );
    let longer = [b'A'; 100];
    assert!(BaseBits::new(&longer).is_err());
}

#[test]
fn decode_round_trip() {
    let texts: [&[u8]; 6] = [
        b"A",
        b"ACGT",
        b"TGCA",
        b"GATACA",
        b"CATACAGATACTTCCATAGCT",
        b"AAAAAAAAAAAAAAAAAAAAA",
    ];
    for text in texts {
        assert_eq!(BaseBits::new(text).unwrap().decode(), text.to_vec());
    }
}

#[test]
fn decode_keeps_leading_a() {
    assert_eq!(BaseBits::new(b"AAC").unwrap().decode(), b"AAC".to_vec());
    assert_eq!(BaseBits::new(b"C").unwrap().decode(), b"C".to_vec());
    assert_ne!(BaseBits::new(b"AAC").unwrap(), BaseBits::new(b"C").unwrap());
    assert_eq!(
        BaseBits::new(b"AAC").unwrap().code,
        BaseBits::new(b"C").unwrap().code
    );
}

#[test]
fn decode_wildcard_round_trip() {
    assert_eq!(BaseBits::new(b"N").unwrap().decode(), b"N".to_vec());
    assert_eq!(BaseBits::new(b"9").unwrap().decode(), b"N".to_vec());
    assert_eq!(BaseBits::new(b"x").unwrap().decode(), b"N".to_vec());
    assert_eq!(BaseBits::new(&[0u8]).unwrap().decode(), b"N".to_vec());
    assert_eq!(BaseBits::new(b"AC?TnG").unwrap().decode(), b"ACNTNG".to_vec());
}

#[test]
fn to_string_matches_decode() {
    let texts: [&[u8]; 4] = [b"GCTAN", b"NNNN", b"ACGT", b"GATACAGATACAACNATAGCA"];
    for text in texts {
        let bb = BaseBits::new(text).unwrap();
        assert_eq!(bb.to_string().into_bytes(), bb.decode());
        assert_eq!(bb.to_string().into_bytes(), text.to_vec());
    }
}

#[test]
fn different_texts_give_different_values() {
    let texts: [&[u8]; 7] = [b"", b"A", b"AA", b"C", b"AC", b"N", b"AN"];
    for (i, a) in texts.iter().enumerate() {
        for (j, b) in texts.iter().enumerate() {
            let same = BaseBits::new(a).unwrap() == BaseBits::new(b).unwrap();
            assert_eq!(same, i == j);
        }
    }
}
