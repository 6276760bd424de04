use memory_image::{read_u16, read_u32, ByteCursor, MemoryImage, Module, Sector, Syllable, Word};

const IMAGE_BYTES: usize = 196_620;
const REGISTERS_AT: usize = 196_608;

/// The bytes of a file, each one set from its position.
fn patterned(len: usize) -> Vec<u8> {
    (0..len).map(|i| (i % 251) as u8).collect()
}

/// Writes an image back in file order: modules, then the three registers.
fn write_back(img: &mut MemoryImage) -> Vec<u8> {
    let mut out = Vec::new();
    let (hop, acc, pq) = (img.hop_register(), img.accumulator(), img.pq_register());
    for module in img.modules() {
        for sector in module.sectors() {
            for syllable in sector.syllables() {
                for word in syllable.words().iter() {
                    out.extend_from_slice(&word.value().to_be_bytes());
                }
            }
        }
    }
    for reg in [hop, acc, pq] {
        out.extend_from_slice(&reg.to_be_bytes());
    }
    out
}

#[test]
fn read_u16_is_big_endian() {
    let bytes = [0x01u8, 0x02];
    let mut c = ByteCursor::new(&bytes);
    assert_eq!(read_u16(&mut c), Ok(0x0102));
    assert_eq!(c.remaining(), 0);
}

#[test]
fn read_u32_is_big_endian() {
    let bytes = [0x00u8, 0x00, 0x00, 0x01];
    let mut c = ByteCursor::new(&bytes);
    assert_eq!(read_u32(&mut c), Ok(0x0000_0001));
    let bytes = [0x12u8, 0x34, 0x56, 0x78];
    let mut c = ByteCursor::new(&bytes);
    assert_eq!(read_u32(&mut c), Ok(0x1234_5678));
}

#[test]
fn reads_advance_the_cursor() {
    let bytes = [0xAAu8, 0xBB, 0xCC, 0xDD, 0xEE, 0xFF, 0x00];
    let mut c = ByteCursor::new(&bytes);
    assert_eq!(read_u16(&mut c), Ok(0xAABB));
    assert_eq!(c.remaining(), 5);
    assert_eq!(read_u32(&mut c), Ok(0xCCDD_EEFF));
    assert_eq!(c.remaining(), 1);
}

#[test]
fn short_reads_fail_and_exhaust_the_cursor() {
    let bytes = [0x01u8];
    let mut c = ByteCursor::new(&bytes);
    assert_eq!(read_u16(&mut c), Err(()));
    assert_eq!(c.remaining(), 0);

    let empty: [u8; 0] = [];
    let mut c = ByteCursor::new(&empty);
    assert_eq!(read_u16(&mut c), Err(()));

    let bytes = [0x01u8, 0x02, 0x03];
    let mut c = ByteCursor::new(&bytes);
    assert_eq!(read_u32(&mut c), Err(()));
    assert_eq!(c.remaining(), 0);
}

#[test]
fn new_word_is_unprogrammed() {
    assert_eq!(Word::new().value(), 0xFFFF);
}

#[test]
fn word_read_takes_two_bytes() {
    let bytes = [0xBEu8, 0xEF, 0x01];
    let mut c = ByteCursor::new(&bytes);
    assert_eq!(Word::read(&mut c).map(|w| w.value()), Ok(0xBEEF));
    assert_eq!(c.remaining(), 1);
    assert!(Word::read(&mut c).is_err());
}

#[test]
fn syllable_read_takes_words_in_order() {
    let bytes = patterned(512 + 3);
    let mut c = ByteCursor::new(&bytes);
    let mut s = Syllable::read(&mut c).unwrap();
    assert_eq!(c.remaining(), 3);
    let words = s.words();
    assert_eq!(words.len(), 256);
    for (k, w) in words.iter().enumerate() {
        let expected = u16::from_be_bytes([bytes[2 * k], bytes[2 * k + 1]]);
        assert_eq!(w.value(), expected);
    }
}

#[test]
fn syllable_read_fails_one_byte_short() {
    let bytes = patterned(511);
    let mut c = ByteCursor::new(&bytes);
    assert!(Syllable::read(&mut c).is_err());
    assert_eq!(c.remaining(), 0);
}

#[test]
fn new_syllable_sector_module_shapes() {
    let mut s = Syllable::new();
    assert_eq!(s.words().len(), 256);
    assert!(s.words().iter().all(|w| w.value() == 0xFFFF));
    let mut sec = Sector::new();
    assert_eq!(sec.syllables().len(), 3);
    let mut m = Module::new();
    assert_eq!(m.sectors().len(), 16);
}

#[test]
fn sector_read_takes_three_syllables() {
    let bytes = patterned(1536);
    let mut c = ByteCursor::new(&bytes);
    let mut sec = Sector::read(&mut c).unwrap();
    assert_eq!(c.remaining(), 0);
    let syllables = sec.syllables();
    assert_eq!(syllables.len(), 3);
    let w = syllables[2].words()[255].value();
    assert_eq!(w, u16::from_be_bytes([bytes[1534], bytes[1535]]));
    let w = syllables[1].words()[0].value();
    assert_eq!(w, u16::from_be_bytes([bytes[512], bytes[513]]));

    let short = patterned(1535);
    let mut c = ByteCursor::new(&short);
    assert!(Sector::read(&mut c).is_err());
}

#[test]
fn module_read_takes_sixteen_sectors() {
    let bytes = patterned(24_576 + 1);
    let mut c = ByteCursor::new(&bytes);
    let mut m = Module::read(&mut c).unwrap();
    assert_eq!(c.remaining(), 1);
    let sectors = m.sectors();
    assert_eq!(sectors.len(), 16);
    let w = sectors[15].syllables()[2].words()[255].value();
    assert_eq!(w, u16::from_be_bytes([bytes[24_574], bytes[24_575]]));

    let short = patterned(24_575);
    let mut c = ByteCursor::new(&short);
    assert!(Module::read(&mut c).is_err());
}

#[test]
fn default_image_is_unprogrammed() {
    let mut img = MemoryImage::new();
    assert_eq!(img.hop_register(), 0);
    assert_eq!(img.accumulator(), 0);
    assert_eq!(img.pq_register(), 0);
    let modules = img.modules();
    assert_eq!(modules.len(), 8);
    let mut words = 0usize;
    for module in modules {
        assert_eq!(module.sectors().len(), 16);
        for sector in module.sectors() {
            assert_eq!(sector.syllables().len(), 3);
            for syllable in sector.syllables() {
                assert_eq!(syllable.words().len(), 256);
                for w in syllable.words().iter() {
                    assert_eq!(w.value(), 0xFFFF);
                    words += 1;
                }
            }
        }
    }
    assert_eq!(words, 8 * 16 * 3 * 256);
}

#[test]
fn all_ab_image() {
    let bytes = vec![0xABu8; IMAGE_BYTES];
    let mut img = MemoryImage::read(&bytes).unwrap();
    assert_eq!(img.hop_register(), 0xABAB_ABAB);
    assert_eq!(img.accumulator(), 0xABAB_ABAB);
    assert_eq!(img.pq_register(), 0xABAB_ABAB);
    let mut words = 0usize;
    for module in img.modules() {
        for sector in module.sectors() {
            for syllable in sector.syllables() {
                for w in syllable.words().iter() {
                    assert_eq!(w.value(), 0xABAB);
                    words += 1;
                }
            }
        }
    }
    assert_eq!(words, 8 * 16 * 3 * 256);
}

#[test]
fn one_byte_short_fails() {
    let bytes = vec![0xABu8; IMAGE_BYTES - 1];
    assert_eq!(MemoryImage::read(&bytes).map(|_| ()), Err(()));
}

#[test]
fn empty_input_fails() {
    assert!(MemoryImage::read(&[]).is_err());
}

#[test]
fn shortfall_anywhere_fails() {
    let full = patterned(IMAGE_BYTES);
    for len in [1, 511, 512, 1535, 24_575, 24_577, REGISTERS_AT - 1, REGISTERS_AT, REGISTERS_AT + 3,
        REGISTERS_AT + 4, REGISTERS_AT + 7, REGISTERS_AT + 11]
    {
        assert!(MemoryImage::read(&full[..len]).is_err(), "length {}", len);
    }
}

#[test]
fn registers_follow_the_modules() {
    let mut bytes = vec![0u8; IMAGE_BYTES];
    bytes[REGISTERS_AT..].copy_from_slice(&[1, 2, 3, 4, 5, 6, 7, 8, 9, 10, 11, 12]);
    let img = MemoryImage::read(&bytes).unwrap();
    assert_eq!(img.hop_register(), 0x0102_0304);
    assert_eq!(img.accumulator(), 0x0506_0708);
    assert_eq!(img.pq_register(), 0x090A_0B0C);
}

#[test]
fn exact_image_round_trips() {
    let bytes = patterned(IMAGE_BYTES);
    let mut img = MemoryImage::read(&bytes).unwrap();
    assert_eq!(write_back(&mut img), bytes);
}

#[test]
fn trailing_bytes_are_ignored() {
    let mut bytes = patterned(IMAGE_BYTES);
    let mut exact = MemoryImage::read(&bytes).unwrap();
    bytes.extend_from_slice(&[0xEE; 100]);
    let mut longer = MemoryImage::read(&bytes).unwrap();
    assert_eq!(write_back(&mut longer), write_back(&mut exact));
    assert_eq!(write_back(&mut longer), bytes[..IMAGE_BYTES].to_vec());
}

#[test]
fn writes_through_accessors_stick() {
    let mut img = MemoryImage::new();
    let bytes = [0x12u8, 0x34];
    let mut c = ByteCursor::new(&bytes);
    let w = Word::read(&mut c).unwrap();
    img.modules()[3].sectors()[4].syllables()[1].words()[7] = w;
    let value = img.modules()[3].sectors()[4].syllables()[1].words()[7].value();
    assert_eq!(value, 0x1234);
    let other = img.modules()[3].sectors()[4].syllables()[1].words()[8].value();
    assert_eq!(other, 0xFFFF);
}
