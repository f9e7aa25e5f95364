use rread_lst::extract::parse_word;
use rread_lst::oracle::read_fields;
use rread_lst::pack::{fields_fit, pack_fields};
use rread_lst::record::Fields;
use rread_lst::timepatch::TimepatchBits;

const CODES: [&str; 14] =
    ["0", "5", "1", "1a", "2a", "22", "32", "2", "5b", "Db", "f3", "43", "c3", "3"];

fn layout(code: &str) -> TimepatchBits {
    TimepatchBits::new(code).unwrap()
}

fn low_bits(n: u8) -> u64 {
    if n == 0 {
        0
    } else {
        u64::MAX >> (64 - n as u32)
    }
}

/// Fields that fit `bits`, made from `seed`.
fn sample(bits: &TimepatchBits, seed: u64) -> Fields {
    Fields {
        channel: (seed % 8) as u8,
        edge: seed % 3 == 0,
        lost: bits.lost_bits == 1 && seed % 5 < 2,
        tag: (seed.wrapping_mul(0x9E37_79B9_7F4A_7C15) & low_bits(bits.tag_bits)) as u16,
        sweep: (seed.wrapping_mul(0xC2B2_AE3D_27D4_EB4F) & low_bits(bits.sweep_bits)) as u16,
        time: seed.wrapping_mul(0x1656_67B1_9E37_79F9) & low_bits(bits.time_bits),
    }
}

#[test]
fn example_word_of_timepatch_43() {
    let fields = parse_word(0x0000_0000_0000_098E, &layout("43"));
    assert_eq!(
        fields,
        Fields { channel: 6, edge: true, lost: false, tag: 0, sweep: 0, time: 152 }
    );
    assert_eq!((fields.channel - 1) as u64, (0x98Eu64 & 0b111) - 1);
    let bytes = 0x0000_0000_0000_098Eu64.to_le_bytes();
    assert_eq!(read_fields(&bytes, &layout("43")), fields);
}

#[test]
fn fields_of_a_word_of_each_size() {
    assert_eq!(
        parse_word(0x5a5d, &layout("0")),
        Fields { channel: 5, edge: true, lost: false, tag: 0, sweep: 0, time: 1445 }
    );
    assert_eq!(
        parse_word(0xc35a_5a5d, &layout("5")),
        Fields { channel: 5, edge: true, lost: false, tag: 0, sweep: 195, time: 370085 }
    );
    assert_eq!(
        parse_word(0x96c3_5a5a_5a5d, &layout("2a")),
        Fields { channel: 5, edge: true, lost: false, tag: 150, sweep: 195, time: 94741925 }
    );
    assert_eq!(
        parse_word(0xc35a_5a5a_5a5d, &layout("32")),
        Fields { channel: 5, edge: true, lost: true, tag: 0, sweep: 67, time: 24253932965 }
    );
    assert_eq!(
        parse_word(0xbc96_a5c3_5a5a_5a5d, &layout("5b")),
        Fields { channel: 5, edge: true, lost: true, tag: 15510, sweep: 42435, time: 94741925 }
    );
    assert_eq!(
        parse_word(0x9e4b_435a_5a5a_5a5d, &layout("f3")),
        Fields { channel: 5, edge: true, lost: true, tag: 15510, sweep: 67, time: 24253932965 }
    );
    assert_eq!(
        parse_word(0x3c96_5a5a_5a5a_5a5d, &layout("c3")),
        Fields { channel: 5, edge: true, lost: false, tag: 15510, sweep: 0, time: 6209006839205 }
    );
    assert_eq!(
        parse_word(0xda5a_5a5a_5a5a_5a5d, &layout("3")),
        Fields {
            channel: 5,
            edge: true,
            lost: true,
            tag: 22,
            sweep: 0,
            time: 10596705005577637,
        }
    );
}

#[test]
fn fields_of_width_zero_read_as_nothing() {
    let fields = parse_word(0xffff_ffff, &layout("1"));
    assert_eq!(
        fields,
        Fields { channel: 7, edge: true, lost: false, tag: 0, sweep: 0, time: 0x0fff_ffff }
    );
}

#[test]
fn packed_word_of_each_size() {
    let fields =
        Fields { channel: 5, edge: true, lost: true, tag: 15510, sweep: 42435, time: 94741925 };
    assert_eq!(pack_fields(&fields, &layout("5b")), Some(0xbc96_a5c3_5a5a_5a5d));
    let fields = Fields { channel: 5, edge: true, lost: false, tag: 0, sweep: 0, time: 1445 };
    assert_eq!(pack_fields(&fields, &layout("0")), Some(0x5a5d));
    let fields = Fields { channel: 6, edge: true, lost: false, tag: 0, sweep: 0, time: 152 };
    assert_eq!(pack_fields(&fields, &layout("43")), Some(0x98E));
}

#[test]
fn fields_that_do_not_fit_are_not_packed() {
    let bits = layout("5");
    let fits = Fields { channel: 7, edge: false, lost: false, tag: 0, sweep: 255, time: 0xf_ffff };
    assert!(fields_fit(&fits, &bits));
    assert_eq!(pack_fields(&fits, &bits), Some(0xffff_fff7));
    assert_eq!(pack_fields(&Fields { channel: 8, ..fits }, &bits), None);
    assert_eq!(pack_fields(&Fields { time: 0x10_0000, ..fits }, &bits), None);
    assert_eq!(pack_fields(&Fields { sweep: 256, ..fits }, &bits), None);
    assert_eq!(pack_fields(&Fields { tag: 1, ..fits }, &bits), None);
    assert_eq!(pack_fields(&Fields { lost: true, ..fits }, &bits), None);
    assert!(!fields_fit(&Fields { lost: true, ..fits }, &bits));
}

#[test]
fn pack_then_parse_gives_the_fields_back() {
    for code in CODES.iter() {
        let bits = layout(code);
        for seed in 0..200u64 {
            let fields = sample(&bits, seed);
            let word = pack_fields(&fields, &bits).unwrap();
            assert_eq!(parse_word(word, &bits), fields, "code {} seed {}", code, seed);
        }
    }
}

#[test]
fn both_ways_of_reading_agree() {
    for code in CODES.iter() {
        let bits = layout(code);
        let size = bits.record_bytes();
        for seed in 0..200u64 {
            let word = seed.wrapping_mul(0x9E37_79B9_7F4A_7C15) ^ (seed << 7);
            let bytes = word.to_le_bytes();
            let chunk = &bytes[..size];
            let mut whole = [0u8; 8];
            whole[..size].copy_from_slice(chunk);
            let value = u64::from_le_bytes(whole);
            assert_eq!(
                read_fields(chunk, &bits),
                parse_word(value, &bits),
                "code {} word {:#x}",
                code,
                value
            );
        }
    }
}

#[test]
fn reading_the_reversed_bytes_of_known_records() {
    assert_eq!(
        read_fields(&[93, 90, 90, 90, 195, 165, 150, 188], &layout("5b")),
        Fields { channel: 5, edge: true, lost: true, tag: 15510, sweep: 42435, time: 94741925 }
    );
    assert_eq!(
        read_fields(&[93, 90], &layout("0")),
        Fields { channel: 5, edge: true, lost: false, tag: 0, sweep: 0, time: 1445 }
    );
    assert_eq!(
        read_fields(&[93, 90, 90, 90, 90, 195], &layout("32")),
        Fields { channel: 5, edge: true, lost: true, tag: 0, sweep: 67, time: 24253932965 }
    );
}
