use rread_lst::error::DecodeError;
use rread_lst::timepatch::{Timepatch, TimepatchBits};

const CODES: [&str; 14] =
    ["0", "5", "1", "1a", "2a", "22", "32", "2", "5b", "Db", "f3", "43", "c3", "3"];

fn bits(lost_bits: u8, tag_bits: u8, sweep_bits: u8, time_bits: u8) -> TimepatchBits {
    TimepatchBits { lost_bits, tag_bits, sweep_bits, time_bits }
}

#[test]
fn every_code_fills_its_record() {
    for code in CODES.iter() {
        let layout = TimepatchBits::new(code).unwrap();
        let sum = layout.lost_bits as usize
            + layout.tag_bits as usize
            + layout.sweep_bits as usize
            + layout.time_bits as usize
            + 4;
        assert_eq!(sum, layout.record_bytes() * 8);
    }
}

#[test]
fn the_table_of_layouts_is_the_instruments() {
    assert_eq!(TimepatchBits::new("0"), Ok(bits(0, 0, 0, 12)));
    assert_eq!(TimepatchBits::new("5"), Ok(bits(0, 0, 8, 20)));
    assert_eq!(TimepatchBits::new("1"), Ok(bits(0, 0, 0, 28)));
    assert_eq!(TimepatchBits::new("1a"), Ok(bits(0, 0, 16, 28)));
    assert_eq!(TimepatchBits::new("2a"), Ok(bits(0, 8, 8, 28)));
    assert_eq!(TimepatchBits::new("22"), Ok(bits(0, 8, 0, 36)));
    assert_eq!(TimepatchBits::new("32"), Ok(bits(1, 0, 7, 36)));
    assert_eq!(TimepatchBits::new("2"), Ok(bits(0, 0, 0, 44)));
    assert_eq!(TimepatchBits::new("5b"), Ok(bits(1, 15, 16, 28)));
    assert_eq!(TimepatchBits::new("Db"), Ok(bits(0, 0, 16, 28)));
    assert_eq!(TimepatchBits::new("f3"), Ok(bits(1, 16, 7, 36)));
    assert_eq!(TimepatchBits::new("43"), Ok(bits(1, 15, 0, 44)));
    assert_eq!(TimepatchBits::new("c3"), Ok(bits(0, 16, 0, 44)));
    assert_eq!(TimepatchBits::new("3"), Ok(bits(1, 5, 0, 54)));
}

#[test]
fn record_sizes_of_the_catalog() {
    let sizes: [usize; 14] = [2, 4, 4, 6, 6, 6, 6, 6, 8, 6, 8, 8, 8, 8];
    for (code, size) in CODES.iter().zip(sizes.iter()) {
        assert_eq!(TimepatchBits::new(code).unwrap().record_bytes(), *size);
    }
}

#[test]
fn codes_name_their_layouts() {
    assert_eq!(Timepatch::new("0"), Ok(Timepatch::Tp0));
    assert_eq!(Timepatch::new("5"), Ok(Timepatch::Tp5));
    assert_eq!(Timepatch::new("1"), Ok(Timepatch::Tp1));
    assert_eq!(Timepatch::new("1a"), Ok(Timepatch::Tp1a));
    assert_eq!(Timepatch::new("2a"), Ok(Timepatch::Tp2a));
    assert_eq!(Timepatch::new("22"), Ok(Timepatch::Tp22));
    assert_eq!(Timepatch::new("32"), Ok(Timepatch::Tp32));
    assert_eq!(Timepatch::new("2"), Ok(Timepatch::Tp2));
    assert_eq!(Timepatch::new("5b"), Ok(Timepatch::Tp5b));
    assert_eq!(Timepatch::new("Db"), Ok(Timepatch::TpDb));
    assert_eq!(Timepatch::new("f3"), Ok(Timepatch::Tpf3));
    assert_eq!(Timepatch::new("43"), Ok(Timepatch::Tp43));
    assert_eq!(Timepatch::new("c3"), Ok(Timepatch::Tpc3));
    assert_eq!(Timepatch::new("3"), Ok(Timepatch::Tp3));
    assert_eq!(Timepatch::Tpf3.bits(), bits(1, 16, 7, 36));
}

#[test]
fn unknown_code_is_refused_with_the_code() {
    assert_eq!(
        TimepatchBits::new("4"),
        Err(DecodeError::UnknownTimepatch(String::from("4")))
    );
    assert_eq!(Timepatch::new(""), Err(DecodeError::UnknownTimepatch(String::new())));
    assert_eq!(
        Timepatch::new("f33"),
        Err(DecodeError::UnknownTimepatch(String::from("f33")))
    );
    assert_eq!(
        Timepatch::new("db"),
        Err(DecodeError::UnknownTimepatch(String::from("db")))
    );
    assert_eq!(
        Timepatch::new("1A"),
        Err(DecodeError::UnknownTimepatch(String::from("1A")))
    );
}

#[test]
fn widths_in_the_order_lost_tag_sweep_time() {
    assert_eq!(bits(1, 15, 16, 28).to_array(), [1, 15, 16, 28]);
}
