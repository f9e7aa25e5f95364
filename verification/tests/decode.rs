use rread_lst::channels::InputChannels;
use rread_lst::driver::{
    analyze_lst, analyze_lst_par, analyze_lst_seq, decode_record, route_all, route_outcome,
    ChunkOutcome,
};
use rread_lst::channels::create_channel_vec;
use rread_lst::error::DecodeError;
use rread_lst::record::DataLine;
use rread_lst::timepatch::TimepatchBits;

fn layout(code: &str) -> TimepatchBits {
    TimepatchBits::new(code).unwrap()
}

fn all_channels(chans: &InputChannels) -> Vec<Vec<DataLine>> {
    (1..=6u8).map(|index| chans.index(index).clone()).collect()
}

fn line(edge: bool, time: u64) -> DataLine {
    DataLine::new(false, 0, edge, 0, time)
}

#[test]
fn three_records_of_one_channel() {
    let data: [u8; 12] = [246, 0, 0, 1, 246, 1, 0, 1, 230, 2, 0, 1];
    let chans = analyze_lst(&data, 0, 512, "1", vec![0, 0, 0, 0, 0, 1]).unwrap();
    assert_eq!(
        all_channels(&chans),
        vec![
            vec![],
            vec![],
            vec![],
            vec![],
            vec![],
            vec![line(false, 1048591), line(false, 1048607), line(false, 1048622)],
        ]
    );
}

#[test]
fn sweeps_move_the_time_on() {
    let data: [u8; 12] = [246, 0, 0, 1, 246, 1, 0, 1, 230, 2, 0, 3];
    let chans = analyze_lst(&data, 0, 512, "5", vec![0, 0, 0, 0, 0, 1]).unwrap();
    assert_eq!(
        chans.index(6),
        &vec![
            DataLine::new(false, 0, false, 1, 15),
            DataLine::new(false, 0, false, 1, 31),
            DataLine::new(false, 0, false, 3, 46 + 2 * 512),
        ]
    );
}

#[test]
fn the_data_starts_at_the_offset() {
    let data: [u8; 15] = [9, 9, 9, 246, 0, 0, 1, 246, 1, 0, 1, 230, 2, 0, 1];
    let chans = analyze_lst(&data, 3, 512, "1", vec![0, 0, 0, 0, 0, 1]).unwrap();
    assert_eq!(
        chans.index(6),
        &vec![line(false, 1048591), line(false, 1048607), line(false, 1048622)]
    );
    let none = analyze_lst(&data, 15, 512, "1", vec![0, 0, 0, 0, 0, 1]).unwrap();
    assert_eq!(all_channels(&none), vec![Vec::<DataLine>::new(); 6]);
}

#[test]
fn records_of_zeros_are_passed_over() {
    let data: [u8; 16] = [0, 0, 0, 0, 246, 0, 0, 1, 0, 0, 0, 0, 230, 2, 0, 1];
    let chans = analyze_lst(&data, 0, 512, "1", vec![0, 0, 0, 0, 0, 1]).unwrap();
    assert_eq!(chans.index(6), &vec![line(false, 1048591), line(false, 1048622)]);
    let only_zeros = [0u8; 64];
    for code in ["0", "5", "1a", "f3"].iter() {
        let chans = analyze_lst(&only_zeros, 0, 512, code, vec![1, 1, 1, 1, 1, 1]).unwrap();
        assert_eq!(all_channels(&chans), vec![Vec::<DataLine>::new(); 6]);
    }
}

#[test]
fn a_short_last_record_is_left_out() {
    let data: [u8; 11] = [246, 0, 0, 1, 246, 1, 0, 1, 230, 2, 0];
    let chans = analyze_lst(&data, 0, 512, "1", vec![0, 0, 0, 0, 0, 1]).unwrap();
    assert_eq!(chans.index(6), &vec![line(false, 1048591), line(false, 1048607)]);
}

#[test]
fn each_channel_keeps_the_order_of_the_file() {
    // Two-byte records: channel in the low three bits, edge, then the time.
    let mut data: Vec<u8> = Vec::new();
    let mut expected: Vec<Vec<DataLine>> = vec![Vec::new(); 6];
    for n in 0..600u16 {
        let channel = 1 + (n * 7 + n / 5) % 6;
        let word: u16 = (n << 4) | channel;
        data.extend_from_slice(&word.to_le_bytes());
        expected[(channel - 1) as usize].push(line(false, n as u64));
    }
    let chans = analyze_lst(&data, 0, 1, "0", vec![1, 1, 1, 1, 1, 1]).unwrap();
    assert_eq!(all_channels(&chans), expected);
    for events in all_channels(&chans).iter() {
        for pair in events.windows(2) {
            assert!(pair[0].time < pair[1].time);
        }
    }
}

#[test]
fn decoding_again_gives_the_same() {
    let mut data: Vec<u8> = Vec::new();
    for n in 0..5000u32 {
        let channel = 1 + n.wrapping_mul(2654435761) % 6;
        let sweep = 1 + n % 200;
        let word: u32 = (sweep << 24) | ((n & 0xf_ffff) << 4) | ((n & 1) << 3) | channel;
        data.extend_from_slice(&word.to_le_bytes());
    }
    let first = analyze_lst(&data, 0, 80000, "5", vec![1, 1, 1, 1, 1, 1]).unwrap();
    for _ in 0..5 {
        let again = analyze_lst(&data, 0, 80000, "5", vec![1, 1, 1, 1, 1, 1]).unwrap();
        assert_eq!(all_channels(&again), all_channels(&first));
    }
}

#[test]
fn side_by_side_gives_what_one_after_the_other_gives() {
    let mut data: Vec<u8> = Vec::new();
    for n in 0..5000u64 {
        let channel = 1 + n.wrapping_mul(2654435761) % 6;
        let word: u64 = (1 << 63) | ((n % 32768) << 48) | (n << 4) | ((n & 1) << 3) | channel;
        data.extend_from_slice(&word.to_le_bytes());
    }
    let par = analyze_lst_par(&data, 0, 80000, "43", vec![1, 1, 1, 1, 1, 1]).unwrap();
    let seq = analyze_lst_seq(&data, 0, 80000, "43", vec![1, 1, 1, 1, 1, 1]).unwrap();
    assert_eq!(all_channels(&par), all_channels(&seq));
    assert_eq!(par.index(1).len() + par.index(2).len() + par.index(3).len()
        + par.index(4).len() + par.index(5).len() + par.index(6).len(), 5000);
    assert_eq!(seq.index(1)[0], DataLine::new(true, 0, false, 0, 0));
    assert_eq!(par.index(2)[0], DataLine::new(true, 1, true, 0, 1));
}

#[test]
fn unknown_timepatch_fails_before_any_record() {
    // The first record would fail on its channel if it were looked at.
    let data: [u8; 4] = [240, 0, 0, 1];
    for run in [analyze_lst, analyze_lst_par, analyze_lst_seq].iter() {
        assert_eq!(
            run(&data, 0, 512, "7", vec![0, 0, 0, 0, 0, 1]).unwrap_err(),
            DecodeError::UnknownTimepatch(String::from("7"))
        );
    }
}

#[test]
fn channel_zero_is_refused() {
    let data: [u8; 8] = [246, 0, 0, 1, 240, 1, 0, 1];
    for run in [analyze_lst, analyze_lst_par, analyze_lst_seq].iter() {
        assert_eq!(
            run(&data, 0, 512, "1", vec![1, 1, 1, 1, 1, 1]).unwrap_err(),
            DecodeError::ChannelOutOfRange(0)
        );
    }
    assert_eq!(
        decode_record(&[240, 1, 0, 1], &layout("1"), 512),
        ChunkOutcome::ChannelOutOfRange(0)
    );
}

#[test]
fn channel_seven_is_refused() {
    let data: [u8; 8] = [246, 0, 0, 1, 247, 1, 0, 1];
    for run in [analyze_lst, analyze_lst_par, analyze_lst_seq].iter() {
        assert_eq!(
            run(&data, 0, 512, "1", vec![1, 1, 1, 1, 1, 1]).unwrap_err(),
            DecodeError::ChannelOutOfRange(7)
        );
    }
}

#[test]
fn sweep_zero_is_refused_where_sweeps_are_counted() {
    let data: [u8; 8] = [246, 0, 0, 1, 246, 1, 0, 0];
    for run in [analyze_lst, analyze_lst_par, analyze_lst_seq].iter() {
        assert_eq!(
            run(&data, 0, 512, "5", vec![0, 0, 0, 0, 0, 1]).unwrap_err(),
            DecodeError::InvalidSweep
        );
    }
    assert_eq!(decode_record(&[246, 1, 0, 0], &layout("5"), 512), ChunkOutcome::InvalidSweep);
    // Without a sweep counter the same bytes are an event.
    assert_eq!(
        decode_record(&[246, 1, 0, 0], &layout("1"), 512),
        ChunkOutcome::Event { channel: 6, record: line(false, 31) }
    );
}

#[test]
fn event_of_an_inactive_channel_is_refused() {
    let data: [u8; 8] = [246, 0, 0, 1, 243, 1, 0, 1];
    for run in [analyze_lst, analyze_lst_par, analyze_lst_seq].iter() {
        assert_eq!(
            run(&data, 0, 512, "1", vec![0, 0, 0, 0, 0, 1]).unwrap_err(),
            DecodeError::InactiveChannel(3)
        );
    }
}

#[test]
fn time_beyond_64_bits_fails_the_decode() {
    let data: [u8; 4] = [246, 0, 0, 3];
    for run in [analyze_lst, analyze_lst_par, analyze_lst_seq].iter() {
        assert_eq!(
            run(&data, 0, u64::MAX, "5", vec![0, 0, 0, 0, 0, 1]).unwrap_err(),
            DecodeError::TimeOverflow
        );
    }
    assert_eq!(decode_record(&data, &layout("5"), u64::MAX), ChunkOutcome::TimeOverflow);
}

#[test]
fn the_first_failure_in_the_file_is_the_one_reported() {
    // Sweep zero stands before channel zero.
    let data: [u8; 12] = [246, 0, 0, 1, 246, 1, 0, 0, 240, 1, 0, 1];
    for run in [analyze_lst, analyze_lst_par, analyze_lst_seq].iter() {
        assert_eq!(
            run(&data, 0, 512, "5", vec![0, 0, 0, 0, 0, 1]).unwrap_err(),
            DecodeError::InvalidSweep
        );
    }
    // Channel zero stands before sweep zero.
    let data: [u8; 12] = [246, 0, 0, 1, 240, 1, 0, 1, 246, 1, 0, 0];
    for run in [analyze_lst, analyze_lst_par, analyze_lst_seq].iter() {
        assert_eq!(
            run(&data, 0, 512, "5", vec![0, 0, 0, 0, 0, 1]).unwrap_err(),
            DecodeError::ChannelOutOfRange(0)
        );
    }
    // In one record the channel is looked at before the sweep.
    assert_eq!(
        decode_record(&[240, 1, 0, 0], &layout("5"), 512),
        ChunkOutcome::ChannelOutOfRange(0)
    );
}

#[test]
fn one_record_of_each_kind() {
    assert_eq!(decode_record(&[0, 0, 0, 0], &layout("5"), 512), ChunkOutcome::Padding);
    assert_eq!(decode_record(&[0, 0], &layout("0"), 512), ChunkOutcome::Padding);
    assert_eq!(
        decode_record(&[93, 90, 90, 195], &layout("5"), 1000),
        ChunkOutcome::Event {
            channel: 5,
            record: DataLine::new(false, 0, true, 195, 370085 + 1000 * 194),
        }
    );
    assert_eq!(
        decode_record(&[93, 90, 90, 90, 195, 165, 150, 188], &layout("5b"), 80000),
        ChunkOutcome::Event {
            channel: 5,
            record: DataLine::new(true, 15510, true, 42435, 94741925 + 80000 * 42434),
        }
    );
    assert_eq!(
        decode_record(&[0x8E, 0x09, 0, 0, 0, 0, 0, 0], &layout("43"), 80000),
        ChunkOutcome::Event { channel: 6, record: DataLine::new(false, 0, true, 0, 152) }
    );
}

#[test]
fn outcomes_go_to_their_channels_in_order() {
    let a = line(true, 1);
    let b = line(false, 2);
    let c = line(true, 3);
    let outcomes = vec![
        ChunkOutcome::Event { channel: 2, record: a },
        ChunkOutcome::Padding,
        ChunkOutcome::Event { channel: 1, record: b },
        ChunkOutcome::Event { channel: 2, record: c },
    ];
    let chans = route_all(&outcomes, create_channel_vec(8, 2, &vec![1, 1, 0, 0, 0, 0])).unwrap();
    assert_eq!(chans.index(1), &vec![b]);
    assert_eq!(chans.index(2), &vec![a, c]);
    let failing = vec![
        ChunkOutcome::Event { channel: 2, record: a },
        ChunkOutcome::TimeOverflow,
        ChunkOutcome::InvalidSweep,
    ];
    assert_eq!(
        route_all(&failing, create_channel_vec(8, 2, &vec![1, 1, 0, 0, 0, 0])).unwrap_err(),
        DecodeError::TimeOverflow
    );
}

#[test]
fn an_event_with_a_channel_that_is_none_is_not_routed() {
    let mut chans = create_channel_vec(8, 2, &vec![1, 1, 1, 1, 1, 1]);
    let a = line(true, 1);
    assert_eq!(
        route_outcome(&mut chans, ChunkOutcome::Event { channel: 0, record: a }),
        Err(DecodeError::ChannelOutOfRange(0))
    );
    assert_eq!(
        route_outcome(&mut chans, ChunkOutcome::Event { channel: 7, record: a }),
        Err(DecodeError::ChannelOutOfRange(7))
    );
    assert_eq!(
        route_outcome(&mut chans, ChunkOutcome::ChannelOutOfRange(9)),
        Err(DecodeError::ChannelOutOfRange(9))
    );
    assert_eq!(route_outcome(&mut chans, ChunkOutcome::Padding), Ok(()));
    assert_eq!(route_outcome(&mut chans, ChunkOutcome::Event { channel: 6, record: a }), Ok(()));
    assert_eq!(chans.index(6), &vec![a]);
}
