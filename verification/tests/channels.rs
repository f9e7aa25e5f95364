use rread_lst::channels::{create_channel_vec, InputChannels};
use rread_lst::error::DecodeError;
use rread_lst::record::DataLine;

#[test]
fn new_channels_are_empty() {
    let chans = create_channel_vec(10, 4, &vec![0, 0, 0, 0, 0, 1]);
    for index in 1..=6u8 {
        assert!(chans.index(index).is_empty());
        assert_eq!(chans.is_active(index), index == 6);
    }
}

#[test]
fn only_the_mark_one_makes_a_channel_active() {
    let chans = create_channel_vec(0, 2, &vec![1, 0, 2, 255, 1, 0]);
    assert!(chans.is_active(1));
    assert!(!chans.is_active(2));
    assert!(!chans.is_active(3));
    assert!(!chans.is_active(4));
    assert!(chans.is_active(5));
    assert!(!chans.is_active(6));
}

#[test]
fn route_appends_to_the_channel() {
    let mut chans = create_channel_vec(16, 8, &vec![1, 0, 0, 0, 0, 1]);
    let a = DataLine::new(false, 0, true, 0, 10);
    let b = DataLine::new(true, 7, false, 2, 20);
    let c = DataLine::new(false, 1, false, 1, 5);
    assert_eq!(chans.route(a, 5), Ok(()));
    assert_eq!(chans.route(b, 0), Ok(()));
    assert_eq!(chans.route(c, 5), Ok(()));
    assert_eq!(chans.index(6), &vec![a, c]);
    assert_eq!(chans.index(1), &vec![b]);
    assert!(chans.index(2).is_empty());
}

#[test]
fn route_to_an_inactive_channel_fails_and_keeps_nothing() {
    let mut chans = create_channel_vec(16, 8, &vec![1, 0, 0, 0, 0, 1]);
    let a = DataLine::new(false, 0, true, 0, 10);
    assert_eq!(chans.route(a, 2), Err(DecodeError::InactiveChannel(3)));
    for index in 1..=6u8 {
        assert!(chans.index(index).is_empty());
    }
}

#[test]
fn channels_made_from_their_events() {
    let a = DataLine::new(false, 0, true, 0, 10);
    let chans = InputChannels::new(Some(vec![a]), None, None, Some(Vec::new()), None, None);
    assert_eq!(chans.index(1), &vec![a]);
    assert!(chans.is_active(1));
    assert!(!chans.is_active(2));
    assert!(chans.is_active(4));
    assert!(chans.index(4).is_empty());
    assert!(chans.index(6).is_empty());
}

#[test]
fn a_data_line_holds_what_it_was_given() {
    let line = DataLine::new(true, 15510, false, 42435, 94741925);
    assert!(line.lost);
    assert_eq!(line.tag, 15510);
    assert!(!line.edge);
    assert_eq!(line.sweep, 42435);
    assert_eq!(line.time, 94741925);
}
