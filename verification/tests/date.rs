use tokio::time::Instant;
use xitca_core::http::date::{DateTime, DateTimeState, DATE_LIMIT, DATE_VALUE_LENGTH};

#[test]
fn dates_are_written_as_http_asks() {
    let now = Instant::now();
    for (secs, text) in [
        (0u64, "Thu, 01 Jan 1970 00:00:00 GMT"),
        (784_111_777, "Sun, 06 Nov 1994 08:49:37 GMT"),
        (1_475_419_451, "Sun, 02 Oct 2016 14:44:11 GMT"),
        (DATE_LIMIT - 1, "Fri, 31 Dec 9999 23:59:59 GMT"),
    ] {
        let state = DateTimeState::at(secs, now);
        assert_eq!(&state.date[..], text.as_bytes());
        assert_eq!(state.now, now);
    }
}

#[test]
fn the_date_is_handed_to_the_closure() {
    let state = DateTimeState::at(0, Instant::now());
    assert_eq!(state.with_date(|date| date.len()), DATE_VALUE_LENGTH);
    assert_eq!(state.with_date(|date| date[0]), b'T');
    assert_eq!(DateTime::now(&state), state.now);
    assert_eq!(<DateTimeState as DateTime>::DATE_VALUE_LENGTH, 29);
}

#[test]
fn a_clock_outside_of_all_dates_gives_none() {
    let now = Instant::now();
    assert!(DateTimeState::from_clock(None, now).is_none());
    assert!(DateTimeState::from_clock(Some(DATE_LIMIT), now).is_none());
    assert!(DateTimeState::from_clock(Some(DATE_LIMIT - 1), now).is_some());
}

#[test]
fn the_present_has_a_date() {
    let before = Instant::now();
    let state = DateTimeState::new().unwrap();
    assert!(state.now >= before);
    assert_eq!(&state.date[25..], b" GMT");
    assert!(&state.date[12..16] >= &b"2024"[..]);
}

#[test]
fn writing_replaces_the_date() {
    let mut state = DateTimeState::at(0, Instant::now());
    let now = state.now;
    state.write_str("Sun, 06 Nov 1994 08:49:37 GMT");
    assert_eq!(&state.date[..], b"Sun, 06 Nov 1994 08:49:37 GMT");
    assert_eq!(state.now, now);
}
