use std::time::SystemTime;
use time868::codec::parse_u64;
use time868::handler::{current_response, response_payload};

fn epoch_seconds_now() -> u64 {
    SystemTime::now()
        .duration_since(SystemTime::UNIX_EPOCH)
        .expect("test host clock is after the epoch")
        .as_secs()
}

#[test]
fn payload_is_encoded_timestamp() {
    assert_eq!(response_payload(Some(1700000000)), b"1700000000".to_vec());
    assert_eq!(response_payload(Some(0)), b"0".to_vec());
}

#[test]
fn payload_is_empty_when_clock_unavailable() {
    assert_eq!(response_payload(None), Vec::<u8>::new());
}

#[test]
fn same_reading_gives_byte_identical_payload_for_every_strategy() {
    // One handler serves all three dispatch strategies, so a shared clock
    // reading yields one payload, not three.
    let reading = Some(1234567890);
    let first = response_payload(reading);
    let second = response_payload(reading);
    let third = response_payload(reading);
    assert_eq!(first, second);
    assert_eq!(second, third);
}

#[test]
fn current_response_is_close_to_a_reference_clock() {
    // Read a reference clock immediately before asking the handler: the
    // response must parse as an integer within two seconds of it.
    let before = epoch_seconds_now();
    let payload = current_response();
    let value = parse_u64(&payload).expect("response parses as an integer");
    assert!(value >= before);
    assert!(value <= before + 2);
}
