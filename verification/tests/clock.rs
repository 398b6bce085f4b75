use solana_simulation::clock::{decode_clock, live_clock, Clock};
use solana_simulation::error::Error;
use solana_simulation::runtime::get_clock;

fn wire_form() -> Vec<u8> {
    bincode::serialize(&solana_sdk::clock::Clock {
        slot: 0x0102_0304_0506_0708,
        epoch_start_timestamp: -2,
        epoch: 3,
        leader_schedule_epoch: u64::MAX,
        unix_timestamp: 1_666_000_000,
    })
    .unwrap()
}

const EXPECTED: Clock = Clock {
    slot: 0x0102_0304_0506_0708,
    epoch_start_timestamp: -2,
    epoch: 3,
    leader_schedule_epoch: u64::MAX,
    unix_timestamp: 1_666_000_000,
};

#[test]
fn clocks_are_decoded() {
    let bytes = wire_form();
    assert_eq!(bytes.len(), 40);
    assert_eq!(bytes[..8], [8, 7, 6, 5, 4, 3, 2, 1]);
    assert_eq!(decode_clock(&bytes), Ok(EXPECTED));
    assert_eq!(get_clock(&bytes), Ok(EXPECTED));
}

#[test]
fn short_clocks_are_malformed() {
    let bytes = wire_form();
    assert_eq!(decode_clock(&bytes[..39]), Err(Error::MalformedClock));
    assert_eq!(get_clock(&[]), Err(Error::MalformedClock));
    let theirs = bincode::deserialize::<solana_sdk::clock::Clock>(&bytes[..39]).unwrap_err();
    assert_eq!(Error::MalformedClock.message(), theirs.to_string());
    let theirs = bincode::deserialize::<solana_sdk::clock::Clock>(&[]).unwrap_err();
    assert_eq!(Error::MalformedClock.message(), theirs.to_string());
}

#[test]
fn what_follows_a_clock_is_passed_over() {
    let mut bytes = wire_form();
    bytes.push(17);
    assert_eq!(decode_clock(&bytes), Ok(EXPECTED));
}

#[test]
fn live_clocks_show_slot_and_time() {
    let clock = live_clock(Some(5), Some(-6)).unwrap();
    assert_eq!(
        clock,
        Clock {
            slot: 5,
            epoch_start_timestamp: 0,
            epoch: 0,
            leader_schedule_epoch: 0,
            unix_timestamp: -6,
        }
    );
    assert_eq!(live_clock(None, Some(1)), None);
    assert_eq!(live_clock(Some(1), None), None);
    assert_eq!(live_clock(None, None), None);
}
