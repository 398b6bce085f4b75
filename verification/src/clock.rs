//! Network time.

use vstd::prelude::*;
use crate::error::Error;

verus! {

/// Network time.
#[derive(Clone, Copy, Debug, PartialEq, Eq, Structural)]
pub struct Clock {
    /// The current slot.
    pub slot: u64,
    /// The time of the first slot of the epoch.
    pub epoch_start_timestamp: i64,
    /// The current epoch.
    pub epoch: u64,
    /// The last epoch that leaders are scheduled for.
    pub leader_schedule_epoch: u64,
    /// The time of the current slot.
    pub unix_timestamp: i64,
}

impl Clock {
    /// A clock of which only the slot and the time are known.
    pub open spec fn known(slot: u64, unix_timestamp: i64) -> Clock {
        Clock {
            slot,
            epoch_start_timestamp: 0,
            epoch: 0,
            leader_schedule_epoch: 0,
            unix_timestamp,
        }
    }
}

/// The clock that a live network shows: `slot` is its current slot and `block_time` the time of
/// that slot, where the network gives them.
pub fn live_clock(slot: Option<u64>, block_time: Option<i64>) -> (clock: Option<Clock>)
    ensures
        clock == match (slot, block_time) {
            (Some(slot), Some(time)) => Some(Clock::known(slot, time)),
            _ => None,
        },
{
    match slot {
        Some(slot) => match block_time {
            Some(unix_timestamp) => Some(
                Clock {
                    slot,
                    epoch_start_timestamp: 0,
                    epoch: 0,
                    leader_schedule_epoch: 0,
                    unix_timestamp,
                },
            ),
            None => None,
        },
        None => None,
    }
}

/// The number that eight bytes stand for, the lowest first.
pub open spec fn le_u64(bytes: Seq<u8>, at: int) -> int {
    bytes[at] + 0x100 * bytes[at + 1] + 0x1_0000 * bytes[at + 2] + 0x100_0000 * bytes[at + 3]
        + 0x1_0000_0000 * bytes[at + 4] + 0x100_0000_0000 * bytes[at + 5] + 0x1_0000_0000_0000
        * bytes[at + 6] + 0x100_0000_0000_0000 * bytes[at + 7]
}

/// The signed number that eight bytes stand for in two's complement, the lowest first.
pub open spec fn le_i64(bytes: Seq<u8>, at: int) -> int {
    if le_u64(bytes, at) < 0x8000_0000_0000_0000 {
        le_u64(bytes, at)
    } else {
        le_u64(bytes, at) - 0x1_0000_0000_0000_0000
    }
}

/// Whether bytes begin with the wire form of a clock: its five numbers in order, eight bytes each.
pub open spec fn is_wire_form(bytes: Seq<u8>, clock: Clock) -> bool {
    &&& bytes.len() >= 40
    &&& clock.slot == le_u64(bytes, 0)
    &&& clock.epoch_start_timestamp == le_i64(bytes, 8)
    &&& clock.epoch == le_u64(bytes, 16)
    &&& clock.leader_schedule_epoch == le_u64(bytes, 24)
    &&& clock.unix_timestamp == le_i64(bytes, 32)
}

/// Calls `bincode::deserialize` for a `solana_sdk::clock::Clock`. It reads the five numbers of the
/// clock in order, eight bytes each, the lowest first, passes over what follows them, and fails
/// where there are fewer bytes.
#[verifier::external_body]
fn deserialize_clock(bytes: &[u8]) -> (clock: Option<Clock>)
    ensures
        clock is Some <==> bytes@.len() >= 40,
        clock is Some ==> is_wire_form(bytes@, clock->0),
{
    let clock: solana_sdk::clock::Clock = bincode::deserialize(bytes).ok()?;
    Some(Clock {
        slot: clock.slot,
        epoch_start_timestamp: clock.epoch_start_timestamp,
        epoch: clock.epoch,
        leader_schedule_epoch: clock.leader_schedule_epoch,
        unix_timestamp: clock.unix_timestamp,
    })
}

/// The clock out of the data of the account that a runtime keeps it in.
pub fn decode_clock(data: &[u8]) -> (clock: Result<Clock, Error>)
    ensures
        match clock {
            Ok(clock) => is_wire_form(data@, clock),
            Err(error) => data@.len() < 40 && error == Error::MalformedClock,
        },
{
    match deserialize_clock(data) {
        Some(clock) => Ok(clock),
        None => Err(Error::MalformedClock),
    }
}

/// Bytes are the wire form of at most one clock.
pub proof fn law_wire_form_determines_clock(bytes: Seq<u8>, one: Clock, other: Clock)
    requires
        is_wire_form(bytes, one),
        is_wire_form(bytes, other),
    ensures
        one == other,
{
}

/// The clock of a live network has the slot and the time that the network gives, and is zero
/// otherwise.
pub proof fn law_live_clocks(slot: u64, unix_timestamp: i64)
    ensures
        Clock::known(slot, unix_timestamp).slot == slot,
        Clock::known(slot, unix_timestamp).unix_timestamp == unix_timestamp,
        Clock::known(slot, unix_timestamp).epoch_start_timestamp == 0,
        Clock::known(slot, unix_timestamp).epoch == 0,
        Clock::known(slot, unix_timestamp).leader_schedule_epoch == 0,
{
}

/// The numbers of a clock stand in its wire form one after the other, eight bytes each, and each
/// byte counts 256 times as much as the one before it. A number with its highest bit set is negative
/// where it is signed.
pub proof fn law_wire_form_is_read_in_order(bytes: Seq<u8>, clock: Clock, at: int)
    requires
        is_wire_form(bytes, clock),
        0 <= at <= 32,
    ensures
        bytes.len() >= 40,
        le_u64(bytes, at) == bytes[at] + 0x100 * (bytes[at + 1] + 0x100 * (bytes[at + 2] + 0x100 * (
        bytes[at + 3] + 0x100 * (bytes[at + 4] + 0x100 * (bytes[at + 5] + 0x100 * (bytes[at + 6]
            + 0x100 * bytes[at + 7])))))),
        bytes[at + 7] < 128 ==> le_i64(bytes, at) == le_u64(bytes, at),
        bytes[at + 7] >= 128 ==> le_i64(bytes, at) == le_u64(bytes, at) - 0x1_0000_0000_0000_0000,
        clock.slot == le_u64(bytes, 0),
        clock.epoch_start_timestamp == le_i64(bytes, 8),
        clock.epoch == le_u64(bytes, 16),
        clock.leader_schedule_epoch == le_u64(bytes, 24),
        clock.unix_timestamp == le_i64(bytes, 32),
{
}

} // verus!
