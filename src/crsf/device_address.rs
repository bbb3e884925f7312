//! Device addresses. The address of a frame's intended receiver doubles as
//! its sync byte.
use vstd::prelude::*;

verus! {

pub const BROADCAST: u8 = 0x00;

pub const FLIGHT_CONTROLLER: u8 = 0xC8;

pub const VTX: u8 = 0xCE;

pub const RADIO_TRANSMITTER: u8 = 0xEA;

pub const CRSF_RECEIVER: u8 = 0xEC;

pub const CRSF_TRANSMITTER: u8 = 0xEE;

} // verus!
