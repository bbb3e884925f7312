//! Wire-protocol engine for a CRSF radio-control and telemetry link.
//!
//! - `checksum`: the CRC-8/DVB-S2 engine.
//! - `channels`: the 11-bit channel packer.
//! - `crsf`: packet types, the packet codec and its round-trip laws.
//! - `framing`: the frame synchronizer for byte streams, and the envelope
//!   for datagrams.
//! - `telemetry`: the simulator's telemetry records.
//! - `joystick`: which joystick events a change of channels produces.
//! - `nmea`: NMEA sentence framing.
//! - `router_protocol`: the telemetry relay's one-byte commands.

pub mod channels;
pub mod checksum;
pub mod crsf;
pub mod framing;
pub mod joystick;
pub mod nmea;
pub mod router_protocol;
pub mod telemetry;
