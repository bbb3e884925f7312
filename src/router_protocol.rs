//! The one-byte command protocol between telemetry clients and the relay.
use vstd::prelude::*;

verus! {

/// Seconds between two Register commands that keep a client registered.
pub const KEEPALIVE_INTERVAL_SECS: u64 = 30;

/// Telemetry relay command opcode.
#[derive(Debug, Clone, Copy, PartialEq, Eq, Structural)]
pub enum Opcode {
    /// Register a client. This opcode doubles as keep-alive.
    Register,
    /// Unregister a client.
    Unregister,
}

impl Opcode {
    /// The byte that carries this opcode.
    pub open spec fn spec_code(self) -> u8 {
        match self {
            Opcode::Register => 0x00,
            Opcode::Unregister => 0x01,
        }
    }

    /// The byte that carries this opcode.
    #[verifier::when_used_as_spec(spec_code)]
    pub fn code(self) -> (r: u8)
        ensures
            r == self.spec_code(),
    {
        match self {
            Opcode::Register => 0x00,
            Opcode::Unregister => 0x01,
        }
    }

    /// The opcode carried by `v`; `None` for any byte but 0x00 and 0x01.
    pub fn from_u8(v: u8) -> (r: Option<Opcode>)
        ensures
            v == 0x00 ==> r == Some(Opcode::Register),
            v == 0x01 ==> r == Some(Opcode::Unregister),
            v > 0x01 ==> r is None,
    {
        match v {
            0x00 => Some(Opcode::Register),
            0x01 => Some(Opcode::Unregister),
            _ => None,
        }
    }
}

} // verus!
