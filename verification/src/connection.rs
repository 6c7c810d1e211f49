//! Per-connection protocol state and the transitions the protocol allows.

use vstd::prelude::*;

verus! {

/// The phase a connection is in. Every connection starts in `Handshake`.
/// `Unknown` is terminal: a connection that enters it is shut down.
#[derive(Debug, Clone, Copy, PartialEq, Eq, Structural)]
pub enum ConnectionState {
    Handshake,
    Status,
    Login,
    Transfer,
    Unknown,
}

/// A semantically invalid input for the current state.
#[derive(Debug, Clone, Copy, PartialEq, Eq, Structural)]
pub enum ProtocolViolation {
    InvalidNextState,
    UnrecognizedPacket,
}

/// The state a next-state byte selects.
pub open spec fn state_from_byte(value: u8) -> ConnectionState {
    if value == 0 {
        ConnectionState::Handshake
    } else if value == 1 {
        ConnectionState::Status
    } else if value == 2 {
        ConnectionState::Login
    } else if value == 3 {
        ConnectionState::Transfer
    } else {
        ConnectionState::Unknown
    }
}

/// The handler the current state assigns to a packet id.
#[derive(Debug, Clone, Copy, PartialEq, Eq, Structural)]
pub enum PacketKind {
    /// Packet id 0x00 in the handshake state: pick the next state.
    Handshake,
    /// Packet id 0xFE in the handshake state: a legacy ping probe, no state change.
    LegacyPing,
    /// Packet id 0x00 in the status state: send the status response.
    StatusRequest,
    /// Packet id 0x01 in the status state: echo the payload back.
    PingRequest,
    /// Packet id 0x00 in the login state: parse the name and UUID, answer
    /// with a login success frame.
    LoginStart,
    /// Any other packet id: logged and dropped, never fatal by itself.
    Unrecognized,
}

/// Which handler a packet id selects in each state.
pub open spec fn spec_packet_kind(state: ConnectionState, packet_id: i32) -> PacketKind {
    match state {
        ConnectionState::Handshake => {
            if packet_id == 0x00 {
                PacketKind::Handshake
            } else if packet_id == 0xFE {
                PacketKind::LegacyPing
            } else {
                PacketKind::Unrecognized
            }
        },
        ConnectionState::Status => {
            if packet_id == 0x00 {
                PacketKind::StatusRequest
            } else if packet_id == 0x01 {
                PacketKind::PingRequest
            } else {
                PacketKind::Unrecognized
            }
        },
        ConnectionState::Login => {
            if packet_id == 0x00 {
                PacketKind::LoginStart
            } else {
                PacketKind::Unrecognized
            }
        },
        _ => PacketKind::Unrecognized,
    }
}

/// Route one packet id through the current state.
pub fn packet_kind(state: ConnectionState, packet_id: i32) -> (r: PacketKind)
    ensures
        r == spec_packet_kind(state, packet_id),
{
    match state {
        ConnectionState::Handshake => {
            if packet_id == 0x00 {
                PacketKind::Handshake
            } else if packet_id == 0xFE {
                PacketKind::LegacyPing
            } else {
                PacketKind::Unrecognized
            }
        },
        ConnectionState::Status => {
            if packet_id == 0x00 {
                PacketKind::StatusRequest
            } else if packet_id == 0x01 {
                PacketKind::PingRequest
            } else {
                PacketKind::Unrecognized
            }
        },
        ConnectionState::Login => {
            if packet_id == 0x00 {
                PacketKind::LoginStart
            } else {
                PacketKind::Unrecognized
            }
        },
        ConnectionState::Transfer => PacketKind::Unrecognized,
        ConnectionState::Unknown => PacketKind::Unrecognized,
    }
}

impl ConnectionState {
    /// Map a next-state byte to a state; bytes outside the protocol yield
    /// `Unknown`.
    pub fn from_u8(value: u8) -> (r: ConnectionState)
        ensures
            r == state_from_byte(value),
    {
        match value {
            0 => Self::Handshake,
            1 => Self::Status,
            2 => Self::Login,
            3 => Self::Transfer,
            _ => Self::Unknown,
        }
    }

    /// The state's name, for logs.
    pub fn name(&self) -> (r: &'static str)
        ensures
            r@ == state_label(*self),
    {
        match self {
            Self::Handshake => "Handshake",
            Self::Status => "Status",
            Self::Login => "Login",
            Self::Transfer => "Transfer",
            Self::Unknown => "Unknown",
        }
    }
}

/// The name of each state.
pub open spec fn state_label(s: ConnectionState) -> Seq<char> {
    match s {
        ConnectionState::Handshake => "Handshake"@,
        ConnectionState::Status => "Status"@,
        ConnectionState::Login => "Login"@,
        ConnectionState::Transfer => "Transfer"@,
        ConnectionState::Unknown => "Unknown"@,
    }
}

/// The phases a handshake may move a connection into: status, login or
/// transfer, and nothing else.
pub open spec fn is_handshake_target(s: ConnectionState) -> bool {
    ||| s == ConnectionState::Status
    ||| s == ConnectionState::Login
    ||| s == ConnectionState::Transfer
}

/// Handle a handshake packet's payload: its trailing next-state byte picks
/// the connection's next phase. A byte that names no phase a handshake may
/// enter — the handshake phase itself included — is a fatal violation, and
/// the connection must be shut down.
pub fn handshake(payload: &[u8]) -> (r: Result<ConnectionState, ProtocolViolation>)
    requires
        payload@.len() > 0,
    ensures
        (r is Ok) <==> is_handshake_target(state_from_byte(payload@.last())),
        r matches Ok(s) ==> s == state_from_byte(payload@.last()),
        r matches Err(e) ==> e == ProtocolViolation::InvalidNextState,
{
    let next = payload[payload.len() - 1];
    let state = ConnectionState::from_u8(next);
    match state {
        ConnectionState::Status => Ok(state),
        ConnectionState::Login => Ok(state),
        ConnectionState::Transfer => Ok(state),
        _ => Err(ProtocolViolation::InvalidNextState),
    }
}

} // verus!
