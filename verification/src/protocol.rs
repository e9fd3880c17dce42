//! Who is in a lesson and the JSON-level messages that client and server exchange.
//!
//! The types here are plain data; turning them into JSON text is done by the
//! program around the library.
use vstd::prelude::*;

verus! {

/// Port the server listens on unless told otherwise.
pub const DEFAULT_PORT: u16 = 44041;

/// How many people a studio seats at once.
pub const MAX_PEERS: usize = 2;

/// A JSON value, carried through the studio unread (an ICE candidate).
#[verifier::external_type_specification]
#[verifier::external_body]
pub struct ExJsonValue(serde_json::Value);

/// Which side of the lesson a person is on.
#[derive(Debug, Clone, Copy, PartialEq, Eq, Structural)]
pub enum Role {
    Teacher,
    Student,
}

/// The instrument being taught.
#[derive(Debug, Clone, Copy, PartialEq, Eq, Structural)]
pub enum Instrument {
    Piano,
    Guitar,
}

/// The text shown for a role.
pub open spec fn role_label(role: Role) -> Seq<char> {
    match role {
        Role::Teacher => "Teacher"@,
        Role::Student => "Student"@,
    }
}

/// The text shown for an instrument.
pub open spec fn instrument_label(instrument: Instrument) -> Seq<char> {
    match instrument {
        Instrument::Piano => "Piano"@,
        Instrument::Guitar => "Guitar"@,
    }
}

impl Role {
    /// Display name of the role.
    pub fn label(self) -> (text: &'static str)
        ensures
            text@ == role_label(self),
    {
        match self {
            Role::Teacher => "Teacher",
            Role::Student => "Student",
        }
    }
}

impl Instrument {
    /// Display name of the instrument.
    pub fn label(self) -> (text: &'static str)
        ensures
            text@ == instrument_label(self),
    {
        match self {
            Instrument::Piano => "Piano",
            Instrument::Guitar => "Guitar",
        }
    }
}

/// What a person told the studio about themselves when joining.
#[derive(Debug, Clone, PartialEq, Eq)]
pub struct PeerInfo {
    pub name: String,
    pub role: Role,
    pub instrument: Instrument,
}

/// An exact copy of `info`.
pub fn copy_peer_info(info: &PeerInfo) -> (copy: PeerInfo)
    ensures
        copy == *info,
{
    PeerInfo { name: info.name.clone(), role: info.role, instrument: info.instrument }
}

/// A message from a client to the server.
#[derive(Debug, Clone, PartialEq)]
pub enum ClientMessage {
    /// Take a seat in the studio.
    Join { name: String, role: Role, instrument: Instrument },
    /// A chat line for the partner.
    Chat { text: String },
    /// WebRTC signalling for the partner.
    Signal { kind: String, sdp: Option<String>, candidate: Option<serde_json::Value> },
    /// Give the seat up.
    Leave,
}

/// A message from the server to a client.
#[derive(Debug, Clone, PartialEq)]
pub enum ServerMessage {
    /// Sent to whoever has just taken a seat.
    Welcome { you: PeerInfo, partner: Option<PeerInfo> },
    /// Sent to the person already seated when someone else takes a seat.
    PartnerJoined { partner: PeerInfo },
    /// Sent to the person still seated when the other one leaves.
    PartnerLeft,
    /// A chat line from the partner.
    Chat { from: String, text: String },
    /// WebRTC signalling from the partner.
    Signal { kind: String, sdp: Option<String>, candidate: Option<serde_json::Value> },
    /// Something went wrong for this client.
    Error { message: String },
}

} // verus!
