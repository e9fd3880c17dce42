//! Mathematical views of the protocol messages: every string becomes its
//! sequence of characters, everything else stays as it is.
use crate::protocol::{ClientMessage, Instrument, PeerInfo, Role, ServerMessage};
use vstd::prelude::*;

verus! {

/// A person as the contracts see them.
pub struct PeerView {
    pub name: Seq<char>,
    pub role: Role,
    pub instrument: Instrument,
}

impl View for PeerInfo {
    type V = PeerView;

    open spec fn view(&self) -> PeerView {
        PeerView { name: self.name@, role: self.role, instrument: self.instrument }
    }
}

/// The view of an optional person.
pub open spec fn opt_peer_view(info: Option<PeerInfo>) -> Option<PeerView> {
    match info {
        Some(p) => Some(p@),
        None => None,
    }
}

/// The view of an optional string.
pub open spec fn opt_text_view(text: Option<String>) -> Option<Seq<char>> {
    match text {
        Some(t) => Some(t@),
        None => None,
    }
}

/// A server message as the contracts see it.
pub enum ServerNote {
    Welcome { you: PeerView, partner: Option<PeerView> },
    PartnerJoined { partner: PeerView },
    PartnerLeft,
    Chat { from: Seq<char>, text: Seq<char> },
    Signal { kind: Seq<char>, sdp: Option<Seq<char>>, candidate: Option<serde_json::Value> },
    Error { message: Seq<char> },
}

impl View for ServerMessage {
    type V = ServerNote;

    open spec fn view(&self) -> ServerNote {
        match self {
            ServerMessage::Welcome { you, partner } => ServerNote::Welcome {
                you: you@,
                partner: opt_peer_view(*partner),
            },
            ServerMessage::PartnerJoined { partner } => ServerNote::PartnerJoined {
                partner: partner@,
            },
            ServerMessage::PartnerLeft => ServerNote::PartnerLeft,
            ServerMessage::Chat { from, text } => ServerNote::Chat { from: from@, text: text@ },
            ServerMessage::Signal { kind, sdp, candidate } => ServerNote::Signal {
                kind: kind@,
                sdp: opt_text_view(*sdp),
                candidate: *candidate,
            },
            ServerMessage::Error { message } => ServerNote::Error { message: message@ },
        }
    }
}

/// A client message as the contracts see it.
pub enum ClientNote {
    Join { you: PeerView },
    Chat { text: Seq<char> },
    Signal { kind: Seq<char>, sdp: Option<Seq<char>>, candidate: Option<serde_json::Value> },
    Leave,
}

impl View for ClientMessage {
    type V = ClientNote;

    open spec fn view(&self) -> ClientNote {
        match self {
            ClientMessage::Join { name, role, instrument } => ClientNote::Join {
                you: PeerView { name: name@, role: *role, instrument: *instrument },
            },
            ClientMessage::Chat { text } => ClientNote::Chat { text: text@ },
            ClientMessage::Signal { kind, sdp, candidate } => ClientNote::Signal {
                kind: kind@,
                sdp: opt_text_view(*sdp),
                candidate: *candidate,
            },
            ClientMessage::Leave => ClientNote::Leave,
        }
    }
}

} // verus!
