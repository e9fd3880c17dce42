//! The studio: who is connected, who holds one of the two seats, and what
//! each event sends to whom.
//!
//! Every operation takes the current state and one event and returns the
//! deliveries to make; the program around the library owns the sockets and
//! carries the deliveries out.
use crate::protocol::{copy_peer_info, ClientMessage, PeerInfo, ServerMessage};
use crate::views::{opt_peer_view, opt_text_view, ClientNote, PeerView, ServerNote};
use vstd::prelude::*;
use vstd::string::StrSliceExecFns;
use vstd::string::StringExecFns;

verus! {

/// A binary media frame, relayed unread.
#[verifier::external_type_specification]
#[verifier::external_body]
pub struct ExBytes(bytes::Bytes);

/// Something to send down one client's socket.
#[derive(Debug, PartialEq)]
pub enum Outbound {
    /// A JSON message.
    Message(ServerMessage),
    /// A binary media frame from the partner.
    Binary(bytes::Bytes),
    /// Close the socket.
    Close,
}

/// An outbound item and the connection it goes to.
#[derive(Debug, PartialEq)]
pub struct Delivery {
    pub to: u32,
    pub outbound: Outbound,
}

/// What one client sent, as the socket loop hands it over.
#[derive(Debug)]
pub enum ClientEvent {
    /// A text frame that parsed as a client message.
    Message(ClientMessage),
    /// A text frame that did not parse; the parser's complaint.
    Invalid(String),
    /// A binary frame.
    Binary(bytes::Bytes),
}

/// An outbound item as the contracts see it.
pub enum OutboundView {
    Message(ServerNote),
    Binary(bytes::Bytes),
    Close,
}

impl View for Outbound {
    type V = OutboundView;

    open spec fn view(&self) -> OutboundView {
        match self {
            Outbound::Message(m) => OutboundView::Message(m@),
            Outbound::Binary(b) => OutboundView::Binary(*b),
            Outbound::Close => OutboundView::Close,
        }
    }
}

impl View for Delivery {
    type V = (u32, OutboundView);

    open spec fn view(&self) -> (u32, OutboundView) {
        (self.to, self.outbound@)
    }
}

/// The views of a list of deliveries, in order.
pub open spec fn deliveries_view(ds: Seq<Delivery>) -> Seq<(u32, OutboundView)> {
    ds.map_values(|d: Delivery| d@)
}

/// A connection's handle; only the studio hands these out.
#[derive(Debug)]
pub struct Session {
    id: u32,
}

impl View for Session {
    type V = u32;

    closed spec fn view(&self) -> u32 {
        self.id
    }
}

impl Session {
    /// The connection number of this session.
    pub fn id(&self) -> (id: u32)
        ensures
            id == self@,
    {
        self.id
    }
}

/// The connections of a studio: each connection number maps to what that
/// person joined as, or to `None` while they hold no seat.
pub type Seats = Map<u32, Option<PeerView>>;

/// Whether connection `id` holds a seat.
pub open spec fn seated(m: Seats, id: u32) -> bool {
    m.contains_key(id) && m[id] is Some
}

/// The name connection `id` joined with.
pub open spec fn name_of(m: Seats, id: u32) -> Seq<char> {
    m[id]->Some_0.name
}

/// A character folded for comparison: ASCII capitals count as lower case.
pub open spec fn fold_case(c: char) -> u32 {
    if 'A' <= c && c <= 'Z' {
        (c as u32 + 32) as u32
    } else {
        c as u32
    }
}

/// A name folded for comparison.
pub open spec fn folded(name: Seq<char>) -> Seq<u32> {
    Seq::new(name.len(), |i: int| fold_case(name[i]))
}

/// Two names are the same person when they differ at most in ASCII letter case.
pub open spec fn same_name(a: Seq<char>, b: Seq<char>) -> bool {
    folded(a) == folded(b)
}

/// What every studio keeps true: connection numbers below the next one to hand
/// out, at most two seats taken (`MAX_PEERS`: no three distinct connections are
/// seated), and no two seated people with the same name.
pub open spec fn studio_valid(m: Seats, next_id: u32) -> bool {
    &&& forall|id: u32| #[trigger] m.contains_key(id) ==> id < next_id
    &&& forall|a: u32, b: u32, c: u32|
        #![trigger seated(m, a), seated(m, b), seated(m, c)]
        seated(m, a) && seated(m, b) && seated(m, c) ==> a == b || a == c || b == c
    &&& forall|a: u32, b: u32|
        #![trigger seated(m, a), seated(m, b)]
        seated(m, a) && seated(m, b) && a != b ==> !same_name(name_of(m, a), name_of(m, b))
}

/// Some seated person other than `id`, if there is one.
pub open spec fn partner_of(m: Seats, id: u32) -> Option<u32> {
    if exists|j: u32| j != id && #[trigger] seated(m, j) {
        Some(choose|j: u32| j != id && #[trigger] seated(m, j))
    } else {
        None
    }
}

/// Whether two seated people other than `id` fill the studio.
pub open spec fn full_for(m: Seats, id: u32) -> bool {
    exists|a: u32, b: u32|
        #![trigger seated(m, a), seated(m, b)]
        a != b && a != id && b != id && seated(m, a) && seated(m, b)
}

/// Whether `j` is someone else already seated under `name`.
pub open spec fn is_stale_seat(m: Seats, id: u32, name: Seq<char>, j: u32) -> bool {
    j != id && seated(m, j) && same_name(name_of(m, j), name)
}

/// The seat someone else holds under `name`, if any: joining under that name reclaims it.
pub open spec fn stale_seat(m: Seats, id: u32, name: Seq<char>) -> Option<u32> {
    if exists|j: u32| #[trigger] is_stale_seat(m, id, name, j) {
        Some(choose|j: u32| #[trigger] is_stale_seat(m, id, name, j))
    } else {
        None
    }
}

/// The text a client gets when both seats are taken.
pub open spec fn studio_full_text() -> Seq<char> {
    "This studio already has two people. Wait for a seat or start the server on another host."@
}

/// A JSON message for connection `to`.
pub open spec fn note_to(to: u32, note: ServerNote) -> (u32, OutboundView) {
    (to, OutboundView::Message(note))
}

/// Closing connection `to`.
pub open spec fn close_of(to: u32) -> (u32, OutboundView) {
    (to, OutboundView::Close)
}

/// The seats after the stale seat under `name` (if any) is taken back, and the
/// deliveries that closes it.
pub open spec fn reclaim(m: Seats, id: u32, name: Seq<char>) -> (Seats, Seq<(u32, OutboundView)>) {
    match stale_seat(m, id, name) {
        Some(j) => (m.remove(j), seq![close_of(j)]),
        None => (m, seq![]),
    }
}

/// Joining: an unknown connection changes nothing. Otherwise a stale seat under the
/// same name is taken back first; then, if two others are seated, the joiner is told
/// the studio is full and is dropped; else the joiner takes a seat, is welcomed with
/// the partner's details, and the partner (if any) learns who joined.
pub open spec fn join_outcome(m: Seats, id: u32, you: PeerView) -> (Seats, Seq<(u32, OutboundView)>) {
    if !m.contains_key(id) {
        (m, seq![])
    } else {
        let (m1, closed) = reclaim(m, id, you.name);
        if full_for(m1, id) {
            (
                m1.remove(id),
                closed + seq![
                    note_to(id, ServerNote::Error { message: studio_full_text() }),
                    close_of(id),
                ],
            )
        } else {
            let m2 = m1.insert(id, Some(you));
            match partner_of(m1, id) {
                Some(p) => (
                    m2,
                    closed + seq![
                        note_to(id, ServerNote::Welcome { you, partner: m1[p] }),
                        note_to(p, ServerNote::PartnerJoined { partner: you }),
                    ],
                ),
                None => (m2, closed + seq![note_to(id, ServerNote::Welcome { you, partner: None })]),
            }
        }
    }
}

/// Whether `q` is the one connection besides `id`: the studio holds exactly these two.
pub open spec fn only_other(m: Seats, id: u32, q: u32) -> bool {
    q != id && m.contains_key(q) && forall|j: u32| #[trigger] m.contains_key(j) ==> j == id || j == q
}

/// The other connection when the studio holds exactly two, `id` and one more.
pub open spec fn sole_other(m: Seats, id: u32) -> Option<u32> {
    if exists|q: u32| #[trigger] only_other(m, id, q) {
        Some(choose|q: u32| #[trigger] only_other(m, id, q))
    } else {
        None
    }
}

/// Whom the traffic of connection `id` is relayed to. With exactly two connections
/// it goes to the other one, whether or not either has joined. With more, only a
/// seated person's traffic is relayed, to the other seated person.
pub open spec fn relay_target(m: Seats, id: u32) -> Option<u32> {
    if !m.contains_key(id) {
        None
    } else if sole_other(m, id) is Some {
        sole_other(m, id)
    } else if seated(m, id) {
        partner_of(m, id)
    } else {
        None
    }
}

/// One delivery to the relay target, or none.
pub open spec fn relay(m: Seats, id: u32, out: OutboundView) -> Seq<(u32, OutboundView)> {
    match relay_target(m, id) {
        Some(p) => seq![(p, out)],
        None => seq![],
    }
}

/// A chat line goes out only from someone who has joined, signed with their name.
pub open spec fn chat_relay(m: Seats, id: u32, text: Seq<char>) -> Seq<(u32, OutboundView)> {
    if seated(m, id) {
        relay(m, id, OutboundView::Message(ServerNote::Chat { from: name_of(m, id), text }))
    } else {
        seq![]
    }
}

/// Telling the relay target of `id` that its partner left: with exactly two
/// connections the other one is told, joined or not; with more, the other seated
/// person is told when a seated person goes.
pub open spec fn farewell(m: Seats, id: u32) -> Seq<(u32, OutboundView)> {
    relay(m, id, OutboundView::Message(ServerNote::PartnerLeft))
}

/// Leaving: the connection gives its seat up and goes, its relay target is told,
/// and its socket is closed.
pub open spec fn leave_outcome(m: Seats, id: u32) -> (Seats, Seq<(u32, OutboundView)>) {
    if m.contains_key(id) {
        (m.remove(id), farewell(m, id) + seq![close_of(id)])
    } else {
        (m, seq![])
    }
}

/// Disconnecting: the connection is forgotten and its relay target is told.
pub open spec fn disconnect_outcome(m: Seats, id: u32) -> (Seats, Seq<(u32, OutboundView)>) {
    if m.contains_key(id) {
        (m.remove(id), farewell(m, id))
    } else {
        (m, seq![])
    }
}

/// An error reported back to the connection itself, if it is still known.
pub open spec fn error_outcome(m: Seats, id: u32, message: Seq<char>) -> Seq<(u32, OutboundView)> {
    if m.contains_key(id) {
        seq![note_to(id, ServerNote::Error { message })]
    } else {
        seq![]
    }
}

/// The text sent back for a frame that did not parse.
pub open spec fn invalid_text(complaint: Seq<char>) -> Seq<char> {
    "Invalid message: "@ + complaint
}

/// A client event as the contracts see it.
pub enum EventView {
    Message(ClientNote),
    Invalid(Seq<char>),
    Binary(bytes::Bytes),
}

impl View for ClientEvent {
    type V = EventView;

    open spec fn view(&self) -> EventView {
        match self {
            ClientEvent::Message(m) => EventView::Message(m@),
            ClientEvent::Invalid(c) => EventView::Invalid(c@),
            ClientEvent::Binary(b) => EventView::Binary(*b),
        }
    }
}

/// What one event from connection `id` does to the studio and whom it reaches.
pub open spec fn handle_outcome(m: Seats, id: u32, event: EventView) -> (Seats, Seq<(u32, OutboundView)>) {
    match event {
        EventView::Message(ClientNote::Join { you }) => join_outcome(m, id, you),
        EventView::Message(ClientNote::Chat { text }) => (m, chat_relay(m, id, text)),
        EventView::Message(ClientNote::Signal { kind, sdp, candidate }) => (
            m,
            relay(m, id, OutboundView::Message(ServerNote::Signal { kind, sdp, candidate })),
        ),
        EventView::Message(ClientNote::Leave) => leave_outcome(m, id),
        EventView::Invalid(complaint) => (m, error_outcome(m, id, invalid_text(complaint))),
        EventView::Binary(payload) => (m, relay(m, id, OutboundView::Binary(payload))),
    }
}

struct Conn {
    id: u32,
    info: Option<PeerInfo>,
}

spec fn has_id(s: Seq<Conn>, id: u32) -> bool {
    exists|i: int| 0 <= i < s.len() && #[trigger] s[i].id == id
}

spec fn index_of(s: Seq<Conn>, id: u32) -> int {
    choose|i: int| 0 <= i < s.len() && #[trigger] s[i].id == id
}

spec fn unique_ids(s: Seq<Conn>) -> bool {
    forall|i: int, j: int|
        0 <= i < s.len() && 0 <= j < s.len() && i != j ==> #[trigger] s[i].id != #[trigger] s[j].id
}

spec fn seats_of(s: Seq<Conn>) -> Seats {
    Map::new(|id: u32| has_id(s, id), |id: u32| opt_peer_view(s[index_of(s, id)].info))
}

proof fn lemma_seat_at(s: Seq<Conn>, i: int)
    requires
        unique_ids(s),
        0 <= i < s.len(),
    ensures
        seats_of(s).contains_key(s[i].id),
        seats_of(s)[s[i].id] == opt_peer_view(s[i].info),
        index_of(s, s[i].id) == i,
{
    assert(has_id(s, s[i].id));
    let k = index_of(s, s[i].id);
    assert(s[k].id == s[i].id);
}

proof fn lemma_seats_push(s: Seq<Conn>, c: Conn)
    requires
        unique_ids(s),
        !has_id(s, c.id),
    ensures
        unique_ids(s.push(c)),
        seats_of(s.push(c)) == seats_of(s).insert(c.id, opt_peer_view(c.info)),
{
    let t = s.push(c);
    assert(unique_ids(t)) by {
        assert forall|i: int, j: int|
            0 <= i < t.len() && 0 <= j < t.len() && i != j implies #[trigger] t[i].id
            != #[trigger] t[j].id by {
            if i == s.len() {
                assert(s[j].id == t[j].id);
            } else if j == s.len() {
                assert(s[i].id == t[i].id);
            } else {
                assert(s[i].id == t[i].id && s[j].id == t[j].id);
            }
        }
    }
    assert forall|id: u32| #[trigger] seats_of(t).contains_key(id) == seats_of(s).insert(
        c.id,
        opt_peer_view(c.info),
    ).contains_key(id) by {
        if has_id(t, id) {
            let k = choose|k: int| 0 <= k < t.len() && #[trigger] t[k].id == id;
            if k < s.len() {
                assert(s[k].id == id);
            }
        }
        if has_id(s, id) {
            let k = choose|k: int| 0 <= k < s.len() && #[trigger] s[k].id == id;
            assert(t[k].id == id);
        }
        assert(t[s.len() as int].id == c.id);
    }
    assert forall|id: u32| #[trigger] seats_of(t).contains_key(id) implies seats_of(t)[id]
        == seats_of(s).insert(c.id, opt_peer_view(c.info))[id] by {
        let k = choose|k: int| 0 <= k < t.len() && #[trigger] t[k].id == id;
        lemma_seat_at(t, k);
        if k < s.len() {
            assert(s[k] == t[k]);
            lemma_seat_at(s, k);
        }
    }
    assert(seats_of(t) =~= seats_of(s).insert(c.id, opt_peer_view(c.info)));
}

proof fn lemma_seats_remove(s: Seq<Conn>, i: int)
    requires
        unique_ids(s),
        0 <= i < s.len(),
    ensures
        unique_ids(s.remove(i)),
        seats_of(s.remove(i)) == seats_of(s).remove(s[i].id),
{
    let t = s.remove(i);
    assert forall|a: int| 0 <= a < t.len() implies #[trigger] t[a] == (if a < i {
        s[a]
    } else {
        s[a + 1]
    }) by {}
    assert(unique_ids(t)) by {
        assert forall|a: int, b: int|
            0 <= a < t.len() && 0 <= b < t.len() && a != b implies #[trigger] t[a].id
            != #[trigger] t[b].id by {
            let a1 = if a < i {
                a
            } else {
                a + 1
            };
            let b1 = if b < i {
                b
            } else {
                b + 1
            };
            assert(t[a] == s[a1] && t[b] == s[b1]);
        }
    }
    let gone = s[i].id;
    assert forall|id: u32| #[trigger] seats_of(t).contains_key(id) == seats_of(s).remove(
        gone,
    ).contains_key(id) by {
        if has_id(t, id) {
            let k = choose|k: int| 0 <= k < t.len() && #[trigger] t[k].id == id;
            let k1 = if k < i {
                k
            } else {
                k + 1
            };
            assert(s[k1].id == id);
            assert(k1 != i);
        }
        if has_id(s, id) && id != gone {
            let k = choose|k: int| 0 <= k < s.len() && #[trigger] s[k].id == id;
            assert(k != i);
            if k < i {
                assert(t[k].id == id);
            } else {
                assert(t[k - 1].id == id);
            }
        }
    }
    assert forall|id: u32| #[trigger] seats_of(t).contains_key(id) implies seats_of(t)[id]
        == seats_of(s).remove(gone)[id] by {
        let k = choose|k: int| 0 <= k < t.len() && #[trigger] t[k].id == id;
        lemma_seat_at(t, k);
        let k1 = if k < i {
            k
        } else {
            k + 1
        };
        assert(t[k] == s[k1]);
        lemma_seat_at(s, k1);
    }
    assert(seats_of(t) =~= seats_of(s).remove(gone));
}

proof fn lemma_seats_update(s: Seq<Conn>, i: int, c: Conn)
    requires
        unique_ids(s),
        0 <= i < s.len(),
        c.id == s[i].id,
    ensures
        unique_ids(s.update(i, c)),
        seats_of(s.update(i, c)) == seats_of(s).insert(c.id, opt_peer_view(c.info)),
{
    let t = s.update(i, c);
    assert(unique_ids(t)) by {
        assert forall|a: int, b: int|
            0 <= a < t.len() && 0 <= b < t.len() && a != b implies #[trigger] t[a].id
            != #[trigger] t[b].id by {
            assert(t[a].id == s[a].id && t[b].id == s[b].id);
        }
    }
    assert forall|id: u32| #[trigger] seats_of(t).contains_key(id) == seats_of(s).insert(
        c.id,
        opt_peer_view(c.info),
    ).contains_key(id) by {
        if has_id(t, id) {
            let k = choose|k: int| 0 <= k < t.len() && #[trigger] t[k].id == id;
            assert(s[k].id == id);
        }
        if has_id(s, id) {
            let k = choose|k: int| 0 <= k < s.len() && #[trigger] s[k].id == id;
            assert(t[k].id == id);
        }
        assert(t[i].id == c.id);
    }
    assert forall|id: u32| #[trigger] seats_of(t).contains_key(id) implies seats_of(t)[id]
        == seats_of(s).insert(c.id, opt_peer_view(c.info))[id] by {
        let k = choose|k: int| 0 <= k < t.len() && #[trigger] t[k].id == id;
        lemma_seat_at(t, k);
        if k != i {
            assert(t[k] == s[k]);
            lemma_seat_at(s, k);
        }
    }
    assert(seats_of(t) =~= seats_of(s).insert(c.id, opt_peer_view(c.info)));
}

proof fn lemma_sole_other(s: Seq<Conn>, i: int)
    requires
        unique_ids(s),
        0 <= i < s.len(),
    ensures
        s.len() == 2 ==> sole_other(seats_of(s), s[i].id) == Some(s[1 - i].id),
        s.len() != 2 ==> sole_other(seats_of(s), s[i].id) is None,
{
    let m = seats_of(s);
    let id = s[i].id;
    lemma_seat_at(s, i);
    if s.len() == 2 {
        let k = 1 - i;
        let q = s[k].id;
        lemma_seat_at(s, k);
        assert forall|j: u32| #[trigger] m.contains_key(j) implies j == id || j == q by {
            let t = choose|t: int| 0 <= t < s.len() && #[trigger] s[t].id == j;
        }
        assert(only_other(m, id, q));
        assert forall|q2: u32| #[trigger] only_other(m, id, q2) implies q2 == q by {
            assert(m.contains_key(q2));
        }
    } else {
        assert forall|q: u32| !#[trigger] only_other(m, id, q) by {
            if only_other(m, id, q) {
                let t = choose|t: int| 0 <= t < s.len() && #[trigger] s[t].id == q;
                if s.len() == 1 {
                    assert(t == i);
                } else {
                    let a: int = if i == 0 {
                        1
                    } else {
                        0
                    };
                    let b: int = if i == 2 {
                        1
                    } else {
                        2
                    };
                    lemma_seat_at(s, a);
                    lemma_seat_at(s, b);
                    assert(s[a].id != id && s[b].id != id && s[a].id != s[b].id);
                    assert(m.contains_key(s[a].id) && m.contains_key(s[b].id));
                }
            }
        }
    }
}

/// The position of connection `id`.
fn find_conn(conns: &Vec<Conn>, id: u32) -> (found: Option<usize>)
    requires
        unique_ids(conns@),
    ensures
        match found {
            Some(i) => i < conns@.len() && conns@[i as int].id == id,
            None => !has_id(conns@, id),
        },
{
    let mut i: usize = 0;
    while i < conns.len()
        invariant
            i <= conns@.len(),
            forall|k: int| 0 <= k < i ==> #[trigger] conns@[k].id != id,
        decreases conns@.len() - i,
    {
        if conns[i].id == id {
            return Some(i);
        }
        i = i + 1;
    }
    None
}

/// The first two seated connections other than `id`, by position.
fn seated_others(conns: &Vec<Conn>, id: u32) -> (found: (Option<usize>, Option<usize>))
    requires
        unique_ids(conns@),
    ensures
        found.0 is None ==> found.1 is None,
        match found {
            (None, _) => forall|k: int|
                0 <= k < conns@.len() ==> !(#[trigger] conns@[k].id != id && conns@[k].info is Some),
            (Some(a), None) => a < conns@.len() && conns@[a as int].id != id
                && conns@[a as int].info is Some && forall|k: int|
                0 <= k < conns@.len() && k != a ==> !(#[trigger] conns@[k].id != id
                && conns@[k].info is Some),
            (Some(a), Some(b)) => a < conns@.len() && b < conns@.len() && a != b
                && conns@[a as int].id != id && conns@[a as int].info is Some
                && conns@[b as int].id != id && conns@[b as int].info is Some,
        },
{
    let mut first: Option<usize> = None;
    let mut i: usize = 0;
    while i < conns.len()
        invariant
            i <= conns@.len(),
            match first {
                None => forall|k: int|
                    0 <= k < i ==> !(#[trigger] conns@[k].id != id && conns@[k].info is Some),
                Some(a) => a < i && conns@[a as int].id != id && conns@[a as int].info is Some
                    && forall|k: int|
                    0 <= k < i && k != a ==> !(#[trigger] conns@[k].id != id
                    && conns@[k].info is Some),
            },
        decreases conns@.len() - i,
    {
        if conns[i].id != id && conns[i].info.is_some() {
            match first {
                None => {
                    first = Some(i);
                },
                Some(a) => {
                    return (Some(a), Some(i));
                },
            }
        }
        i = i + 1;
    }
    (first, None)
}

proof fn lemma_seated_index(s: Seq<Conn>, j: u32) -> (k: int)
    requires
        unique_ids(s),
        seated(seats_of(s), j),
    ensures
        0 <= k < s.len(),
        s[k].id == j,
        s[k].info is Some,
        seats_of(s)[j] == opt_peer_view(s[k].info),
{
    let k = choose|k: int| 0 <= k < s.len() && #[trigger] s[k].id == j;
    lemma_seat_at(s, k);
    k
}

proof fn lemma_index_seated(s: Seq<Conn>, k: int)
    requires
        unique_ids(s),
        0 <= k < s.len(),
        s[k].info is Some,
    ensures
        seated(seats_of(s), s[k].id),
        name_of(seats_of(s), s[k].id) == s[k].info->Some_0.name@,
{
    lemma_seat_at(s, k);
}

proof fn lemma_seated_not_full(m: Seats, n: u32, id: u32)
    requires
        studio_valid(m, n),
        seated(m, id),
    ensures
        !full_for(m, id),
{
    if full_for(m, id) {
        let (a, b) = choose|a: u32, b: u32|
            #![trigger seated(m, a), seated(m, b)]
            a != b && a != id && b != id && seated(m, a) && seated(m, b);
        assert(seated(m, a) && seated(m, b) && seated(m, id));
    }
}

proof fn lemma_valid_shrink(m: Seats, m2: Seats, n: u32)
    requires
        studio_valid(m, n),
        forall|x: u32| #[trigger] m2.contains_key(x) ==> m.contains_key(x),
        forall|x: u32| #[trigger] seated(m2, x) ==> seated(m, x) && m2[x] == m[x],
    ensures
        studio_valid(m2, n),
{
    assert forall|a: u32, b: u32, c: u32|
        #![trigger seated(m2, a), seated(m2, b), seated(m2, c)]
        seated(m2, a) && seated(m2, b) && seated(m2, c) implies a == b || a == c || b == c by {
        assert(seated(m, a) && seated(m, b) && seated(m, c));
    }
    assert forall|a: u32, b: u32|
        #![trigger seated(m2, a), seated(m2, b)]
        seated(m2, a) && seated(m2, b) && a != b implies !same_name(
            name_of(m2, a),
            name_of(m2, b),
        ) by {
        assert(seated(m, a) && seated(m, b));
    }
}

proof fn lemma_join_valid(m0: Seats, m1: Seats, n: u32, id: u32, you: PeerView)
    requires
        studio_valid(m0, n),
        m0.contains_key(id),
        m1.contains_key(id),
        forall|x: u32| #[trigger] m1.contains_key(x) ==> m0.contains_key(x) && m1[x] == m0[x],
        forall|x: u32| #[trigger] is_stale_seat(m0, id, you.name, x) ==> !m1.contains_key(x),
        !full_for(m1, id),
    ensures
        studio_valid(m1.insert(id, Some(you)), n),
{
    let m2 = m1.insert(id, Some(you));
    assert forall|x: u32| #[trigger] m2.contains_key(x) implies x < n by {
        if x != id {
            assert(m1.contains_key(x));
            assert(m0.contains_key(x));
        } else {
            assert(m0.contains_key(id));
        }
    }
    assert forall|a: u32, b: u32, c: u32|
        #![trigger seated(m2, a), seated(m2, b), seated(m2, c)]
        seated(m2, a) && seated(m2, b) && seated(m2, c) implies a == b || a == c || b == c by {
        if a != b && a != c && b != c {
            if a == id {
                assert(seated(m1, b) && seated(m1, c));
            } else if b == id {
                assert(seated(m1, a) && seated(m1, c));
            } else {
                assert(seated(m1, a) && seated(m1, b));
            }
        }
    }
    assert forall|a: u32, b: u32|
        #![trigger seated(m2, a), seated(m2, b)]
        seated(m2, a) && seated(m2, b) && a != b implies !same_name(
            name_of(m2, a),
            name_of(m2, b),
        ) by {
        if a == id {
            assert(m1.contains_key(b));
            assert(seated(m0, b));
            if same_name(name_of(m2, a), name_of(m2, b)) {
                assert(is_stale_seat(m0, id, you.name, b));
            }
        } else if b == id {
            assert(m1.contains_key(a));
            assert(seated(m0, a));
            if same_name(name_of(m2, a), name_of(m2, b)) {
                assert(is_stale_seat(m0, id, you.name, a));
            }
        } else {
            assert(m1.contains_key(a) && m1.contains_key(b));
            assert(seated(m0, a) && seated(m0, b));
        }
    }
}

proof fn lemma_partner_is(m: Seats, id: u32, p: u32)
    requires
        p != id,
        seated(m, p),
        forall|j: u32| j != id && #[trigger] seated(m, j) ==> j == p,
    ensures
        partner_of(m, id) == Some(p),
{
    assert(p != id && seated(m, p));
}

/// The position of the partner of `id`, given that at most one other person is seated.
fn partner_index(conns: &Vec<Conn>, id: u32) -> (found: Option<usize>)
    requires
        unique_ids(conns@),
        !full_for(seats_of(conns@), id),
    ensures
        match found {
            Some(k) => k < conns@.len() && conns@[k as int].info is Some && partner_of(
                seats_of(conns@),
                id,
            ) == Some(conns@[k as int].id),
            None => partner_of(seats_of(conns@), id) is None && forall|j: u32|
                !(j != id && #[trigger] seated(seats_of(conns@), j)),
        },
{
    let ghost m = seats_of(conns@);
    let (first, second) = seated_others(conns, id);
    match first {
        None => {
            proof {
                assert forall|j: u32| !(j != id && #[trigger] seated(m, j)) by {
                    if j != id && seated(m, j) {
                        let k = lemma_seated_index(conns@, j);
                    }
                }
            }
            None
        },
        Some(a) => {
            proof {
                lemma_index_seated(conns@, a as int);
                let p = conns@[a as int].id;
                if second is Some {
                    let b = second->Some_0;
                    lemma_index_seated(conns@, b as int);
                    assert(seated(m, p) && seated(m, conns@[b as int].id));
                    assert(p != conns@[b as int].id);
                    assert(false);
                }
                assert forall|j: u32| j != id && #[trigger] seated(m, j) implies j == p by {
                    let k = lemma_seated_index(conns@, j);
                    if k != a {
                        assert(conns@[k].id != id && conns@[k].info is Some);
                    }
                }
                lemma_partner_is(m, id, p);
            }
            Some(a)
        },
    }
}

/// Whether two names differ at most in ASCII letter case.
pub fn names_match(a: &str, b: &str) -> (same: bool)
    ensures
        same == same_name(a@, b@),
{
    let n = a.unicode_len();
    if n != b.unicode_len() {
        proof {
            assert(folded(a@).len() != folded(b@).len());
        }
        return false;
    }
    let mut i: usize = 0;
    while i < n
        invariant
            n == a@.len(),
            n == b@.len(),
            i <= n,
            forall|k: int| 0 <= k < i ==> fold_case(#[trigger] a@[k]) == fold_case(b@[k]),
        decreases n - i,
    {
        let x = a.get_char(i) as u32;
        let y = b.get_char(i) as u32;
        let fx = if 65 <= x && x <= 90 {
            x + 32
        } else {
            x
        };
        let fy = if 65 <= y && y <= 90 {
            y + 32
        } else {
            y
        };
        if fx != fy {
            proof {
                assert(folded(a@)[i as int] != folded(b@)[i as int]);
            }
            return false;
        }
        i = i + 1;
    }
    proof {
        assert(folded(a@) =~= folded(b@));
    }
    true
}

/// A seated connection other than `id` whose name matches `name`.
fn find_stale(conns: &Vec<Conn>, id: u32, name: &str) -> (found: Option<usize>)
    requires
        unique_ids(conns@),
    ensures
        match found {
            Some(i) => i < conns@.len() && conns@[i as int].id != id && conns@[i as int].info is Some
                && same_name(conns@[i as int].info->Some_0.name@, name@),
            None => forall|k: int|
                0 <= k < conns@.len() ==> !(#[trigger] conns@[k].id != id && conns@[k].info is Some
                    && same_name(conns@[k].info->Some_0.name@, name@)),
        },
{
    let mut i: usize = 0;
    while i < conns.len()
        invariant
            i <= conns@.len(),
            forall|k: int|
                0 <= k < i ==> !(#[trigger] conns@[k].id != id && conns@[k].info is Some
                    && same_name(conns@[k].info->Some_0.name@, name@)),
        decreases conns@.len() - i,
    {
        if conns[i].id != id {
            match &conns[i].info {
                Some(info) => {
                    if names_match(info.name.as_str(), name) {
                        return Some(i);
                    }
                },
                None => {},
            }
        }
        i = i + 1;
    }
    None
}

fn message_to(to: u32, message: ServerMessage) -> (d: Delivery)
    ensures
        d@ == note_to(to, message@),
{
    Delivery { to, outbound: Outbound::Message(message) }
}

fn close_to(to: u32) -> (d: Delivery)
    ensures
        d@ == close_of(to),
{
    Delivery { to, outbound: Outbound::Close }
}

fn studio_full_message() -> (text: String)
    ensures
        text@ == studio_full_text(),
{
    String::from_str(
        "This studio already has two people. Wait for a seat or start the server on another host.",
    )
}

/// The pairing state of one lesson server.
pub struct Studio {
    next_id: u32,
    conns: Vec<Conn>,
}

impl Studio {
    #[verifier::type_invariant]
    spec fn well_formed(self) -> bool {
        &&& unique_ids(self.conns@)
        &&& studio_valid(seats_of(self.conns@), self.next_id)
    }

    /// The connections and their seats.
    pub closed spec fn seats(&self) -> Seats {
        seats_of(self.conns@)
    }

    /// The connection number the next registration gets.
    pub closed spec fn next_id(&self) -> u32 {
        self.next_id
    }

    /// An empty studio.
    pub fn new() -> (studio: Studio)
        ensures
            studio.seats() == Map::<u32, Option<PeerView>>::empty(),
            studio.next_id() == 0,
            studio_valid(studio.seats(), studio.next_id()),
    {
        let studio = Studio { next_id: 0, conns: Vec::new() };
        assert(studio.seats() =~= Map::<u32, Option<PeerView>>::empty());
        studio
    }

    /// Accepts a new connection, not yet seated. `None` only once every
    /// connection number has been handed out.
    pub fn register(&mut self) -> (session: Option<Session>)
        ensures
            studio_valid(final(self).seats(), final(self).next_id()),
            match session {
                Some(s) => {
                    &&& old(self).next_id() < u32::MAX
                    &&& s@ == old(self).next_id()
                    &&& final(self).next_id() == old(self).next_id() + 1
                    &&& final(self).seats() == old(self).seats().insert(s@, None)
                },
                None => {
                    &&& old(self).next_id() == u32::MAX
                    &&& final(self).next_id() == old(self).next_id()
                    &&& final(self).seats() == old(self).seats()
                },
            },
    {
        proof {
            use_type_invariant(&*self);
        }
        if self.next_id == u32::MAX {
            return None;
        }
        let id = self.next_id;
        let mut conns: Vec<Conn> = Vec::new();
        std::mem::swap(&mut conns, &mut self.conns);
        proof {
            assert(!has_id(conns@, id)) by {
                if has_id(conns@, id) {
                    let k = choose|k: int| 0 <= k < conns@.len() && #[trigger] conns@[k].id == id;
                    lemma_seat_at(conns@, k);
                }
            }
            lemma_seats_push(conns@, Conn { id, info: None });
        }
        let ghost m0 = seats_of(conns@);
        conns.push(Conn { id, info: None });
        proof {
            let m = seats_of(conns@);
            assert(m == m0.insert(id, None));
            assert forall|a: u32, b: u32, c: u32|
                #![trigger seated(m, a), seated(m, b), seated(m, c)]
                seated(m, a) && seated(m, b) && seated(m, c) implies a == b || a == c || b == c by {
                assert(seated(m0, a) && seated(m0, b) && seated(m0, c));
            }
            assert forall|a: u32, b: u32|
                #![trigger seated(m, a), seated(m, b)]
                seated(m, a) && seated(m, b) && a != b implies !same_name(
                    name_of(m, a),
                    name_of(m, b),
                ) by {
                assert(seated(m0, a) && seated(m0, b));
            }
            assert forall|x: u32| #[trigger] m.contains_key(x) implies x < id + 1 by {
                if x != id {
                    assert(m0.contains_key(x));
                }
            }
        }
        self.next_id = id + 1;
        self.conns = conns;
        Some(Session { id })
    }

    /// The position of the partner that traffic from `id` is relayed to.
    fn relay_index(&self, id: u32) -> (found: Option<usize>)
        ensures
            match found {
                Some(k) => k < self.conns@.len() && relay_target(self.seats(), id) == Some(
                    self.conns@[k as int].id,
                ),
                None => relay_target(self.seats(), id) is None,
            },
    {
        proof {
            use_type_invariant(self);
        }
        match find_conn(&self.conns, id) {
            None => None,
            Some(i) => {
                proof {
                    lemma_seat_at(self.conns@, i as int);
                    lemma_sole_other(self.conns@, i as int);
                }
                if self.conns.len() == 2 {
                    let k: usize = if i == 0 {
                        1
                    } else {
                        0
                    };
                    return Some(k);
                }
                if self.conns[i].info.is_none() {
                    return None;
                }
                proof {
                    lemma_index_seated(self.conns@, i as int);
                    lemma_seated_not_full(self.seats(), self.next_id, id);
                }
                partner_index(&self.conns, id)
            },
        }
    }

    /// Relays WebRTC signalling to the connection's relay target (see `relay_target`).
    pub fn signal(
        &self,
        session: &Session,
        kind: String,
        sdp: Option<String>,
        candidate: Option<serde_json::Value>,
    ) -> (deliveries: Vec<Delivery>)
        ensures
            deliveries_view(deliveries@) == relay(
                self.seats(),
                session@,
                OutboundView::Message(
                    ServerNote::Signal { kind: kind@, sdp: opt_text_view(sdp), candidate },
                ),
            ),
    {
        let mut out: Vec<Delivery> = Vec::new();
        if let Some(k) = self.relay_index(session.id) {
            out.push(message_to(self.conns[k].id, ServerMessage::Signal { kind, sdp, candidate }));
        }
        assert(deliveries_view(out@) =~= relay(
            self.seats(),
            session@,
            OutboundView::Message(
                ServerNote::Signal { kind: kind@, sdp: opt_text_view(sdp), candidate },
            ),
        ));
        out
    }

    /// Relays a chat line from someone who has joined to their relay target, signed with their name.
    pub fn chat(&self, session: &Session, text: String) -> (deliveries: Vec<Delivery>)
        ensures
            deliveries_view(deliveries@) == chat_relay(self.seats(), session@, text@),
    {
        proof {
            use_type_invariant(self);
        }
        let mut out: Vec<Delivery> = Vec::new();
        if let Some(i) = find_conn(&self.conns, session.id) {
            proof {
                lemma_seat_at(self.conns@, i as int);
            }
            if let Some(info) = &self.conns[i].info {
                if let Some(k) = self.relay_index(session.id) {
                    let from = info.name.clone();
                    out.push(message_to(self.conns[k].id, ServerMessage::Chat { from, text }));
                }
            }
        }
        assert(deliveries_view(out@) =~= chat_relay(self.seats(), session@, text@));
        out
    }

    /// Relays a binary media frame to the connection's relay target (see `relay_target`).
    pub fn forward_binary(&self, session: &Session, payload: bytes::Bytes) -> (deliveries: Vec<
        Delivery,
    >)
        ensures
            deliveries_view(deliveries@) == relay(
                self.seats(),
                session@,
                OutboundView::Binary(payload),
            ),
    {
        let mut out: Vec<Delivery> = Vec::new();
        if let Some(k) = self.relay_index(session.id) {
            out.push(Delivery { to: self.conns[k].id, outbound: Outbound::Binary(payload) });
        }
        assert(deliveries_view(out@) =~= relay(
            self.seats(),
            session@,
            OutboundView::Binary(payload),
        ));
        out
    }

    /// Reports an error back to the connection itself, if it is still known.
    pub fn send_error(&self, session: &Session, message: String) -> (deliveries: Vec<Delivery>)
        ensures
            deliveries_view(deliveries@) == error_outcome(self.seats(), session@, message@),
    {
        proof {
            use_type_invariant(self);
        }
        let mut out: Vec<Delivery> = Vec::new();
        match find_conn(&self.conns, session.id) {
            Some(i) => {
                proof {
                    lemma_seat_at(self.conns@, i as int);
                }
                out.push(message_to(session.id, ServerMessage::Error { message }));
            },
            None => {},
        }
        assert(deliveries_view(out@) =~= error_outcome(self.seats(), session@, message@));
        out
    }

    /// The connection gives its seat up and goes: its relay target is told and its
    /// socket is closed.
    pub fn leave(&mut self, session: &Session) -> (deliveries: Vec<Delivery>)
        ensures
            studio_valid(final(self).seats(), final(self).next_id()),
            final(self).next_id() == old(self).next_id(),
            (final(self).seats(), deliveries_view(deliveries@)) == leave_outcome(
                old(self).seats(),
                session@,
            ),
    {
        proof {
            use_type_invariant(&*self);
        }
        let known = match find_conn(&self.conns, session.id) {
            Some(i) => {
                proof {
                    lemma_seat_at(self.conns@, i as int);
                }
                true
            },
            None => false,
        };
        let ghost told = disconnect_outcome(self.seats(), session@).1;
        let mut out = self.disconnect(session);
        if known {
            out.push(close_to(session.id));
        }
        assert(deliveries_view(out@) =~= leave_outcome(old(self).seats(), session@).1);
        out
    }

    /// Forgets a connection; its relay target is told.
    pub fn disconnect(&mut self, session: &Session) -> (deliveries: Vec<Delivery>)
        ensures
            studio_valid(final(self).seats(), final(self).next_id()),
            final(self).next_id() == old(self).next_id(),
            (final(self).seats(), deliveries_view(deliveries@)) == disconnect_outcome(
                old(self).seats(),
                session@,
            ),
    {
        proof {
            use_type_invariant(&*self);
        }
        let id = session.id;
        let mut out: Vec<Delivery> = Vec::new();
        let target = self.relay_index(id);
        if let Some(i) = find_conn(&self.conns, id) {
            proof {
                lemma_seat_at(self.conns@, i as int);
            }
            if let Some(k) = target {
                out.push(message_to(self.conns[k].id, ServerMessage::PartnerLeft));
            }
            let mut conns: Vec<Conn> = Vec::new();
            std::mem::swap(&mut conns, &mut self.conns);
            let ghost m0 = seats_of(conns@);
            proof {
                lemma_seats_remove(conns@, i as int);
            }
            conns.remove(i);
            proof {
                let m = seats_of(conns@);
                assert(m == m0.remove(id));
                lemma_valid_shrink(m0, m, self.next_id);
            }
            self.conns = conns;
        }
        assert(deliveries_view(out@) =~= disconnect_outcome(old(self).seats(), session@).1);
        out
    }

    /// Takes a seat for the connection: a stale seat held under the same name is
    /// taken back first; a joiner who finds both seats taken is refused and dropped.
    #[verifier::rlimit(60)]
    #[verifier::spinoff_prover]
    pub fn join(&mut self, session: &Session, info: PeerInfo) -> (deliveries: Vec<Delivery>)
        ensures
            studio_valid(final(self).seats(), final(self).next_id()),
            final(self).next_id() == old(self).next_id(),
            (final(self).seats(), deliveries_view(deliveries@)) == join_outcome(
                old(self).seats(),
                session@,
                info@,
            ),
    {
        proof {
            use_type_invariant(&*self);
        }
        let id = session.id;
        let ghost you = info@;
        let ghost m0 = self.seats();
        let ghost n = self.next_id;
        let mut out: Vec<Delivery> = Vec::new();
        if find_conn(&self.conns, id).is_none() {
            assert(deliveries_view(out@) =~= Seq::<(u32, OutboundView)>::empty());
            return out;
        }
        let mut conns: Vec<Conn> = Vec::new();
        std::mem::swap(&mut conns, &mut self.conns);
        match find_stale(&conns, id, info.name.as_str()) {
            Some(j) => {
                proof {
                    lemma_index_seated(conns@, j as int);
                    let g = conns@[j as int].id;
                    assert(is_stale_seat(m0, id, you.name, g));
                    assert forall|x: u32| #[trigger] is_stale_seat(m0, id, you.name, x) implies x
                        == g by {
                        if x != g {
                            assert(seated(m0, x) && seated(m0, g));
                            assert(same_name(name_of(m0, x), name_of(m0, g)));
                        }
                    }
                    assert(stale_seat(m0, id, you.name) == Some(g));
                    lemma_seats_remove(conns@, j as int);
                }
                let gone = conns.remove(j);
                out.push(close_to(gone.id));
            },
            None => {
                proof {
                    assert forall|x: u32| !#[trigger] is_stale_seat(m0, id, you.name, x) by {
                        if is_stale_seat(m0, id, you.name, x) {
                            let k = lemma_seated_index(conns@, x);
                        }
                    }
                }
            },
        }
        let ghost m1 = seats_of(conns@);
        let ghost closed = deliveries_view(out@);
        proof {
            assert(closed =~= reclaim(m0, id, you.name).1);
            assert(m1 == reclaim(m0, id, you.name).0);
            assert forall|x: u32| #[trigger] m1.contains_key(x) implies m0.contains_key(x) && m1[x]
                == m0[x] by {}
            assert forall|x: u32| #[trigger] is_stale_seat(m0, id, you.name, x) implies !m1.contains_key(x) by {}
            assert(m1.contains_key(id));
        }
        let i = match find_conn(&conns, id) {
            Some(i) => i,
            None => {
                proof {
                    assert(has_id(conns@, id));
                }
                self.conns = conns;
                return out;
            },
        };
        proof {
            lemma_seat_at(conns@, i as int);
        }
        let (first, second) = seated_others(&conns, id);
        if second.is_some() {
            proof {
                let a = first->Some_0;
                let b = second->Some_0;
                lemma_index_seated(conns@, a as int);
                lemma_index_seated(conns@, b as int);
                assert(seated(m1, conns@[a as int].id) && seated(m1, conns@[b as int].id));
                assert(full_for(m1, id));
                lemma_seats_remove(conns@, i as int);
            }
            conns.remove(i);
            out.push(message_to(id, ServerMessage::Error { message: studio_full_message() }));
            out.push(close_to(id));
            proof {
                let m = seats_of(conns@);
                assert(m == m1.remove(id));
                lemma_valid_shrink(m0, m, n);
                assert(deliveries_view(out@) =~= join_outcome(m0, id, you).1);
            }
        } else {
            proof {
                if full_for(m1, id) {
                    let (a, b) = choose|a: u32, b: u32|
                        #![trigger seated(m1, a), seated(m1, b)]
                        a != b && a != id && b != id && seated(m1, a) && seated(m1, b);
                    let ka = lemma_seated_index(conns@, a);
                    let kb = lemma_seated_index(conns@, b);
                    assert(conns@[ka].id != id && conns@[ka].info is Some);
                    assert(conns@[kb].id != id && conns@[kb].info is Some);
                    assert(false);
                }
            }
            let mut partner_info: Option<PeerInfo> = None;
            let mut pid: Option<u32> = None;
            if let Some(a) = first {
                proof {
                    lemma_index_seated(conns@, a as int);
                    let p = conns@[a as int].id;
                    assert forall|j: u32| j != id && #[trigger] seated(m1, j) implies j == p by {
                        let k = lemma_seated_index(conns@, j);
                        if k != a {
                            assert(conns@[k].id != id && conns@[k].info is Some);
                        }
                    }
                    lemma_partner_is(m1, id, p);
                    lemma_seat_at(conns@, a as int);
                }
                pid = Some(conns[a].id);
                if let Some(p) = &conns[a].info {
                    partner_info = Some(copy_peer_info(p));
                }
            } else {
                proof {
                    assert forall|j: u32| !(j != id && #[trigger] seated(m1, j)) by {
                        if j != id && seated(m1, j) {
                            let k = lemma_seated_index(conns@, j);
                        }
                    }
                }
            }
            let seat = Conn { id, info: Some(copy_peer_info(&info)) };
            proof {
                lemma_seats_update(conns@, i as int, seat);
            }
            conns.set(i, seat);
            out.push(
                message_to(
                    id,
                    ServerMessage::Welcome { you: copy_peer_info(&info), partner: partner_info },
                ),
            );
            if let Some(p) = pid {
                out.push(message_to(p, ServerMessage::PartnerJoined { partner: info }));
            }
            proof {
                let m = seats_of(conns@);
                assert(m == m1.insert(id, Some(you)));
                lemma_join_valid(m0, m1, n, id, you);
                assert(deliveries_view(out@) =~= join_outcome(m0, id, you).1);
            }
        }
        self.conns = conns;
        out
    }

    /// Acts on one event from a client's socket.
    pub fn handle(&mut self, session: &Session, event: ClientEvent) -> (deliveries: Vec<Delivery>)
        ensures
            studio_valid(final(self).seats(), final(self).next_id()),
            final(self).next_id() == old(self).next_id(),
            (final(self).seats(), deliveries_view(deliveries@)) == handle_outcome(
                old(self).seats(),
                session@,
                event@,
            ),
    {
        proof {
            use_type_invariant(&*self);
        }
        match event {
            ClientEvent::Message(ClientMessage::Join { name, role, instrument }) => {
                self.join(session, PeerInfo { name, role, instrument })
            },
            ClientEvent::Message(ClientMessage::Chat { text }) => self.chat(session, text),
            ClientEvent::Message(ClientMessage::Signal { kind, sdp, candidate }) => {
                self.signal(session, kind, sdp, candidate)
            },
            ClientEvent::Message(ClientMessage::Leave) => self.leave(session),
            ClientEvent::Invalid(complaint) => {
                let mut text = String::from_str("Invalid message: ");
                text.append(complaint.as_str());
                self.send_error(session, text)
            },
            ClientEvent::Binary(payload) => self.forward_binary(session, payload),
        }
    }
}


proof fn lemma_no_stale(m: Seats, id: u32, name: Seq<char>)
    requires
        forall|j: u32| j != id && #[trigger] seated(m, j) ==> !same_name(name_of(m, j), name),
    ensures
        stale_seat(m, id, name) is None,
        reclaim(m, id, name) == (m, Seq::<(u32, OutboundView)>::empty()),
{
    if exists|j: u32| #[trigger] is_stale_seat(m, id, name, j) {
        let j = choose|j: u32| #[trigger] is_stale_seat(m, id, name, j);
        assert(j != id && seated(m, j));
    }
}

/// The first person in an otherwise empty studio takes a seat and is told nobody is there yet.
pub proof fn first_joiner_waits(m: Seats, n: u32, id: u32, you: PeerView)
    requires
        studio_valid(m, n),
        m.contains_key(id),
        forall|j: u32| j != id ==> !#[trigger] seated(m, j),
    ensures
        join_outcome(m, id, you) == (
            m.insert(id, Some(you)),
            seq![note_to(id, ServerNote::Welcome { you, partner: None })],
        ),
{
    lemma_no_stale(m, id, you.name);
    assert(!full_for(m, id));
    assert(partner_of(m, id) is None);
    assert(Seq::<(u32, OutboundView)>::empty() + seq![
        note_to(id, ServerNote::Welcome { you, partner: None }),
    ] =~= seq![note_to(id, ServerNote::Welcome { you, partner: None })]);
}

/// The first two people are paired: a newcomer who finds exactly one other person
/// seated, under another name, takes the second seat, is welcomed with that
/// person's details, and that person learns who joined.
pub proof fn second_joiner_is_paired(m: Seats, n: u32, id: u32, p: u32, you: PeerView)
    requires
        studio_valid(m, n),
        m.contains_key(id),
        p != id,
        seated(m, p),
        forall|j: u32| j != id && #[trigger] seated(m, j) ==> j == p,
        !same_name(name_of(m, p), you.name),
    ensures
        join_outcome(m, id, you) == (
            m.insert(id, Some(you)),
            seq![
                note_to(id, ServerNote::Welcome { you, partner: m[p] }),
                note_to(p, ServerNote::PartnerJoined { partner: you }),
            ],
        ),
{
    lemma_no_stale(m, id, you.name);
    lemma_partner_is(m, id, p);
    if full_for(m, id) {
        let (a, b) = choose|a: u32, b: u32|
            #![trigger seated(m, a), seated(m, b)]
            a != b && a != id && b != id && seated(m, a) && seated(m, b);
    }
    let d = seq![
        note_to(id, ServerNote::Welcome { you, partner: m[p] }),
        note_to(p, ServerNote::PartnerJoined { partner: you }),
    ];
    assert(Seq::<(u32, OutboundView)>::empty() + d =~= d);
}

/// A third person is refused while two others hold the seats (unless reclaiming one
/// of them by name): they are told the studio is full, their socket is closed, and
/// nobody else hears of it.
pub proof fn third_joiner_is_refused(m: Seats, n: u32, id: u32, a: u32, b: u32, you: PeerView)
    requires
        studio_valid(m, n),
        m.contains_key(id),
        a != b,
        a != id,
        b != id,
        seated(m, a),
        seated(m, b),
        !same_name(name_of(m, a), you.name),
        !same_name(name_of(m, b), you.name),
    ensures
        join_outcome(m, id, you) == (
            m.remove(id),
            seq![
                note_to(id, ServerNote::Error { message: studio_full_text() }),
                close_of(id),
            ],
        ),
{
    assert forall|j: u32| j != id && #[trigger] seated(m, j) implies !same_name(
        name_of(m, j),
        you.name,
    ) by {
        assert(seated(m, a) && seated(m, b) && seated(m, j));
    }
    lemma_no_stale(m, id, you.name);
    assert(full_for(m, id));
    let d = seq![
        note_to(id, ServerNote::Error { message: studio_full_text() }),
        close_of(id),
    ];
    assert(Seq::<(u32, OutboundView)>::empty() + d =~= d);
}

/// Joining under the name of someone already seated takes that seat back: the old
/// connection is closed and forgotten, the newcomer is seated, and the other seated
/// person (if any) learns who joined.
pub proof fn same_name_reclaims_the_seat(m: Seats, n: u32, id: u32, j: u32, you: PeerView)
    requires
        studio_valid(m, n),
        m.contains_key(id),
        !seated(m, id),
        j != id,
        seated(m, j),
        same_name(name_of(m, j), you.name),
    ensures
        ({
            let (m2, ds) = join_outcome(m, id, you);
            &&& m2 == m.remove(j).insert(id, Some(you))
            &&& ds[0] == close_of(j)
            &&& match partner_of(m.remove(j), id) {
                Some(q) => ds == seq![
                    close_of(j),
                    note_to(id, ServerNote::Welcome { you, partner: m[q] }),
                    note_to(q, ServerNote::PartnerJoined { partner: you }),
                ],
                None => ds == seq![
                    close_of(j),
                    note_to(id, ServerNote::Welcome { you, partner: None }),
                ],
            }
        }),
{
    assert(is_stale_seat(m, id, you.name, j));
    assert forall|x: u32| #[trigger] is_stale_seat(m, id, you.name, x) implies x == j by {
        if x != j {
            assert(seated(m, x) && seated(m, j));
            assert(same_name(name_of(m, x), name_of(m, j)));
        }
    }
    assert(stale_seat(m, id, you.name) == Some(j));
    let m1 = m.remove(j);
    if full_for(m1, id) {
        let (a, b) = choose|a: u32, b: u32|
            #![trigger seated(m1, a), seated(m1, b)]
            a != b && a != id && b != id && seated(m1, a) && seated(m1, b);
        assert(seated(m, a) && seated(m, b) && seated(m, j));
    }
    match partner_of(m1, id) {
        Some(q) => {
            assert(seated(m1, q));
            assert(m1[q] == m[q]);
            let d = seq![
                note_to(id, ServerNote::Welcome { you, partner: m[q] }),
                note_to(q, ServerNote::PartnerJoined { partner: you }),
            ];
            assert(seq![close_of(j)] + d =~= seq![
                close_of(j),
                note_to(id, ServerNote::Welcome { you, partner: m[q] }),
                note_to(q, ServerNote::PartnerJoined { partner: you }),
            ]);
        },
        None => {
            assert(seq![close_of(j)] + seq![
                note_to(id, ServerNote::Welcome { you, partner: None }),
            ] =~= seq![close_of(j), note_to(id, ServerNote::Welcome { you, partner: None })]);
        },
    }
}

proof fn lemma_no_sole_other(m: Seats, id: u32, x: u32, y: u32)
    requires
        m.contains_key(x),
        m.contains_key(y),
        x != id,
        y != id,
        x != y,
    ensures
        sole_other(m, id) is None,
{
    assert forall|q: u32| !#[trigger] only_other(m, id, q) by {
        if only_other(m, id, q) {
            assert(m.contains_key(x) && m.contains_key(y));
        }
    }
}

/// Leaving frees the seat: when a seated person leaves a studio of three or more
/// connections, the other seated person is told and the leaver's socket is closed;
/// a newcomer under another name then takes the freed seat and is paired with the
/// one who stayed.
pub proof fn leaving_frees_a_seat(
    m: Seats,
    n: u32,
    a: u32,
    b: u32,
    c: u32,
    you: PeerView,
)
    requires
        studio_valid(m, n),
        a != b,
        c != a,
        c != b,
        seated(m, a),
        seated(m, b),
        m.contains_key(c),
        !same_name(name_of(m, b), you.name),
    ensures
        ({
            let (m1, told) = leave_outcome(m, a);
            &&& told == seq![note_to(b, ServerNote::PartnerLeft), close_of(a)]
            &&& !m1.contains_key(a)
            &&& join_outcome(m1, c, you) == (
                m1.insert(c, Some(you)),
                seq![
                    note_to(c, ServerNote::Welcome { you, partner: m[b] }),
                    note_to(b, ServerNote::PartnerJoined { partner: you }),
                ],
            )
        }),
{
    lemma_no_sole_other(m, a, b, c);
    assert forall|j: u32| j != a && #[trigger] seated(m, j) implies j == b by {
        assert(seated(m, a) && seated(m, b) && seated(m, j));
    }
    lemma_partner_is(m, a, b);
    assert(relay_target(m, a) == Some(b));
    let m1 = m.remove(a);
    lemma_valid_shrink(m, m1, n);
    assert forall|j: u32| j != c && #[trigger] seated(m1, j) implies j == b by {
        assert(seated(m, a) && seated(m, b) && seated(m, j));
    }
    second_joiner_is_paired(m1, n, c, b, you);
}

/// A person's partner is told of their departure once: leaving and then dropping the
/// connection sends one notice, and dropping an already forgotten connection does nothing.
pub proof fn departure_is_announced_once(m: Seats, id: u32)
    ensures
        disconnect_outcome(leave_outcome(m, id).0, id).1 == Seq::<(u32, OutboundView)>::empty(),
        disconnect_outcome(disconnect_outcome(m, id).0, id) == (
            disconnect_outcome(m, id).0,
            Seq::<(u32, OutboundView)>::empty(),
        ),
{
}

/// Relayed traffic (signals, chat, media, departure notices) reaches at most one
/// connection, never the sender: with exactly two connections, the other one; with
/// more, the other seated person, and only when the sender holds a seat.
pub proof fn relay_reaches_only_the_partner(m: Seats, n: u32, id: u32, out: OutboundView)
    requires
        studio_valid(m, n),
    ensures
        relay(m, id, out).len() <= 1,
        relay(m, id, out).len() == 1 ==> {
            let p = relay(m, id, out)[0].0;
            &&& p != id
            &&& m.contains_key(id)
            &&& m.contains_key(p)
            &&& only_other(m, id, p) || {
                &&& seated(m, id)
                &&& seated(m, p)
                &&& forall|j: u32| j != id && #[trigger] seated(m, j) ==> j == p
            }
        },
{
    if relay(m, id, out).len() == 1 {
        let p = relay(m, id, out)[0].0;
        if sole_other(m, id) is Some {
            let q = choose|q: u32| #[trigger] only_other(m, id, q);
            assert(only_other(m, id, q));
            assert(p == q);
        } else {
            assert(partner_of(m, id) == Some(p));
            assert(p != id && seated(m, p));
            assert forall|j: u32| j != id && #[trigger] seated(m, j) implies j == p by {
                assert(seated(m, id) && seated(m, p) && seated(m, j));
            }
        }
    }
}

/// Nothing is ever sent to a connection the studio does not know.
pub proof fn deliveries_reach_known_connections(m: Seats, n: u32, id: u32, event: EventView)
    requires
        studio_valid(m, n),
    ensures
        forall|k: int|
            0 <= k < handle_outcome(m, id, event).1.len() ==> m.contains_key(
                #[trigger] handle_outcome(m, id, event).1[k].0,
            ),
{
    let ds = handle_outcome(m, id, event).1;
    assert forall|k: int| 0 <= k < ds.len() implies m.contains_key(#[trigger] ds[k].0) by {
        match event {
            EventView::Message(ClientNote::Join { you }) => {
                if m.contains_key(id) {
                    let (m1, closed) = reclaim(m, id, you.name);
                    if let Some(j) = stale_seat(m, id, you.name) {
                        assert(is_stale_seat(m, id, you.name, j));
                    }
                    if !full_for(m1, id) {
                        if let Some(p) = partner_of(m1, id) {
                            assert(seated(m1, p));
                        }
                    }
                }
            },
            _ => {
                if let Some(q) = sole_other(m, id) {
                    assert(only_other(m, id, q));
                }
                if let Some(p) = relay_target(m, id) {
                    assert(m.contains_key(p));
                }
                if let Some(p) = partner_of(m, id) {
                    assert(seated(m, p));
                }
            },
        }
    }
}

} // verus!
