use lesson_studio::protocol::{ClientMessage, Instrument, PeerInfo, Role, ServerMessage};
use lesson_studio::studio::{ClientEvent, Delivery, Outbound, Studio};

fn peer(name: &str, role: Role, instrument: Instrument) -> PeerInfo {
    PeerInfo { name: name.into(), role, instrument }
}

fn join_event(name: &str, role: Role, instrument: Instrument) -> ClientEvent {
    ClientEvent::Message(ClientMessage::Join { name: name.into(), role, instrument })
}

fn message(to: u32, message: ServerMessage) -> Delivery {
    Delivery { to, outbound: Outbound::Message(message) }
}

fn close(to: u32) -> Delivery {
    Delivery { to, outbound: Outbound::Close }
}

#[test]
fn two_clients_pair_and_relay_signals() {
    let mut studio = Studio::new();
    let teacher = studio.register().unwrap();
    let out = studio.handle(&teacher, join_event("Maya", Role::Teacher, Instrument::Piano));
    let maya = peer("Maya", Role::Teacher, Instrument::Piano);
    assert_eq!(
        out,
        vec![message(teacher.id(), ServerMessage::Welcome { you: maya.clone(), partner: None })]
    );

    let student = studio.register().unwrap();
    let out = studio.handle(&student, join_event("Leo", Role::Student, Instrument::Guitar));
    let leo = peer("Leo", Role::Student, Instrument::Guitar);
    assert_eq!(
        out,
        vec![
            message(
                student.id(),
                ServerMessage::Welcome { you: leo.clone(), partner: Some(maya.clone()) }
            ),
            message(teacher.id(), ServerMessage::PartnerJoined { partner: leo.clone() }),
        ]
    );

    let out = studio.handle(
        &teacher,
        ClientEvent::Message(ClientMessage::Signal {
            kind: "offer".into(),
            sdp: Some("v=0".into()),
            candidate: None,
        }),
    );
    assert_eq!(
        out,
        vec![message(
            student.id(),
            ServerMessage::Signal { kind: "offer".into(), sdp: Some("v=0".into()), candidate: None }
        )]
    );
}

#[test]
fn third_client_is_rejected() {
    let mut studio = Studio::new();
    let first = studio.register().unwrap();
    studio.handle(&first, join_event("Maya", Role::Teacher, Instrument::Piano));
    let second = studio.register().unwrap();
    studio.handle(&second, join_event("Leo", Role::Student, Instrument::Guitar));
    let third = studio.register().unwrap();
    let out = studio.handle(&third, join_event("Ada", Role::Student, Instrument::Piano));
    assert_eq!(out.len(), 2);
    match &out[0] {
        Delivery { to, outbound: Outbound::Message(ServerMessage::Error { message }) } => {
            assert_eq!(*to, third.id());
            assert!(message.contains("two people"), "{message}");
        }
        other => panic!("third client should be rejected: {other:?}"),
    }
    assert_eq!(out[1], close(third.id()));
    let out = studio.chat(&third, "hello".into());
    assert!(out.is_empty());
}

#[test]
fn same_name_reclaims_a_stale_seat() {
    let mut studio = Studio::new();
    let teacher = studio.register().unwrap();
    studio.handle(&teacher, join_event("Maya", Role::Teacher, Instrument::Piano));
    let student = studio.register().unwrap();
    let out = studio.handle(&student, join_event("Leo", Role::Student, Instrument::Guitar));
    assert_eq!(
        out[0],
        message(
            student.id(),
            ServerMessage::Welcome {
                you: peer("Leo", Role::Student, Instrument::Guitar),
                partner: Some(peer("Maya", Role::Teacher, Instrument::Piano)),
            }
        )
    );

    let again = studio.register().unwrap();
    let out = studio.handle(&again, join_event("maya", Role::Teacher, Instrument::Piano));
    let returning = peer("maya", Role::Teacher, Instrument::Piano);
    assert_eq!(
        out,
        vec![
            close(teacher.id()),
            message(
                again.id(),
                ServerMessage::Welcome {
                    you: returning.clone(),
                    partner: Some(peer("Leo", Role::Student, Instrument::Guitar)),
                }
            ),
            message(student.id(), ServerMessage::PartnerJoined { partner: returning }),
        ]
    );
    // The stale connection is gone: when its socket finally drops, nobody is told.
    assert!(studio.disconnect(&teacher).is_empty());
}

#[test]
fn leave_message_frees_the_seat() {
    let mut studio = Studio::new();
    let teacher = studio.register().unwrap();
    studio.handle(&teacher, join_event("Maya", Role::Teacher, Instrument::Piano));
    let student = studio.register().unwrap();
    studio.handle(&student, join_event("Leo", Role::Student, Instrument::Guitar));

    let out = studio.handle(&teacher, ClientEvent::Message(ClientMessage::Leave));
    assert_eq!(out, vec![message(student.id(), ServerMessage::PartnerLeft), close(teacher.id())]);

    let replacement = studio.register().unwrap();
    let out = studio.handle(&replacement, join_event("Ada", Role::Teacher, Instrument::Piano));
    let ada = peer("Ada", Role::Teacher, Instrument::Piano);
    assert_eq!(
        out,
        vec![
            message(
                replacement.id(),
                ServerMessage::Welcome {
                    you: ada.clone(),
                    partner: Some(peer("Leo", Role::Student, Instrument::Guitar)),
                }
            ),
            message(student.id(), ServerMessage::PartnerJoined { partner: ada }),
        ]
    );
    // Having left, the teacher's socket closing tells nobody a second time.
    assert!(studio.disconnect(&teacher).is_empty());
}

#[test]
fn chat_is_signed_with_the_sender_name() {
    let mut studio = Studio::new();
    let a = studio.register().unwrap();
    studio.handle(&a, join_event("Maya", Role::Teacher, Instrument::Piano));
    let b = studio.register().unwrap();
    studio.handle(&b, join_event("Leo", Role::Student, Instrument::Guitar));
    let out = studio.handle(&b, ClientEvent::Message(ClientMessage::Chat { text: "Bar 12".into() }));
    assert_eq!(
        out,
        vec![message(a.id(), ServerMessage::Chat { from: "Leo".into(), text: "Bar 12".into() })]
    );
}

#[test]
fn media_goes_to_the_partner_only() {
    let mut studio = Studio::new();
    let a = studio.register().unwrap();
    studio.handle(&a, join_event("Maya", Role::Teacher, Instrument::Piano));
    let payload = bytes::Bytes::from(vec![1u8, 2, 3]);
    assert!(studio.forward_binary(&a, payload.clone()).is_empty());
    let b = studio.register().unwrap();
    studio.handle(&b, join_event("Leo", Role::Student, Instrument::Guitar));
    let out = studio.handle(&a, ClientEvent::Binary(payload.clone()));
    assert_eq!(out, vec![Delivery { to: b.id(), outbound: Outbound::Binary(payload) }]);
    let pending = studio.register().unwrap();
    assert!(studio.forward_binary(&pending, bytes::Bytes::from_static(b"x")).is_empty());
}

#[test]
fn invalid_message_is_reported_back() {
    let mut studio = Studio::new();
    let a = studio.register().unwrap();
    let out = studio.handle(&a, ClientEvent::Invalid("expected value at line 1".into()));
    assert_eq!(
        out,
        vec![message(
            a.id(),
            ServerMessage::Error { message: "Invalid message: expected value at line 1".into() }
        )]
    );
}

#[test]
fn disconnect_tells_the_partner_once() {
    let mut studio = Studio::new();
    let a = studio.register().unwrap();
    studio.handle(&a, join_event("Maya", Role::Teacher, Instrument::Piano));
    let b = studio.register().unwrap();
    studio.handle(&b, join_event("Leo", Role::Student, Instrument::Guitar));
    assert_eq!(studio.disconnect(&a), vec![message(b.id(), ServerMessage::PartnerLeft)]);
    assert!(studio.disconnect(&a).is_empty());
    assert!(studio.send_error(&a, "gone".into()).is_empty());
}

#[test]
fn two_connections_relay_whether_or_not_joined() {
    let mut studio = Studio::new();
    let a = studio.register().unwrap();
    studio.handle(&a, join_event("Maya", Role::Teacher, Instrument::Piano));
    let other = studio.register().unwrap();
    assert_eq!(
        studio.signal(&other, "offer".into(), None, None),
        vec![message(a.id(), ServerMessage::Signal { kind: "offer".into(), sdp: None, candidate: None })]
    );
    assert_eq!(
        studio.chat(&a, "hi".into()),
        vec![message(other.id(), ServerMessage::Chat { from: "Maya".into(), text: "hi".into() })]
    );
    // A line needs its sender's name, so one who has not joined sends none.
    assert!(studio.chat(&other, "hi".into()).is_empty());
    let payload = bytes::Bytes::from_static(b"frame");
    assert_eq!(
        studio.forward_binary(&other, payload.clone()),
        vec![Delivery { to: a.id(), outbound: Outbound::Binary(payload) }]
    );
    assert_eq!(studio.disconnect(&other), vec![message(a.id(), ServerMessage::PartnerLeft)]);
}

#[test]
fn unseated_connection_cannot_relay_among_three() {
    let mut studio = Studio::new();
    let a = studio.register().unwrap();
    studio.handle(&a, join_event("Maya", Role::Teacher, Instrument::Piano));
    let b = studio.register().unwrap();
    studio.handle(&b, join_event("Leo", Role::Student, Instrument::Guitar));
    let lurker = studio.register().unwrap();
    assert!(studio.signal(&lurker, "offer".into(), None, None).is_empty());
    assert!(studio.chat(&lurker, "hi".into()).is_empty());
    assert_eq!(studio.leave(&lurker), vec![close(lurker.id())]);
    assert!(studio.disconnect(&lurker).is_empty());
}

#[test]
fn sessions_get_fresh_numbers() {
    let mut studio = Studio::new();
    let a = studio.register().unwrap();
    let b = studio.register().unwrap();
    assert_eq!(a.id(), 0);
    assert_eq!(b.id(), 1);
    studio.disconnect(&a);
    let c = studio.register().unwrap();
    assert_eq!(c.id(), 2);
}

#[test]
fn candidate_is_carried_unchanged() {
    let mut studio = Studio::new();
    let a = studio.register().unwrap();
    studio.handle(&a, join_event("Maya", Role::Teacher, Instrument::Piano));
    let b = studio.register().unwrap();
    studio.handle(&b, join_event("Leo", Role::Student, Instrument::Guitar));
    let candidate = serde_json::Value::String("candidate:1 1 udp 2122260223".into());
    let out = studio.signal(&b, "ice".into(), None, Some(candidate.clone()));
    assert_eq!(
        out,
        vec![message(
            a.id(),
            ServerMessage::Signal { kind: "ice".into(), sdp: None, candidate: Some(candidate) }
        )]
    );
}
