use lesson_studio::protocol::{copy_peer_info, Instrument, PeerInfo, Role, DEFAULT_PORT, MAX_PEERS};

#[test]
fn role_labels() {
    assert_eq!(Role::Teacher.label(), "Teacher");
    assert_eq!(Role::Student.label(), "Student");
}

#[test]
fn instrument_labels() {
    assert_eq!(Instrument::Piano.label(), "Piano");
    assert_eq!(Instrument::Guitar.label(), "Guitar");
}

#[test]
fn defaults() {
    assert_eq!(DEFAULT_PORT, 44041);
    assert_eq!(MAX_PEERS, 2);
}

#[test]
fn peer_info_copies_exactly() {
    let info = PeerInfo { name: "Ada".into(), role: Role::Student, instrument: Instrument::Guitar };
    assert_eq!(copy_peer_info(&info), info);
}
