use lesson_studio::connect::{build_server_url, default_host, facing_for, plan_lesson};
use lesson_studio::decimal::parse_u16;
use lesson_studio::protocol::{ClientMessage, Instrument, Role};
use lesson_studio::text::{replace_first_match, trim};

#[test]
fn builds_ws_url_from_ip_and_default_port() {
    assert_eq!(
        build_server_url("192.168.1.10", "44041").unwrap(),
        "wss://192.168.1.10:44041/ws"
    );
}

#[test]
fn accepts_full_websocket_url() {
    assert_eq!(
        build_server_url("ws://10.0.0.2:44041", "1").unwrap(),
        "wss://10.0.0.2:44041/ws"
    );
}

#[test]
fn keeps_secure_urls_and_their_path() {
    assert_eq!(build_server_url("wss://host/ws", "").unwrap(), "wss://host/ws");
    assert_eq!(build_server_url("  wss://host:1/ws//  ", "x").unwrap(), "wss://host:1/ws");
    assert_eq!(build_server_url("ws://host/", "").unwrap(), "wss://host/ws");
}

#[test]
fn trims_and_normalises_the_port() {
    assert_eq!(build_server_url(" 10.0.0.5 ", " 044041 ").unwrap(), "wss://10.0.0.5:44041/ws");
    assert_eq!(build_server_url("h", "+80").unwrap(), "wss://h:80/ws");
    assert_eq!(build_server_url("h", "0").unwrap(), "wss://h:0/ws");
}

#[test]
fn reports_missing_fields() {
    assert_eq!(build_server_url("   ", "44041").unwrap_err(), "Enter the server IP address");
    assert_eq!(build_server_url("10.0.0.2", " ").unwrap_err(), "Enter the server port");
}

#[test]
fn reports_invalid_ports() {
    assert_eq!(build_server_url("h", "65536").unwrap_err(), "Invalid port: 65536");
    assert_eq!(build_server_url("h", "-1").unwrap_err(), "Invalid port: -1");
    assert_eq!(build_server_url("h", "4a").unwrap_err(), "Invalid port: 4a");
    assert_eq!(build_server_url("h", "+").unwrap_err(), "Invalid port: +");
}

#[test]
fn parses_ports_like_std() {
    for text in ["0", "1", "65535", "65536", "+7", "-7", "", "+", "00080", " 1", "99999999999"] {
        assert_eq!(parse_u16(text), text.parse::<u16>().ok(), "{text:?}");
    }
}

#[test]
fn trims_like_std() {
    for text in ["", "  a b  ", "\t\n x\u{3000}", "\u{a0}y\u{2029}", "plain"] {
        assert_eq!(trim(text), text.trim(), "{text:?}");
    }
}

#[test]
fn replaces_the_first_match_like_std() {
    for (s, pat, rep) in [("ws://a/ws://b", "ws://", "wss://"), ("none", "x", "y"), ("abc", "", "-")] {
        assert_eq!(replace_first_match(s, pat, rep), s.replacen(pat, rep, 1), "{s:?}");
    }
}

#[test]
fn camera_follows_the_role() {
    assert_eq!(facing_for(Role::Teacher), "user");
    assert_eq!(facing_for(Role::Student), "environment");
}

#[test]
fn plans_a_lesson() {
    let plan = plan_lesson("  Maya ", Role::Student, Instrument::Guitar, "127.0.0.1", "44041").unwrap();
    assert_eq!(plan.url, "wss://127.0.0.1:44041/ws");
    assert_eq!(
        plan.join,
        ClientMessage::Join { name: "Maya".into(), role: Role::Student, instrument: Instrument::Guitar }
    );
    assert_eq!(plan.facing, "environment");
}

#[test]
fn refuses_a_blank_name_first() {
    assert_eq!(
        plan_lesson(" ", Role::Teacher, Instrument::Piano, "", "").err().unwrap(),
        "Enter your name."
    );
    assert_eq!(
        plan_lesson("Leo", Role::Teacher, Instrument::Piano, "", "1").err().unwrap(),
        "Enter the server IP address"
    );
}

#[test]
fn lobby_starts_with_this_machine_except_on_android() {
    assert_eq!(default_host(false), "127.0.0.1");
    assert_eq!(default_host(true), "");
}

#[test]
fn built_urls_are_kept_when_entered_again() {
    let built = build_server_url("192.168.1.10", "44041").unwrap();
    assert_eq!(build_server_url(&built, "").unwrap(), built);
    assert_eq!(build_server_url(&built, "9").unwrap(), built);
}
