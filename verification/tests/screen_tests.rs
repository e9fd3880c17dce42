use lesson_studio::protocol::{Instrument, PeerInfo, Role};
use lesson_studio::screen::{
    apply_bridge_event, camera_switch_failed, clear_error, compose_chat, enter_lesson,
    leave_lesson, media_denied, next_facing, partner_badge, request_calibration, show_error,
    toggle_camera, toggle_levels, toggle_muted, you_badge, BridgeEvent, GainUpdate, LessonView,
    Screen,
};

fn screen() -> LessonView {
    LessonView {
        screen: Screen::Lobby,
        error: String::new(),
        status: "Waiting to connect.".into(),
        partner: None,
        you: None,
        kbps: 0,
        fps: 0,
        chat_log: Vec::new(),
        feedback: String::new(),
        calibrating: false,
        calibrate_remaining: 0,
        calibrate_note: String::new(),
        muted: false,
        camera_on: true,
        levels_on: true,
        chat_input: String::new(),
    }
}

fn event(kind: &str, msg_type: &str) -> BridgeEvent {
    BridgeEvent {
        event: kind.into(),
        msg_type: msg_type.into(),
        message: String::new(),
        partner: None,
        you: None,
        from: String::new(),
        text: String::new(),
        kbps: 0,
        fps: 0,
        active: false,
        remaining: 0,
        phase: String::new(),
        gain_positive: false,
    }
}

fn maya() -> PeerInfo {
    PeerInfo { name: "Maya".into(), role: Role::Teacher, instrument: Instrument::Piano }
}

#[test]
fn error_events_show_in_error_and_status() {
    let mut view = screen();
    let mut e = event("", "error");
    e.message = "This studio already has two people.".into();
    assert_eq!(apply_bridge_event(&mut view, e), GainUpdate::Keep);
    assert_eq!(view.error, "This studio already has two people.");
    assert_eq!(view.status, "This studio already has two people.");
}

#[test]
fn welcome_sets_people_and_status() {
    let mut view = screen();
    let mut e = event("message", "welcome");
    e.you = Some(maya());
    apply_bridge_event(&mut view, e);
    assert_eq!(view.you, Some(maya()));
    assert_eq!(view.status, "Waiting for the other person to join...");
    let mut e = event("message", "partner_joined");
    e.partner = Some(maya());
    apply_bridge_event(&mut view, e);
    assert_eq!(view.partner, Some(maya()));
    assert_eq!(view.status, "Partner is in the studio.");
    apply_bridge_event(&mut view, event("message", "partner_left"));
    assert_eq!(view.partner, None);
    assert_eq!(view.status, "Partner left. Waiting for them to rejoin...");
}

#[test]
fn chat_lines_are_logged_unless_empty() {
    let mut view = screen();
    let mut e = event("message", "chat");
    e.from = "Leo".into();
    e.text = "Bar 12".into();
    apply_bridge_event(&mut view, e);
    apply_bridge_event(&mut view, event("message", "chat"));
    assert_eq!(view.chat_log, vec![("Leo".to_string(), "Bar 12".to_string())]);
}

#[test]
fn stats_feedback_and_status() {
    let mut view = screen();
    let mut e = event("stats", "");
    e.kbps = 900;
    e.fps = 30;
    apply_bridge_event(&mut view, e);
    assert_eq!((view.kbps, view.fps), (900, 30));
    let mut e = event("feedback", "");
    e.message = "Feedback detected".into();
    e.active = true;
    apply_bridge_event(&mut view, e);
    assert_eq!(view.feedback, "Feedback detected");
    let mut e = event("feedback", "");
    e.message = "ignored".into();
    apply_bridge_event(&mut view, e);
    assert_eq!(view.feedback, "");
    let mut e = event("status", "");
    e.message = "Connected".into();
    apply_bridge_event(&mut view, e);
    assert_eq!(view.status, "Connected");
}

#[test]
fn gain_and_calibration() {
    let mut view = screen();
    let mut e = event("gain", "");
    e.gain_positive = true;
    assert_eq!(apply_bridge_event(&mut view, e), GainUpdate::TakeEventGain);
    assert_eq!(apply_bridge_event(&mut view, event("gain", "")), GainUpdate::Keep);
    let mut e = event("calibrate", "");
    e.phase = "play".into();
    e.remaining = 3;
    e.message = "Now play loudly".into();
    assert_eq!(apply_bridge_event(&mut view, e), GainUpdate::Keep);
    assert!(view.calibrating);
    assert_eq!(view.calibrate_remaining, 3);
    let mut e = event("calibrate", "");
    e.phase = "done".into();
    e.gain_positive = true;
    e.message = "Level set".into();
    assert_eq!(apply_bridge_event(&mut view, e), GainUpdate::TakeEventGain);
    assert!(!view.calibrating);
    assert_eq!(view.calibrate_remaining, 0);
    assert_eq!(view.calibrate_note, "Level set");
    let mut e = event("calibrate", "");
    e.phase = "other".into();
    e.message = "kept".into();
    apply_bridge_event(&mut view, e);
    assert_eq!(view.calibrate_note, "Level set");
}

#[test]
fn chat_input_is_trimmed_and_logged() {
    let mut view = screen();
    view.chat_input = "   ".into();
    assert_eq!(compose_chat(&mut view), None);
    assert!(view.chat_log.is_empty());
    assert_eq!(view.chat_input, "   ");
    view.chat_input = " slower ".into();
    assert_eq!(compose_chat(&mut view), Some("slower".to_string()));
    assert_eq!(view.chat_log, vec![("You".to_string(), "slower".to_string())]);
    assert_eq!(view.chat_input, "");
}

#[test]
fn calibration_needs_an_open_microphone() {
    let mut view = screen();
    view.muted = true;
    assert!(!request_calibration(&mut view));
    assert_eq!(view.calibrate_note, "Unmute the microphone before calibrating.");
    view.muted = false;
    assert!(request_calibration(&mut view));
    assert!(view.calibrating);
    assert_eq!(view.calibrate_remaining, 4);
}

#[test]
fn entering_and_leaving_reset_the_screen() {
    let mut view = screen();
    view.error = "old".into();
    view.partner = Some(maya());
    view.muted = true;
    view.chat_log.push(("Leo".into(), "hi".into()));
    enter_lesson(&mut view);
    assert_eq!(view.error, "");
    assert_eq!(view.partner, None);
    assert!(!view.muted);
    assert!(view.chat_log.is_empty());
    assert_eq!(view.status, "Connecting...");
    view.levels_on = false;
    view.calibrating = true;
    leave_lesson(&mut view);
    assert!(view.levels_on);
    assert!(!view.calibrating);
    assert_eq!(view.status, "Disconnected.");
}

#[test]
fn badges_and_camera_flip() {
    assert_eq!(partner_badge(&Some(maya())), "Maya \u{b7} Teacher \u{b7} Piano");
    assert_eq!(partner_badge(&None), "Waiting for partner");
    assert_eq!(you_badge(&Some(maya())), "You \u{b7} Teacher \u{b7} Piano");
    assert_eq!(you_badge(&None), "You");
    assert_eq!(next_facing("user"), "environment");
    assert_eq!(next_facing("environment"), "user");
}

#[test]
fn buttons_flip_their_state() {
    let mut view = screen();
    assert!(toggle_muted(&mut view));
    assert!(view.muted);
    assert!(!toggle_muted(&mut view));
    assert!(!toggle_camera(&mut view));
    assert!(!view.camera_on);
    assert!(!toggle_levels(&mut view));
    assert!(!view.levels_on);
    assert!(toggle_levels(&mut view));
}

#[test]
fn start_errors_keep_the_lobby() {
    let mut view = screen();
    show_error(&mut view, "Enter your name.".into());
    assert_eq!(view.error, "Enter your name.");
    clear_error(&mut view);
    assert_eq!(view.error, "");
    media_denied(&mut view);
    assert_eq!(view.error, "Allow camera and microphone so the other person can see and hear you.");
    assert_eq!(view.screen, Screen::Lobby);
    enter_lesson(&mut view);
    assert_eq!(view.screen, Screen::Lesson);
    camera_switch_failed(&mut view);
    assert_eq!(view.error, "Could not switch cameras.");
    leave_lesson(&mut view);
    assert_eq!(view.screen, Screen::Lobby);
}
