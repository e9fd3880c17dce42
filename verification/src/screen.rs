//! The lesson screen: how it reacts to events from the in-page media session
//! (errors, status lines, link statistics, calibration progress, forwarded
//! server messages) and to the buttons the user presses.
use crate::protocol::{instrument_label, role_label, PeerInfo};
use crate::text::{same_text, trim, trimmed};
use crate::views::{opt_peer_view, PeerView};
use vstd::prelude::*;
use vstd::string::StringExecFns;

verus! {

/// One event from the media session. `gain_positive` says whether it carried a
/// microphone gain above zero; the gain itself stays with the caller.
pub struct BridgeEvent {
    pub event: String,
    pub msg_type: String,
    pub message: String,
    pub partner: Option<PeerInfo>,
    pub you: Option<PeerInfo>,
    pub from: String,
    pub text: String,
    pub kbps: u32,
    pub fps: u32,
    pub active: bool,
    pub remaining: u32,
    pub phase: String,
    pub gain_positive: bool,
}

/// Which screen the client shows.
#[derive(Debug, Clone, Copy, PartialEq, Eq, Structural)]
pub enum Screen {
    Lobby,
    Lesson,
}

/// What the client shows (all but the microphone gain).
pub struct LessonView {
    pub screen: Screen,
    pub error: String,
    pub status: String,
    pub partner: Option<PeerInfo>,
    pub you: Option<PeerInfo>,
    pub kbps: u32,
    pub fps: u32,
    pub chat_log: Vec<(String, String)>,
    pub feedback: String,
    pub calibrating: bool,
    pub calibrate_remaining: u32,
    pub calibrate_note: String,
    pub muted: bool,
    pub camera_on: bool,
    pub levels_on: bool,
    pub chat_input: String,
}

/// Whether the screen should take the event's microphone gain (clamped by the caller).
#[derive(Debug, Clone, Copy, PartialEq, Eq, Structural)]
pub enum GainUpdate {
    Keep,
    TakeEventGain,
}

/// A bridge event as the contracts see it.
pub struct EventModel {
    pub event: Seq<char>,
    pub msg_type: Seq<char>,
    pub message: Seq<char>,
    pub partner: Option<PeerView>,
    pub you: Option<PeerView>,
    pub from: Seq<char>,
    pub text: Seq<char>,
    pub kbps: u32,
    pub fps: u32,
    pub active: bool,
    pub remaining: u32,
    pub phase: Seq<char>,
    pub gain_positive: bool,
}

/// The lesson screen as the contracts see it.
pub struct ScreenModel {
    pub screen: Screen,
    pub error: Seq<char>,
    pub status: Seq<char>,
    pub partner: Option<PeerView>,
    pub you: Option<PeerView>,
    pub kbps: u32,
    pub fps: u32,
    pub chat_log: Seq<(Seq<char>, Seq<char>)>,
    pub feedback: Seq<char>,
    pub calibrating: bool,
    pub calibrate_remaining: u32,
    pub calibrate_note: Seq<char>,
    pub muted: bool,
    pub camera_on: bool,
    pub levels_on: bool,
    pub chat_input: Seq<char>,
}

impl View for BridgeEvent {
    type V = EventModel;

    open spec fn view(&self) -> EventModel {
        EventModel {
            event: self.event@,
            msg_type: self.msg_type@,
            message: self.message@,
            partner: opt_peer_view(self.partner),
            you: opt_peer_view(self.you),
            from: self.from@,
            text: self.text@,
            kbps: self.kbps,
            fps: self.fps,
            active: self.active,
            remaining: self.remaining,
            phase: self.phase@,
            gain_positive: self.gain_positive,
        }
    }
}

/// The view of a chat log.
pub open spec fn chat_log_view(log: Seq<(String, String)>) -> Seq<(Seq<char>, Seq<char>)> {
    log.map_values(|line: (String, String)| (line.0@, line.1@))
}

impl View for LessonView {
    type V = ScreenModel;

    open spec fn view(&self) -> ScreenModel {
        ScreenModel {
            screen: self.screen,
            error: self.error@,
            status: self.status@,
            partner: opt_peer_view(self.partner),
            you: opt_peer_view(self.you),
            kbps: self.kbps,
            fps: self.fps,
            chat_log: chat_log_view(self.chat_log@),
            feedback: self.feedback@,
            calibrating: self.calibrating,
            calibrate_remaining: self.calibrate_remaining,
            calibrate_note: self.calibrate_note@,
            muted: self.muted,
            camera_on: self.camera_on,
            levels_on: self.levels_on,
            chat_input: self.chat_input@,
        }
    }
}

/// The status line while a partner is in the studio.
pub open spec fn partner_present_text() -> Seq<char> {
    "Partner is in the studio."@
}

/// The status line while waiting alone.
pub open spec fn waiting_text() -> Seq<char> {
    "Waiting for the other person to join..."@
}

/// The status line after the partner left.
pub open spec fn partner_gone_text() -> Seq<char> {
    "Partner left. Waiting for them to rejoin..."@
}

/// How a calibration event changes the screen, by its phase.
pub open spec fn calibration_step(s: ScreenModel, e: EventModel) -> (ScreenModel, GainUpdate) {
    if e.phase == "play"@ {
        (
            ScreenModel {
                calibrating: true,
                calibrate_remaining: e.remaining,
                calibrate_note: e.message,
                ..s
            },
            GainUpdate::Keep,
        )
    } else if e.phase == "done"@ {
        (
            ScreenModel { calibrating: false, calibrate_remaining: 0, calibrate_note: e.message, ..s },
            if e.gain_positive {
                GainUpdate::TakeEventGain
            } else {
                GainUpdate::Keep
            },
        )
    } else if e.phase == "fail"@ {
        (
            ScreenModel { calibrating: false, calibrate_remaining: 0, calibrate_note: e.message, ..s },
            GainUpdate::Keep,
        )
    } else {
        (ScreenModel { calibrating: false, calibrate_remaining: 0, ..s }, GainUpdate::Keep)
    }
}

/// How a forwarded server message changes the screen, by its type.
pub open spec fn server_message_step(s: ScreenModel, e: EventModel) -> ScreenModel {
    if e.msg_type == "welcome"@ {
        ScreenModel {
            you: e.you,
            partner: e.partner,
            status: if e.partner is Some {
                partner_present_text()
            } else {
                waiting_text()
            },
            ..s
        }
    } else if e.msg_type == "partner_joined"@ {
        ScreenModel { partner: e.partner, status: partner_present_text(), ..s }
    } else if e.msg_type == "partner_left"@ {
        ScreenModel { partner: None, status: partner_gone_text(), ..s }
    } else if e.msg_type == "chat"@ && e.text.len() > 0 {
        ScreenModel { chat_log: s.chat_log.push((e.from, e.text)), ..s }
    } else {
        s
    }
}

/// How one bridge event changes the screen, and whether it sets the microphone gain.
/// The first kind that matches wins: errors, status lines, feedback warnings,
/// statistics, gain reports, calibration, and last the forwarded server messages.
pub open spec fn bridge_step(s: ScreenModel, e: EventModel) -> (ScreenModel, GainUpdate) {
    if e.event == "error"@ || e.msg_type == "error"@ {
        (ScreenModel { error: e.message, status: e.message, ..s }, GainUpdate::Keep)
    } else if e.event == "status"@ {
        (ScreenModel { status: e.message, ..s }, GainUpdate::Keep)
    } else if e.event == "feedback"@ {
        (
            ScreenModel {
                feedback: if e.active {
                    e.message
                } else {
                    Seq::empty()
                },
                ..s
            },
            GainUpdate::Keep,
        )
    } else if e.event == "stats"@ {
        (ScreenModel { kbps: e.kbps, fps: e.fps, ..s }, GainUpdate::Keep)
    } else if e.event == "gain"@ && e.gain_positive {
        (s, GainUpdate::TakeEventGain)
    } else if e.event == "calibrate"@ {
        calibration_step(s, e)
    } else {
        (server_message_step(s, e), GainUpdate::Keep)
    }
}

fn string_of(text: &str) -> (s: String)
    ensures
        s@ == text@,
{
    String::from_str(text)
}

/// Applies one event from the media session to the lesson screen.
pub fn apply_bridge_event(view: &mut LessonView, event: BridgeEvent) -> (gain: GainUpdate)
    ensures
        (final(view)@, gain) == bridge_step(old(view)@, event@),
{
    let ghost e = event@;
    let BridgeEvent {
        event: kind,
        msg_type,
        message,
        partner,
        you,
        from,
        text,
        kbps,
        fps,
        active,
        remaining,
        phase,
        gain_positive,
    } = event;
    if same_text(kind.as_str(), "error") || same_text(msg_type.as_str(), "error") {
        view.error = message.clone();
        view.status = message;
        return GainUpdate::Keep;
    }
    if same_text(kind.as_str(), "status") {
        view.status = message;
        return GainUpdate::Keep;
    }
    if same_text(kind.as_str(), "feedback") {
        view.feedback = if active {
            message
        } else {
            String::new()
        };
        return GainUpdate::Keep;
    }
    if same_text(kind.as_str(), "stats") {
        view.kbps = kbps;
        view.fps = fps;
        return GainUpdate::Keep;
    }
    if same_text(kind.as_str(), "gain") && gain_positive {
        return GainUpdate::TakeEventGain;
    }
    if same_text(kind.as_str(), "calibrate") {
        if same_text(phase.as_str(), "play") {
            view.calibrating = true;
            view.calibrate_remaining = remaining;
            view.calibrate_note = message;
            return GainUpdate::Keep;
        } else if same_text(phase.as_str(), "done") {
            view.calibrating = false;
            view.calibrate_remaining = 0;
            view.calibrate_note = message;
            return if gain_positive {
                GainUpdate::TakeEventGain
            } else {
                GainUpdate::Keep
            };
        } else if same_text(phase.as_str(), "fail") {
            view.calibrating = false;
            view.calibrate_remaining = 0;
            view.calibrate_note = message;
            return GainUpdate::Keep;
        } else {
            view.calibrating = false;
            view.calibrate_remaining = 0;
            return GainUpdate::Keep;
        }
    }
    if same_text(msg_type.as_str(), "welcome") {
        let has_partner = partner.is_some();
        view.you = you;
        view.partner = partner;
        view.status = if has_partner {
            string_of("Partner is in the studio.")
        } else {
            string_of("Waiting for the other person to join...")
        };
    } else if same_text(msg_type.as_str(), "partner_joined") {
        view.partner = partner;
        view.status = string_of("Partner is in the studio.");
    } else if same_text(msg_type.as_str(), "partner_left") {
        view.partner = None;
        view.status = string_of("Partner left. Waiting for them to rejoin...");
    } else if same_text(msg_type.as_str(), "chat") && text.unicode_len() > 0 {
        let ghost before = view.chat_log@;
        view.chat_log.push((from, text));
        proof {
            assert(chat_log_view(view.chat_log@) =~= chat_log_view(before).push((e.from, e.text)));
        }
    }
    GainUpdate::Keep
}


/// The screen once the lesson has been entered: the lesson screen, no people known
/// yet, microphone and camera on, empty chat, no error, and a "Connecting..." status.
pub open spec fn entered(s: ScreenModel) -> ScreenModel {
    ScreenModel {
        screen: Screen::Lesson,
        error: Seq::empty(),
        partner: None,
        you: None,
        muted: false,
        camera_on: true,
        chat_log: Seq::empty(),
        status: "Connecting..."@,
        ..s
    }
}

/// Resets the screen when the lesson starts.
pub fn enter_lesson(view: &mut LessonView)
    ensures
        final(view)@ == entered(old(view)@),
{
    view.screen = Screen::Lesson;
    view.error = String::new();
    view.partner = None;
    view.you = None;
    view.muted = false;
    view.camera_on = true;
    view.chat_log = Vec::new();
    view.status = string_of("Connecting...");
    assert(chat_log_view(view.chat_log@) =~= Seq::<(Seq<char>, Seq<char>)>::empty());
}

/// The screen after leaving: back to the lobby, everything about the lesson
/// cleared and a "Disconnected." status.
pub open spec fn left(s: ScreenModel) -> ScreenModel {
    ScreenModel {
        screen: Screen::Lobby,
        partner: None,
        you: None,
        muted: false,
        camera_on: true,
        levels_on: true,
        calibrating: false,
        calibrate_remaining: 0,
        calibrate_note: Seq::empty(),
        chat_log: Seq::empty(),
        feedback: Seq::empty(),
        status: "Disconnected."@,
        ..s
    }
}

/// Resets the screen when the user leaves the lesson.
pub fn leave_lesson(view: &mut LessonView)
    ensures
        final(view)@ == left(old(view)@),
{
    view.screen = Screen::Lobby;
    view.partner = None;
    view.you = None;
    view.muted = false;
    view.camera_on = true;
    view.levels_on = true;
    view.calibrating = false;
    view.calibrate_remaining = 0;
    view.calibrate_note = String::new();
    view.chat_log = Vec::new();
    view.feedback = String::new();
    view.status = string_of("Disconnected.");
    assert(chat_log_view(view.chat_log@) =~= Seq::<(Seq<char>, Seq<char>)>::empty());
}

/// The message shown when the camera or microphone is refused at the start of a lesson.
pub open spec fn media_denied_text() -> Seq<char> {
    "Allow camera and microphone so the other person can see and hear you."@
}

/// The message shown when flipping the camera fails.
pub open spec fn camera_switch_failed_text() -> Seq<char> {
    "Could not switch cameras."@
}

/// Pressing "Join studio" clears the previous error before anything is checked.
pub fn clear_error(view: &mut LessonView)
    ensures
        final(view)@ == (ScreenModel { error: Seq::empty(), ..old(view)@ }),
{
    view.error = String::new();
}

/// Shows why the lesson could not start (a blank name or an unusable server address);
/// the lobby stays.
pub fn show_error(view: &mut LessonView, message: String)
    ensures
        final(view)@ == (ScreenModel { error: message@, ..old(view)@ }),
{
    view.error = message;
}

/// The camera or microphone was refused: the lobby stays and says why.
pub fn media_denied(view: &mut LessonView)
    ensures
        final(view)@ == (ScreenModel { error: media_denied_text(), ..old(view)@ }),
{
    view.error = string_of("Allow camera and microphone so the other person can see and hear you.");
}

/// Flipping the camera failed.
pub fn camera_switch_failed(view: &mut LessonView)
    ensures
        final(view)@ == (ScreenModel { error: camera_switch_failed_text(), ..old(view)@ }),
{
    view.error = string_of("Could not switch cameras.");
}

/// The "Mute"/"Unmute" button: flips the microphone state and returns the new one.
pub fn toggle_muted(view: &mut LessonView) -> (muted: bool)
    ensures
        muted == !old(view).muted,
        final(view)@ == (ScreenModel { muted, ..old(view)@ }),
{
    view.muted = !view.muted;
    view.muted
}

/// The "Camera off"/"Camera on" button: flips the camera state and returns the new one.
pub fn toggle_camera(view: &mut LessonView) -> (camera_on: bool)
    ensures
        camera_on == !old(view).camera_on,
        final(view)@ == (ScreenModel { camera_on, ..old(view)@ }),
{
    view.camera_on = !view.camera_on;
    view.camera_on
}

/// The "Levels off"/"Levels on" button: flips the level meters and returns the new state.
pub fn toggle_levels(view: &mut LessonView) -> (levels_on: bool)
    ensures
        levels_on == !old(view).levels_on,
        final(view)@ == (ScreenModel { levels_on, ..old(view)@ }),
{
    view.levels_on = !view.levels_on;
    view.levels_on
}

/// Sending the chat input: a blank input (after trimming) changes nothing and sends
/// nothing; otherwise the trimmed line is logged as the user's own, the input is
/// cleared, and the line is sent.
pub open spec fn chat_line(s: ScreenModel) -> (ScreenModel, Option<Seq<char>>) {
    let text = trimmed(s.chat_input);
    if text.len() == 0 {
        (s, None)
    } else {
        (
            ScreenModel { chat_log: s.chat_log.push(("You"@, text)), chat_input: Seq::empty(), ..s },
            Some(text),
        )
    }
}

/// Handles the chat "Send" button; returns the line to send to the partner.
pub fn compose_chat(view: &mut LessonView) -> (sent: Option<String>)
    ensures
        (final(view)@, match sent {
            Some(t) => Some(t@),
            None => None,
        }) == chat_line(old(view)@),
{
    let text = string_of(trim(view.chat_input.as_str()));
    if text.unicode_len() == 0 {
        return None;
    }
    let ghost before = view.chat_log@;
    view.chat_log.push((string_of("You"), text.clone()));
    view.chat_input = String::new();
    proof {
        assert(chat_log_view(view.chat_log@) =~= chat_log_view(before).push(("You"@, text@)));
    }
    Some(text)
}

/// Pressing "Play loudly to set level": refused with a note while muted,
/// otherwise a four-second calibration starts.
pub open spec fn calibration_request(s: ScreenModel) -> (ScreenModel, bool) {
    if s.muted {
        (ScreenModel { calibrate_note: "Unmute the microphone before calibrating."@, ..s }, false)
    } else {
        (
            ScreenModel {
                calibrating: true,
                calibrate_remaining: 4,
                calibrate_note: "Now play loudly"@,
                ..s
            },
            true,
        )
    }
}

/// Handles the calibration button; returns whether to start calibrating.
pub fn request_calibration(view: &mut LessonView) -> (start: bool)
    ensures
        (final(view)@, start) == calibration_request(old(view)@),
{
    if view.muted {
        view.calibrate_note = string_of("Unmute the microphone before calibrating.");
        return false;
    }
    view.calibrating = true;
    view.calibrate_remaining = 4;
    view.calibrate_note = string_of("Now play loudly");
    true
}

/// The camera to switch to when flipping: the back camera after the front one, and
/// the front one after anything else.
pub open spec fn flipped_facing(current: Seq<char>) -> Seq<char> {
    if current == "user"@ {
        "environment"@
    } else {
        "user"@
    }
}

/// The facing mode to ask for when the user flips the camera.
pub fn next_facing(current: &str) -> (next: &'static str)
    ensures
        next@ == flipped_facing(current@),
{
    if same_text(current, "user") {
        "environment"
    } else {
        "user"
    }
}


/// The label over the partner's video: name, role and instrument, or a waiting note.
pub open spec fn partner_badge_text(partner: Option<PeerView>) -> Seq<char> {
    match partner {
        Some(p) => p.name + " \u{b7} "@ + role_label(p.role) + " \u{b7} "@ + instrument_label(p.instrument),
        None => "Waiting for partner"@,
    }
}

/// The label over the user's own preview: role and instrument.
pub open spec fn you_badge_text(you: Option<PeerView>) -> Seq<char> {
    match you {
        Some(p) => "You \u{b7} "@ + role_label(p.role) + " \u{b7} "@ + instrument_label(p.instrument),
        None => "You"@,
    }
}

/// Builds the label over the partner's video.
pub fn partner_badge(partner: &Option<PeerInfo>) -> (label: String)
    ensures
        label@ == partner_badge_text(opt_peer_view(*partner)),
{
    match partner {
        Some(p) => {
            let mut label = p.name.clone();
            label.append(" \u{b7} ");
            label.append(p.role.label());
            label.append(" \u{b7} ");
            label.append(p.instrument.label());
            label
        },
        None => string_of("Waiting for partner"),
    }
}

/// Builds the label over the user's own preview.
pub fn you_badge(you: &Option<PeerInfo>) -> (label: String)
    ensures
        label@ == you_badge_text(opt_peer_view(*you)),
{
    match you {
        Some(p) => {
            let mut label = string_of("You \u{b7} ");
            label.append(p.role.label());
            label.append(" \u{b7} ");
            label.append(p.instrument.label());
            label
        },
        None => string_of("You"),
    }
}

/// A welcome from the server tells the screen who is in the studio: afterwards the
/// screen shows the welcome's own person and its partner (the second person to join
/// sees the first), and the status says the partner is in the studio exactly when
/// the welcome names one; errors and the chat log stay as they were.
pub proof fn welcome_shows_who_is_there(s: ScreenModel, e: EventModel)
    requires
        e.msg_type == "welcome"@,
        e.event != "error"@,
        e.event != "status"@,
        e.event != "feedback"@,
        e.event != "stats"@,
        !(e.event == "gain"@ && e.gain_positive),
        e.event != "calibrate"@,
    ensures
        bridge_step(s, e).0.partner == e.partner,
        bridge_step(s, e).0.you == e.you,
        bridge_step(s, e).0.status == "Partner is in the studio."@ <==> e.partner is Some,
        e.partner is None ==> bridge_step(s, e).0.status
            == "Waiting for the other person to join..."@,
        bridge_step(s, e).0.error == s.error,
        bridge_step(s, e).0.chat_log == s.chat_log,
        bridge_step(s, e).1 == GainUpdate::Keep,
{
    reveal_strlit("welcome");
    reveal_strlit("error");
    reveal_strlit("Partner is in the studio.");
    reveal_strlit("Waiting for the other person to join...");
    assert("welcome"@[0] != "error"@[0]);
    assert("Partner is in the studio."@[0] != "Waiting for the other person to join..."@[0]);
}

/// The screen follows the partner coming and going: when the server says a partner
/// joined, the screen shows that partner as in the studio; when it says the partner
/// left, the screen shows no partner and says it waits for them to rejoin. Who "you"
/// are is kept either way.
pub proof fn partner_comes_and_goes(s: ScreenModel, e: EventModel)
    requires
        e.event != "error"@,
        e.event != "status"@,
        e.event != "feedback"@,
        e.event != "stats"@,
        !(e.event == "gain"@ && e.gain_positive),
        e.event != "calibrate"@,
    ensures
        e.msg_type == "partner_joined"@ ==> bridge_step(s, e).0.partner == e.partner
            && bridge_step(s, e).0.status == "Partner is in the studio."@ && bridge_step(s, e).0.you
            == s.you,
        e.msg_type == "partner_left"@ ==> bridge_step(s, e).0.partner is None && bridge_step(
            s,
            e,
        ).0.status == "Partner left. Waiting for them to rejoin..."@ && bridge_step(s, e).0.you
            == s.you,
{
    reveal_strlit("welcome");
    reveal_strlit("error");
    reveal_strlit("partner_joined");
    reveal_strlit("partner_left");
    assert("partner_joined"@[0] != "error"@[0]);
    assert("partner_left"@[0] != "error"@[0]);
    assert("partner_joined"@.len() != "welcome"@.len());
    assert("partner_left"@.len() != "welcome"@.len());
    assert("partner_left"@.len() != "partner_joined"@.len());
}

/// An error from the media session or the server is shown twice: as the error and
/// as the status line, both with the event's message.
pub proof fn errors_are_shown(s: ScreenModel, e: EventModel)
    requires
        e.event == "error"@ || e.msg_type == "error"@,
    ensures
        bridge_step(s, e).0.error == e.message,
        bridge_step(s, e).0.status == e.message,
        bridge_step(s, e).0.partner == s.partner,
        bridge_step(s, e).1 == GainUpdate::Keep,
{
}

/// Events from the media session never take chat lines away: the log after any
/// event is the log before it, or that log with one line added at the end.
pub proof fn chat_log_only_grows(s: ScreenModel, e: EventModel)
    ensures
        ({
            let after = bridge_step(s, e).0.chat_log;
            after == s.chat_log || after == s.chat_log.push((e.from, e.text))
        }),
{
}

} // verus!
