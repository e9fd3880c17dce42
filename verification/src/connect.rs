//! What the client decides before it connects: the server address it dials,
//! the camera it asks for, and the join request it sends.
use crate::decimal::{decimal_text, parse_u16, parse_u16_text, push_decimal};
use crate::protocol::{ClientMessage, Instrument, Role};
use crate::text::{
    ends_with, has_prefix, has_suffix, first_occurrence, lemma_replace_first_keeps_prefix, occurs_at, replace_first, replace_first_match, starts_with, trim,
    trim_end, trim_end_char, trim_end_matching, trim_start, trimmed, white_space,
};
use crate::views::{ClientNote, PeerView};
use vstd::prelude::*;
use vstd::string::StringExecFns;

verus! {

/// The WebSocket URL for a server typed as `host` and `port`, or the message
/// shown to the user. A host already written as a `ws://` or `wss://` URL is
/// used as given, upgraded to `wss://` and ending in `/ws`; otherwise the host and
/// a valid port number make `wss://host:port/ws`.
pub open spec fn server_url(host: Seq<char>, port: Seq<char>) -> Result<Seq<char>, Seq<char>> {
    let h = trimmed(host);
    let p = trimmed(port);
    if has_prefix(h, "ws://"@) || has_prefix(h, "wss://"@) {
        let url = replace_first(trim_end_char(h, '/'), "ws://"@, "wss://"@);
        Ok(
            if has_suffix(url, "/ws"@) {
                url
            } else {
                url + "/ws"@
            },
        )
    } else if h.len() == 0 {
        Err("Enter the server IP address"@)
    } else if p.len() == 0 {
        Err("Enter the server port"@)
    } else {
        match parse_u16_text(p) {
            Some(n) => Ok("wss://"@ + h + ":"@ + decimal_text(n as nat) + "/ws"@),
            None => Err("Invalid port: "@ + p),
        }
    }
}

/// The view of a result carrying strings.
pub open spec fn text_result_view(r: Result<String, String>) -> Result<Seq<char>, Seq<char>> {
    match r {
        Ok(u) => Ok(u@),
        Err(e) => Err(e@),
    }
}

/// Works out the secure WebSocket URL of the lesson server from what the user typed.
pub fn build_server_url(host: &str, port: &str) -> (url: Result<String, String>)
    ensures
        text_result_view(url) == server_url(host@, port@),
{
    let host = trim(host);
    let port = trim(port);
    if starts_with(host, "ws://") || starts_with(host, "wss://") {
        let url = trim_end_matching(host, '/');
        let url = replace_first_match(url, "ws://", "wss://");
        if ends_with(url.as_str(), "/ws") {
            return Ok(url);
        } else {
            let mut url = url;
            url.append("/ws");
            return Ok(url);
        }
    }
    if host.unicode_len() == 0 {
        return Err(String::from_str("Enter the server IP address"));
    }
    if port.unicode_len() == 0 {
        return Err(String::from_str("Enter the server port"));
    }
    match parse_u16(port) {
        Some(n) => {
            let mut url = String::from_str("wss://");
            url.append(host);
            url.append(":");
            push_decimal(&mut url, n);
            url.append("/ws");
            Ok(url)
        },
        None => {
            let mut message = String::from_str("Invalid port: ");
            message.append(port);
            Err(message)
        },
    }
}

/// Whether `h` is only a `ws:` or `wss:` scheme followed by slashes, with no server named.
pub open spec fn bare_scheme(h: Seq<char>) -> bool {
    ||| (has_prefix(h, "ws://"@) && trim_end_char(h, '/').len() <= 5)
    ||| (has_prefix(h, "wss://"@) && trim_end_char(h, '/').len() <= 6)
}

proof fn lemma_trim_end_char_prefix(s: Seq<char>, c: char)
    ensures
        trim_end_char(s, c).len() <= s.len(),
        trim_end_char(s, c) == s.subrange(0, trim_end_char(s, c).len() as int),
    decreases s.len(),
{
    if s.len() > 0 && s.last() == c {
        lemma_trim_end_char_prefix(s.drop_last(), c);
        let t = trim_end_char(s.drop_last(), c);
        assert(s.drop_last().subrange(0, t.len() as int) =~= s.subrange(0, t.len() as int));
    } else {
        assert(s.subrange(0, s.len() as int) =~= s);
    }
}

proof fn lemma_upgrade_ws(h: Seq<char>)
    requires
        has_prefix(h, "ws://"@),
        trim_end_char(h, '/').len() > 5,
    ensures
        has_prefix(replace_first(trim_end_char(h, '/'), "ws://"@, "wss://"@), "wss://"@),
{
    reveal_strlit("ws://");
    reveal_strlit("wss://");
    let ws = "ws://"@;
    let wss = "wss://"@;
    let u = trim_end_char(h, '/');
    lemma_trim_end_char_prefix(h, '/');
    assert(u.subrange(0, 5) =~= h.subrange(0, 5));
    assert(occurs_at(u, ws, 0));
    assert(first_occurrence(u, ws, 0));
    let i = choose|i: int| #[trigger] first_occurrence(u, ws, i);
    if i > 0 {
        assert(!occurs_at(u, ws, 0));
    }
    assert(i == 0);
    let url = replace_first(u, ws, wss);
    assert(url == u.subrange(0, 0) + wss + u.subrange(5, u.len() as int));
    assert(url.subrange(0, 6) =~= wss);
}

proof fn lemma_no_early_ws(u: Seq<char>, j: int)
    requires
        u.len() >= 6,
        u[1] == 's',
        u[2] == 's',
        u[3] == ':',
        u[4] == '/',
        u[5] == '/',
        0 <= j < 6,
    ensures
        !occurs_at(u, "ws://"@, j),
{
    reveal_strlit("ws://");
    if occurs_at(u, "ws://"@, j) {
        let w = u.subrange(j, j + 5);
        assert(w[0] == u[j]);
        assert(w[2] == u[j + 2]);
    }
}

proof fn lemma_wss_chars(u: Seq<char>)
    requires
        u.len() >= 6,
        u.subrange(0, 6) == "wss://"@,
    ensures
        u[1] == 's' && u[2] == 's' && u[3] == ':' && u[4] == '/' && u[5] == '/',
{
    reveal_strlit("wss://");
    assert(u[1] == u.subrange(0, 6)[1]);
    assert(u[2] == u.subrange(0, 6)[2]);
    assert(u[3] == u.subrange(0, 6)[3]);
    assert(u[4] == u.subrange(0, 6)[4]);
    assert(u[5] == u.subrange(0, 6)[5]);
}

proof fn lemma_keep_wss(h: Seq<char>)
    requires
        has_prefix(h, "wss://"@),
        trim_end_char(h, '/').len() > 6,
    ensures
        has_prefix(replace_first(trim_end_char(h, '/'), "ws://"@, "wss://"@), "wss://"@),
{
    reveal_strlit("wss://");
    let ws = "ws://"@;
    let wss = "wss://"@;
    let u = trim_end_char(h, '/');
    lemma_trim_end_char_prefix(h, '/');
    assert(u.subrange(0, 6) =~= h.subrange(0, 6));
    lemma_wss_chars(u);
    assert forall|j: int| 0 <= j < 6 implies !#[trigger] occurs_at(u, ws, j) by {
        lemma_no_early_ws(u, j);
    }
    lemma_replace_first_keeps_prefix(u, ws, wss, 6);
}

proof fn lemma_with_ws_path(url: Seq<char>)
    requires
        has_prefix(url, "wss://"@),
    ensures
        ({
            let full = if has_suffix(url, "/ws"@) {
                url
            } else {
                url + "/ws"@
            };
            has_prefix(full, "wss://"@) && has_suffix(full, "/ws"@)
        }),
{
    reveal_strlit("/ws");
    if !has_suffix(url, "/ws"@) {
        let full = url + "/ws"@;
        assert(full.subrange(0, "wss://"@.len() as int) =~= url.subrange(0, "wss://"@.len() as int));
        assert(full.subrange(full.len() - 3, full.len() as int) =~= "/ws"@);
    }
}

/// Every address the client dials is a secure WebSocket URL on the `/ws` path,
/// unless the host field holds nothing but a `ws:`/`wss:` scheme and slashes.
pub proof fn urls_are_secure_websockets(host: Seq<char>, port: Seq<char>)
    requires
        server_url(host, port) is Ok,
        !bare_scheme(trimmed(host)),
    ensures
        has_prefix(server_url(host, port)->Ok_0, "wss://"@),
        has_suffix(server_url(host, port)->Ok_0, "/ws"@),
{
    reveal_strlit("wss://");
    reveal_strlit("/ws");
    let h = trimmed(host);
    let p = trimmed(port);
    if has_prefix(h, "ws://"@) || has_prefix(h, "wss://"@) {
        if has_prefix(h, "ws://"@) {
            lemma_upgrade_ws(h);
        } else {
            lemma_keep_wss(h);
        }
        lemma_with_ws_path(replace_first(trim_end_char(h, '/'), "ws://"@, "wss://"@));
    } else {
        let out = server_url(host, port)->Ok_0;
        let n = parse_u16_text(p)->Some_0;
        let rest = h + ":"@ + decimal_text(n as nat);
        assert(out =~= "wss://"@ + rest + "/ws"@);
        assert(out.subrange(0, 6) =~= "wss://"@);
        assert(out.subrange(out.len() - 3, out.len() as int) =~= "/ws"@);
    }
}

/// `n` slashes.
pub open spec fn slash_run(n: nat) -> Seq<char> {
    Seq::new(n, |_i: int| '/')
}

proof fn lemma_trimmed_unchanged(s: Seq<char>)
    requires
        s.len() > 0,
        !white_space(s[0]),
        !white_space(s.last()),
    ensures
        trimmed(s) == s,
{
    assert(trim_start(s) == s);
    assert(trim_end(s) == s);
}

proof fn lemma_trim_slash_run(s: Seq<char>, n: nat)
    requires
        s.len() > 0,
        s.last() != '/',
    ensures
        trim_end_char(s + slash_run(n), '/') == s,
    decreases n,
{
    let t = s + slash_run(n);
    if n == 0 {
        assert(t =~= s);
    } else {
        assert(t.last() == '/');
        assert(t.drop_last() =~= s + slash_run((n - 1) as nat));
        lemma_trim_slash_run(s, (n - 1) as nat);
    }
}

/// `ws://x` has its scheme upgraded: the first `ws://` in it is the one it starts with.
proof fn lemma_upgrade_typed_ws(x: Seq<char>)
    ensures
        replace_first("ws://"@ + x, "ws://"@, "wss://"@) == "wss://"@ + x,
{
    reveal_strlit("ws://");
    let ws = "ws://"@;
    let u = ws + x;
    assert(u.subrange(0, 5) =~= ws);
    assert(occurs_at(u, ws, 0));
    assert(first_occurrence(u, ws, 0));
    let i = choose|i: int| #[trigger] first_occurrence(u, ws, i);
    if i > 0 {
        assert(!occurs_at(u, ws, 0));
    }
    assert(u.subrange(0, 0) + "wss://"@ + u.subrange(5, u.len() as int) =~= "wss://"@ + x);
}

/// `wss://x` holds no `ws://` when `x` holds none, so nothing in it is replaced.
proof fn lemma_keep_typed_wss(x: Seq<char>)
    requires
        forall|j: int| !#[trigger] occurs_at(x, "ws://"@, j),
    ensures
        replace_first("wss://"@ + x, "ws://"@, "wss://"@) == "wss://"@ + x,
{
    reveal_strlit("ws://");
    reveal_strlit("wss://");
    let ws = "ws://"@;
    let u = "wss://"@ + x;
    assert(u.subrange(0, 6) =~= "wss://"@);
    lemma_wss_chars(u);
    assert forall|i: int| !#[trigger] first_occurrence(u, ws, i) by {
        if 0 <= i < 6 {
            lemma_no_early_ws(u, i);
        } else if occurs_at(u, ws, i) {
            assert(u.subrange(i, i + 5) =~= x.subrange(i - 6, i - 1));
            assert(occurs_at(x, ws, i - 6));
        }
    }
}

/// A host typed as a `ws://` URL (with any trailing slashes) is dialled as that
/// URL with its scheme upgraded to `wss://`; the `/ws` path is added only when the
/// upgraded URL does not already end in it, so an address copied with its path is
/// never given a second one.
pub proof fn typed_ws_urls_are_upgraded(x: Seq<char>, slashes: nat, port: Seq<char>)
    requires
        x.len() > 0,
        !white_space(x.last()),
        x.last() != '/',
    ensures
        has_suffix("wss://"@ + x, "/ws"@) ==> server_url("ws://"@ + x + slash_run(slashes), port)
            == Ok::<Seq<char>, Seq<char>>("wss://"@ + x),
        !has_suffix("wss://"@ + x, "/ws"@) ==> server_url(
            "ws://"@ + x + slash_run(slashes),
            port,
        ) == Ok::<Seq<char>, Seq<char>>("wss://"@ + x + "/ws"@),
{
    reveal_strlit("ws://");
    let u = "ws://"@ + x;
    let h = u + slash_run(slashes);
    assert(h[0] == 'w');
    assert(u.last() == x.last());
    if slashes > 0 {
        assert(h.last() == '/');
    } else {
        assert(h =~= u);
    }
    lemma_trimmed_unchanged(h);
    assert(h.subrange(0, 5) =~= "ws://"@);
    lemma_trim_slash_run(u, slashes);
    lemma_upgrade_typed_ws(x);
}

/// Typing the server as `wss://x` or as `ws://x` dials the same address, as long
/// as `x` holds no `ws://` of its own (the first one in the text is the one upgraded):
/// whether `/ws` is added depends on the address, not on the scheme typed.
pub proof fn typed_scheme_does_not_matter(x: Seq<char>, slashes: nat, port: Seq<char>)
    requires
        x.len() > 0,
        !white_space(x.last()),
        x.last() != '/',
        forall|j: int| !#[trigger] occurs_at(x, "ws://"@, j),
    ensures
        server_url("wss://"@ + x + slash_run(slashes), port) == server_url(
            "ws://"@ + x + slash_run(slashes),
            port,
        ),
{
    reveal_strlit("wss://");
    typed_ws_urls_are_upgraded(x, slashes, port);
    let u = "wss://"@ + x;
    let h = u + slash_run(slashes);
    assert(h[0] == 'w');
    assert(u.last() == x.last());
    if slashes > 0 {
        assert(h.last() == '/');
    } else {
        assert(h =~= u);
    }
    lemma_trimmed_unchanged(h);
    assert(h.subrange(0, 6) =~= "wss://"@);
    lemma_trim_slash_run(u, slashes);
    lemma_keep_typed_wss(x);
}

/// What the server fields lead to when the host is not typed as a URL: a blank host
/// or port is asked for, a port that `u16` parsing refuses is reported with the text
/// typed, and otherwise the client dials `wss://host:port/ws` with the port written
/// back as its number. A host typed as a `ws://` or `wss://` URL is always accepted.
pub proof fn server_fields_are_checked(host: Seq<char>, port: Seq<char>)
    ensures
        has_prefix(trimmed(host), "ws://"@) || has_prefix(trimmed(host), "wss://"@)
            ==> server_url(host, port) is Ok,
        trimmed(host).len() == 0 ==> server_url(host, port) == Err::<Seq<char>, Seq<char>>(
            "Enter the server IP address"@,
        ),
        ({
            let h = trimmed(host);
            let p = trimmed(port);
            h.len() > 0 && !has_prefix(h, "ws://"@) && !has_prefix(h, "wss://"@) ==> ({
                &&& p.len() == 0 ==> server_url(host, port) == Err::<Seq<char>, Seq<char>>(
                    "Enter the server port"@,
                )
                &&& p.len() > 0 && parse_u16_text(p) is None ==> server_url(host, port) == Err::<
                    Seq<char>,
                    Seq<char>,
                >("Invalid port: "@ + p)
                &&& p.len() > 0 && parse_u16_text(p) is Some ==> server_url(host, port) == Ok::<
                    Seq<char>,
                    Seq<char>,
                >("wss://"@ + h + ":"@ + decimal_text(parse_u16_text(p)->Some_0 as nat) + "/ws"@)
            })
        }),
{
    reveal_strlit("ws://");
    reveal_strlit("wss://");
}

/// The server address the lobby starts with: this machine on a PC, nothing on
/// Android (a phone has to be given the server's LAN address).
pub open spec fn default_host_text(on_android: bool) -> Seq<char> {
    if on_android {
        Seq::empty()
    } else {
        "127.0.0.1"@
    }
}

/// The initial contents of the lobby's server field.
pub fn default_host(on_android: bool) -> (host: String)
    ensures
        host@ == default_host_text(on_android),
{
    if on_android {
        String::new()
    } else {
        String::from_str("127.0.0.1")
    }
}

proof fn lemma_ok_ends_with_ws_path(host: Seq<char>, port: Seq<char>)
    requires
        server_url(host, port) is Ok,
    ensures
        has_suffix(server_url(host, port)->Ok_0, "/ws"@),
{
    reveal_strlit("/ws");
    let h = trimmed(host);
    let p = trimmed(port);
    let out = server_url(host, port)->Ok_0;
    if has_prefix(h, "ws://"@) || has_prefix(h, "wss://"@) {
        let url = replace_first(trim_end_char(h, '/'), "ws://"@, "wss://"@);
        if !has_suffix(url, "/ws"@) {
            assert((url + "/ws"@).subrange(url.len() as int, url.len() + 3int) =~= "/ws"@);
        }
    } else {
        let n = parse_u16_text(p)->Some_0;
        let rest = "wss://"@ + h + ":"@ + decimal_text(n as nat);
        assert(out =~= rest + "/ws"@);
        assert(out.subrange(out.len() - 3, out.len() as int) =~= "/ws"@);
    }
}

/// A secure URL the client built is kept as it is when entered again: an address
/// that is already `wss://…/ws`, with no `ws://` inside it, is neither upgraded a
/// second time nor given a second `/ws`, whatever is in the port field.
pub proof fn built_urls_are_kept(host: Seq<char>, port: Seq<char>, again: Seq<char>)
    requires
        server_url(host, port) is Ok,
        has_prefix(server_url(host, port)->Ok_0, "wss://"@),
        forall|i: int| !#[trigger] occurs_at(server_url(host, port)->Ok_0, "ws://"@, i),
    ensures
        server_url(server_url(host, port)->Ok_0, again) == server_url(host, port),
{
    reveal_strlit("wss://");
    reveal_strlit("/ws");
    let r = server_url(host, port)->Ok_0;
    lemma_ok_ends_with_ws_path(host, port);
    assert(r[0] == r.subrange(0, 6)[0]);
    assert(r[0] == 'w');
    assert(r.last() == r.subrange(r.len() - 3, r.len() as int)[2]);
    assert(r.last() == 's');
    assert(!white_space(r[0]));
    assert(!white_space(r.last()));
    assert(trim_start(r) == r);
    assert(trim_end(r) == r);
    assert(trimmed(r) == r);
    assert(trim_end_char(r, '/') == r);
    assert forall|i: int| !#[trigger] first_occurrence(r, "ws://"@, i) by {
        assert(!occurs_at(r, "ws://"@, i));
    }
    assert(replace_first(r, "ws://"@, "wss://"@) == r);
}

/// Which camera each side starts with: the teacher faces the user, the student
/// points the back camera at the instrument.
pub open spec fn facing_text(role: Role) -> Seq<char> {
    match role {
        Role::Teacher => "user"@,
        Role::Student => "environment"@,
    }
}

/// The camera facing mode to ask for.
pub fn facing_for(role: Role) -> (facing: &'static str)
    ensures
        facing@ == facing_text(role),
{
    match role {
        Role::Teacher => "user",
        Role::Student => "environment",
    }
}

/// Everything the client needs to open a lesson.
pub struct LessonPlan {
    /// The server to dial.
    pub url: String,
    /// The join request to send once connected.
    pub join: ClientMessage,
    /// The camera facing mode to ask for.
    pub facing: &'static str,
}

/// A lesson plan as the contracts see it.
pub struct PlanView {
    pub url: Seq<char>,
    pub join: ClientNote,
    pub facing: Seq<char>,
}

impl View for LessonPlan {
    type V = PlanView;

    open spec fn view(&self) -> PlanView {
        PlanView { url: self.url@, join: self.join@, facing: self.facing@ }
    }
}

/// What pressing "Join studio" leads to: the name must not be blank and the
/// server address must be usable; then the trimmed name joins with the chosen
/// role and instrument, and the role decides the camera.
pub open spec fn lesson_plan(
    name: Seq<char>,
    role: Role,
    instrument: Instrument,
    host: Seq<char>,
    port: Seq<char>,
) -> Result<PlanView, Seq<char>> {
    if trimmed(name).len() == 0 {
        Err("Enter your name."@)
    } else {
        match server_url(host, port) {
            Err(e) => Err(e),
            Ok(url) => Ok(
                PlanView {
                    url,
                    join: ClientNote::Join {
                        you: PeerView { name: trimmed(name), role, instrument },
                    },
                    facing: facing_text(role),
                },
            ),
        }
    }
}

/// Joining succeeds exactly when the name is not blank and the server address is
/// usable. A successful plan dials that address, joins under the trimmed name with the
/// chosen role and instrument, and opens the camera the role calls for: the front
/// camera ("user") for a teacher, the back camera ("environment") for a student.
pub proof fn plan_follows_the_form(
    name: Seq<char>,
    role: Role,
    instrument: Instrument,
    host: Seq<char>,
    port: Seq<char>,
)
    ensures
        lesson_plan(name, role, instrument, host, port) is Ok <==> (trimmed(name).len() > 0
            && server_url(host, port) is Ok),
        lesson_plan(name, role, instrument, host, port) is Ok ==> ({
            let p = lesson_plan(name, role, instrument, host, port)->Ok_0;
            &&& p.url == server_url(host, port)->Ok_0
            &&& p.join == (ClientNote::Join {
                you: (PeerView { name: trimmed(name), role, instrument }),
            })
            &&& (role == Role::Teacher ==> p.facing == "user"@)
            &&& (role == Role::Student ==> p.facing == "environment"@)
        }),
{
}

/// Checks the lobby form and prepares the connection.
pub fn plan_lesson(name: &str, role: Role, instrument: Instrument, host: &str, port: &str) -> (plan:
    Result<LessonPlan, String>)
    ensures
        match plan {
            Ok(p) => lesson_plan(name@, role, instrument, host@, port@) == Ok::<
                PlanView,
                Seq<char>,
            >(p@),
            Err(e) => lesson_plan(name@, role, instrument, host@, port@) == Err::<
                PlanView,
                Seq<char>,
            >(e@),
        },
{
    let name = trim(name);
    if name.unicode_len() == 0 {
        return Err(String::from_str("Enter your name."));
    }
    match build_server_url(host, port) {
        Err(message) => Err(message),
        Ok(url) => Ok(
            LessonPlan {
                url,
                join: ClientMessage::Join { name: String::from_str(name), role, instrument },
                facing: facing_for(role),
            },
        ),
    }
}

} // verus!
