//! The decisions of the signalling endpoints: which WebSocket connections are
//! admitted, how the messages of a session change the rooms, and which ICE
//! servers a page is given.
use vstd::prelude::*;

use crate::config::{ice_server_list, ice_views, Config, IceServer, ServerConfig};
use crate::room::{
    outbound_views, Outbound, OutboundView, PeerRole, ServerEvent, ServerEventView, SignalPayload,
    SignalPayloadView,
};
use crate::rooms::{
    kick_outcome, occupancy, password_outcome, relay_outcome, rename_outcome, rename_undefined,
    report_outcome, AppState, JoinRequest, JoinResult, KickRequest, KickRequestView,
};
use crate::text::{
    char_is_ascii_alphanumeric, chars_of, eq_ignore_ascii_case, is_ascii_alphanumeric, keep,
    keep_chars, remove_all, remove_all_chars, string_of, take_chars, text_eq,
    text_eq_ignore_ascii_case,
};

verus! {

// ---------------------------------------------------------------------------
// Roles and room ids
// ---------------------------------------------------------------------------

/// The role that a path segment names.
pub fn parse_role(input: &str) -> (r: Result<PeerRole, &'static str>)
    ensures
        input@ == "host"@ ==> r == Ok::<PeerRole, &'static str>(PeerRole::Host),
        input@ == "viewer"@ ==> r == Ok::<PeerRole, &'static str>(PeerRole::Viewer),
        input@ != "host"@ && input@ != "viewer"@ ==> (r matches Err(m) && m@
            == "role must be host or viewer"@),
{
    proof {
        reveal_strlit("host");
        reveal_strlit("viewer");
        assert("host"@ != "viewer"@) by {
            assert("host"@.len() != "viewer"@.len());
        }
    }
    if text_eq(input, "host") {
        Ok(PeerRole::Host)
    } else if text_eq(input, "viewer") {
        Ok(PeerRole::Viewer)
    } else {
        Err("role must be host or viewer")
    }
}

pub open spec fn role_text(role: PeerRole) -> Seq<char> {
    match role {
        PeerRole::Host => "host"@,
        PeerRole::Viewer => "viewer"@,
    }
}

/// The name of a role, as `parse_role` reads it.
pub fn role_name(role: PeerRole) -> (r: &'static str)
    ensures
        r@ == role_text(role),
{
    match role {
        PeerRole::Host => "host",
        PeerRole::Viewer => "viewer",
    }
}

pub open spec fn room_id_char(c: char) -> bool {
    is_ascii_alphanumeric(c) || c == '-' || c == '_'
}

/// A room id: 1 to 64 ASCII letters, digits, `-` or `_`.
pub open spec fn valid_room_id(room: Seq<char>) -> bool {
    &&& 0 < room.len() <= 64
    &&& forall|i: int| 0 <= i < room.len() ==> room_id_char(#[trigger] room[i])
}

/// Whether `room` is a valid room id.
pub fn is_valid_room(room: &str) -> (r: bool)
    ensures
        r == valid_room_id(room@),
{
    let v = chars_of(room);
    if v.len() == 0 || v.len() > 64 {
        return false;
    }
    let mut i: usize = 0;
    while i < v.len()
        invariant
            i <= v.len(),
            v@ == room@,
            forall|k: int| 0 <= k < i ==> room_id_char(#[trigger] v@[k]),
        decreases v.len() - i,
    {
        let c = v[i];
        if !(char_is_ascii_alphanumeric(c) || c == '-' || c == '_') {
            assert(!room_id_char(v@[i as int]));
            return false;
        }
        i = i + 1;
    }
    true
}

// ---------------------------------------------------------------------------
// Origins
// ---------------------------------------------------------------------------

/// The authority of the URI that `text` spells: `None` where `text` is no
/// URI, `Some(None)` where the URI has no authority.
pub uninterp spec fn uri_authority(text: Seq<char>) -> Option<Option<Seq<char>>>;

/// `http::Uri::try_from(text)`, then `authority()` and `as_str()` of the URI.
/// The parse is named, not stated.
#[verifier::external_body]
fn parse_uri_authority(text: &str) -> (r: Option<Option<String>>)
    ensures
        match r {
            None => uri_authority(text@) is None,
            Some(None) => uri_authority(text@) == Some(None::<Seq<char>>),
            Some(Some(a)) => uri_authority(text@) == Some(Some(a@)),
        },
{
    match http::Uri::try_from(text.to_string()) {
        Ok(uri) => Some(uri.authority().map(|a| a.as_str().to_string())),
        Err(_) => None,
    }
}

/// The headers of an upgrade request that the origin check reads.
pub struct RequestHeaders {
    /// The `Origin` header, where present as visible ASCII.
    pub origin: Option<String>,
    /// The `Host` header, where present as visible ASCII.
    pub host: Option<String>,
}

/// An origin with its `http://` and `https://` taken out.
pub open spec fn origin_authority_text(origin: Seq<char>) -> Seq<char> {
    remove_all(remove_all(origin, "http://"@), "https://"@)
}

/// Whether a page from `origin` may open a socket to `host`: always with
/// `allow_any` or without an `Origin` header; else the authority of the origin,
/// its scheme taken out, must equal the `Host` header up to ASCII case.
pub open spec fn origin_ok(origin: Option<Seq<char>>, host: Option<Seq<char>>, allow_any: bool) -> bool {
    if allow_any {
        true
    } else {
        match origin {
            None => true,
            Some(o) => match host {
                None => false,
                Some(h) => match uri_authority(origin_authority_text(o)) {
                    Some(Some(a)) => eq_ignore_ascii_case(a, h),
                    _ => false,
                },
            },
        }
    }
}

/// Whether the request's origin is allowed; see [`origin_ok`].
pub fn origin_allowed(headers: &RequestHeaders, allow_any: bool) -> (r: bool)
    ensures
        r == origin_ok(headers.origin.deep_view(), headers.host.deep_view(), allow_any),
{
    if allow_any {
        return true;
    }
    let origin = match &headers.origin {
        None => return true,
        Some(o) => o,
    };
    let host = match &headers.host {
        None => return false,
        Some(h) => h,
    };
    let o = chars_of(origin.as_str());
    let http = chars_of("http://");
    let https = chars_of("https://");
    proof {
        reveal_strlit("http://");
        reveal_strlit("https://");
    }
    let stripped = remove_all_chars(&remove_all_chars(&o, &http), &https);
    let text = string_of(&stripped);
    match parse_uri_authority(text.as_str()) {
        Some(Some(a)) => text_eq_ignore_ascii_case(a.as_str(), host.as_str()),
        _ => false,
    }
}

// ---------------------------------------------------------------------------
// Client tokens
// ---------------------------------------------------------------------------

pub open spec fn is_lower_hex(c: char) -> bool {
    ('0' <= c && c <= '9') || ('a' <= c && c <= 'f')
}

/// The hyphenated lower-case text of a version-4 UUID.
pub open spec fn uuid_v4_text(s: Seq<char>) -> bool {
    &&& s.len() == 36
    &&& forall|i: int|
        0 <= i < 36 ==> if i == 8 || i == 13 || i == 18 || i == 23 {
            #[trigger] s[i] == '-'
        } else {
            is_lower_hex(s[i])
        }
    &&& s[14] == '4'
    &&& (s[19] == '8' || s[19] == '9' || s[19] == 'a' || s[19] == 'b')
}

/// `uuid::Uuid::new_v4().to_string()`: a random UUID of version 4 in its
/// hyphenated lower-case form, as the `uuid` crate writes it. The value is
/// random; only its form is stated.
#[verifier::external_body]
fn new_uuid_v4() -> (s: String)
    ensures
        uuid_v4_text(s@),
{
    uuid::Uuid::new_v4().to_string()
}

pub open spec fn token_char(c: char) -> bool {
    is_ascii_alphanumeric(c) || c == '-' || c == '_'
}

pub open spec fn token_filter() -> spec_fn(char) -> bool {
    |c: char| token_char(c)
}

/// A client token cleaned: ASCII letters, digits, `-` and `_`, at most 64.
pub open spec fn clean_token(s: Seq<char>) -> Seq<char> {
    let k = keep(s, token_filter());
    if k.len() <= 64 {
        k
    } else {
        k.take(64)
    }
}

proof fn lemma_keep_all(s: Seq<char>, f: spec_fn(char) -> bool)
    requires
        forall|i: int| 0 <= i < s.len() ==> f(#[trigger] s[i]),
    ensures
        keep(s, f) == s,
    decreases s.len(),
{
    if s.len() > 0 {
        lemma_keep_all(s.drop_last(), f);
        assert(s.drop_last().push(s.last()) =~= s);
    }
}

proof fn lemma_uuid_is_clean(s: Seq<char>)
    requires
        uuid_v4_text(s),
    ensures
        clean_token(s) == s,
{
    assert forall|i: int| 0 <= i < s.len() implies (#[trigger] token_filter()(s[i])) by {
        if i == 8 || i == 13 || i == 18 || i == 23 {
            assert(s[i] == '-');
        } else {
            assert(is_lower_hex(s[i]));
        }
    }
    lemma_keep_all(s, token_filter());
}

fn clean_client_token(value: &str) -> (r: String)
    ensures
        r@ == clean_token(value@),
{
    let v = chars_of(value);
    let pick = |c: char| -> (b: bool)
        ensures
            b == token_char(c),
        { char_is_ascii_alphanumeric(c) || c == '-' || c == '_' };
    let k = keep_chars(&v, pick, Ghost(token_filter()));
    let c = take_chars(&k, 64);
    proof {
        if k@.len() <= 64 {
            assert(k@.take(k@.len() as int) =~= k@);
        }
    }
    string_of(&c)
}

/// The client token of a connection: the given one cleaned, or a fresh
/// random UUID where none is given or nothing is left of it.
pub fn normalized_client_token(input: Option<String>) -> (r: String)
    ensures
        match input {
            Some(v) => if clean_token(v@).len() > 0 {
                r@ == clean_token(v@)
            } else {
                uuid_v4_text(r@)
            },
            None => uuid_v4_text(r@),
        },
{
    let value = match input {
        Some(v) => v,
        None => new_uuid_v4(),
    };
    proof {
        if input is None {
            lemma_uuid_is_clean(value@);
        }
    }
    let token = clean_client_token(value.as_str());
    if token.as_str().is_empty() {
        new_uuid_v4()
    } else {
        token
    }
}

// ---------------------------------------------------------------------------
// Admission of WebSocket connections
// ---------------------------------------------------------------------------

/// The query string of a WebSocket upgrade.
pub struct WsQuery {
    pub peer_id: Option<String>,
    pub client_token: Option<String>,
    pub display_name: Option<String>,
    pub password: Option<String>,
}

/// The query string of an ICE configuration request.
pub struct IceQuery {
    pub room: Option<String>,
    pub role: Option<String>,
}

/// An HTTP refusal: status code and body.
pub struct Rejection {
    pub status: u16,
    pub message: String,
}

/// Why an upgrade is refused, in the order of the checks, or `None`.
pub open spec fn ws_refusal(
    role: Seq<char>,
    room: Seq<char>,
    headers_ok: bool,
    online: nat,
    maxonline: usize,
) -> Option<(u16, Seq<char>)> {
    if role != "host"@ && role != "viewer"@ {
        Some((400u16, "role must be host or viewer"@))
    } else if !valid_room_id(room) {
        Some((400u16, "invalid room id"@))
    } else if !headers_ok {
        Some((403u16, "origin not allowed"@))
    } else if (if online <= usize::MAX { online } else { usize::MAX as nat }) >= maxonline {
        Some((429u16, "room service is full"@))
    } else {
        None
    }
}

/// Admits or refuses a WebSocket upgrade for `room` with `role`, and builds
/// the join request of an admitted one: the peer id given (or a fresh UUID),
/// its client token cleaned, the password only where not empty, the remote IP
/// address as the peer's address.
pub fn ws_handler(
    server: &ServerConfig,
    rooms: &AppState,
    room: String,
    role: &str,
    query: WsQuery,
    remote_ip: String,
    headers: &RequestHeaders,
    conn: u64,
) -> (r: Result<JoinRequest, Rejection>)
    ensures
        match ws_refusal(
            role@,
            room@,
            origin_ok(headers.origin.deep_view(), headers.host.deep_view(), server.originany),
            occupancy(rooms@),
            server.maxonline,
        ) {
            Some((status, message)) => r matches Err(e) && e.status == status && e.message@
                == message,
            None => r matches Ok(req) && {
                &&& req.room@ == room@
                &&& req.role == (if role@ == "host"@ {
                    PeerRole::Host
                } else {
                    PeerRole::Viewer
                })
                &&& match query.peer_id {
                    Some(p) => req.peer_id@ == p@,
                    None => uuid_v4_text(req.peer_id@),
                }
                &&& match query.client_token {
                    Some(t) => if clean_token(t@).len() > 0 {
                        req.client_token@ == clean_token(t@)
                    } else {
                        uuid_v4_text(req.client_token@)
                    },
                    None => uuid_v4_text(req.client_token@),
                }
                &&& req.display_name@ == match query.display_name {
                    Some(d) => d@,
                    None => Seq::<char>::empty(),
                }
                &&& req.password.deep_view() == match query.password {
                    Some(p) => if p@.len() > 0 {
                        Some(p@)
                    } else {
                        None
                    },
                    None => None,
                }
                &&& req.remote_addr.deep_view() == Some(remote_ip@)
                &&& req.conn == conn
            },
        },
{
    let role = match parse_role(role) {
        Ok(role) => role,
        Err(message) => {
            return Err(Rejection { status: 400, message: message.to_owned() });
        },
    };
    if !is_valid_room(room.as_str()) {
        return Err(Rejection { status: 400, message: String::from_str("invalid room id") });
    }
    if !origin_allowed(headers, server.originany) {
        return Err(Rejection { status: 403, message: String::from_str("origin not allowed") });
    }
    if rooms.online_count() >= server.maxonline {
        return Err(Rejection { status: 429, message: String::from_str("room service is full") });
    }
    let peer_id = match query.peer_id {
        Some(p) => p,
        None => new_uuid_v4(),
    };
    let password = match query.password {
        Some(p) => if p.as_str().is_empty() {
            None
        } else {
            Some(p)
        },
        None => None,
    };
    Ok(
        JoinRequest {
            room,
            role,
            peer_id,
            client_token: normalized_client_token(query.client_token),
            display_name: match query.display_name {
                Some(d) => d,
                None => String::new(),
            },
            password,
            remote_addr: Some(remote_ip),
            conn,
        },
    )
}

/// `t`, or `default` where absent.
pub open spec fn text_or(t: Option<Seq<char>>, default: Seq<char>) -> Seq<char> {
    match t {
        Some(x) => x,
        None => default,
    }
}

/// The ICE servers for the page's room and role: `public` and `viewer` where
/// the query names none.
pub fn ice_config(config: &Config, query: IceQuery) -> (r: Vec<IceServer>)
    ensures
        exists|now: u64|
            ice_views(r@) == #[trigger] ice_server_list(
                config@,
                text_or(query.room.deep_view(), "public"@),
                text_or(query.role.deep_view(), "viewer"@),
                now,
            ),
{
    let ghost q_room = query.room.deep_view();
    let ghost q_role = query.role.deep_view();
    let room = match query.room {
        Some(x) => x,
        None => String::from_str("public"),
    };
    let role = match query.role {
        Some(x) => x,
        None => String::from_str("viewer"),
    };
    assert(room@ == text_or(q_room, "public"@));
    assert(role@ == text_or(q_role, "viewer"@));
    let r = config.ice_servers(room.as_str(), role.as_str());
    proof {
        let now = choose|now: u64| ice_views(r@) == #[trigger] ice_server_list(config@, room@, role@, now);
        assert(ice_views(r@) == ice_server_list(config@, text_or(q_room, "public"@), text_or(q_role, "viewer"@), now));
    }
    r
}

/// The first event of a session: what the peer learned when it joined, and
/// the ICE servers for its room and role.
pub fn welcome_event(config: &Config, room: &str, peer_id: &str, role: PeerRole, join: JoinResult) -> (e: ServerEvent)
    ensures
        exists|now: u64|
            e@ == (ServerEventView::Welcome {
                peer_id: peer_id@,
                room: room@,
                role,
                host_present: join@.host_present,
                viewer_count: join@.viewer_count,
                password_protected: join@.password_protected,
                self_display_name: join@.self_display_name,
                peers: join@.peers,
                host_peer_details: join@.host_peer_details,
                ice_servers: #[trigger] ice_server_list(config@, room@, role_text(role), now),
            }),
{
    let ice_servers = config.ice_servers(room, role_name(role));
    ServerEvent::Welcome {
        peer_id: peer_id.to_owned(),
        room: room.to_owned(),
        role,
        host_present: join.host_present,
        viewer_count: join.viewer_count,
        password_protected: join.password_protected,
        self_display_name: join.self_display_name,
        peers: join.peers,
        host_peer_details: join.host_peer_details,
        ice_servers,
    }
}


// ---------------------------------------------------------------------------
// Messages of a session
// ---------------------------------------------------------------------------

/// A message that a peer sends over its socket. An ICE candidate is carried as
/// the JSON text of the candidate object.
pub enum ClientEvent {
    Offer { target: String, sdp: String },
    Answer { target: String, sdp: String },
    IceCandidate { target: String, candidate: String },
    SetDisplayName { display_name: String },
    SetJoinPassword { password: Option<String> },
    KickPeer { target: String, ban_client_token: bool, ban_networks: bool },
    ReportNetworkFingerprints { fingerprints: Vec<String> },
    Ping,
}

/// A WebSocket message as the session sees it.
pub enum Inbound {
    /// A text message that reads as a client event.
    Event(ClientEvent),
    /// A text message that does not.
    Malformed,
    /// A close frame.
    Close,
    /// A binary, ping or pong frame.
    Other,
}

/// The signal that `from` relays to `target` in `room`.
pub open spec fn relayed(rs: crate::rooms::RoomsView, room: Seq<char>, from: Seq<char>, target: Seq<char>, signal: SignalPayloadView) -> Result<OutboundView, Seq<char>> {
    relay_outcome(rs, room, target, ServerEventView::Signal { from, signal })
}

/// Relays `signal` from `from` to `target`; an unknown room or target ends the session.
pub fn relay_signal(state: &AppState, room: &str, from: &str, target: &str, signal: SignalPayload) -> (r: Result<Outbound, ()>)
    requires
        state.wf(),
    ensures
        match relayed(state@, room@, from@, target@, signal@) {
            Ok(o) => r matches Ok(x) && x@ == o,
            Err(_) => r is Err,
        },
{
    match state.relay(room, target, ServerEvent::Signal { from: from.to_owned(), signal }) {
        Ok(o) => Ok(o),
        Err(_) => Err(()),
    }
}

/// Handles one message of peer `peer_id` in `room`. `Ok(Some(o))` is a relayed
/// signal whose delivery must succeed for the session to go on; `Err(())` ends
/// the session. Other events go to `outbox`.
pub fn handle_inbound_message(
    state: &mut AppState,
    room: &str,
    role: PeerRole,
    peer_id: &str,
    message: Inbound,
    outbox: &mut Vec<Outbound>,
) -> (r: Result<Option<Outbound>, ()>)
    requires
        old(state).wf(),
        message matches Inbound::Event(ClientEvent::SetDisplayName { display_name })
            ==> !rename_undefined(old(state)@, room@, peer_id@, display_name@),
    ensures
        final(state).wf(),
        match message {
            Inbound::Close => r is Err && final(state)@ == old(state)@ && final(outbox)@ == old(outbox)@,
            Inbound::Malformed | Inbound::Other => r matches Ok(None) && final(state)@ == old(state)@
                && final(outbox)@ == old(outbox)@,
            Inbound::Event(ev) => match ev {
                ClientEvent::Ping => r matches Ok(None) && final(state)@ == old(state)@
                    && final(outbox)@ == old(outbox)@,
                ClientEvent::Offer { target, sdp } => final(state)@ == old(state)@ && final(outbox)@ == old(outbox)@
                    && match relayed(old(state)@, room@, peer_id@, target@, SignalPayloadView::Offer { sdp: sdp@ }) {
                    Ok(o) => r matches Ok(Some(x)) && x@ == o,
                    Err(_) => r is Err,
                },
                ClientEvent::Answer { target, sdp } => final(state)@ == old(state)@ && final(outbox)@ == old(outbox)@
                    && match relayed(old(state)@, room@, peer_id@, target@, SignalPayloadView::Answer { sdp: sdp@ }) {
                    Ok(o) => r matches Ok(Some(x)) && x@ == o,
                    Err(_) => r is Err,
                },
                ClientEvent::IceCandidate { target, candidate } => final(state)@ == old(state)@ && final(outbox)@ == old(outbox)@
                    && match relayed(old(state)@, room@, peer_id@, target@, SignalPayloadView::IceCandidate { candidate: candidate@ }) {
                    Ok(o) => r matches Ok(Some(x)) && x@ == o,
                    Err(_) => r is Err,
                },
                ClientEvent::SetDisplayName { display_name } => exists|now: u64| {
                    let (rs, res, out) = #[trigger] rename_outcome(old(state)@, room@, peer_id@, display_name@, now);
                    &&& final(state)@ == rs
                    &&& outbound_views(final(outbox)@) == outbound_views(old(outbox)@) + out
                    &&& (res is Ok ==> (r matches Ok(None)))
                    &&& (res is Err ==> r is Err)
                },
                ClientEvent::SetJoinPassword { password } => exists|now: u64| {
                    let (rs, res, out) = #[trigger] password_outcome(old(state)@, room@, peer_id@, password.deep_view(), now);
                    &&& final(state)@ == rs
                    &&& outbound_views(final(outbox)@) == outbound_views(old(outbox)@) + out
                    &&& (res is Ok ==> (r matches Ok(None)))
                    &&& (res is Err ==> r is Err)
                },
                ClientEvent::KickPeer { target, ban_client_token, ban_networks } => exists|now: u64| {
                    let (rs, res, out) = #[trigger] kick_outcome(
                        old(state)@,
                        KickRequestView {
                            room: room@,
                            requester_peer_id: peer_id@,
                            target_peer_id: target@,
                            ban_client_token,
                            ban_networks,
                        },
                        now,
                    );
                    &&& final(state)@ == rs
                    &&& outbound_views(final(outbox)@) == outbound_views(old(outbox)@) + out
                    &&& (res is Ok ==> (r matches Ok(None)))
                    &&& (res is Err ==> r is Err)
                },
                ClientEvent::ReportNetworkFingerprints { fingerprints } => exists|now: u64| {
                    let (rs, res, out) = #[trigger] report_outcome(old(state)@, room@, peer_id@, fingerprints.deep_view(), now);
                    &&& final(state)@ == rs
                    &&& outbound_views(final(outbox)@) == outbound_views(old(outbox)@) + out
                    &&& (res is Ok ==> (r matches Ok(None)))
                    &&& (res is Err ==> r is Err)
                },
            },
        },
{
    match message {
        Inbound::Close => Err(()),
        Inbound::Malformed | Inbound::Other => Ok(None),
        Inbound::Event(event) => match event {
            ClientEvent::Ping => Ok(None),
            ClientEvent::Offer { target, sdp } => {
                let o = relay_signal(state, room, peer_id, target.as_str(), SignalPayload::Offer { sdp })?;
                Ok(Some(o))
            },
            ClientEvent::Answer { target, sdp } => {
                let o = relay_signal(state, room, peer_id, target.as_str(), SignalPayload::Answer { sdp })?;
                Ok(Some(o))
            },
            ClientEvent::IceCandidate { target, candidate } => {
                let o = relay_signal(state, room, peer_id, target.as_str(), SignalPayload::IceCandidate { candidate })?;
                Ok(Some(o))
            },
            ClientEvent::SetDisplayName { display_name } => {
                match state.update_display_name(room, peer_id, display_name, outbox) {
                    Ok(_) => Ok(None),
                    Err(_) => Err(()),
                }
            },
            ClientEvent::SetJoinPassword { password } => {
                match state.set_join_password(room, peer_id, password, outbox) {
                    Ok(_) => Ok(None),
                    Err(_) => Err(()),
                }
            },
            ClientEvent::KickPeer { target, ban_client_token, ban_networks } => {
                let request = KickRequest {
                    room: room.to_owned(),
                    requester_peer_id: peer_id.to_owned(),
                    target_peer_id: target,
                    ban_client_token,
                    ban_networks,
                };
                match state.kick_peer(request, outbox) {
                    Ok(_) => Ok(None),
                    Err(_) => Err(()),
                }
            },
            ClientEvent::ReportNetworkFingerprints { fingerprints } => {
                match state.update_network_fingerprints(room, peer_id, fingerprints, outbox) {
                    Ok(_) => Ok(None),
                    Err(_) => Err(()),
                }
            },
        },
    }
}
} // verus!
