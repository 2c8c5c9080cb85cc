//! Participants, rooms and the events that the service sends to peers.
use vstd::prelude::*;

use crate::config::{IceServer, IceServerView};
use crate::sorted::strictly_sorted;
use crate::text::{
    byte_prefix, char_is_ascii_alphanumeric, char_utf8_width, chars_of, is_ascii_alphanumeric,
    keep, keep_chars, string_of, take_chars, trim, trim_chars, trimmed, utf8_len, utf8_width,
};

verus! {

// ---------------------------------------------------------------------------
// Participants
// ---------------------------------------------------------------------------

#[derive(Clone, Copy, Debug, PartialEq, Eq, Structural)]
pub enum PeerRole {
    Host,
    Viewer,
}

/// A connected peer. `conn` names the connection that events for the peer go
/// to; the program that owns the connections keeps the map.
pub struct Participant {
    pub peer_id: String,
    pub role: PeerRole,
    pub client_token: String,
    pub display_name: String,
    pub remote_addr: Option<String>,
    /// Network fingerprints, ascending and without repeats.
    pub network_fingerprints: Vec<String>,
    pub conn: u64,
}

pub struct ParticipantView {
    pub peer_id: Seq<char>,
    pub role: PeerRole,
    pub client_token: Seq<char>,
    pub display_name: Seq<char>,
    pub remote_addr: Option<Seq<char>>,
    pub network_fingerprints: Seq<Seq<char>>,
    pub conn: u64,
}

impl View for Participant {
    type V = ParticipantView;

    open spec fn view(&self) -> ParticipantView {
        ParticipantView {
            peer_id: self.peer_id@,
            role: self.role,
            client_token: self.client_token@,
            display_name: self.display_name@,
            remote_addr: self.remote_addr.deep_view(),
            network_fingerprints: self.network_fingerprints.deep_view(),
            conn: self.conn,
        }
    }
}

/// What every peer may see of a participant.
pub struct ParticipantPublic {
    pub peer_id: String,
    pub role: PeerRole,
    pub display_name: String,
}

pub struct ParticipantPublicView {
    pub peer_id: Seq<char>,
    pub role: PeerRole,
    pub display_name: Seq<char>,
}

impl View for ParticipantPublic {
    type V = ParticipantPublicView;

    open spec fn view(&self) -> ParticipantPublicView {
        ParticipantPublicView {
            peer_id: self.peer_id@,
            role: self.role,
            display_name: self.display_name@,
        }
    }
}

/// What the host sees of a participant.
pub struct ParticipantAdmin {
    pub peer_id: String,
    pub role: PeerRole,
    pub display_name: String,
    pub remote_addr: Option<String>,
    pub network_fingerprints: Vec<String>,
}

pub struct ParticipantAdminView {
    pub peer_id: Seq<char>,
    pub role: PeerRole,
    pub display_name: Seq<char>,
    pub remote_addr: Option<Seq<char>>,
    pub network_fingerprints: Seq<Seq<char>>,
}

impl View for ParticipantAdmin {
    type V = ParticipantAdminView;

    open spec fn view(&self) -> ParticipantAdminView {
        ParticipantAdminView {
            peer_id: self.peer_id@,
            role: self.role,
            display_name: self.display_name@,
            remote_addr: self.remote_addr.deep_view(),
            network_fingerprints: self.network_fingerprints.deep_view(),
        }
    }
}

pub open spec fn public_of(p: ParticipantView) -> ParticipantPublicView {
    ParticipantPublicView { peer_id: p.peer_id, role: p.role, display_name: p.display_name }
}

pub open spec fn admin_of(p: ParticipantView) -> ParticipantAdminView {
    ParticipantAdminView {
        peer_id: p.peer_id,
        role: p.role,
        display_name: p.display_name,
        remote_addr: p.remote_addr,
        network_fingerprints: p.network_fingerprints,
    }
}

pub open spec fn publics(s: Seq<ParticipantPublic>) -> Seq<ParticipantPublicView> {
    s.map_values(|p: ParticipantPublic| p@)
}

pub open spec fn admins(s: Seq<ParticipantAdmin>) -> Seq<ParticipantAdminView> {
    s.map_values(|p: ParticipantAdmin| p@)
}

/// A copy of an optional text.
pub fn copy_opt_string(s: &Option<String>) -> (r: Option<String>)
    ensures
        r.deep_view() == s.deep_view(),
{
    match s {
        Some(x) => Some(x.clone()),
        None => None,
    }
}

impl Participant {
    /// What every peer may see of this participant.
    pub fn public_view(&self) -> (r: ParticipantPublic)
        ensures
            r@ == public_of(self@),
    {
        ParticipantPublic {
            peer_id: self.peer_id.clone(),
            role: self.role,
            display_name: self.display_name.clone(),
        }
    }

    /// What the host sees of this participant; the fingerprints come in
    /// ascending order, as they are kept.
    pub fn admin_view(&self) -> (r: ParticipantAdmin)
        ensures
            r@ == admin_of(self@),
    {
        ParticipantAdmin {
            peer_id: self.peer_id.clone(),
            role: self.role,
            display_name: self.display_name.clone(),
            remote_addr: copy_opt_string(&self.remote_addr),
            network_fingerprints: crate::config::copy_strings(&self.network_fingerprints),
        }
    }
}

impl ParticipantPublic {
    /// A copy of this record.
    pub fn copy(&self) -> (r: ParticipantPublic)
        ensures
            r@ == self@,
    {
        ParticipantPublic {
            peer_id: self.peer_id.clone(),
            role: self.role,
            display_name: self.display_name.clone(),
        }
    }
}

// ---------------------------------------------------------------------------
// Events
// ---------------------------------------------------------------------------

/// A WebRTC signal relayed between peers. An ICE candidate is carried as the
/// JSON text of the candidate object.
pub enum SignalPayload {
    Offer { sdp: String },
    Answer { sdp: String },
    IceCandidate { candidate: String },
}

pub enum SignalPayloadView {
    Offer { sdp: Seq<char> },
    Answer { sdp: Seq<char> },
    IceCandidate { candidate: Seq<char> },
}

impl View for SignalPayload {
    type V = SignalPayloadView;

    open spec fn view(&self) -> SignalPayloadView {
        match self {
            SignalPayload::Offer { sdp } => SignalPayloadView::Offer { sdp: sdp@ },
            SignalPayload::Answer { sdp } => SignalPayloadView::Answer { sdp: sdp@ },
            SignalPayload::IceCandidate { candidate } => SignalPayloadView::IceCandidate {
                candidate: candidate@,
            },
        }
    }
}

/// An event that the service sends to a peer.
#[allow(inconsistent_fields)]
pub enum ServerEvent {
    Welcome {
        peer_id: String,
        room: String,
        role: PeerRole,
        host_present: bool,
        viewer_count: usize,
        password_protected: bool,
        self_display_name: String,
        peers: Vec<ParticipantPublic>,
        host_peer_details: Option<Vec<ParticipantAdmin>>,
        ice_servers: Vec<IceServer>,
    },
    PeerJoined { peer: ParticipantPublic },
    PeerLeft { peer_id: String, role: PeerRole },
    PeerUpdated { peer: ParticipantPublic },
    HostPeerDetails { peers: Vec<ParticipantAdmin> },
    RoomUpdated { viewer_count: usize, password_protected: bool },
    Signal { from: String, signal: SignalPayload },
    Kicked { reason: String },
    Error { message: String },
}

#[allow(inconsistent_fields)]
pub enum ServerEventView {
    Welcome {
        peer_id: Seq<char>,
        room: Seq<char>,
        role: PeerRole,
        host_present: bool,
        viewer_count: usize,
        password_protected: bool,
        self_display_name: Seq<char>,
        peers: Seq<ParticipantPublicView>,
        host_peer_details: Option<Seq<ParticipantAdminView>>,
        ice_servers: Seq<IceServerView>,
    },
    PeerJoined { peer: ParticipantPublicView },
    PeerLeft { peer_id: Seq<char>, role: PeerRole },
    PeerUpdated { peer: ParticipantPublicView },
    HostPeerDetails { peers: Seq<ParticipantAdminView> },
    RoomUpdated { viewer_count: usize, password_protected: bool },
    Signal { from: Seq<char>, signal: SignalPayloadView },
    Kicked { reason: Seq<char> },
    Error { message: Seq<char> },
}

impl View for ServerEvent {
    type V = ServerEventView;

    open spec fn view(&self) -> ServerEventView {
        match self {
            ServerEvent::Welcome {
                peer_id,
                room,
                role,
                host_present,
                viewer_count,
                password_protected,
                self_display_name,
                peers,
                host_peer_details,
                ice_servers,
            } => ServerEventView::Welcome {
                peer_id: peer_id@,
                room: room@,
                role: *role,
                host_present: *host_present,
                viewer_count: *viewer_count,
                password_protected: *password_protected,
                self_display_name: self_display_name@,
                peers: publics(peers@),
                host_peer_details: match host_peer_details {
                    Some(d) => Some(admins(d@)),
                    None => None,
                },
                ice_servers: crate::config::ice_views(ice_servers@),
            },
            ServerEvent::PeerJoined { peer } => ServerEventView::PeerJoined { peer: peer@ },
            ServerEvent::PeerLeft { peer_id, role } => ServerEventView::PeerLeft {
                peer_id: peer_id@,
                role: *role,
            },
            ServerEvent::PeerUpdated { peer } => ServerEventView::PeerUpdated { peer: peer@ },
            ServerEvent::HostPeerDetails { peers } => ServerEventView::HostPeerDetails {
                peers: admins(peers@),
            },
            ServerEvent::RoomUpdated { viewer_count, password_protected } =>
                ServerEventView::RoomUpdated {
                viewer_count: *viewer_count,
                password_protected: *password_protected,
            },
            ServerEvent::Signal { from, signal } => ServerEventView::Signal {
                from: from@,
                signal: signal@,
            },
            ServerEvent::Kicked { reason } => ServerEventView::Kicked { reason: reason@ },
            ServerEvent::Error { message } => ServerEventView::Error { message: message@ },
        }
    }
}

/// An event to be sent to each of the connections `to`, in order.
pub struct Outbound {
    pub to: Vec<u64>,
    pub event: ServerEvent,
}

pub struct OutboundView {
    pub to: Seq<u64>,
    pub event: ServerEventView,
}

impl View for Outbound {
    type V = OutboundView;

    open spec fn view(&self) -> OutboundView {
        OutboundView { to: self.to@, event: self.event@ }
    }
}

pub open spec fn outbound_views(s: Seq<Outbound>) -> Seq<OutboundView> {
    s.map_values(|o: Outbound| o@)
}

// ---------------------------------------------------------------------------
// Names and fingerprints
// ---------------------------------------------------------------------------

/// The characters that make up the first eight bytes of `peer_id`, or all of
/// it where there is no such prefix.
pub open spec fn guest_suffix(peer_id: Seq<char>) -> Seq<char> {
    match byte_prefix(peer_id, 8) {
        Some(p) => p,
        None => peer_id,
    }
}

/// Whether a display name can be derived: a name that trims to nothing is
/// replaced by one made of the first eight bytes of the peer id (all of it
/// where shorter), and byte eight must then fall between characters.
pub open spec fn display_name_defined(input: Seq<char>, peer_id: Seq<char>) -> bool {
    trim(input).len() > 0 || utf8_len(peer_id) < 8 || byte_prefix(peer_id, 8) is Some
}

/// The display name shown for `input`: trimmed and cut to 48 characters, or
/// `guest-` and the start of the peer id where it trims to nothing.
pub open spec fn display_name_of(input: Seq<char>, peer_id: Seq<char>) -> Seq<char> {
    let t = trim(input);
    if t.len() == 0 {
        "guest-"@ + guest_suffix(peer_id)
    } else if t.len() <= 48 {
        t
    } else {
        t.take(48)
    }
}

pub open spec fn fingerprint_char(c: char) -> bool {
    is_ascii_alphanumeric(c) || c == '.' || c == ':' || c == '-' || c == '_' || c == '/'
}

pub open spec fn fingerprint_filter() -> spec_fn(char) -> bool {
    |c: char| fingerprint_char(c)
}

/// A reported fingerprint cleaned: trimmed, reduced to ASCII letters, digits
/// and `.:-_/`, cut to 128 characters.
pub open spec fn sanitized_fingerprint(input: Seq<char>) -> Seq<char> {
    let k = keep(trim(input), fingerprint_filter());
    if k.len() <= 128 {
        k
    } else {
        k.take(128)
    }
}

/// Whether [`normalized_display_name`] is defined for these arguments.
pub fn display_name_is_defined(input: &str, peer_id: &str) -> (r: bool)
    ensures
        r == display_name_defined(input@, peer_id@),
{
    let t = trimmed(input);
    if t.len() > 0 {
        return true;
    }
    let pc = chars_of(peer_id);
    let (k, acc) = byte_prefix_len(&pc);
    if acc == 8 {
        return true;
    }
    let mut total: usize = 0;
    let mut i: usize = 0;
    assert(pc@.take(0) =~= Seq::<char>::empty());
    while i < pc.len()
        invariant
            i <= pc.len(),
            total == utf8_len(pc@.take(i as int)),
            total < 8,
            byte_prefix(pc@, 8) is None,
            pc@ == peer_id@,
            t@ == trim(input@),
            t@.len() == 0,
        decreases pc.len() - i,
    {
        let w = char_utf8_width(pc[i]);
        assert(pc@.take(i + 1).drop_last() =~= pc@.take(i as int));
        if total + w >= 8 {
            proof {
                lemma_utf8_len_prefix(pc@, i + 1);
            }
            return false;
        }
        total = total + w;
        i = i + 1;
    }
    assert(pc@.take(pc.len() as int) =~= pc@);
    true
}

proof fn lemma_utf8_len_prefix(s: Seq<char>, j: int)
    requires
        0 <= j <= s.len(),
    ensures
        utf8_len(s) >= utf8_len(s.take(j)),
    decreases s.len() - j,
{
    if j < s.len() {
        lemma_utf8_len_prefix(s, j + 1);
        assert(s.take(j + 1).drop_last() =~= s.take(j));
    } else {
        assert(s.take(j) =~= s);
    }
}

/// Joins a known prefix to an optional rest.
pub open spec fn join_prefix(a: Seq<char>, rest: Option<Seq<char>>) -> Option<Seq<char>> {
    match rest {
        Some(p) => Some(a + p),
        None => None,
    }
}

/// The number of leading characters of `pc` that fit in eight bytes, and their
/// bytes; where they make exactly eight, they are `byte_prefix(pc, 8)`.
fn byte_prefix_len(pc: &Vec<char>) -> (r: (usize, usize))
    ensures
        r.0 <= pc.len(),
        r.1 <= 8,
        r.1 == 8 ==> byte_prefix(pc@, 8) == Some(pc@.take(r.0 as int)),
        r.1 < 8 ==> byte_prefix(pc@, 8) is None,
{
    let mut k: usize = 0;
    let mut acc: usize = 0;
    assert(pc@.skip(0) =~= pc@);
    assert(pc@.take(0) + byte_prefix(pc@, 8).unwrap_or(Seq::empty()) =~= byte_prefix(pc@, 8).unwrap_or(Seq::empty()));
    assert(byte_prefix(pc@, 8) == join_prefix(pc@.take(0), byte_prefix(pc@.skip(0), 8))) by {
        match byte_prefix(pc@, 8) {
            Some(p) => {
                assert(pc@.take(0) + p =~= p);
            },
            None => {},
        }
    }
    while acc < 8 && k < pc.len() && acc + char_utf8_width(pc[k]) <= 8
        invariant
            k <= pc.len(),
            acc <= 8,
            byte_prefix(pc@, 8) == join_prefix(pc@.take(k as int), byte_prefix(pc@.skip(k as int), (8 - acc) as nat)),
        decreases pc.len() - k,
    {
        let w = char_utf8_width(pc[k]);
        proof {
            let s = pc@.skip(k as int);
            assert(s[0] == pc@[k as int]);
            assert(s.drop_first() =~= pc@.skip(k + 1));
            let n = (8 - acc) as nat;
            assert(byte_prefix(s, n) == match byte_prefix(s.drop_first(), (n - utf8_width(s[0])) as nat) {
                Some(p) => Some(seq![s[0]].add(p)),
                None => None,
            });
            match byte_prefix(pc@.skip(k + 1), (8 - acc - w) as nat) {
                Some(p) => {
                    assert(pc@.take(k as int) + (seq![pc@[k as int]] + p) =~= pc@.take(k + 1) + p);
                },
                None => {},
            }
        }
        acc = acc + w;
        k = k + 1;
    }
    if acc == 8 {
        assert(pc@.take(k as int) + Seq::<char>::empty() =~= pc@.take(k as int));
    }
    (k, acc)
}

/// The display name for `input`: trimmed and cut to 48 characters, or `guest-`
/// and the first eight bytes of the peer id where it trims to nothing.
pub fn normalized_display_name(input: &str, peer_id: &str) -> (r: String)
    requires
        display_name_defined(input@, peer_id@),
    ensures
        r@ == display_name_of(input@, peer_id@),
{
    let t = trimmed(input);
    if t.len() == 0 {
        let pc = chars_of(peer_id);
        let (k, acc) = byte_prefix_len(&pc);
        let suffix = if acc == 8 {
            take_chars(&pc, k)
        } else {
            pc
        };
        proof {
            reveal_strlit("guest-");
        }
        let head = String::from_str("guest-");
        let tail = string_of(&suffix);
        head.concat(tail.as_str())
    } else {
        let c = take_chars(&t, 48);
        proof {
            if t@.len() <= 48 {
                assert(t@.take(t@.len() as int) =~= t@);
            }
        }
        string_of(&c)
    }
}

/// A reported fingerprint cleaned: trimmed, reduced to ASCII letters, digits
/// and `.:-_/`, cut to 128 characters.
pub fn sanitize_network_fingerprint(input: &str) -> (r: String)
    ensures
        r@ == sanitized_fingerprint(input@),
{
    let t = trimmed(input);
    let pick = |c: char| -> (b: bool)
        ensures
            b == fingerprint_char(c),
        {
            char_is_ascii_alphanumeric(c) || c == '.' || c == ':' || c == '-' || c == '_' || c
                == '/'
        };
    let k = keep_chars(&t, pick, Ghost(fingerprint_filter()));
    let c = take_chars(&k, 128);
    proof {
        if k@.len() <= 128 {
            assert(k@.take(k@.len() as int) =~= k@);
        }
    }
    string_of(&c)
}

} // verus!
