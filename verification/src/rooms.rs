//! The rooms of the service and the operations on them. Each operation takes
//! the current time, where it needs one, as an argument, and appends the events
//! that it sends to an outbox; a wrapper without the time reads the clock.
use vstd::prelude::*;

use crate::room::{
    admin_of, admins, display_name_defined, display_name_is_defined, sanitize_network_fingerprint, sanitized_fingerprint, display_name_of, normalized_display_name, outbound_views, public_of, publics, Outbound, OutboundView, Participant,
    ParticipantAdmin, ParticipantAdminView, ParticipantPublic, ParticipantPublicView,
    ParticipantView, PeerRole, ServerEvent, ServerEventView,
};
use crate::sorted::{insert_sorted, lemma_sorted_insert_keeps, sorted_insert, strictly_sorted};
use crate::text::text_eq;

verus! {

// ---------------------------------------------------------------------------
// Views
// ---------------------------------------------------------------------------

/// One room: its password, its host, its viewers in the order they joined,
/// and what the host has banned.
pub struct RoomView {
    pub join_password: Option<Seq<char>>,
    pub host: Option<ParticipantView>,
    pub viewers: Seq<ParticipantView>,
    pub banned_client_tokens: Seq<Seq<char>>,
    pub banned_network_fingerprints: Seq<Seq<char>>,
    pub updated_at_epoch: u64,
}

/// The rooms, each under its name.
pub type RoomsView = Seq<(Seq<char>, RoomView)>;

struct RoomState {
    join_password: Option<String>,
    host: Option<Participant>,
    viewers: Vec<Participant>,
    banned_client_tokens: Vec<String>,
    banned_network_fingerprints: Vec<String>,
    updated_at_epoch: u64,
}

impl View for RoomState {
    type V = RoomView;

    closed spec fn view(&self) -> RoomView {
        RoomView {
            join_password: self.join_password.deep_view(),
            host: match self.host {
                Some(h) => Some(h@),
                None => None,
            },
            viewers: self.viewers@.map_values(|p: Participant| p@),
            banned_client_tokens: self.banned_client_tokens.deep_view(),
            banned_network_fingerprints: self.banned_network_fingerprints.deep_view(),
            updated_at_epoch: self.updated_at_epoch,
        }
    }
}

struct RoomEntry {
    name: String,
    state: RoomState,
}

/// The state of every room of the service.
pub struct AppState {
    rooms: Vec<RoomEntry>,
}

impl View for AppState {
    type V = RoomsView;

    closed spec fn view(&self) -> RoomsView {
        self.rooms@.map_values(|e: RoomEntry| (e.name@, e.state@))
    }
}

// ---------------------------------------------------------------------------
// Well-formedness
// ---------------------------------------------------------------------------

/// A participant's fingerprints are ascending and include the one of the
/// address it connected from.
pub open spec fn participant_wf(p: ParticipantView) -> bool {
    &&& strictly_sorted(p.network_fingerprints)
    &&& (remote_fingerprint(p.remote_addr) matches Some(f) ==> p.network_fingerprints.contains(f))
}

/// A room's host has the host role, its viewers the viewer role and distinct
/// peer ids, every participant is well formed (see [`participant_wf`]), and no
/// ban is recorded twice.
pub open spec fn room_wf(r: RoomView) -> bool {
    &&& r.banned_client_tokens.no_duplicates()
    &&& r.banned_network_fingerprints.no_duplicates()
    &&& (r.host matches Some(h) ==> h.role == PeerRole::Host && participant_wf(h))
    &&& forall|i: int|
        0 <= i < r.viewers.len() ==> (#[trigger] r.viewers[i]).role == PeerRole::Viewer
            && participant_wf(r.viewers[i])
    &&& forall|i: int, j: int|
        0 <= i < j < r.viewers.len() ==> (#[trigger] r.viewers[i]).peer_id
            != (#[trigger] r.viewers[j]).peer_id
}

/// Rooms have distinct names and are each well formed.
pub open spec fn rooms_wf(rs: RoomsView) -> bool {
    &&& forall|i: int, j: int| 0 <= i < j < rs.len() ==> (#[trigger] rs[i]).0 != (#[trigger] rs[j]).0
    &&& forall|i: int| 0 <= i < rs.len() ==> room_wf(#[trigger] rs[i].1)
}

// ---------------------------------------------------------------------------
// Looking things up
// ---------------------------------------------------------------------------

pub open spec fn has_room(rs: RoomsView, name: Seq<char>) -> bool {
    exists|i: int| 0 <= i < rs.len() && (#[trigger] rs[i]).0 == name
}

pub open spec fn room_index(rs: RoomsView, name: Seq<char>) -> int {
    choose|i: int| 0 <= i < rs.len() && (#[trigger] rs[i]).0 == name
}

/// The room named `name`, if there is one.
pub open spec fn room_of(rs: RoomsView, name: Seq<char>) -> Option<RoomView> {
    if has_room(rs, name) {
        Some(rs[room_index(rs, name)].1)
    } else {
        None
    }
}

/// `rs` with room `name` set to `r`: in place where it exists, else added last.
pub open spec fn put_room(rs: RoomsView, name: Seq<char>, r: RoomView) -> RoomsView {
    if has_room(rs, name) {
        rs.update(room_index(rs, name), (name, r))
    } else {
        rs.push((name, r))
    }
}

/// `rs` without room `name`.
pub open spec fn drop_room(rs: RoomsView, name: Seq<char>) -> RoomsView {
    if has_room(rs, name) {
        rs.remove(room_index(rs, name))
    } else {
        rs
    }
}

pub open spec fn has_viewer(vs: Seq<ParticipantView>, id: Seq<char>) -> bool {
    exists|i: int| 0 <= i < vs.len() && (#[trigger] vs[i]).peer_id == id
}

pub open spec fn viewer_at(vs: Seq<ParticipantView>, id: Seq<char>) -> int {
    choose|i: int| 0 <= i < vs.len() && (#[trigger] vs[i]).peer_id == id
}

/// `vs` with `p` in place of the viewer with its peer id, or `p` added last.
pub open spec fn put_viewer(vs: Seq<ParticipantView>, p: ParticipantView) -> Seq<ParticipantView> {
    if has_viewer(vs, p.peer_id) {
        vs.update(viewer_at(vs, p.peer_id), p)
    } else {
        vs.push(p)
    }
}

/// `vs` without the viewer with peer id `id`.
pub open spec fn drop_viewer(vs: Seq<ParticipantView>, id: Seq<char>) -> Seq<ParticipantView> {
    if has_viewer(vs, id) {
        vs.remove(viewer_at(vs, id))
    } else {
        vs
    }
}

pub open spec fn is_host(r: RoomView, id: Seq<char>) -> bool {
    r.host matches Some(h) && h.peer_id == id
}

/// The participant with peer id `id`: the host first, then the viewers.
pub open spec fn find_participant(r: RoomView, id: Seq<char>) -> Option<ParticipantView> {
    if is_host(r, id) {
        r.host
    } else if has_viewer(r.viewers, id) {
        Some(r.viewers[viewer_at(r.viewers, id)])
    } else {
        None
    }
}

/// `r` with `p` in place of the participant that `find_participant` gives for `id`.
pub open spec fn with_participant(r: RoomView, id: Seq<char>, p: ParticipantView) -> RoomView {
    if is_host(r, id) {
        RoomView { host: Some(p), ..r }
    } else {
        RoomView { viewers: r.viewers.update(viewer_at(r.viewers, id), p), ..r }
    }
}

/// `s` with `x` added where it is missing.
pub open spec fn add_unique(s: Seq<Seq<char>>, x: Seq<char>) -> Seq<Seq<char>> {
    if s.contains(x) {
        s
    } else {
        s.push(x)
    }
}

/// Adding items where they are missing keeps a list free of duplicates.
proof fn lemma_add_all_no_duplicates(s: Seq<Seq<char>>, xs: Seq<Seq<char>>)
    requires
        s.no_duplicates(),
    ensures
        add_all(s, xs).no_duplicates(),
    decreases xs.len(),
{
    if xs.len() > 0 {
        lemma_add_all_no_duplicates(s, xs.drop_last());
        lemma_add_unique_no_duplicates(add_all(s, xs.drop_last()), xs.last());
    }
}

proof fn lemma_add_unique_no_duplicates(s: Seq<Seq<char>>, x: Seq<char>)
    requires
        s.no_duplicates(),
    ensures
        add_unique(s, x).no_duplicates(),
{
    if !s.contains(x) {
        let t = s.push(x);
        assert forall|i: int, j: int| 0 <= i < t.len() && 0 <= j < t.len() && i != j implies t[i] != t[j] by {
            if i == s.len() {
                assert(t[j] == s[j]);
            } else if j == s.len() {
                assert(t[i] == s[i]);
            }
        }
    }
}

/// `s` with each item of `xs` added, in order, where it is missing.
pub open spec fn add_all(s: Seq<Seq<char>>, xs: Seq<Seq<char>>) -> Seq<Seq<char>>
    decreases xs.len(),
{
    if xs.len() == 0 {
        s
    } else {
        add_unique(add_all(s, xs.drop_last()), xs.last())
    }
}

/// Whether `conn` is the connection of a participant of room `r`.
pub open spec fn room_has_conn(r: RoomView, conn: u64) -> bool {
    ||| (r.host matches Some(h) && h.conn == conn)
    ||| exists|j: int| 0 <= j < r.viewers.len() && (#[trigger] r.viewers[j]).conn == conn
}

/// Whether `conn` is the connection of a participant of some room.
pub open spec fn seated(rs: RoomsView, conn: u64) -> bool {
    exists|i: int| 0 <= i < rs.len() && room_has_conn(#[trigger] rs[i].1, conn)
}

/// The number of participants in all rooms.
pub open spec fn occupancy(rs: RoomsView) -> nat
    decreases rs.len(),
{
    if rs.len() == 0 {
        0
    } else {
        occupancy(rs.drop_last()) + rs.last().1.viewers.len() + if rs.last().1.host is Some {
            1nat
        } else {
            0nat
        }
    }
}

// ---------------------------------------------------------------------------
// What peers are told
// ---------------------------------------------------------------------------

/// The public records of the viewers other than `id`, in order.
pub open spec fn viewer_publics_except(vs: Seq<ParticipantView>, id: Seq<char>) -> Seq<ParticipantPublicView>
    decreases vs.len(),
{
    if vs.len() == 0 {
        Seq::empty()
    } else if vs.last().peer_id != id {
        viewer_publics_except(vs.drop_last(), id).push(public_of(vs.last()))
    } else {
        viewer_publics_except(vs.drop_last(), id)
    }
}

/// The public records of every participant other than `id`: host first.
pub open spec fn public_peers_except(r: RoomView, id: Seq<char>) -> Seq<ParticipantPublicView> {
    let h = match r.host {
        Some(h) => if h.peer_id != id {
            seq![public_of(h)]
        } else {
            Seq::empty()
        },
        None => Seq::empty(),
    };
    h + viewer_publics_except(r.viewers, id)
}

/// The host's records of every participant: host first.
pub open spec fn admin_list(r: RoomView) -> Seq<ParticipantAdminView> {
    let h = match r.host {
        Some(h) => seq![admin_of(h)],
        None => Seq::empty(),
    };
    h + r.viewers.map_values(|p: ParticipantView| admin_of(p))
}

/// The connections of the viewers other than `id`, in order.
pub open spec fn viewer_conns_except(vs: Seq<ParticipantView>, id: Seq<char>) -> Seq<u64>
    decreases vs.len(),
{
    if vs.len() == 0 {
        Seq::empty()
    } else if vs.last().peer_id != id {
        viewer_conns_except(vs.drop_last(), id).push(vs.last().conn)
    } else {
        viewer_conns_except(vs.drop_last(), id)
    }
}

/// The connections of every participant other than `id`: host first.
pub open spec fn recipients_except(r: RoomView, id: Seq<char>) -> Seq<u64> {
    let h = match r.host {
        Some(h) => if h.peer_id != id {
            seq![h.conn]
        } else {
            Seq::empty()
        },
        None => Seq::empty(),
    };
    h + viewer_conns_except(r.viewers, id)
}

/// `ev` to every participant other than `id`.
pub open spec fn broadcast_except(r: RoomView, id: Seq<char>, ev: ServerEventView) -> Seq<OutboundView> {
    seq![OutboundView { to: recipients_except(r, id), event: ev }]
}

/// `ev` to every participant whose peer id is not empty; a peer whose id is
/// empty gets no event.
pub open spec fn broadcast_all(r: RoomView, ev: ServerEventView) -> Seq<OutboundView> {
    broadcast_except(r, Seq::empty(), ev)
}

/// The host's view of the room, to the host, where there is one.
pub open spec fn host_details(r: RoomView) -> Seq<OutboundView> {
    match r.host {
        Some(h) => seq![
            OutboundView {
                to: seq![h.conn],
                event: ServerEventView::HostPeerDetails { peers: admin_list(r) },
            },
        ],
        None => Seq::empty(),
    }
}

pub open spec fn room_updated(r: RoomView) -> ServerEventView {
    ServerEventView::RoomUpdated {
        viewer_count: r.viewers.len() as usize,
        password_protected: r.join_password is Some,
    }
}

// ---------------------------------------------------------------------------
// Room helpers
// ---------------------------------------------------------------------------

/// Where a participant sits in a room.
enum Slot {
    Host,
    Viewer(usize),
}

impl RoomState {
    fn viewer_index(&self, id: &str) -> (r: Option<usize>)
        requires
            room_wf(self@),
        ensures
            match r {
                Some(i) => i < self.viewers.len() && has_viewer(self@.viewers, id@) && i
                    == viewer_at(self@.viewers, id@),
                None => !has_viewer(self@.viewers, id@),
            },
    {
        let mut i: usize = 0;
        while i < self.viewers.len()
            invariant
                room_wf(self@),
                i <= self.viewers.len(),
                forall|k: int| 0 <= k < i ==> (#[trigger] self@.viewers[k]).peer_id != id@,
            decreases self.viewers.len() - i,
        {
            if text_eq(self.viewers[i].peer_id.as_str(), id) {
                proof {
                    assert(self@.viewers[i as int].peer_id == id@);
                    let j = viewer_at(self@.viewers, id@);
                    assert(self@.viewers[j].peer_id == id@);
                    if j != i {
                        if j < i {
                            assert(self@.viewers[j].peer_id != self@.viewers[i as int].peer_id);
                        } else {
                            assert(self@.viewers[i as int].peer_id != self@.viewers[j].peer_id);
                        }
                    }
                }
                return Some(i);
            }
            i = i + 1;
        }
        None
    }

    fn is_host_id(&self, id: &str) -> (r: bool)
        ensures
            r == is_host(self@, id@),
    {
        match &self.host {
            Some(h) => text_eq(h.peer_id.as_str(), id),
            None => false,
        }
    }

    fn locate(&self, id: &str) -> (r: Option<Slot>)
        requires
            room_wf(self@),
        ensures
            match r {
                Some(Slot::Host) => is_host(self@, id@),
                Some(Slot::Viewer(i)) => !is_host(self@, id@) && i < self.viewers.len()
                    && has_viewer(self@.viewers, id@) && i == viewer_at(self@.viewers, id@),
                None => find_participant(self@, id@) is None,
            },
    {
        if self.is_host_id(id) {
            Some(Slot::Host)
        } else {
            match self.viewer_index(id) {
                Some(i) => Some(Slot::Viewer(i)),
                None => None,
            }
        }
    }

    fn public_peers_except(&self, id: &str) -> (r: Vec<ParticipantPublic>)
        ensures
            publics(r@) == public_peers_except(self@, id@),
    {
        let mut peers: Vec<ParticipantPublic> = Vec::new();
        match &self.host {
            Some(h) => {
                if !text_eq(h.peer_id.as_str(), id) {
                    peers.push(h.public_view());
                }
            },
            None => {},
        }
        let ghost head = publics(peers@);
        let mut i: usize = 0;
        while i < self.viewers.len()
            invariant
                i <= self.viewers.len(),
                publics(peers@) == head + viewer_publics_except(self@.viewers.take(i as int), id@),
            decreases self.viewers.len() - i,
        {
            let v = &self.viewers[i];
            proof {
                assert(self@.viewers.take(i + 1).drop_last() =~= self@.viewers.take(i as int));
                assert(self@.viewers.take(i + 1).last() == v@);
            }
            let ghost before = publics(peers@);
            if !text_eq(v.peer_id.as_str(), id) {
                peers.push(v.public_view());
                assert(publics(peers@) =~= before.push(public_of(v@)));
            }
            i = i + 1;
        }
        assert(self@.viewers.take(self.viewers.len() as int) =~= self@.viewers);
        assert(publics(peers@) =~= public_peers_except(self@, id@));
        peers
    }

    fn admin_list(&self) -> (r: Vec<ParticipantAdmin>)
        ensures
            admins(r@) == admin_list(self@),
    {
        let mut peers: Vec<ParticipantAdmin> = Vec::new();
        match &self.host {
            Some(h) => {
                peers.push(h.admin_view());
            },
            None => {},
        }
        let ghost head = admins(peers@);
        let mut i: usize = 0;
        while i < self.viewers.len()
            invariant
                i <= self.viewers.len(),
                admins(peers@) == head + self@.viewers.take(i as int).map_values(
                    |p: ParticipantView| admin_of(p),
                ),
            decreases self.viewers.len() - i,
        {
            let ghost before = admins(peers@);
            peers.push(self.viewers[i].admin_view());
            assert(admins(peers@) =~= before.push(admin_of(self@.viewers[i as int])));
            assert(self@.viewers.take(i + 1).map_values(|p: ParticipantView| admin_of(p))
                =~= self@.viewers.take(i as int).map_values(|p: ParticipantView| admin_of(p)).push(
                admin_of(self@.viewers[i as int]),
            ));
            i = i + 1;
        }
        assert(self@.viewers.take(self.viewers.len() as int) =~= self@.viewers);
        assert(admins(peers@) =~= admin_list(self@));
        peers
    }

    fn recipients_except(&self, id: &str) -> (r: Vec<u64>)
        ensures
            r@ == recipients_except(self@, id@),
    {
        let mut to: Vec<u64> = Vec::new();
        match &self.host {
            Some(h) => {
                if !text_eq(h.peer_id.as_str(), id) {
                    to.push(h.conn);
                }
            },
            None => {},
        }
        let ghost head = to@;
        let mut i: usize = 0;
        while i < self.viewers.len()
            invariant
                i <= self.viewers.len(),
                to@ == head + viewer_conns_except(self@.viewers.take(i as int), id@),
            decreases self.viewers.len() - i,
        {
            let v = &self.viewers[i];
            proof {
                assert(self@.viewers.take(i + 1).drop_last() =~= self@.viewers.take(i as int));
                assert(self@.viewers.take(i + 1).last() == v@);
            }
            if !text_eq(v.peer_id.as_str(), id) {
                to.push(v.conn);
            }
            i = i + 1;
        }
        assert(self@.viewers.take(self.viewers.len() as int) =~= self@.viewers);
        assert(to@ =~= recipients_except(self@, id@));
        to
    }

    fn broadcast_except(&self, id: &str, event: ServerEvent, outbox: &mut Vec<Outbound>)
        ensures
            outbound_views(final(outbox)@) == outbound_views(old(outbox)@) + broadcast_except(
                self@,
                id@,
                event@,
            ),
    {
        let to = self.recipients_except(id);
        let ghost before = outbound_views(outbox@);
        outbox.push(Outbound { to, event });
        assert(outbound_views(outbox@) =~= before + broadcast_except(self@, id@, event@));
    }

    fn broadcast_all(&self, event: ServerEvent, outbox: &mut Vec<Outbound>)
        ensures
            outbound_views(final(outbox)@) == outbound_views(old(outbox)@) + broadcast_all(
                self@,
                event@,
            ),
    {
        proof {
            reveal_strlit("");
            assert(""@ =~= Seq::<char>::empty());
        }
        self.broadcast_except("", event, outbox);
    }

    fn send_host_details(&self, outbox: &mut Vec<Outbound>)
        ensures
            outbound_views(final(outbox)@) == outbound_views(old(outbox)@) + host_details(self@),
    {
        match &self.host {
            Some(h) => {
                let mut to: Vec<u64> = Vec::new();
                to.push(h.conn);
                let peers = self.admin_list();
                let ghost before = outbound_views(outbox@);
                outbox.push(Outbound { to, event: ServerEvent::HostPeerDetails { peers } });
                assert(outbound_views(outbox@) =~= before + host_details(self@));
            },
            None => {
                assert(outbound_views(outbox@) =~= outbound_views(outbox@) + host_details(self@));
            },
        }
    }

    fn has_conn(&self, conn: u64) -> (r: bool)
        ensures
            r == room_has_conn(self@, conn),
    {
        let host_conn = match &self.host {
            Some(h) => h.conn == conn,
            None => false,
        };
        if host_conn {
            return true;
        }
        let mut j: usize = 0;
        while j < self.viewers.len()
            invariant
                j <= self.viewers.len(),
                !(self@.host matches Some(h) && h.conn == conn),
                forall|k: int| 0 <= k < j ==> (#[trigger] self@.viewers[k]).conn != conn,
            decreases self.viewers.len() - j,
        {
            if self.viewers[j].conn == conn {
                assert(self@.viewers[j as int].conn == conn);
                return true;
            }
            j = j + 1;
        }
        false
    }

    fn room_updated(&self) -> (e: ServerEvent)
        ensures
            e@ == room_updated(self@),
    {
        ServerEvent::RoomUpdated {
            viewer_count: self.viewers.len(),
            password_protected: self.join_password.is_some(),
        }
    }
}


// ---------------------------------------------------------------------------
// Requests and answers
// ---------------------------------------------------------------------------

/// The state of a room as anyone may read it.
pub struct RoomSnapshot {
    pub room: String,
    pub host_present: bool,
    pub viewer_count: usize,
    pub password_protected: bool,
    pub updated_at_epoch: u64,
}

pub struct RoomSnapshotView {
    pub room: Seq<char>,
    pub host_present: bool,
    pub viewer_count: usize,
    pub password_protected: bool,
    pub updated_at_epoch: u64,
}

impl View for RoomSnapshot {
    type V = RoomSnapshotView;

    open spec fn view(&self) -> RoomSnapshotView {
        RoomSnapshotView {
            room: self.room@,
            host_present: self.host_present,
            viewer_count: self.viewer_count,
            password_protected: self.password_protected,
            updated_at_epoch: self.updated_at_epoch,
        }
    }
}

pub open spec fn snapshot_of(name: Seq<char>, r: RoomView) -> RoomSnapshotView {
    RoomSnapshotView {
        room: name,
        host_present: r.host is Some,
        viewer_count: r.viewers.len() as usize,
        password_protected: r.join_password is Some,
        updated_at_epoch: r.updated_at_epoch,
    }
}

// ---------------------------------------------------------------------------
// The service state
// ---------------------------------------------------------------------------

impl AppState {
    /// Well formed: see [`rooms_wf`].
    pub open spec fn wf(&self) -> bool {
        rooms_wf(self@)
    }

    /// A service without rooms.
    pub fn new() -> (s: AppState)
        ensures
            s@ == Seq::<(Seq<char>, RoomView)>::empty(),
            s.wf(),
    {
        let s = AppState { rooms: Vec::new() };
        assert(s@ =~= Seq::<(Seq<char>, RoomView)>::empty());
        s
    }

    fn find_room(&self, name: &str) -> (r: Option<usize>)
        requires
            self.wf(),
        ensures
            match r {
                Some(i) => i < self.rooms.len() && has_room(self@, name@) && i == room_index(
                    self@,
                    name@,
                ) && self@[i as int].1 == self.rooms[i as int].state@,
                None => !has_room(self@, name@),
            },
    {
        let mut i: usize = 0;
        while i < self.rooms.len()
            invariant
                self.wf(),
                i <= self.rooms.len(),
                forall|k: int| 0 <= k < i ==> (#[trigger] self@[k]).0 != name@,
            decreases self.rooms.len() - i,
        {
            if text_eq(self.rooms[i].name.as_str(), name) {
                proof {
                    assert(self@[i as int].0 == name@);
                    let j = room_index(self@, name@);
                    assert(self@[j].0 == name@);
                    if j != i {
                        if j > i {
                            assert(self@[i as int].0 != self@[j].0);
                        }
                    }
                }
                return Some(i);
            }
            i = i + 1;
        }
        None
    }

    /// The number of participants in all rooms (at most `usize::MAX`).
    pub fn online_count(&self) -> (n: usize)
        ensures
            n == if occupancy(self@) <= usize::MAX {
                occupancy(self@)
            } else {
                usize::MAX as nat
            },
    {
        let mut total: usize = 0;
        let mut i: usize = 0;
        assert(self@.take(0) =~= Seq::<(Seq<char>, RoomView)>::empty());
        while i < self.rooms.len()
            invariant
                i <= self.rooms.len(),
                total == if occupancy(self@.take(i as int)) <= usize::MAX {
                    occupancy(self@.take(i as int))
                } else {
                    usize::MAX as nat
                },
            decreases self.rooms.len() - i,
        {
            let st = &self.rooms[i].state;
            let here = st.viewers.len().saturating_add(if st.host.is_some() { 1 } else { 0 });
            proof {
                assert(self@.take(i + 1).drop_last() =~= self@.take(i as int));
                assert(self@.take(i + 1).last() == self@[i as int]);
                assert(self@[i as int].1 == st@);
            }
            total = total.saturating_add(here);
            i = i + 1;
        }
        assert(self@.take(self.rooms.len() as int) =~= self@);
        total
    }

    /// Whether connection `conn` belongs to a participant of some room: a
    /// connection whose participant left, was removed or was replaced has
    /// none, and its session is over.
    pub fn is_seated(&self, conn: u64) -> (r: bool)
        ensures
            r == seated(self@, conn),
    {
        let mut i: usize = 0;
        while i < self.rooms.len()
            invariant
                i <= self.rooms.len(),
                forall|k: int| 0 <= k < i ==> !room_has_conn(#[trigger] self@[k].1, conn),
            decreases self.rooms.len() - i,
        {
            if self.rooms[i].state.has_conn(conn) {
                assert(self@[i as int].1 == self.rooms[i as int].state@);
                return true;
            }
            i = i + 1;
        }
        false
    }

    /// The state of room `room`, if it exists.
    pub fn snapshot(&self, room: &str) -> (r: Option<RoomSnapshot>)
        requires
            self.wf(),
        ensures
            match room_of(self@, room@) {
                Some(rv) => r matches Some(s) && s@ == snapshot_of(room@, rv),
                None => r is None,
            },
    {
        match self.find_room(room) {
            None => None,
            Some(i) => {
                let st = &self.rooms[i].state;
                Some(
                    RoomSnapshot {
                        room: room.to_owned(),
                        host_present: st.host.is_some(),
                        viewer_count: st.viewers.len(),
                        password_protected: st.join_password.is_some(),
                        updated_at_epoch: st.updated_at_epoch,
                    },
                )
            },
        }
    }
}


pub open spec fn relay_outcome(rs: RoomsView, room: Seq<char>, target: Seq<char>, ev: ServerEventView) -> Result<OutboundView, Seq<char>> {
    match room_of(rs, room) {
        None => Err("room no longer exists"@),
        Some(r) => match find_participant(r, target) {
            None => Err("target peer not found"@),
            Some(p) => Ok(OutboundView { to: seq![p.conn], event: ev }),
        },
    }
}

pub open spec fn join_announcements(rs: RoomsView, room: Seq<char>, id: Seq<char>) -> Seq<OutboundView> {
    match room_of(rs, room) {
        None => Seq::empty(),
        Some(r) => match find_participant(r, id) {
            None => Seq::empty(),
            Some(p) => broadcast_except(r, id, ServerEventView::PeerJoined { peer: public_of(p) })
                + host_details(r) + broadcast_all(r, room_updated(r)),
        },
    }
}

/// The room after the host sets the password.
pub open spec fn password_outcome(rs: RoomsView, room: Seq<char>, requester: Seq<char>, password: Option<Seq<char>>, now: u64) -> (RoomsView, Result<(usize, bool), Seq<char>>, Seq<OutboundView>) {
    match room_of(rs, room) {
        None => (rs, Err("room no longer exists"@), Seq::empty()),
        Some(r) => if !is_host(r, requester) {
            (rs, Err("only the host can update the room password"@), Seq::empty())
        } else {
            let r2 = RoomView { join_password: nonempty_password(password), updated_at_epoch: now, ..r };
            (
                put_room(rs, room, r2),
                Ok((r2.viewers.len() as usize, r2.join_password is Some)),
                broadcast_all(r2, room_updated(r2)),
            )
        },
    }
}

/// `None` for an absent or empty password.
pub open spec fn nonempty_password(p: Option<Seq<char>>) -> Option<Seq<char>> {
    match p {
        Some(x) => if x.len() > 0 {
            Some(x)
        } else {
            None
        },
        None => None,
    }
}

/// The rooms after peer `id` with `role` leaves `room`, and what the others
/// are told; a room left with no one in it goes away.
pub open spec fn leave_outcome(rs: RoomsView, room: Seq<char>, role: PeerRole, id: Seq<char>, now: u64) -> (RoomsView, Seq<OutboundView>) {
    match room_of(rs, room) {
        None => (rs, Seq::empty()),
        Some(r) => {
            let present = match role {
                PeerRole::Host => is_host(r, id),
                PeerRole::Viewer => has_viewer(r.viewers, id),
            };
            if !present {
                (rs, Seq::empty())
            } else {
                let r1 = match role {
                    PeerRole::Host => RoomView { host: None, ..r },
                    PeerRole::Viewer => RoomView { viewers: drop_viewer(r.viewers, id), ..r },
                };
                let r2 = RoomView { updated_at_epoch: now, ..r1 };
                let out = broadcast_except(r2, id, ServerEventView::PeerLeft { peer_id: id, role })
                    + broadcast_all(r2, room_updated(r2)) + host_details(r2);
                if r2.host is None && r2.viewers.len() == 0 {
                    (drop_room(rs, room), out)
                } else {
                    (put_room(rs, room, r2), out)
                }
            }
        },
    }
}

proof fn lemma_put_room_view(rs: RoomsView, i: int, name: Seq<char>, r: RoomView)
    requires
        rooms_wf(rs),
        0 <= i < rs.len(),
        rs[i].0 == name,
    ensures
        has_room(rs, name),
        room_index(rs, name) == i,
        put_room(rs, name, r) == rs.update(i, (name, r)),
{
    let j = room_index(rs, name);
    if j != i {
        if j < i {
            assert(rs[j].0 != rs[i].0);
        } else {
            assert(rs[i].0 != rs[j].0);
        }
    }
}

impl AppState {
    /// Where `target` sits in `room`, with `event` addressed to its connection.
    pub fn relay(&self, room: &str, target: &str, event: ServerEvent) -> (r: Result<Outbound, String>)
        requires
            self.wf(),
        ensures
            match r {
                Ok(o) => relay_outcome(self@, room@, target@, event@) == Ok::<OutboundView, Seq<char>>(o@),
                Err(m) => relay_outcome(self@, room@, target@, event@) == Err::<OutboundView, Seq<char>>(m@),
            },
    {
        let i = match self.find_room(room) {
            None => return Err(String::from_str("room no longer exists")),
            Some(i) => i,
        };
        let st = &self.rooms[i].state;
        proof {
            assert(room_wf(st@));
        }
        let conn = match st.locate(target) {
            None => return Err(String::from_str("target peer not found")),
            Some(Slot::Host) => {
                match &st.host {
                    Some(h) => h.conn,
                    None => 0,
                }
            },
            Some(Slot::Viewer(k)) => st.viewers[k].conn,
        };
        let mut to: Vec<u64> = Vec::new();
        to.push(conn);
        Ok(Outbound { to, event })
    }

    /// Tells the others that `peer_id` joined `room`, sends the host its view
    /// of the room and tells everyone the room's counts.
    pub fn broadcast_join(&self, room: &str, peer_id: &str, outbox: &mut Vec<Outbound>)
        requires
            self.wf(),
        ensures
            outbound_views(final(outbox)@) == outbound_views(old(outbox)@) + join_announcements(
                self@,
                room@,
                peer_id@,
            ),
    {
        let i = match self.find_room(room) {
            None => {
                assert(outbound_views(outbox@) =~= outbound_views(outbox@) + Seq::<OutboundView>::empty());
                return ;
            },
            Some(i) => i,
        };
        let st = &self.rooms[i].state;
        proof {
            assert(room_wf(st@));
        }
        let public = match st.locate(peer_id) {
            None => {
                assert(outbound_views(outbox@) =~= outbound_views(outbox@) + Seq::<OutboundView>::empty());
                return ;
            },
            Some(Slot::Host) => {
                match &st.host {
                    Some(h) => h.public_view(),
                    None => {
                        assert(false);
                        return ;
                    },
                }
            },
            Some(Slot::Viewer(k)) => st.viewers[k].public_view(),
        };
        let ghost o0 = outbound_views(outbox@);
        st.broadcast_except(peer_id, ServerEvent::PeerJoined { peer: public }, outbox);
        st.send_host_details(outbox);
        let ev = st.room_updated();
        st.broadcast_all(ev, outbox);
        assert(outbound_views(outbox@) =~= o0 + join_announcements(self@, room@, peer_id@));
    }

    /// Sets the password of `room` on behalf of its host; later viewers must
    /// give it, those in the room stay.
    pub fn set_join_password_at(
        &mut self,
        room: &str,
        requester_peer_id: &str,
        password: Option<String>,
        now: u64,
        outbox: &mut Vec<Outbound>,
    ) -> (r: Result<(usize, bool), String>)
        requires
            old(self).wf(),
        ensures
            final(self).wf(),
            ({
                let (rs, res, out) = password_outcome(
                    old(self)@,
                    room@,
                    requester_peer_id@,
                    password.deep_view(),
                    now,
                );
                &&& final(self)@ == rs
                &&& outbound_views(final(outbox)@) == outbound_views(old(outbox)@) + out
                &&& match r {
                    Ok(v) => res == Ok::<(usize, bool), Seq<char>>(v),
                    Err(m) => res == Err::<(usize, bool), Seq<char>>(m@),
                }
            }),
    {
        let i = match self.find_room(room) {
            None => {
                assert(outbound_views(outbox@) =~= outbound_views(outbox@) + Seq::<OutboundView>::empty());
                return Err(String::from_str("room no longer exists"));
            },
            Some(i) => i,
        };
        proof {
            assert(room_wf(self@[i as int].1));
        }
        if !self.rooms[i].state.is_host_id(requester_peer_id) {
            assert(outbound_views(outbox@) =~= outbound_views(outbox@) + Seq::<OutboundView>::empty());
            return Err(String::from_str("only the host can update the room password"));
        }
        let ghost old_rs = self@;
        let new_password = match password {
            Some(p) => if !p.as_str().is_empty() { Some(p) } else { None },
            None => None,
        };
        let entry = &mut self.rooms[i];
        entry.state.join_password = new_password;
        entry.state.updated_at_epoch = now;
        proof {
            lemma_put_room_view(old_rs, i as int, room@, self.rooms[i as int].state@);
            assert(self@ =~= old_rs.update(i as int, (room@, self.rooms[i as int].state@)));
        }
        let st = &self.rooms[i].state;
        let viewer_count = st.viewers.len();
        let password_protected = st.join_password.is_some();
        let ev = st.room_updated();
        st.broadcast_all(ev, outbox);
        Ok((viewer_count, password_protected))
    }
}

proof fn lemma_drop_room_view(rs: RoomsView, i: int, name: Seq<char>)
    requires
        rooms_wf(rs),
        0 <= i < rs.len(),
        rs[i].0 == name,
    ensures
        drop_room(rs, name) == rs.remove(i),
        rooms_wf(rs.remove(i)),
{
    lemma_put_room_view(rs, i, name, rs[i].1);
    let t = rs.remove(i);
    assert forall|a: int, b: int| 0 <= a < b < t.len() implies (#[trigger] t[a]).0 != (#[trigger] t[b]).0 by {
        let a2 = if a < i { a } else { a + 1 };
        let b2 = if b < i { b } else { b + 1 };
        assert(t[a] == rs[a2] && t[b] == rs[b2]);
    }
    assert forall|a: int| 0 <= a < t.len() implies room_wf(#[trigger] t[a].1) by {
        let a2 = if a < i { a } else { a + 1 };
        assert(t[a] == rs[a2]);
    }
}

proof fn lemma_room_wf_remove_viewer(r: RoomView, k: int)
    requires
        room_wf(r),
        0 <= k < r.viewers.len(),
    ensures
        room_wf(RoomView { viewers: r.viewers.remove(k), ..r }),
{
    let t = r.viewers.remove(k);
    assert forall|a: int, b: int| 0 <= a < b < t.len() implies (#[trigger] t[a]).peer_id != (#[trigger] t[b]).peer_id by {
        let a2 = if a < k { a } else { a + 1 };
        let b2 = if b < k { b } else { b + 1 };
        assert(t[a] == r.viewers[a2] && t[b] == r.viewers[b2]);
    }
    assert forall|a: int| 0 <= a < t.len() implies (#[trigger] t[a]).role == PeerRole::Viewer && participant_wf(t[a]) by {
        let a2 = if a < k { a } else { a + 1 };
        assert(t[a] == r.viewers[a2]);
    }
}

impl AppState {
    /// Removes peer `peer_id` with `role` from `room`, tells the others, and
    /// drops the room once no one is left in it.
    pub fn leave_at(&mut self, room: &str, role: PeerRole, peer_id: &str, now: u64, outbox: &mut Vec<Outbound>)
        requires
            old(self).wf(),
        ensures
            final(self).wf(),
            ({
                let (rs, out) = leave_outcome(old(self)@, room@, role, peer_id@, now);
                &&& final(self)@ == rs
                &&& outbound_views(final(outbox)@) == outbound_views(old(outbox)@) + out
            }),
    {
        let i = match self.find_room(room) {
            None => {
                assert(outbound_views(outbox@) =~= outbound_views(outbox@) + Seq::<OutboundView>::empty());
                return ;
            },
            Some(i) => i,
        };
        let ghost old_rs = self@;
        let ghost r = old_rs[i as int].1;
        proof {
            assert(room_wf(r));
        }
        match role {
            PeerRole::Host => {
                if !self.rooms[i].state.is_host_id(peer_id) {
                    assert(outbound_views(outbox@) =~= outbound_views(outbox@) + Seq::<OutboundView>::empty());
                    return ;
                }
                let entry = &mut self.rooms[i];
                entry.state.host = None;
            },
            PeerRole::Viewer => {
                match self.rooms[i].state.viewer_index(peer_id) {
                    None => {
                        assert(outbound_views(outbox@) =~= outbound_views(outbox@) + Seq::<OutboundView>::empty());
                        return ;
                    },
                    Some(k) => {
                        let entry = &mut self.rooms[i];
                        let ghost vs_before = entry.state.viewers@;
                        let _gone = entry.state.viewers.remove(k);
                        proof {
                            assert(entry.state.viewers@.map_values(|p: Participant| p@) =~= vs_before.map_values(|p: Participant| p@).remove(k as int));
                            lemma_room_wf_remove_viewer(r, k as int);
                        }
                    },
                }
            },
        }
        let entry = &mut self.rooms[i];
        entry.state.updated_at_epoch = now;
        let ghost r2 = self.rooms[i as int].state@;
        proof {
            lemma_put_room_view(old_rs, i as int, room@, r2);
            assert(self@ =~= old_rs.update(i as int, (room@, r2)));
            assert(r2 == RoomView { updated_at_epoch: now, ..match role {
                PeerRole::Host => RoomView { host: None, ..r },
                PeerRole::Viewer => RoomView { viewers: drop_viewer(r.viewers, peer_id@), ..r },
            } });
        }
        let st = &self.rooms[i].state;
        let ghost o0 = outbound_views(outbox@);
        st.broadcast_except(peer_id, ServerEvent::PeerLeft { peer_id: peer_id.to_owned(), role }, outbox);
        let ev = st.room_updated();
        st.broadcast_all(ev, outbox);
        st.send_host_details(outbox);
        assert(outbound_views(outbox@) =~= o0 + leave_outcome(old_rs, room@, role, peer_id@, now).1);
        if st.host.is_none() && st.viewers.len() == 0 {
            let ghost mid = self@;
            let _gone = self.rooms.remove(i);
            proof {
                lemma_drop_room_view(old_rs, i as int, room@);
                assert(self@ =~= mid.remove(i as int));
                assert(mid.remove(i as int) =~= old_rs.remove(i as int));
            }
        }
    }
}

/// A request of the host to remove a viewer.
pub struct KickRequest {
    pub room: String,
    pub requester_peer_id: String,
    pub target_peer_id: String,
    pub ban_client_token: bool,
    pub ban_networks: bool,
}

pub struct KickRequestView {
    pub room: Seq<char>,
    pub requester_peer_id: Seq<char>,
    pub target_peer_id: Seq<char>,
    pub ban_client_token: bool,
    pub ban_networks: bool,
}

impl View for KickRequest {
    type V = KickRequestView;

    open spec fn view(&self) -> KickRequestView {
        KickRequestView {
            room: self.room@,
            requester_peer_id: self.requester_peer_id@,
            target_peer_id: self.target_peer_id@,
            ban_client_token: self.ban_client_token,
            ban_networks: self.ban_networks,
        }
    }
}

/// The room after the host removes a viewer, banning its token or its
/// networks where asked, and what everyone is told.
pub open spec fn kick_outcome(rs: RoomsView, req: KickRequestView, now: u64) -> (RoomsView, Result<(), Seq<char>>, Seq<OutboundView>) {
    match room_of(rs, req.room) {
        None => (rs, Err("room no longer exists"@), Seq::empty()),
        Some(r) => if !is_host(r, req.requester_peer_id) {
            (rs, Err("only the host can kick participants"@), Seq::empty())
        } else if is_host(r, req.target_peer_id) {
            (rs, Err("host cannot kick itself"@), Seq::empty())
        } else if !has_viewer(r.viewers, req.target_peer_id) {
            (rs, Err("target viewer not found"@), Seq::empty())
        } else {
            let t = r.viewers[viewer_at(r.viewers, req.target_peer_id)];
            let r2 = RoomView {
                viewers: drop_viewer(r.viewers, req.target_peer_id),
                banned_client_tokens: if req.ban_client_token {
                    add_unique(r.banned_client_tokens, t.client_token)
                } else {
                    r.banned_client_tokens
                },
                banned_network_fingerprints: if req.ban_networks {
                    add_all(r.banned_network_fingerprints, t.network_fingerprints)
                } else {
                    r.banned_network_fingerprints
                },
                updated_at_epoch: now,
                ..r
            };
            (
                put_room(rs, req.room, r2),
                Ok(()),
                seq![
                    OutboundView {
                        to: seq![t.conn],
                        event: ServerEventView::Kicked { reason: "you were removed by the room host"@ },
                    },
                ] + broadcast_all(r2, ServerEventView::PeerLeft { peer_id: t.peer_id, role: t.role })
                    + broadcast_all(r2, room_updated(r2)) + host_details(r2),
            )
        },
    }
}

/// Whether `v` holds the text `x`.
fn contains_text(v: &Vec<String>, x: &str) -> (r: bool)
    ensures
        r == v.deep_view().contains(x@),
{
    let mut i: usize = 0;
    while i < v.len()
        invariant
            i <= v.len(),
            forall|k: int| 0 <= k < i ==> (#[trigger] v.deep_view()[k]) != x@,
        decreases v.len() - i,
    {
        if text_eq(v[i].as_str(), x) {
            assert(v.deep_view()[i as int] == x@);
            return true;
        }
        i = i + 1;
    }
    false
}

/// Adds `x` to `v` where it is missing.
fn add_unique_text(v: &mut Vec<String>, x: String)
    ensures
        final(v).deep_view() == add_unique(old(v).deep_view(), x@),
{
    if !contains_text(v, x.as_str()) {
        let ghost before = v.deep_view();
        v.push(x);
        assert(v.deep_view() =~= before.push(x@));
    }
}

/// Adds each item of `xs`, in order, to `v` where it is missing.
fn add_all_texts(v: &mut Vec<String>, xs: &Vec<String>)
    ensures
        final(v).deep_view() == add_all(old(v).deep_view(), xs.deep_view()),
{
    let ghost start = v.deep_view();
    let mut i: usize = 0;
    assert(xs.deep_view().take(0) =~= Seq::<Seq<char>>::empty());
    while i < xs.len()
        invariant
            i <= xs.len(),
            v.deep_view() == add_all(start, xs.deep_view().take(i as int)),
        decreases xs.len() - i,
    {
        proof {
            assert(xs.deep_view().take(i + 1).drop_last() =~= xs.deep_view().take(i as int));
            assert(xs.deep_view().take(i + 1).last() == xs[i as int]@);
        }
        add_unique_text(v, xs[i].clone());
        i = i + 1;
    }
    assert(xs.deep_view().take(xs.len() as int) =~= xs.deep_view());
}

impl AppState {
    /// Removes a viewer on behalf of the host, banning its client token or its
    /// network fingerprints where asked.
    pub fn kick_peer_at(&mut self, request: KickRequest, now: u64, outbox: &mut Vec<Outbound>) -> (r: Result<(), String>)
        requires
            old(self).wf(),
        ensures
            final(self).wf(),
            ({
                let (rs, res, out) = kick_outcome(old(self)@, request@, now);
                &&& final(self)@ == rs
                &&& outbound_views(final(outbox)@) == outbound_views(old(outbox)@) + out
                &&& match r {
                    Ok(v) => res == Ok::<(), Seq<char>>(v),
                    Err(m) => res == Err::<(), Seq<char>>(m@),
                }
            }),
    {
        let i = match self.find_room(request.room.as_str()) {
            None => {
                assert(outbound_views(outbox@) =~= outbound_views(outbox@) + Seq::<OutboundView>::empty());
                return Err(String::from_str("room no longer exists"));
            },
            Some(i) => i,
        };
        let ghost old_rs = self@;
        let ghost r = old_rs[i as int].1;
        proof {
            assert(room_wf(r));
        }
        if !self.rooms[i].state.is_host_id(request.requester_peer_id.as_str()) {
            assert(outbound_views(outbox@) =~= outbound_views(outbox@) + Seq::<OutboundView>::empty());
            return Err(String::from_str("only the host can kick participants"));
        }
        if self.rooms[i].state.is_host_id(request.target_peer_id.as_str()) {
            assert(outbound_views(outbox@) =~= outbound_views(outbox@) + Seq::<OutboundView>::empty());
            return Err(String::from_str("host cannot kick itself"));
        }
        let k = match self.rooms[i].state.viewer_index(request.target_peer_id.as_str()) {
            None => {
                assert(outbound_views(outbox@) =~= outbound_views(outbox@) + Seq::<OutboundView>::empty());
                return Err(String::from_str("target viewer not found"));
            },
            Some(k) => k,
        };
        let entry = &mut self.rooms[i];
        let ghost vs_before = entry.state.viewers@;
        let target = entry.state.viewers.remove(k);
        proof {
            assert(entry.state.viewers@.map_values(|p: Participant| p@) =~= vs_before.map_values(|p: Participant| p@).remove(k as int));
            lemma_room_wf_remove_viewer(r, k as int);
        }
        if request.ban_client_token {
            add_unique_text(&mut entry.state.banned_client_tokens, target.client_token.clone());
        }
        if request.ban_networks {
            add_all_texts(&mut entry.state.banned_network_fingerprints, &target.network_fingerprints);
        }
        entry.state.updated_at_epoch = now;
        let ghost r2 = self.rooms[i as int].state@;
        proof {
            lemma_put_room_view(old_rs, i as int, request.room@, r2);
            assert(self@ =~= old_rs.update(i as int, (request.room@, r2)));
            assert(target@ == r.viewers[viewer_at(r.viewers, request.target_peer_id@)]);
            lemma_add_unique_no_duplicates(r.banned_client_tokens, target@.client_token);
            lemma_add_all_no_duplicates(r.banned_network_fingerprints, target@.network_fingerprints);
            assert(room_wf(r2));
        }
        let st = &self.rooms[i].state;
        let ghost o0 = outbound_views(outbox@);
        let mut to: Vec<u64> = Vec::new();
        to.push(target.conn);
        outbox.push(Outbound { to, event: ServerEvent::Kicked { reason: String::from_str("you were removed by the room host") } });
        let ghost o1 = outbound_views(outbox@);
        st.broadcast_all(ServerEvent::PeerLeft { peer_id: target.peer_id.clone(), role: target.role }, outbox);
        let ev = st.room_updated();
        st.broadcast_all(ev, outbox);
        st.send_host_details(outbox);
        assert(outbound_views(outbox@) =~= o0 + kick_outcome(old_rs, request@, now).2);
        Ok(())
    }
}

/// Whether renaming peer `id` in `room` to `name` has no display name to give:
/// see [`display_name_defined`].
pub open spec fn rename_undefined(rs: RoomsView, room: Seq<char>, id: Seq<char>, name: Seq<char>) -> bool {
    match room_of(rs, room) {
        None => false,
        Some(r) => find_participant(r, id) is Some && !display_name_defined(name, id),
    }
}

/// The room after peer `id` takes the display name `name`, and what the
/// others are told.
pub open spec fn rename_outcome(rs: RoomsView, room: Seq<char>, id: Seq<char>, name: Seq<char>, now: u64) -> (RoomsView, Result<ParticipantPublicView, Seq<char>>, Seq<OutboundView>) {
    match room_of(rs, room) {
        None => (rs, Err("room no longer exists"@), Seq::empty()),
        Some(r) => match find_participant(r, id) {
            None => (rs, Err("participant not found"@), Seq::empty()),
            Some(p) => {
                let p2 = ParticipantView { display_name: display_name_of(name, id), ..p };
                let r2 = RoomView { updated_at_epoch: now, ..with_participant(r, id, p2) };
                (
                    put_room(rs, room, r2),
                    Ok(public_of(p2)),
                    broadcast_except(r2, id, ServerEventView::PeerUpdated { peer: public_of(p2) })
                        + host_details(r2),
                )
            },
        },
    }
}

impl AppState {
    /// Sets the display name of peer `peer_id` in `room` and tells the others.
    pub fn update_display_name_at(
        &mut self,
        room: &str,
        peer_id: &str,
        display_name: String,
        now: u64,
        outbox: &mut Vec<Outbound>,
    ) -> (r: Result<ParticipantPublic, String>)
        requires
            old(self).wf(),
            !rename_undefined(old(self)@, room@, peer_id@, display_name@),
        ensures
            final(self).wf(),
            ({
                let (rs, res, out) = rename_outcome(old(self)@, room@, peer_id@, display_name@, now);
                &&& final(self)@ == rs
                &&& outbound_views(final(outbox)@) == outbound_views(old(outbox)@) + out
                &&& match r {
                    Ok(v) => res == Ok::<ParticipantPublicView, Seq<char>>(v@),
                    Err(m) => res == Err::<ParticipantPublicView, Seq<char>>(m@),
                }
            }),
    {
        let i = match self.find_room(room) {
            None => {
                assert(outbound_views(outbox@) =~= outbound_views(outbox@) + Seq::<OutboundView>::empty());
                return Err(String::from_str("room no longer exists"));
            },
            Some(i) => i,
        };
        let ghost old_rs = self@;
        let ghost r = old_rs[i as int].1;
        proof {
            assert(room_wf(r));
        }
        let slot = match self.rooms[i].state.locate(peer_id) {
            None => {
                assert(outbound_views(outbox@) =~= outbound_views(outbox@) + Seq::<OutboundView>::empty());
                return Err(String::from_str("participant not found"));
            },
            Some(slot) => slot,
        };
        let name = normalized_display_name(display_name.as_str(), peer_id);
        let entry = &mut self.rooms[i];
        let public = match slot {
            Slot::Host => {
                match &mut entry.state.host {
                    Some(h) => {
                        h.display_name = name;
                        h.public_view()
                    },
                    None => {
                        assert(false);
                        return Err(String::from_str("participant not found"));
                    },
                }
            },
            Slot::Viewer(k) => {
                let ghost vs_before = entry.state.viewers@;
                let mut v = entry.state.viewers.remove(k);
                v.display_name = name;
                let public = v.public_view();
                entry.state.viewers.insert(k, v);
                proof {
                    assert(entry.state.viewers@ =~= vs_before.update(k as int, v));
                    assert(entry.state.viewers@.map_values(|p: Participant| p@) =~= vs_before.map_values(|p: Participant| p@).update(k as int, v@));
                }
                public
            },
        };
        entry.state.updated_at_epoch = now;
        let ghost r2 = self.rooms[i as int].state@;
        proof {
            lemma_put_room_view(old_rs, i as int, room@, r2);
            assert(self@ =~= old_rs.update(i as int, (room@, r2)));
            let p = find_participant(r, peer_id@).unwrap();
            let p2 = ParticipantView { display_name: display_name_of(display_name@, peer_id@), ..p };
            assert(r2 == RoomView { updated_at_epoch: now, ..with_participant(r, peer_id@, p2) });
            assert(public@ == public_of(p2));
            assert(room_wf(r2));
        }
        let st = &self.rooms[i].state;
        let ghost o0 = outbound_views(outbox@);
        st.broadcast_except(peer_id, ServerEvent::PeerUpdated { peer: public.copy() }, outbox);
        st.send_host_details(outbox);
        assert(outbound_views(outbox@) =~= o0 + rename_outcome(old_rs, room@, peer_id@, display_name@, now).2);
        Ok(public)
    }
}

/// `fps` with each reported fingerprint, cleaned, added where it is missing
/// and not empty.
pub open spec fn add_fingerprints(fps: Seq<Seq<char>>, reported: Seq<Seq<char>>) -> Seq<Seq<char>>
    decreases reported.len(),
{
    if reported.len() == 0 {
        fps
    } else {
        let prev = add_fingerprints(fps, reported.drop_last());
        let v = sanitized_fingerprint(reported.last());
        if v.len() > 0 {
            sorted_insert(prev, v)
        } else {
            prev
        }
    }
}

/// Adding reported fingerprints keeps an ascending list ascending and keeps
/// what it held.
proof fn lemma_add_fingerprints_keeps(fps: Seq<Seq<char>>, reported: Seq<Seq<char>>, y: Seq<char>)
    requires
        strictly_sorted(fps),
    ensures
        strictly_sorted(add_fingerprints(fps, reported)),
        fps.contains(y) ==> add_fingerprints(fps, reported).contains(y),
    decreases reported.len(),
{
    if reported.len() > 0 {
        lemma_add_fingerprints_keeps(fps, reported.drop_last(), y);
        let prev = add_fingerprints(fps, reported.drop_last());
        let v = sanitized_fingerprint(reported.last());
        if v.len() > 0 {
            lemma_sorted_insert_keeps(prev, v);
        }
    }
}

/// Some fingerprint of `fps` is banned.
pub open spec fn has_banned(fps: Seq<Seq<char>>, banned: Seq<Seq<char>>) -> bool {
    exists|i: int| 0 <= i < fps.len() && banned.contains(#[trigger] fps[i])
}

/// The rooms after peer `id` reports network fingerprints, and what is sent:
/// the host's view of the room, and where a fingerprint of the peer is banned,
/// a notice to the peer and its leaving.
pub open spec fn report_outcome(rs: RoomsView, room: Seq<char>, id: Seq<char>, reported: Seq<Seq<char>>, now: u64) -> (RoomsView, Result<(), Seq<char>>, Seq<OutboundView>) {
    match room_of(rs, room) {
        None => (rs, Err("room no longer exists"@), Seq::empty()),
        Some(r) => match find_participant(r, id) {
            None => (rs, Err("participant not found"@), Seq::empty()),
            Some(p) => {
                let p2 = ParticipantView {
                    network_fingerprints: add_fingerprints(p.network_fingerprints, reported),
                    ..p
                };
                let r2 = RoomView { updated_at_epoch: now, ..with_participant(r, id, p2) };
                let rs2 = put_room(rs, room, r2);
                if has_banned(p2.network_fingerprints, r.banned_network_fingerprints) {
                    let (rs3, out3) = leave_outcome(rs2, room, p2.role, id, now);
                    (
                        rs3,
                        Ok(()),
                        host_details(r2) + seq![
                            OutboundView {
                                to: seq![p2.conn],
                                event: ServerEventView::Kicked {
                                    reason: "your network fingerprint is banned in this room"@,
                                },
                            },
                        ] + out3,
                    )
                } else {
                    (rs2, Ok(()), host_details(r2))
                }
            },
        },
    }
}

/// Adds the cleaned, non-empty fingerprints of `reported` to the ascending `fps`.
fn add_reported(fps: &mut Vec<String>, reported: &Vec<String>)
    requires
        strictly_sorted(old(fps).deep_view()),
    ensures
        strictly_sorted(final(fps).deep_view()),
        final(fps).deep_view() == add_fingerprints(old(fps).deep_view(), reported.deep_view()),
{
    let ghost start = fps.deep_view();
    let mut i: usize = 0;
    assert(reported.deep_view().take(0) =~= Seq::<Seq<char>>::empty());
    while i < reported.len()
        invariant
            i <= reported.len(),
            strictly_sorted(fps.deep_view()),
            fps.deep_view() == add_fingerprints(start, reported.deep_view().take(i as int)),
        decreases reported.len() - i,
    {
        proof {
            assert(reported.deep_view().take(i + 1).drop_last() =~= reported.deep_view().take(i as int));
            assert(reported.deep_view().take(i + 1).last() == reported[i as int]@);
        }
        let value = sanitize_network_fingerprint(reported[i].as_str());
        if !value.as_str().is_empty() {
            insert_sorted(fps, value);
        }
        i = i + 1;
    }
    assert(reported.deep_view().take(reported.len() as int) =~= reported.deep_view());
}

/// Whether some fingerprint of `fps` is in `banned`.
fn any_banned(fps: &Vec<String>, banned: &Vec<String>) -> (r: bool)
    ensures
        r == has_banned(fps.deep_view(), banned.deep_view()),
{
    let mut i: usize = 0;
    while i < fps.len()
        invariant
            i <= fps.len(),
            forall|k: int| 0 <= k < i ==> !banned.deep_view().contains(#[trigger] fps.deep_view()[k]),
        decreases fps.len() - i,
    {
        if contains_text(banned, fps[i].as_str()) {
            assert(banned.deep_view().contains(fps.deep_view()[i as int]));
            return true;
        }
        i = i + 1;
    }
    false
}

impl AppState {
    /// Records network fingerprints that peer `peer_id` reports; a peer whose
    /// fingerprints include a banned one is told so and leaves the room.
    pub fn update_network_fingerprints_at(
        &mut self,
        room: &str,
        peer_id: &str,
        fingerprints: Vec<String>,
        now: u64,
        outbox: &mut Vec<Outbound>,
    ) -> (r: Result<(), String>)
        requires
            old(self).wf(),
        ensures
            final(self).wf(),
            ({
                let (rs, res, out) = report_outcome(old(self)@, room@, peer_id@, fingerprints.deep_view(), now);
                &&& final(self)@ == rs
                &&& outbound_views(final(outbox)@) == outbound_views(old(outbox)@) + out
                &&& match r {
                    Ok(v) => res == Ok::<(), Seq<char>>(v),
                    Err(m) => res == Err::<(), Seq<char>>(m@),
                }
            }),
    {
        let i = match self.find_room(room) {
            None => {
                assert(outbound_views(outbox@) =~= outbound_views(outbox@) + Seq::<OutboundView>::empty());
                return Err(String::from_str("room no longer exists"));
            },
            Some(i) => i,
        };
        let ghost old_rs = self@;
        let ghost r = old_rs[i as int].1;
        proof {
            assert(room_wf(r));
        }
        let slot = match self.rooms[i].state.locate(peer_id) {
            None => {
                assert(outbound_views(outbox@) =~= outbound_views(outbox@) + Seq::<OutboundView>::empty());
                return Err(String::from_str("participant not found"));
            },
            Some(slot) => slot,
        };
        let entry = &mut self.rooms[i];
        let (banned_match, role, conn) = match slot {
            Slot::Host => {
                match &mut entry.state.host {
                    Some(h) => {
                        add_reported(&mut h.network_fingerprints, &fingerprints);
                        let b = any_banned(&h.network_fingerprints, &entry.state.banned_network_fingerprints);
                        (b, h.role, h.conn)
                    },
                    None => {
                        assert(false);
                        return Err(String::from_str("participant not found"));
                    },
                }
            },
            Slot::Viewer(k) => {
                let ghost vs_before = entry.state.viewers@;
                let mut v = entry.state.viewers.remove(k);
                add_reported(&mut v.network_fingerprints, &fingerprints);
                let b = any_banned(&v.network_fingerprints, &entry.state.banned_network_fingerprints);
                let out = (b, v.role, v.conn);
                entry.state.viewers.insert(k, v);
                proof {
                    assert(entry.state.viewers@ =~= vs_before.update(k as int, v));
                    assert(entry.state.viewers@.map_values(|p: Participant| p@) =~= vs_before.map_values(|p: Participant| p@).update(k as int, v@));
                }
                out
            },
        };
        entry.state.updated_at_epoch = now;
        let ghost r2 = self.rooms[i as int].state@;
        proof {
            lemma_put_room_view(old_rs, i as int, room@, r2);
            assert(self@ =~= old_rs.update(i as int, (room@, r2)));
            let p = find_participant(r, peer_id@).unwrap();
            let p2 = ParticipantView {
                network_fingerprints: add_fingerprints(p.network_fingerprints, fingerprints.deep_view()),
                ..p
            };
            match remote_fingerprint(p.remote_addr) {
                Some(f) => lemma_add_fingerprints_keeps(p.network_fingerprints, fingerprints.deep_view(), f),
                None => {},
            }
            assert(r2 == RoomView { updated_at_epoch: now, ..with_participant(r, peer_id@, p2) });
            assert(banned_match == has_banned(p2.network_fingerprints, r.banned_network_fingerprints));
            assert(role == p2.role && conn == p2.conn);
            assert(room_wf(r2));
        }
        let ghost o0 = outbound_views(outbox@);
        self.rooms[i].state.send_host_details(outbox);
        if banned_match {
            let mut to: Vec<u64> = Vec::new();
            to.push(conn);
            outbox.push(
                Outbound {
                    to,
                    event: ServerEvent::Kicked {
                        reason: String::from_str("your network fingerprint is banned in this room"),
                    },
                },
            );
            let ghost o1 = outbound_views(outbox@);
            assert(o1 =~= o0 + host_details(r2) + seq![
                OutboundView {
                    to: seq![conn],
                    event: ServerEventView::Kicked {
                        reason: "your network fingerprint is banned in this room"@,
                    },
                },
            ]);
            self.leave_at(room, role, peer_id, now, outbox);
        }
        Ok(())
    }
}

/// A peer asking to enter a room.
pub struct JoinRequest {
    pub room: String,
    pub role: PeerRole,
    pub peer_id: String,
    pub client_token: String,
    pub display_name: String,
    pub password: Option<String>,
    pub remote_addr: Option<String>,
    /// The connection that events for the peer go to.
    pub conn: u64,
}

pub struct JoinRequestView {
    pub room: Seq<char>,
    pub role: PeerRole,
    pub peer_id: Seq<char>,
    pub client_token: Seq<char>,
    pub display_name: Seq<char>,
    pub password: Option<Seq<char>>,
    pub remote_addr: Option<Seq<char>>,
    pub conn: u64,
}

impl View for JoinRequest {
    type V = JoinRequestView;

    open spec fn view(&self) -> JoinRequestView {
        JoinRequestView {
            room: self.room@,
            role: self.role,
            peer_id: self.peer_id@,
            client_token: self.client_token@,
            display_name: self.display_name@,
            password: self.password.deep_view(),
            remote_addr: self.remote_addr.deep_view(),
            conn: self.conn,
        }
    }
}

/// What a peer that entered a room learns of it.
pub struct JoinResult {
    pub host_present: bool,
    pub viewer_count: usize,
    pub password_protected: bool,
    pub self_display_name: String,
    pub peers: Vec<ParticipantPublic>,
    pub host_peer_details: Option<Vec<ParticipantAdmin>>,
}

pub struct JoinResultView {
    pub host_present: bool,
    pub viewer_count: usize,
    pub password_protected: bool,
    pub self_display_name: Seq<char>,
    pub peers: Seq<ParticipantPublicView>,
    pub host_peer_details: Option<Seq<ParticipantAdminView>>,
}

impl View for JoinResult {
    type V = JoinResultView;

    open spec fn view(&self) -> JoinResultView {
        JoinResultView {
            host_present: self.host_present,
            viewer_count: self.viewer_count,
            password_protected: self.password_protected,
            self_display_name: self.self_display_name@,
            peers: publics(self.peers@),
            host_peer_details: match self.host_peer_details {
                Some(d) => Some(admins(d@)),
                None => None,
            },
        }
    }
}

/// A room created by a join: the joiner's password, if not empty, and no one in it.
pub open spec fn fresh_room(password: Option<Seq<char>>, now: u64) -> RoomView {
    RoomView {
        join_password: nonempty_password(password),
        host: None,
        viewers: Seq::empty(),
        banned_client_tokens: Seq::empty(),
        banned_network_fingerprints: Seq::empty(),
        updated_at_epoch: now,
    }
}

/// The room a join enters, created where missing, stamped with `now`.
pub open spec fn entry_room(rs: RoomsView, req: JoinRequestView, now: u64) -> RoomView {
    let base = match room_of(rs, req.room) {
        Some(r) => r,
        None => fresh_room(req.password, now),
    };
    RoomView { updated_at_epoch: now, ..base }
}

/// The fingerprint of the address that a connection comes from.
pub open spec fn remote_fingerprint(addr: Option<Seq<char>>) -> Option<Seq<char>> {
    match addr {
        Some(a) => Some("wsip:"@ + a),
        None => None,
    }
}

/// Why room `r` turns a viewer away: a banned client token, a banned network,
/// or a password other than the room's; hosts are not checked.
pub open spec fn viewer_refusal(r: RoomView, req: JoinRequestView) -> Option<Seq<char>> {
    if req.role == PeerRole::Viewer {
        if r.banned_client_tokens.contains(req.client_token) {
            Some("client token is banned from this room"@)
        } else if remote_fingerprint(req.remote_addr) matches Some(fp)
            && r.banned_network_fingerprints.contains(fp) {
            Some("network is banned from this room"@)
        } else if r.join_password != req.password {
            Some("invalid room password"@)
        } else {
            None
        }
    } else {
        None
    }
}

/// Whether the join gets past the viewer checks with no display name to give:
/// see [`display_name_defined`].
pub open spec fn join_undefined(rs: RoomsView, req: JoinRequestView) -> bool {
    viewer_refusal(entry_room(rs, req, 0), req) is None && !display_name_defined(
        req.display_name,
        req.peer_id,
    )
}

/// The participant that a join adds.
pub open spec fn new_participant(req: JoinRequestView) -> ParticipantView {
    ParticipantView {
        peer_id: req.peer_id,
        role: req.role,
        client_token: req.client_token,
        display_name: display_name_of(req.display_name, req.peer_id),
        remote_addr: req.remote_addr,
        network_fingerprints: match remote_fingerprint(req.remote_addr) {
            Some(f) => seq![f],
            None => Seq::empty(),
        },
        conn: req.conn,
    }
}

/// Room `r` with `p` in it: as its host, who also sets the password where
/// one is given, or as a viewer, in place of one with the same peer id.
pub open spec fn joined_room(r: RoomView, req: JoinRequestView, p: ParticipantView) -> RoomView {
    if req.role == PeerRole::Host {
        RoomView {
            join_password: if req.password is Some {
                req.password
            } else {
                r.join_password
            },
            host: Some(p),
            ..r
        }
    } else {
        RoomView { viewers: put_viewer(r.viewers, p), ..r }
    }
}

/// The rooms after a join, and its answer. The room is created, or stamped,
/// before the checks, so a refused join leaves it in place.
pub open spec fn join_outcome(rs: RoomsView, req: JoinRequestView, now: u64) -> (RoomsView, Result<JoinResultView, Seq<char>>) {
    let r = entry_room(rs, req, now);
    match viewer_refusal(r, req) {
        Some(m) => (put_room(rs, req.room, r), Err(m)),
        None => if req.role == PeerRole::Host && r.host is Some {
            (put_room(rs, req.room, r), Err("room already has an active host"@))
        } else {
            let p = new_participant(req);
            let r2 = joined_room(r, req, p);
            (
                put_room(rs, req.room, r2),
                Ok(
                    JoinResultView {
                        host_present: r2.host is Some,
                        viewer_count: r2.viewers.len() as usize,
                        password_protected: r2.join_password is Some,
                        self_display_name: p.display_name,
                        peers: public_peers_except(r2, req.peer_id),
                        host_peer_details: if req.role == PeerRole::Host {
                            Some(admin_list(r2))
                        } else {
                            None
                        },
                    },
                ),
            )
        },
    }
}

/// Whether two optional texts are equal.
fn opt_text_eq(a: &Option<String>, b: &Option<String>) -> (r: bool)
    ensures
        r == (a.deep_view() == b.deep_view()),
{
    match (a, b) {
        (Some(x), Some(y)) => text_eq(x.as_str(), y.as_str()),
        (None, None) => true,
        _ => false,
    }
}

proof fn lemma_put_viewer_wf(r: RoomView, p: ParticipantView)
    requires
        room_wf(r),
        p.role == PeerRole::Viewer,
        participant_wf(p),
    ensures
        room_wf(RoomView { viewers: put_viewer(r.viewers, p), ..r }),
{
    let vs = r.viewers;
    let t = put_viewer(vs, p);
    if has_viewer(vs, p.peer_id) {
        let k = viewer_at(vs, p.peer_id);
        assert forall|a: int, b: int| 0 <= a < b < t.len() implies (#[trigger] t[a]).peer_id != (#[trigger] t[b]).peer_id by {
            if a == k {
                assert(vs[k].peer_id == p.peer_id);
                assert(vs[k].peer_id != vs[b].peer_id);
            } else if b == k {
                assert(vs[a].peer_id != vs[k].peer_id);
            }
        }
    } else {
        assert forall|a: int, b: int| 0 <= a < b < t.len() implies (#[trigger] t[a]).peer_id != (#[trigger] t[b]).peer_id by {
            if b == vs.len() {
                assert(t[a] == vs[a]);
            }
        }
    }
}

impl AppState {
    /// Whether a join with `request` gets past the viewer checks with no
    /// display name to give, as [`AppState::join_at`] requires that it does not.
    pub fn join_is_undefined(&self, request: &JoinRequest) -> (r: bool)
        requires
            self.wf(),
        ensures
            r == join_undefined(self@, request@),
    {
        let defined = display_name_is_defined(request.display_name.as_str(), request.peer_id.as_str());
        if defined {
            return false;
        }
        if request.role == PeerRole::Host {
            return true;
        }
        let remote_fp = remote_fingerprint_of(&request.remote_addr);
        match self.find_room(request.room.as_str()) {
            Some(i) => {
                let st = &self.rooms[i].state;
                !refused(&st.banned_client_tokens, &st.banned_network_fingerprints, &st.join_password, request, &remote_fp)
            },
            None => {
                let pw = nonempty_password_of(&request.password);
                !refused(&Vec::new(), &Vec::new(), &pw, request, &remote_fp)
            },
        }
    }

    /// Whether peer `peer_id` of `room` would take `display_name` with no
    /// display name to give, as [`AppState::update_display_name_at`] requires
    /// that it would not.
    pub fn rename_is_undefined(&self, room: &str, peer_id: &str, display_name: &str) -> (r: bool)
        requires
            self.wf(),
        ensures
            r == rename_undefined(self@, room@, peer_id@, display_name@),
    {
        if display_name_is_defined(display_name, peer_id) {
            return false;
        }
        match self.find_room(room) {
            None => false,
            Some(i) => {
                proof {
                    assert(room_wf(self@[i as int].1));
                }
                self.rooms[i].state.locate(peer_id).is_some()
            },
        }
    }

    /// Lets a peer into a room, creating the room where it is missing.
    pub fn join_at(&mut self, request: JoinRequest, now: u64) -> (r: Result<JoinResult, String>)
        requires
            old(self).wf(),
            !join_undefined(old(self)@, request@),
        ensures
            final(self).wf(),
            ({
                let (rs, res) = join_outcome(old(self)@, request@, now);
                &&& final(self)@ == rs
                &&& match r {
                    Ok(v) => res == Ok::<JoinResultView, Seq<char>>(v@),
                    Err(m) => res == Err::<JoinResultView, Seq<char>>(m@),
                }
            }),
    {
        let ghost old_rs = self@;
        let ghost req = request@;
        let i = match self.find_room(request.room.as_str()) {
            Some(i) => {
                let entry = &mut self.rooms[i];
                entry.state.updated_at_epoch = now;
                proof {
                    lemma_put_room_view(old_rs, i as int, req.room, self.rooms[i as int].state@);
                    assert(self@ =~= old_rs.update(i as int, (req.room, self.rooms[i as int].state@)));
                }
                i
            },
            None => {
                let st = RoomState {
                    join_password: nonempty_password_of(&request.password),
                    host: None,
                    viewers: Vec::new(),
                    banned_client_tokens: Vec::new(),
                    banned_network_fingerprints: Vec::new(),
                    updated_at_epoch: now,
                };
                self.rooms.push(RoomEntry { name: request.room.clone(), state: st });
                proof {
                    assert(self@ =~= old_rs.push((req.room, self.rooms[old_rs.len() as int].state@)));
                    let nv = self.rooms[old_rs.len() as int].state@;
                    assert(nv.viewers =~= Seq::<ParticipantView>::empty());
                    assert(nv.banned_client_tokens =~= Seq::<Seq<char>>::empty());
                    assert(nv.banned_network_fingerprints =~= Seq::<Seq<char>>::empty());
                    assert(nv == fresh_room(req.password, now));
                    assert forall|a: int, b: int| 0 <= a < b < self@.len() implies (#[trigger] self@[a]).0 != (#[trigger] self@[b]).0 by {
                        if b == old_rs.len() {
                            assert(self@[a] == old_rs[a]);
                            assert(old_rs[a].0 != req.room);
                        }
                    }
                    assert(room_wf(fresh_room(req.password, now)));
                }
                self.rooms.len() - 1
            },
        };
        let ghost r = entry_room(old_rs, req, now);
        let ghost touched = put_room(old_rs, req.room, r);
        proof {
            assert(self.rooms[i as int].state@ == r);
            assert(self@ == touched);
            assert(room_wf(r));
        }
        let remote_fp = remote_fingerprint_of(&request.remote_addr);
        if request.role == PeerRole::Viewer {
            let st = &self.rooms[i].state;
            if contains_text(&st.banned_client_tokens, request.client_token.as_str()) {
                return Err(String::from_str("client token is banned from this room"));
            }
            match &remote_fp {
                Some(fp) => {
                    if contains_text(&st.banned_network_fingerprints, fp.as_str()) {
                        return Err(String::from_str("network is banned from this room"));
                    }
                },
                None => {},
            }
            if !opt_text_eq(&st.join_password, &request.password) {
                return Err(String::from_str("invalid room password"));
            }
        }
        if request.role == PeerRole::Host && self.rooms[i].state.host.is_some() {
            return Err(String::from_str("room already has an active host"));
        }
        assert(viewer_refusal(r, req) is None);
        assert(viewer_refusal(entry_room(old_rs, req, 0), req) is None);
        let display_name = normalized_display_name(request.display_name.as_str(), request.peer_id.as_str());
        let mut fingerprints: Vec<String> = Vec::new();
        match remote_fp {
            Some(fp) => {
                fingerprints.push(fp);
            },
            None => {},
        }
        let participant = Participant {
            peer_id: request.peer_id.clone(),
            role: request.role,
            client_token: request.client_token,
            display_name: display_name.clone(),
            remote_addr: request.remote_addr,
            network_fingerprints: fingerprints,
            conn: request.conn,
        };
        let ghost p = new_participant(req);
        proof {
            assert(participant@.network_fingerprints =~= p.network_fingerprints);
            assert(participant@ == p);
        }
        let entry = &mut self.rooms[i];
        match request.role {
            PeerRole::Host => {
                match request.password {
                    Some(pw) => {
                        entry.state.join_password = Some(pw);
                    },
                    None => {},
                }
                entry.state.host = Some(participant);
            },
            PeerRole::Viewer => {
                let ghost vs_before = entry.state.viewers@;
                match entry.state.viewer_index(request.peer_id.as_str()) {
                    Some(k) => {
                        let _old = entry.state.viewers.remove(k);
                        entry.state.viewers.insert(k, participant);
                        proof {
                            assert(entry.state.viewers@ =~= vs_before.update(k as int, participant));
                            assert(entry.state.viewers@.map_values(|q: Participant| q@) =~= vs_before.map_values(|q: Participant| q@).update(k as int, p));
                        }
                    },
                    None => {
                        entry.state.viewers.push(participant);
                        proof {
                            assert(entry.state.viewers@.map_values(|q: Participant| q@) =~= vs_before.map_values(|q: Participant| q@).push(p));
                        }
                    },
                }
            },
        }
        let ghost r2 = self.rooms[i as int].state@;
        proof {
            assert(r2 == joined_room(r, req, p));
            if let Some(f) = remote_fingerprint(req.remote_addr) {
                assert(p.network_fingerprints[0] == f);
            }
            assert(participant_wf(p));
            if req.role == PeerRole::Viewer {
                lemma_put_viewer_wf(r, p);
            }
            assert(room_wf(r2));
            lemma_put_room_view(touched, i as int, req.room, r2);
            assert(self@ =~= touched.update(i as int, (req.room, r2)));
            assert(put_room(touched, req.room, r2) =~= put_room(old_rs, req.room, r2)) by {
                if !has_room(old_rs, req.room) {
                    assert(old_rs.push((req.room, r)).update(old_rs.len() as int, (req.room, r2)) =~= old_rs.push((req.room, r2)));
                } else {
                    lemma_put_room_view(old_rs, room_index(old_rs, req.room), req.room, r);
                }
            }
        }
        let st = &self.rooms[i].state;
        let host_peer_details = if request.role == PeerRole::Host {
            Some(st.admin_list())
        } else {
            None
        };
        Ok(
            JoinResult {
                host_present: st.host.is_some(),
                viewer_count: st.viewers.len(),
                password_protected: st.join_password.is_some(),
                self_display_name: display_name,
                peers: st.public_peers_except(request.peer_id.as_str()),
                host_peer_details,
            },
        )
    }
}

/// `None` for an absent or empty password.
fn nonempty_password_of(p: &Option<String>) -> (r: Option<String>)
    ensures
        r.deep_view() == nonempty_password(p.deep_view()),
{
    match p {
        Some(x) => if x.as_str().is_empty() {
            None
        } else {
            Some(x.clone())
        },
        None => None,
    }
}

/// The fingerprint of the address that a connection comes from.
fn remote_fingerprint_of(addr: &Option<String>) -> (r: Option<String>)
    ensures
        r.deep_view() == remote_fingerprint(addr.deep_view()),
{
    match addr {
        Some(a) => {
            proof {
                reveal_strlit("wsip:");
            }
            let s = String::from_str("wsip:");
            Some(s.concat(a.as_str()))
        },
        None => None,
    }
}

/// Whether a viewer is turned away by these bans and this password.
fn refused(
    tokens: &Vec<String>,
    networks: &Vec<String>,
    password: &Option<String>,
    request: &JoinRequest,
    remote_fp: &Option<String>,
) -> (r: bool)
    requires
        request.role == PeerRole::Viewer,
        remote_fp.deep_view() == remote_fingerprint(request@.remote_addr),
    ensures
        r == (viewer_refusal(
            RoomView {
                join_password: password.deep_view(),
                host: None,
                viewers: Seq::empty(),
                banned_client_tokens: tokens.deep_view(),
                banned_network_fingerprints: networks.deep_view(),
                updated_at_epoch: 0,
            },
            request@,
        ) is Some),
{
    if contains_text(tokens, request.client_token.as_str()) {
        return true;
    }
    match remote_fp {
        Some(fp) => {
            if contains_text(networks, fp.as_str()) {
                return true;
            }
        },
        None => {},
    }
    !opt_text_eq(password, &request.password)
}

impl AppState {
    /// [`AppState::join_at`] at the current time.
    pub fn join(&mut self, request: JoinRequest) -> (r: Result<JoinResult, String>)
        requires
            old(self).wf(),
            !join_undefined(old(self)@, request@),
        ensures
            final(self).wf(),
            exists|now: u64|
                {
                    let (rs, res) = #[trigger] join_outcome(old(self)@, request@, now);
                    &&& final(self)@ == rs
                    &&& match r {
                        Ok(v) => res == Ok::<JoinResultView, Seq<char>>(v@),
                        Err(m) => res == Err::<JoinResultView, Seq<char>>(m@),
                    }
                },
    {
        let now = crate::clock::unix_now();
        self.join_at(request, now)
    }

    /// [`AppState::update_display_name_at`] at the current time.
    pub fn update_display_name(
        &mut self,
        room: &str,
        peer_id: &str,
        display_name: String,
        outbox: &mut Vec<Outbound>,
    ) -> (r: Result<ParticipantPublic, String>)
        requires
            old(self).wf(),
            !rename_undefined(old(self)@, room@, peer_id@, display_name@),
        ensures
            final(self).wf(),
            exists|now: u64|
                {
                    let (rs, res, out) = #[trigger] rename_outcome(old(self)@, room@, peer_id@, display_name@, now);
                    &&& final(self)@ == rs
                    &&& outbound_views(final(outbox)@) == outbound_views(old(outbox)@) + out
                    &&& match r {
                        Ok(v) => res == Ok::<ParticipantPublicView, Seq<char>>(v@),
                        Err(m) => res == Err::<ParticipantPublicView, Seq<char>>(m@),
                    }
                },
    {
        let now = crate::clock::unix_now();
        self.update_display_name_at(room, peer_id, display_name, now, outbox)
    }

    /// [`AppState::update_network_fingerprints_at`] at the current time.
    pub fn update_network_fingerprints(
        &mut self,
        room: &str,
        peer_id: &str,
        fingerprints: Vec<String>,
        outbox: &mut Vec<Outbound>,
    ) -> (r: Result<(), String>)
        requires
            old(self).wf(),
        ensures
            final(self).wf(),
            exists|now: u64|
                {
                    let (rs, res, out) = #[trigger] report_outcome(old(self)@, room@, peer_id@, fingerprints.deep_view(), now);
                    &&& final(self)@ == rs
                    &&& outbound_views(final(outbox)@) == outbound_views(old(outbox)@) + out
                    &&& match r {
                        Ok(v) => res == Ok::<(), Seq<char>>(v),
                        Err(m) => res == Err::<(), Seq<char>>(m@),
                    }
                },
    {
        let now = crate::clock::unix_now();
        self.update_network_fingerprints_at(room, peer_id, fingerprints, now, outbox)
    }

    /// [`AppState::set_join_password_at`] at the current time.
    pub fn set_join_password(
        &mut self,
        room: &str,
        requester_peer_id: &str,
        password: Option<String>,
        outbox: &mut Vec<Outbound>,
    ) -> (r: Result<(usize, bool), String>)
        requires
            old(self).wf(),
        ensures
            final(self).wf(),
            exists|now: u64|
                {
                    let (rs, res, out) = #[trigger] password_outcome(old(self)@, room@, requester_peer_id@, password.deep_view(), now);
                    &&& final(self)@ == rs
                    &&& outbound_views(final(outbox)@) == outbound_views(old(outbox)@) + out
                    &&& match r {
                        Ok(v) => res == Ok::<(usize, bool), Seq<char>>(v),
                        Err(m) => res == Err::<(usize, bool), Seq<char>>(m@),
                    }
                },
    {
        let now = crate::clock::unix_now();
        self.set_join_password_at(room, requester_peer_id, password, now, outbox)
    }

    /// [`AppState::kick_peer_at`] at the current time.
    pub fn kick_peer(&mut self, request: KickRequest, outbox: &mut Vec<Outbound>) -> (r: Result<(), String>)
        requires
            old(self).wf(),
        ensures
            final(self).wf(),
            exists|now: u64|
                {
                    let (rs, res, out) = #[trigger] kick_outcome(old(self)@, request@, now);
                    &&& final(self)@ == rs
                    &&& outbound_views(final(outbox)@) == outbound_views(old(outbox)@) + out
                    &&& match r {
                        Ok(v) => res == Ok::<(), Seq<char>>(v),
                        Err(m) => res == Err::<(), Seq<char>>(m@),
                    }
                },
    {
        let now = crate::clock::unix_now();
        self.kick_peer_at(request, now, outbox)
    }

    /// [`AppState::leave_at`] at the current time.
    pub fn leave(&mut self, room: &str, role: PeerRole, peer_id: &str, outbox: &mut Vec<Outbound>)
        requires
            old(self).wf(),
        ensures
            final(self).wf(),
            exists|now: u64|
                {
                    let (rs, out) = #[trigger] leave_outcome(old(self)@, room@, role, peer_id@, now);
                    &&& final(self)@ == rs
                    &&& outbound_views(final(outbox)@) == outbound_views(old(outbox)@) + out
                },
    {
        let now = crate::clock::unix_now();
        self.leave_at(room, role, peer_id, now, outbox)
    }
}
} // verus!
