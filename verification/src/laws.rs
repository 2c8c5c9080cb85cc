//! Properties of the room service that span its operations, proved over the
//! models that the operations' contracts state.
use vstd::prelude::*;

use crate::room::{
    display_name_defined, display_name_of, fingerprint_char, fingerprint_filter, guest_suffix,
    sanitized_fingerprint, ParticipantView, PeerRole,
};
use crate::rooms::{
    add_all, add_fingerprints, add_unique, drop_room, drop_viewer, entry_room, find_participant,
    has_banned, has_room, has_viewer, is_host, join_outcome, kick_outcome, leave_outcome,
    nonempty_password, occupancy, password_outcome, put_room, put_viewer, remote_fingerprint, report_outcome,
    participant_wf, room_index, room_of, room_wf, rooms_wf, viewer_at, viewer_refusal,
    JoinRequestView, KickRequestView, RoomView, RoomsView,
};
use crate::config::{normalized_path, settings, turn_settings, TurnConfigView};
use crate::env::Env;
use crate::room::ServerEventView;
use crate::rooms::{rename_outcome, viewer_conns_except};
use crate::text::{
    byte_prefix, is_space, keep, trim, trim_end, trim_end_char, trim_start, utf8_len, utf8_width,
};

verus! {

// ---------------------------------------------------------------------------
// Rooms under their names
// ---------------------------------------------------------------------------

pub open spec fn distinct_names(rs: RoomsView) -> bool {
    forall|i: int, j: int| 0 <= i < j < rs.len() ==> (#[trigger] rs[i]).0 != (#[trigger] rs[j]).0
}

proof fn lemma_room_index(rs: RoomsView, i: int, name: Seq<char>)
    requires
        distinct_names(rs),
        0 <= i < rs.len(),
        rs[i].0 == name,
    ensures
        has_room(rs, name),
        room_index(rs, name) == i,
{
    let j = room_index(rs, name);
    if j != i {
        if j < i {
            assert(rs[j].0 != rs[i].0);
        } else {
            assert(rs[i].0 != rs[j].0);
        }
    }
}

/// Setting a room makes it the room under its name and leaves the others.
pub proof fn lemma_room_of_put(rs: RoomsView, name: Seq<char>, r: RoomView, other: Seq<char>)
    requires
        distinct_names(rs),
    ensures
        distinct_names(put_room(rs, name, r)),
        room_of(put_room(rs, name, r), name) == Some(r),
        other != name ==> room_of(put_room(rs, name, r), other) == room_of(rs, other),
{
    let t = put_room(rs, name, r);
    if has_room(rs, name) {
        let k = room_index(rs, name);
        assert(rs[k].0 == name);
        assert forall|a: int, b: int| 0 <= a < b < t.len() implies (#[trigger] t[a]).0 != (#[trigger] t[b]).0 by {
            assert(rs[a].0 != rs[b].0);
        }
        lemma_room_index(t, k, name);
        if other != name {
            if has_room(rs, other) {
                let m = room_index(rs, other);
                assert(t[m] == rs[m]);
                lemma_room_index(t, m, other);
            } else {
                assert forall|a: int| 0 <= a < t.len() implies (#[trigger] t[a]).0 != other by {
                    if a != k {
                        assert(t[a] == rs[a]);
                    }
                }
            }
        }
    } else {
        let k = rs.len() as int;
        assert forall|a: int, b: int| 0 <= a < b < t.len() implies (#[trigger] t[a]).0 != (#[trigger] t[b]).0 by {
            if b == k {
                assert(t[a] == rs[a]);
            }
        }
        lemma_room_index(t, k, name);
        if other != name {
            if has_room(rs, other) {
                let m = room_index(rs, other);
                assert(t[m] == rs[m]);
                lemma_room_index(t, m, other);
            } else {
                assert forall|a: int| 0 <= a < t.len() implies (#[trigger] t[a]).0 != other by {
                    if a != k {
                        assert(t[a] == rs[a]);
                    }
                }
            }
        }
    }
}

/// Dropping a room leaves no room under its name.
pub proof fn lemma_room_of_drop(rs: RoomsView, name: Seq<char>)
    requires
        distinct_names(rs),
    ensures
        room_of(drop_room(rs, name), name) is None,
{
    if has_room(rs, name) {
        let k = room_index(rs, name);
        let t = rs.remove(k);
        assert forall|a: int| 0 <= a < t.len() implies (#[trigger] t[a]).0 != name by {
            if a < k {
                assert(t[a] == rs[a]);
                assert(rs[a].0 != rs[k].0);
            } else {
                assert(t[a] == rs[a + 1]);
                assert(rs[k].0 != rs[a + 1].0);
            }
        }
    }
}

// ---------------------------------------------------------------------------
// One host per room
// ---------------------------------------------------------------------------

/// A room has at most one host: a second host is turned away with "room
/// already has an active host", and the host stays.
pub proof fn law_single_host(rs: RoomsView, req: JoinRequestView, now: u64)
    requires
        rooms_wf(rs),
        req.role == PeerRole::Host,
        room_of(rs, req.room) matches Some(r) && r.host is Some,
    ensures
        join_outcome(rs, req, now).1 == Err::<crate::rooms::JoinResultView, Seq<char>>(
            "room already has an active host"@,
        ),
        room_of(join_outcome(rs, req, now).0, req.room) matches Some(r2) && r2.host == room_of(
            rs,
            req.room,
        ).unwrap().host,
{
    lemma_room_of_put(rs, req.room, entry_room(rs, req, now), req.room);
}

/// Hosts are not checked against bans or the password.
pub proof fn law_hosts_are_not_checked(r: RoomView, req: JoinRequestView)
    requires
        req.role == PeerRole::Host,
    ensures
        viewer_refusal(r, req) is None,
{
}

// ---------------------------------------------------------------------------
// Passwords
// ---------------------------------------------------------------------------

/// A viewer gets into an existing room only with the room's password, with a
/// client token and a network that are not banned there.
pub proof fn law_viewer_needs_password(rs: RoomsView, req: JoinRequestView, now: u64)
    requires
        req.role == PeerRole::Viewer,
        join_outcome(rs, req, now).1 is Ok,
        room_of(rs, req.room) is Some,
    ensures
        req.password == room_of(rs, req.room).unwrap().join_password,
        !room_of(rs, req.room).unwrap().banned_client_tokens.contains(req.client_token),
        remote_fingerprint(req.remote_addr) matches Some(fp) ==> !room_of(
            rs,
            req.room,
        ).unwrap().banned_network_fingerprints.contains(fp),
{
}

/// Changing the password leaves the host and the viewers in the room; from
/// then on a viewer gets in only with the new password.
pub proof fn law_password_change_spares_members(
    rs: RoomsView,
    room: Seq<char>,
    requester: Seq<char>,
    password: Option<Seq<char>>,
    now: u64,
    req: JoinRequestView,
    later: u64,
)
    requires
        rooms_wf(rs),
        password_outcome(rs, room, requester, password, now).1 is Ok,
        req.room == room,
        req.role == PeerRole::Viewer,
    ensures
        ({
            let rs2 = password_outcome(rs, room, requester, password, now).0;
            &&& room_of(rs2, room) matches Some(r2) && r2.viewers == room_of(rs, room).unwrap().viewers
                && r2.host == room_of(rs, room).unwrap().host
            &&& join_outcome(rs2, req, later).1 is Ok ==> req.password == nonempty_password(password)
        }),
{
    let r = room_of(rs, room).unwrap();
    let r2 = RoomView { join_password: nonempty_password(password), updated_at_epoch: now, ..r };
    lemma_room_of_put(rs, room, r2, room);
}

/// After the host changes the password, a viewer whose client token and
/// network are not banned gets in with the new password and is turned away
/// with "invalid room password" with any other, the old one among them. (The
/// executable join also asks that a display name can be given the viewer.)
pub proof fn law_password_change_binds_newcomers(
    rs: RoomsView,
    room: Seq<char>,
    requester: Seq<char>,
    password: Option<Seq<char>>,
    now: u64,
    req: JoinRequestView,
    later: u64,
)
    requires
        rooms_wf(rs),
        password_outcome(rs, room, requester, password, now).1 is Ok,
        req.room == room,
        req.role == PeerRole::Viewer,
        !room_of(rs, room).unwrap().banned_client_tokens.contains(req.client_token),
        remote_fingerprint(req.remote_addr) matches Some(fp) ==> !room_of(
            rs,
            room,
        ).unwrap().banned_network_fingerprints.contains(fp),
    ensures
        ({
            let rs2 = password_outcome(rs, room, requester, password, now).0;
            &&& req.password == nonempty_password(password) ==> join_outcome(rs2, req, later).1 is Ok
            &&& req.password != nonempty_password(password) ==> join_outcome(rs2, req, later).1
                == Err::<crate::rooms::JoinResultView, Seq<char>>("invalid room password"@)
        }),
{
    let r = room_of(rs, room).unwrap();
    let r2 = RoomView { join_password: nonempty_password(password), updated_at_epoch: now, ..r };
    lemma_room_of_put(rs, room, r2, room);
}

// ---------------------------------------------------------------------------
// Kicks and bans
// ---------------------------------------------------------------------------

proof fn lemma_add_all_contains(s: Seq<Seq<char>>, xs: Seq<Seq<char>>, x: Seq<char>)
    requires
        s.contains(x) || xs.contains(x),
    ensures
        add_all(s, xs).contains(x),
    decreases xs.len(),
{
    if xs.len() > 0 {
        let prev = add_all(s, xs.drop_last());
        if xs.last() == x {
            if !prev.contains(x) {
                assert(prev.push(x)[prev.len() as int] == x);
            }
        } else {
            if xs.contains(x) && !s.contains(x) {
                let k = choose|k: int| 0 <= k < xs.len() && xs[k] == x;
                assert(xs.drop_last()[k] == x);
            }
            lemma_add_all_contains(s, xs.drop_last(), x);
            if !prev.contains(xs.last()) {
                let k = choose|k: int| 0 <= k < prev.len() && prev[k] == x;
                assert(prev.push(xs.last())[k] == x);
            }
        }
    }
}

proof fn lemma_add_unique_contains(s: Seq<Seq<char>>, x: Seq<char>)
    ensures
        add_unique(s, x).contains(x),
{
    if !s.contains(x) {
        assert(s.push(x)[s.len() as int] == x);
    }
}

/// The viewer that a kick removes.
pub open spec fn kicked(rs: RoomsView, req: KickRequestView) -> ParticipantView {
    let r = room_of(rs, req.room).unwrap();
    r.viewers[viewer_at(r.viewers, req.target_peer_id)]
}

proof fn lemma_drop_viewer_gone(vs: Seq<ParticipantView>, id: Seq<char>)
    requires
        forall|i: int, j: int| 0 <= i < j < vs.len() ==> (#[trigger] vs[i]).peer_id != (#[trigger] vs[j]).peer_id,
    ensures
        !has_viewer(drop_viewer(vs, id), id),
{
    if has_viewer(vs, id) {
        let k = viewer_at(vs, id);
        let t = vs.remove(k);
        assert forall|a: int| 0 <= a < t.len() implies (#[trigger] t[a]).peer_id != id by {
            if a < k {
                assert(t[a] == vs[a]);
                assert(vs[a].peer_id != vs[k].peer_id);
            } else {
                assert(t[a] == vs[a + 1]);
                assert(vs[k].peer_id != vs[a + 1].peer_id);
            }
        }
    }
}

/// A kicked viewer is out of the room, and where the host banned its client
/// token, a later viewer with that token is turned away with "client token is
/// banned from this room".
pub proof fn law_kick_bans_token(rs: RoomsView, kreq: KickRequestView, now: u64, jreq: JoinRequestView, later: u64)
    requires
        rooms_wf(rs),
        kick_outcome(rs, kreq, now).1 is Ok,
        kreq.ban_client_token,
        jreq.role == PeerRole::Viewer,
        jreq.room == kreq.room,
        jreq.client_token == kicked(rs, kreq).client_token,
    ensures
        room_of(kick_outcome(rs, kreq, now).0, kreq.room) matches Some(r2) && !has_viewer(
            r2.viewers,
            kreq.target_peer_id,
        ),
        join_outcome(kick_outcome(rs, kreq, now).0, jreq, later).1 == Err::<
            crate::rooms::JoinResultView,
            Seq<char>,
        >("client token is banned from this room"@),
{
    let r = room_of(rs, kreq.room).unwrap();
    assert(crate::rooms::room_wf(r)) by {
        assert(rs[room_index(rs, kreq.room)].1 == r);
    }
    let t = kicked(rs, kreq);
    let r2 = RoomView {
        viewers: drop_viewer(r.viewers, kreq.target_peer_id),
        banned_client_tokens: add_unique(r.banned_client_tokens, t.client_token),
        banned_network_fingerprints: if kreq.ban_networks {
            add_all(r.banned_network_fingerprints, t.network_fingerprints)
        } else {
            r.banned_network_fingerprints
        },
        updated_at_epoch: now,
        ..r
    };
    lemma_room_of_put(rs, kreq.room, r2, kreq.room);
    lemma_drop_viewer_gone(r.viewers, kreq.target_peer_id);
    lemma_add_unique_contains(r.banned_client_tokens, t.client_token);
}

/// Where the host banned a kicked viewer's networks, a later viewer coming
/// from one of its addresses (`wsip:` and the address) is turned away with
/// "network is banned from this room", unless its client token is banned first.
pub proof fn law_kick_bans_network(
    rs: RoomsView,
    kreq: KickRequestView,
    now: u64,
    jreq: JoinRequestView,
    later: u64,
)
    requires
        rooms_wf(rs),
        kick_outcome(rs, kreq, now).1 is Ok,
        kreq.ban_networks,
        jreq.role == PeerRole::Viewer,
        jreq.room == kreq.room,
        remote_fingerprint(jreq.remote_addr) matches Some(fp) && kicked(
            rs,
            kreq,
        ).network_fingerprints.contains(fp),
        !room_of(kick_outcome(rs, kreq, now).0, kreq.room).unwrap().banned_client_tokens.contains(
            jreq.client_token,
        ),
    ensures
        join_outcome(kick_outcome(rs, kreq, now).0, jreq, later).1 == Err::<
            crate::rooms::JoinResultView,
            Seq<char>,
        >("network is banned from this room"@),
{
    let r = room_of(rs, kreq.room).unwrap();
    let t = kicked(rs, kreq);
    let r2 = RoomView {
        viewers: drop_viewer(r.viewers, kreq.target_peer_id),
        banned_client_tokens: if kreq.ban_client_token {
            add_unique(r.banned_client_tokens, t.client_token)
        } else {
            r.banned_client_tokens
        },
        banned_network_fingerprints: add_all(r.banned_network_fingerprints, t.network_fingerprints),
        updated_at_epoch: now,
        ..r
    };
    lemma_room_of_put(rs, kreq.room, r2, kreq.room);
    let fp = remote_fingerprint(jreq.remote_addr).unwrap();
    lemma_add_all_contains(r.banned_network_fingerprints, t.network_fingerprints, fp);
}

/// A participant that reports a banned network fingerprint leaves its place:
/// the host its seat, a viewer the viewer list (or the room goes away).
pub proof fn law_banned_report_removes(
    rs: RoomsView,
    room: Seq<char>,
    id: Seq<char>,
    reported: Seq<Seq<char>>,
    now: u64,
)
    requires
        rooms_wf(rs),
        room_of(rs, room) matches Some(r) && find_participant(r, id) matches Some(p)
            && has_banned(add_fingerprints(p.network_fingerprints, reported), r.banned_network_fingerprints),
    ensures
        ({
            let r = room_of(rs, room).unwrap();
            let rs3 = report_outcome(rs, room, id, reported, now).0;
            &&& is_host(r, id) ==> (room_of(rs3, room) matches Some(r3) ==> r3.host is None)
            &&& !is_host(r, id) ==> (room_of(rs3, room) matches Some(r3) ==> !has_viewer(r3.viewers, id))
        }),
{
    let r = room_of(rs, room).unwrap();
    assert(crate::rooms::room_wf(r)) by {
        assert(rs[room_index(rs, room)].1 == r);
    }
    let p = find_participant(r, id).unwrap();
    let p2 = ParticipantView {
        network_fingerprints: add_fingerprints(p.network_fingerprints, reported),
        ..p
    };
    let r2 = RoomView { updated_at_epoch: now, ..crate::rooms::with_participant(r, id, p2) };
    let rs2 = put_room(rs, room, r2);
    lemma_room_of_put(rs, room, r2, room);
    if is_host(r, id) {
        assert(p2.role == PeerRole::Host);
        assert(is_host(r2, id));
        let r1 = RoomView { host: None, ..r2 };
        let r4 = RoomView { updated_at_epoch: now, ..r1 };
        lemma_room_of_put(rs2, room, r4, room);
        lemma_room_of_drop(rs2, room);
    } else {
        let k = viewer_at(r.viewers, id);
        assert(r.viewers[k].role == PeerRole::Viewer);
        assert(p2.role == PeerRole::Viewer);
        let vs2 = r2.viewers;
        assert(vs2 == r.viewers.update(k, p2));
        assert(forall|i: int, j: int| 0 <= i < j < vs2.len() ==> (#[trigger] vs2[i]).peer_id != (#[trigger] vs2[j]).peer_id) by {
            assert forall|i: int, j: int| 0 <= i < j < vs2.len() implies (#[trigger] vs2[i]).peer_id != (#[trigger] vs2[j]).peer_id by {
                assert(r.viewers[i].peer_id != r.viewers[j].peer_id);
            }
        }
        assert(vs2[k].peer_id == id);
        assert(has_viewer(vs2, id));
        let r1 = RoomView { viewers: drop_viewer(vs2, id), ..r2 };
        let r4 = RoomView { updated_at_epoch: now, ..r1 };
        lemma_drop_viewer_gone(vs2, id);
        lemma_room_of_put(rs2, room, r4, room);
        lemma_room_of_drop(rs2, room);
    }
}

// ---------------------------------------------------------------------------
// Leaving
// ---------------------------------------------------------------------------

/// A room goes away when its last participant leaves.
pub proof fn law_empty_room_goes_away(rs: RoomsView, room: Seq<char>, role: PeerRole, id: Seq<char>, now: u64)
    requires
        rooms_wf(rs),
        room_of(rs, room) matches Some(r) && match role {
            PeerRole::Host => is_host(r, id) && r.viewers.len() == 0,
            PeerRole::Viewer => r.host is None && r.viewers.len() == 1 && r.viewers[0].peer_id == id,
        },
    ensures
        room_of(leave_outcome(rs, room, role, id, now).0, room) is None,
{
    let r = room_of(rs, room).unwrap();
    if role == PeerRole::Viewer {
        assert(has_viewer(r.viewers, id)) by {
            assert(r.viewers[0].peer_id == id);
        }
        assert(drop_viewer(r.viewers, id).len() == 0);
    }
    lemma_room_of_drop(rs, room);
}

/// A viewer that joins a room with others in it under a new peer id and then
/// leaves puts the viewer list back as it was.
pub proof fn law_join_then_leave(rs: RoomsView, req: JoinRequestView, now: u64, later: u64)
    requires
        rooms_wf(rs),
        req.role == PeerRole::Viewer,
        room_of(rs, req.room) matches Some(r) && !has_viewer(r.viewers, req.peer_id) && (r.host is Some
            || r.viewers.len() > 0) && !is_host(r, req.peer_id),
        join_outcome(rs, req, now).1 is Ok,
    ensures
        room_of(
            leave_outcome(join_outcome(rs, req, now).0, req.room, PeerRole::Viewer, req.peer_id, later).0,
            req.room,
        ) matches Some(r3) && r3.viewers == room_of(rs, req.room).unwrap().viewers,
{
    let r = room_of(rs, req.room).unwrap();
    let e = entry_room(rs, req, now);
    let p = crate::rooms::new_participant(req);
    let r2 = crate::rooms::joined_room(e, req, p);
    let rs2 = put_room(rs, req.room, r2);
    lemma_room_of_put(rs, req.room, r2, req.room);
    let vs = r.viewers;
    let vs2 = vs.push(p);
    assert(r2.viewers == vs2);
    assert(vs2[vs.len() as int].peer_id == req.peer_id);
    assert(forall|i: int, j: int| 0 <= i < j < vs2.len() ==> (#[trigger] vs2[i]).peer_id != (#[trigger] vs2[j]).peer_id) by {
        assert(crate::rooms::room_wf(r)) by {
            assert(rs[room_index(rs, req.room)].1 == r);
        }
        assert forall|i: int, j: int| 0 <= i < j < vs2.len() implies (#[trigger] vs2[i]).peer_id != (#[trigger] vs2[j]).peer_id by {
            if j == vs.len() {
                assert(vs2[i] == vs[i]);
            } else {
                assert(vs[i].peer_id != vs[j].peer_id);
            }
        }
    }
    let k = viewer_at(vs2, req.peer_id);
    assert(k == vs.len()) by {
        if k != vs.len() {
            assert(vs2[k].peer_id == req.peer_id);
            assert(vs2[k] == vs[k]);
        }
    }
    assert(vs2.remove(vs.len() as int) =~= vs);
    let r4 = RoomView { viewers: vs, updated_at_epoch: later, ..r2 };
    lemma_room_of_put(rs2, req.room, r4, req.room);
}

// ---------------------------------------------------------------------------
// Names and fingerprints
// ---------------------------------------------------------------------------

proof fn lemma_byte_prefix_short(s: Seq<char>, n: nat)
    requires
        byte_prefix(s, n) is Some,
    ensures
        byte_prefix(s, n).unwrap().len() <= n,
    decreases s.len(),
{
    if n > 0 {
        assert(utf8_width(s[0]) >= 1);
        lemma_byte_prefix_short(s.drop_first(), (n - utf8_width(s[0])) as nat);
    }
}

proof fn lemma_utf8_len_at_least_len(s: Seq<char>)
    ensures
        utf8_len(s) >= s.len(),
    decreases s.len(),
{
    if s.len() > 0 {
        lemma_utf8_len_at_least_len(s.drop_last());
        assert(utf8_width(s.last()) >= 1);
    }
}

/// A display name is never empty and has at most 48 characters.
pub proof fn law_display_name_bounds(input: Seq<char>, peer_id: Seq<char>)
    requires
        display_name_defined(input, peer_id),
    ensures
        0 < display_name_of(input, peer_id).len() <= 48,
{
    reveal_strlit("guest-");
    if trim(input).len() == 0 {
        if byte_prefix(peer_id, 8) is Some {
            lemma_byte_prefix_short(peer_id, 8);
        } else {
            lemma_utf8_len_at_least_len(peer_id);
        }
        assert(guest_suffix(peer_id).len() <= 8);
    }
}

proof fn lemma_keep_all_pass(s: Seq<char>, f: spec_fn(char) -> bool)
    ensures
        forall|i: int| 0 <= i < keep(s, f).len() ==> f(#[trigger] keep(s, f)[i]),
    decreases s.len(),
{
    if s.len() > 0 {
        lemma_keep_all_pass(s.drop_last(), f);
        let prev = keep(s.drop_last(), f);
        assert forall|i: int| 0 <= i < keep(s, f).len() implies f(#[trigger] keep(s, f)[i]) by {
            if i < prev.len() {
                assert(keep(s, f)[i] == prev[i]);
            }
        }
    }
}

proof fn lemma_keep_identity(s: Seq<char>, f: spec_fn(char) -> bool)
    requires
        forall|i: int| 0 <= i < s.len() ==> f(#[trigger] s[i]),
    ensures
        keep(s, f) == s,
    decreases s.len(),
{
    if s.len() > 0 {
        lemma_keep_identity(s.drop_last(), f);
        assert(s.drop_last().push(s.last()) =~= s);
    }
}

proof fn lemma_trim_without_spaces(s: Seq<char>)
    requires
        forall|i: int| 0 <= i < s.len() ==> !is_space(#[trigger] s[i]),
    ensures
        trim(s) == s,
{
    assert(trim_start(s) == s);
    assert(trim_end(s) == s);
}

/// Cleaning a fingerprint twice gives what cleaning it once gives.
pub proof fn law_sanitize_idempotent(input: Seq<char>)
    ensures
        sanitized_fingerprint(sanitized_fingerprint(input)) == sanitized_fingerprint(input),
{
    let f = fingerprint_filter();
    let k = keep(trim(input), f);
    lemma_keep_all_pass(trim(input), f);
    let s = sanitized_fingerprint(input);
    assert(forall|i: int| 0 <= i < s.len() ==> fingerprint_char(#[trigger] s[i])) by {
        assert forall|i: int| 0 <= i < s.len() implies fingerprint_char(#[trigger] s[i]) by {
            assert(s[i] == k[i]);
            assert(f(k[i]));
        }
    }
    assert forall|i: int| 0 <= i < s.len() implies !is_space(#[trigger] s[i]) by {
        assert(fingerprint_char(s[i]));
    }
    lemma_trim_without_spaces(s);
    assert forall|i: int| 0 <= i < s.len() implies #[trigger] f(s[i]) by {
        assert(fingerprint_char(s[i]));
    }
    lemma_keep_identity(s, f);
    if s.len() <= 128 {
    }
}


// ---------------------------------------------------------------------------
// Counting participants
// ---------------------------------------------------------------------------

/// Participants in one room.
pub open spec fn headcount(r: RoomView) -> nat {
    r.viewers.len() + if r.host is Some {
        1nat
    } else {
        0nat
    }
}

proof fn lemma_occupancy_push(rs: RoomsView, x: (Seq<char>, RoomView))
    ensures
        occupancy(rs.push(x)) == occupancy(rs) + headcount(x.1),
{
    assert(rs.push(x).drop_last() =~= rs);
}

proof fn lemma_occupancy_update(rs: RoomsView, i: int, x: (Seq<char>, RoomView))
    requires
        0 <= i < rs.len(),
    ensures
        occupancy(rs.update(i, x)) + headcount(rs[i].1) == occupancy(rs) + headcount(x.1),
    decreases rs.len(),
{
    let t = rs.update(i, x);
    if i == rs.len() - 1 {
        assert(t.drop_last() =~= rs.drop_last());
    } else {
        lemma_occupancy_update(rs.drop_last(), i, x);
        assert(t.drop_last() =~= rs.drop_last().update(i, x));
    }
}

/// A join that lets in a peer not yet in the room adds one participant to the
/// count that the limit of online peers is checked against; a refused join
/// adds none.
pub proof fn law_join_counts_one(rs: RoomsView, req: JoinRequestView, now: u64)
    requires
        rooms_wf(rs),
        room_of(rs, req.room) matches Some(r) ==> !has_viewer(r.viewers, req.peer_id),
    ensures
        occupancy(join_outcome(rs, req, now).0) == occupancy(rs) + if join_outcome(rs, req, now).1 is Ok {
            1nat
        } else {
            0nat
        },
{
    let e = entry_room(rs, req, now);
    let rs2 = join_outcome(rs, req, now).0;
    let after = match room_of(rs2, req.room) {
        Some(x) => x,
        None => e,
    };
    let r2 = if join_outcome(rs, req, now).1 is Ok {
        crate::rooms::joined_room(e, req, crate::rooms::new_participant(req))
    } else {
        e
    };
    assert(rs2 == put_room(rs, req.room, r2));
    if join_outcome(rs, req, now).1 is Ok {
        if req.role == PeerRole::Viewer {
            assert(!has_viewer(e.viewers, req.peer_id));
            assert(headcount(r2) == headcount(e) + 1);
        } else {
            assert(e.host is None);
            assert(headcount(r2) == headcount(e) + 1);
        }
    }
    if has_room(rs, req.room) {
        let k = room_index(rs, req.room);
        assert(headcount(e) == headcount(rs[k].1));
        lemma_occupancy_update(rs, k, (req.room, r2));
    } else {
        assert(headcount(e) == 0);
        lemma_occupancy_push(rs, (req.room, r2));
    }
}

// ---------------------------------------------------------------------------
// Roles
// ---------------------------------------------------------------------------

/// The name of a role reads back as that role.
pub proof fn law_role_names_round_trip(role: PeerRole)
    ensures
        (crate::signaling::role_text(role) == "host"@) == (role == PeerRole::Host),
        (crate::signaling::role_text(role) == "viewer"@) == (role == PeerRole::Viewer),
{
    reveal_strlit("host");
    reveal_strlit("viewer");
    assert("host"@ != "viewer"@) by {
        assert("host"@.len() != "viewer"@.len());
    }
}

/// A client token is at most 64 characters, each an ASCII letter, digit, `-`
/// or `_`.
pub proof fn law_client_token_shape(s: Seq<char>)
    ensures
        crate::signaling::clean_token(s).len() <= 64,
        forall|i: int|
            0 <= i < crate::signaling::clean_token(s).len() ==> crate::signaling::token_char(
                #[trigger] crate::signaling::clean_token(s)[i],
            ),
{
    let f = crate::signaling::token_filter();
    let k = keep(s, f);
    lemma_keep_all_pass(s, f);
    let c = crate::signaling::clean_token(s);
    assert forall|i: int| 0 <= i < c.len() implies crate::signaling::token_char(#[trigger] c[i]) by {
        assert(c[i] == k[i]);
        assert(f(k[i]));
    }
}
// ---------------------------------------------------------------------------
// More on kicks
// ---------------------------------------------------------------------------

/// Where the host banned a kicked viewer's networks, a later viewer that
/// connects from the address the kicked one connected from is turned away with
/// "network is banned from this room" (unless its client token is banned
/// first), and the room's viewers stay as they were.
pub proof fn law_kick_bans_own_address(
    rs: RoomsView,
    kreq: KickRequestView,
    now: u64,
    jreq: JoinRequestView,
    later: u64,
)
    requires
        rooms_wf(rs),
        kick_outcome(rs, kreq, now).1 is Ok,
        kreq.ban_networks,
        jreq.role == PeerRole::Viewer,
        jreq.room == kreq.room,
        kicked(rs, kreq).remote_addr is Some,
        jreq.remote_addr == kicked(rs, kreq).remote_addr,
        !room_of(kick_outcome(rs, kreq, now).0, kreq.room).unwrap().banned_client_tokens.contains(
            jreq.client_token,
        ),
    ensures
        join_outcome(kick_outcome(rs, kreq, now).0, jreq, later).1 == Err::<
            crate::rooms::JoinResultView,
            Seq<char>,
        >("network is banned from this room"@),
        room_of(join_outcome(kick_outcome(rs, kreq, now).0, jreq, later).0, kreq.room).unwrap().viewers
            == room_of(kick_outcome(rs, kreq, now).0, kreq.room).unwrap().viewers,
{
    let r = room_of(rs, kreq.room).unwrap();
    assert(room_wf(r)) by {
        assert(rs[room_index(rs, kreq.room)].1 == r);
    }
    let k = viewer_at(r.viewers, kreq.target_peer_id);
    assert(participant_wf(r.viewers[k]));
    law_kick_bans_network(rs, kreq, now, jreq, later);
    let t = kicked(rs, kreq);
    let r2 = RoomView {
        viewers: drop_viewer(r.viewers, kreq.target_peer_id),
        banned_client_tokens: if kreq.ban_client_token {
            add_unique(r.banned_client_tokens, t.client_token)
        } else {
            r.banned_client_tokens
        },
        banned_network_fingerprints: add_all(r.banned_network_fingerprints, t.network_fingerprints),
        updated_at_epoch: now,
        ..r
    };
    lemma_room_of_put(rs, kreq.room, r2, kreq.room);
    let rs2 = kick_outcome(rs, kreq, now).0;
    lemma_room_of_put(rs2, kreq.room, entry_room(rs2, jreq, later), kreq.room);
}

/// A kick that bans nothing leaves the room's bans as they were: a viewer
/// whose client token and network were not banned before gets in afterwards
/// with the room's password, the kicked viewer among them.
pub proof fn law_plain_kick_bans_nothing(
    rs: RoomsView,
    kreq: KickRequestView,
    now: u64,
    jreq: JoinRequestView,
    later: u64,
)
    requires
        rooms_wf(rs),
        kick_outcome(rs, kreq, now).1 is Ok,
        !kreq.ban_client_token,
        !kreq.ban_networks,
        jreq.role == PeerRole::Viewer,
        jreq.room == kreq.room,
        !room_of(rs, kreq.room).unwrap().banned_client_tokens.contains(jreq.client_token),
        remote_fingerprint(jreq.remote_addr) matches Some(fp) ==> !room_of(
            rs,
            kreq.room,
        ).unwrap().banned_network_fingerprints.contains(fp),
        jreq.password == room_of(rs, kreq.room).unwrap().join_password,
    ensures
        ({
            let r = room_of(rs, kreq.room).unwrap();
            let r2 = room_of(kick_outcome(rs, kreq, now).0, kreq.room).unwrap();
            &&& r2.banned_client_tokens == r.banned_client_tokens
            &&& r2.banned_network_fingerprints == r.banned_network_fingerprints
            &&& r2.join_password == r.join_password
        }),
        join_outcome(kick_outcome(rs, kreq, now).0, jreq, later).1 is Ok,
{
    let r = room_of(rs, kreq.room).unwrap();
    let r2 = RoomView {
        viewers: drop_viewer(r.viewers, kreq.target_peer_id),
        updated_at_epoch: now,
        ..r
    };
    lemma_room_of_put(rs, kreq.room, r2, kreq.room);
}

// ---------------------------------------------------------------------------
// Base paths
// ---------------------------------------------------------------------------

proof fn lemma_trim_without_space(s: Seq<char>)
    requires
        forall|i: int| 0 <= i < s.len() ==> !is_space(#[trigger] s[i]),
    ensures
        trim(s) == s,
{
    if s.len() > 0 {
        assert(!is_space(s[0]));
        assert(!is_space(s[s.len() - 1]));
    }
    assert(trim_start(s) == s);
    assert(trim_end(s) == s);
}

proof fn lemma_trim_end_char_prefix(s: Seq<char>, c: char)
    ensures
        trim_end_char(s, c).len() <= s.len(),
        trim_end_char(s, c) == s.take(trim_end_char(s, c).len() as int),
        trim_end_char(s, c).len() > 0 ==> trim_end_char(s, c).last() != c,
    decreases s.len(),
{
    if s.len() > 0 && s.last() == c {
        lemma_trim_end_char_prefix(s.drop_last(), c);
        let r = trim_end_char(s.drop_last(), c);
        assert(s.drop_last().take(r.len() as int) =~= s.take(r.len() as int));
    } else {
        assert(s.take(s.len() as int) =~= s);
    }
}

/// A base path normalizes to itself: normalizing twice gives what normalizing
/// once gives, for a path without white space that keeps a character once its
/// trailing slashes are dropped.
pub proof fn law_normalize_path_idempotent(s: Seq<char>)
    requires
        forall|i: int| 0 <= i < s.len() ==> !is_space(#[trigger] s[i]),
        trim_end_char(s, '/').len() > 0,
    ensures
        normalized_path(normalized_path(s)) == normalized_path(s),
{
    lemma_trim_without_space(s);
    lemma_trim_end_char_prefix(s, '/');
    let e = trim_end_char(s, '/');
    assert(e[0] == s[0]);
    assert forall|i: int| 0 <= i < e.len() implies !is_space(#[trigger] e[i]) by {
        assert(e[i] == s[i]);
    }
    let n = normalized_path(s);
    if s[0] == '/' {
        assert(n == e);
        lemma_trim_without_space(e);
        assert(trim_end_char(e, '/') == e);
    } else {
        assert(n == seq!['/'] + e);
        assert forall|i: int| 0 <= i < n.len() implies !is_space(#[trigger] n[i]) by {
            if i > 0 {
                assert(n[i] == e[i - 1]);
            }
        }
        lemma_trim_without_space(n);
        assert(n.last() == e.last());
        assert(trim_end_char(n, '/') == n);
    }
}

// ---------------------------------------------------------------------------
// Admission, kicks, leaving and renaming, stated by what they do
// ---------------------------------------------------------------------------

proof fn lemma_put_viewer_has(vs: Seq<ParticipantView>, p: ParticipantView)
    ensures
        has_viewer(put_viewer(vs, p), p.peer_id),
{
    let t = put_viewer(vs, p);
    if has_viewer(vs, p.peer_id) {
        let k = viewer_at(vs, p.peer_id);
        assert(t[k] == p);
    } else {
        assert(t[vs.len() as int] == p);
    }
}

/// A viewer whose client token and network are not banned in the room, and
/// whose password is the room's password, gets in, whether or not the room
/// has a host: the join succeeds and the viewer is in the room afterwards. A
/// room that the join creates takes the joiner's password (none where it is
/// empty), so there the viewer needs a password that is not empty, or none.
pub proof fn law_viewer_admitted(rs: RoomsView, req: JoinRequestView, now: u64)
    requires
        rooms_wf(rs),
        req.role == PeerRole::Viewer,
        match room_of(rs, req.room) {
            Some(r) => {
                &&& !r.banned_client_tokens.contains(req.client_token)
                &&& (remote_fingerprint(req.remote_addr) matches Some(fp)
                    ==> !r.banned_network_fingerprints.contains(fp))
                &&& req.password == r.join_password
            },
            None => req.password == nonempty_password(req.password),
        },
    ensures
        join_outcome(rs, req, now).1 is Ok,
        room_of(join_outcome(rs, req, now).0, req.room) matches Some(r2) && has_viewer(
            r2.viewers,
            req.peer_id,
        ),
{
    let r = entry_room(rs, req, now);
    let p = crate::rooms::new_participant(req);
    let r2 = RoomView { viewers: put_viewer(r.viewers, p), ..r };
    assert(viewer_refusal(r, req) is None);
    lemma_room_of_put(rs, req.room, r2, req.room);
    lemma_put_viewer_has(r.viewers, p);
}

/// A kick bans the kicked viewer's client token only when asked to, and its
/// network fingerprints only when asked to; otherwise the room's bans of that
/// kind stay exactly as they were. The room's password never changes.
pub proof fn law_kick_bans_only_what_is_asked(rs: RoomsView, kreq: KickRequestView, now: u64)
    requires
        rooms_wf(rs),
        room_of(rs, kreq.room) is Some,
    ensures
        ({
            let r = room_of(rs, kreq.room).unwrap();
            room_of(kick_outcome(rs, kreq, now).0, kreq.room) matches Some(r2) && {
                &&& !kreq.ban_client_token ==> r2.banned_client_tokens == r.banned_client_tokens
                &&& !kreq.ban_networks ==> r2.banned_network_fingerprints == r.banned_network_fingerprints
                &&& r2.join_password == r.join_password
            }
        }),
{
    let r = room_of(rs, kreq.room).unwrap();
    if kick_outcome(rs, kreq, now).1 is Ok {
        let t = kicked(rs, kreq);
        let r2 = RoomView {
            viewers: drop_viewer(r.viewers, kreq.target_peer_id),
            banned_client_tokens: if kreq.ban_client_token {
                add_unique(r.banned_client_tokens, t.client_token)
            } else {
                r.banned_client_tokens
            },
            banned_network_fingerprints: if kreq.ban_networks {
                add_all(r.banned_network_fingerprints, t.network_fingerprints)
            } else {
                r.banned_network_fingerprints
            },
            updated_at_epoch: now,
            ..r
        };
        lemma_room_of_put(rs, kreq.room, r2, kreq.room);
    }
}

proof fn lemma_drop_viewer_keeps(vs: Seq<ParticipantView>, id: Seq<char>, j: int)
    requires
        0 <= j < vs.len(),
        vs[j].peer_id != id,
    ensures
        has_viewer(drop_viewer(vs, id), vs[j].peer_id),
{
    if has_viewer(vs, id) {
        let k = viewer_at(vs, id);
        let t = vs.remove(k);
        if j < k {
            assert(t[j] == vs[j]);
        } else {
            assert(j != k);
            assert(t[j - 1] == vs[j]);
        }
    } else {
        assert(drop_viewer(vs, id)[j] == vs[j]);
    }
}

/// Leaving closes a room only when nobody is left in it. When the host
/// leaves, the viewers stay in the room as they were; when a viewer leaves,
/// the host and every other viewer stay. A leave under a role that the peer
/// does not hold in the room changes nothing.
pub proof fn law_leave_keeps_the_others(rs: RoomsView, room: Seq<char>, role: PeerRole, id: Seq<char>, now: u64)
    requires
        rooms_wf(rs),
        room_of(rs, room) is Some,
    ensures
        ({
            let r = room_of(rs, room).unwrap();
            let after = room_of(leave_outcome(rs, room, role, id, now).0, room);
            &&& role == PeerRole::Host && r.viewers.len() > 0 ==> (after matches Some(r2) && r2.viewers
                == r.viewers)
            &&& role == PeerRole::Viewer && r.host is Some ==> (after matches Some(r2) && r2.host == r.host)
            &&& role == PeerRole::Viewer ==> forall|j: int|
                0 <= j < r.viewers.len() && (#[trigger] r.viewers[j]).peer_id != id ==> (after matches Some(
                    r2,
                ) && has_viewer(r2.viewers, r.viewers[j].peer_id))
            &&& role == PeerRole::Host && !is_host(r, id) ==> after == Some(r)
            &&& role == PeerRole::Viewer && !has_viewer(r.viewers, id) ==> after == Some(r)
        }),
{
    let r = room_of(rs, room).unwrap();
    let present = match role {
        PeerRole::Host => is_host(r, id),
        PeerRole::Viewer => has_viewer(r.viewers, id),
    };
    if present {
        let r1 = match role {
            PeerRole::Host => RoomView { host: None, ..r },
            PeerRole::Viewer => RoomView { viewers: drop_viewer(r.viewers, id), ..r },
        };
        let r2 = RoomView { updated_at_epoch: now, ..r1 };
        lemma_room_of_put(rs, room, r2, room);
        if role == PeerRole::Viewer {
            assert forall|j: int|
                0 <= j < r.viewers.len() && (#[trigger] r.viewers[j]).peer_id != id implies has_viewer(
                r2.viewers,
                r.viewers[j].peer_id,
            ) by {
                lemma_drop_viewer_keeps(r.viewers, id, j);
            }
            if exists|j: int| 0 <= j < r.viewers.len() && (#[trigger] r.viewers[j]).peer_id != id {
                let j = choose|j: int| 0 <= j < r.viewers.len() && (#[trigger] r.viewers[j]).peer_id != id;
                lemma_drop_viewer_keeps(r.viewers, id, j);
                assert(r2.viewers.len() > 0);
            }
        }
    }
}

/// In `coturnrest` mode the TURN REST secret is the value of
/// `ROOM_TURN_SECRET`, empty where it is unset, whatever `ROOM_TURN_PASSWORD`
/// holds.
pub proof fn law_turn_rest_secret(env: &Env)
    ensures
        match turn_settings(env) {
            Ok(TurnConfigView::Coturnrest { secret, .. }) => secret == match env.var("ROOM_TURN_SECRET"@) {
                Some(v) => v,
                None => Seq::<char>::empty(),
            },
            _ => true,
        },
        match settings(env) {
            Ok(c) => match c.turn {
                TurnConfigView::Coturnrest { secret, .. } => secret == match env.var("ROOM_TURN_SECRET"@) {
                    Some(v) => v,
                    None => Seq::<char>::empty(),
                },
                _ => true,
            },
            _ => true,
        },
{
    reveal_strlit("");
}

proof fn lemma_viewer_conns_contains(vs: Seq<ParticipantView>, id: Seq<char>, j: int)
    requires
        0 <= j < vs.len(),
        vs[j].peer_id != id,
    ensures
        viewer_conns_except(vs, id).contains(vs[j].conn),
    decreases vs.len(),
{
    let prev = viewer_conns_except(vs.drop_last(), id);
    if j == vs.len() - 1 {
        assert(viewer_conns_except(vs, id) == prev.push(vs[j].conn));
        assert(prev.push(vs[j].conn)[prev.len() as int] == vs[j].conn);
    } else {
        assert(vs.drop_last()[j] == vs[j]);
        lemma_viewer_conns_contains(vs.drop_last(), id, j);
        let k = choose|k: int| 0 <= k < prev.len() && prev[k] == vs[j].conn;
        if vs.last().peer_id != id {
            assert(prev.push(vs.last().conn)[k] == vs[j].conn);
        }
    }
}

/// A rename tells every other participant of the room, viewers included: its
/// first event is the `PeerUpdated` with the new public record, addressed to
/// the connection of the host and of each viewer whose peer id is not the
/// renamer's.
pub proof fn law_rename_tells_everyone_else(rs: RoomsView, room: Seq<char>, id: Seq<char>, name: Seq<char>, now: u64)
    requires
        rooms_wf(rs),
        rename_outcome(rs, room, id, name, now).1 is Ok,
    ensures
        ({
            let r = room_of(rs, room).unwrap();
            let out = rename_outcome(rs, room, id, name, now).2;
            &&& out.len() > 0
            &&& rename_outcome(rs, room, id, name, now).1 matches Ok(peer) && out[0].event
                == (ServerEventView::PeerUpdated { peer })
            &&& forall|j: int|
                0 <= j < r.viewers.len() && (#[trigger] r.viewers[j]).peer_id != id
                    ==> out[0].to.contains(r.viewers[j].conn)
            &&& match r.host {
                Some(h) => h.peer_id != id ==> out[0].to.contains(h.conn),
                None => true,
            }
        }),
{
    let r = room_of(rs, room).unwrap();
    let p = find_participant(r, id).unwrap();
    let p2 = ParticipantView { display_name: display_name_of(name, id), ..p };
    let r2 = RoomView { updated_at_epoch: now, ..crate::rooms::with_participant(r, id, p2) };
    let to = crate::rooms::recipients_except(r2, id);
    let hpart = match r2.host {
        Some(h) => if h.peer_id != id {
            seq![h.conn]
        } else {
            Seq::<u64>::empty()
        },
        None => Seq::<u64>::empty(),
    };
    assert(to == hpart + viewer_conns_except(r2.viewers, id));
    assert forall|j: int|
        0 <= j < r.viewers.len() && (#[trigger] r.viewers[j]).peer_id != id implies to.contains(
        r.viewers[j].conn,
    ) by {
        assert(r2.viewers[j] == r.viewers[j]);
        lemma_viewer_conns_contains(r2.viewers, id, j);
        let vc = viewer_conns_except(r2.viewers, id);
        let k = choose|k: int| 0 <= k < vc.len() && vc[k] == r.viewers[j].conn;
        assert(to[hpart.len() + k] == vc[k]);
    }
    if let Some(h) = r.host {
        if h.peer_id != id {
            assert(r2.host == r.host);
            assert(to[0] == h.conn);
        }
    }
}

} // verus!
