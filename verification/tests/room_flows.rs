use room_server::room::{Outbound, PeerRole, ServerEvent};
use room_server::rooms::{AppState, JoinRequest, KickRequest};
use room_server::signaling::{handle_inbound_message, ClientEvent, Inbound};

fn join_req(room: &str, role: PeerRole, peer: &str, token: &str, password: Option<&str>, addr: &str, conn: u64) -> JoinRequest {
    JoinRequest {
        room: room.to_string(),
        role,
        peer_id: peer.to_string(),
        client_token: token.to_string(),
        display_name: peer.to_uppercase(),
        password: password.map(str::to_string),
        remote_addr: Some(addr.to_string()),
        conn,
    }
}

/// A room with host `h` (conn 1, password "pw") and viewer `v` (conn 2).
fn room_with_viewer() -> AppState {
    let mut rooms = AppState::new();
    rooms.join_at(join_req("r", PeerRole::Host, "h", "th", Some("pw"), "1.1.1.1", 1), 100).ok().unwrap();
    rooms.join_at(join_req("r", PeerRole::Viewer, "v", "tv", Some("pw"), "2.2.2.2", 2), 101).ok().unwrap();
    rooms
}

#[test]
fn host_creates_room_with_password() {
    let mut rooms = AppState::new();
    let r = rooms.join_at(join_req("r", PeerRole::Host, "h", "t", Some("pw"), "1.1.1.1", 1), 50).ok().unwrap();
    assert!(r.host_present);
    assert!(r.password_protected);
    assert_eq!(r.viewer_count, 0);
    assert_eq!(r.self_display_name, "H");
    assert!(r.peers.is_empty());
    let details = r.host_peer_details.unwrap();
    assert_eq!(details.len(), 1);
    assert_eq!(details[0].network_fingerprints, vec!["wsip:1.1.1.1"]);
    let snap = rooms.snapshot("r").unwrap();
    assert_eq!(snap.room, "r");
    assert!(snap.host_present);
    assert_eq!(snap.updated_at_epoch, 50);
    assert_eq!(rooms.online_count(), 1);
}

#[test]
fn second_host_is_refused() {
    let mut rooms = room_with_viewer();
    let e = rooms.join_at(join_req("r", PeerRole::Host, "h2", "t2", None, "3.3.3.3", 3), 102).err().unwrap();
    assert_eq!(e, "room already has an active host");
    assert_eq!(rooms.online_count(), 2);
}

#[test]
fn viewer_needs_the_password() {
    let mut rooms = room_with_viewer();
    let e = rooms.join_at(join_req("r", PeerRole::Viewer, "v2", "t2", Some("nope"), "3.3.3.3", 3), 102).err().unwrap();
    assert_eq!(e, "invalid room password");
    let e = rooms.join_at(join_req("r", PeerRole::Viewer, "v2", "t2", None, "3.3.3.3", 3), 102).err().unwrap();
    assert_eq!(e, "invalid room password");
    let ok = rooms.join_at(join_req("r", PeerRole::Viewer, "v2", "t2", Some("pw"), "3.3.3.3", 3), 102).ok().unwrap();
    assert_eq!(ok.viewer_count, 2);
    assert!(ok.host_peer_details.is_none());
    let ids: Vec<&str> = ok.peers.iter().map(|p| p.peer_id.as_str()).collect();
    assert_eq!(ids, vec!["h", "v"]);
}

#[test]
fn refused_join_still_creates_the_room() {
    let mut rooms = AppState::new();
    let e = rooms.join_at(join_req("fresh", PeerRole::Viewer, "v", "t", Some(""), "1.1.1.1", 1), 7).err().unwrap();
    assert_eq!(e, "invalid room password");
    let snap = rooms.snapshot("fresh").unwrap();
    assert!(!snap.host_present);
    assert_eq!(snap.viewer_count, 0);
    assert_eq!(snap.updated_at_epoch, 7);
}

#[test]
fn broadcast_join_announces_the_newcomer() {
    let rooms = room_with_viewer();
    let mut out: Vec<Outbound> = Vec::new();
    rooms.broadcast_join("r", "v", &mut out);
    assert_eq!(out.len(), 3);
    assert_eq!(out[0].to, vec![1]);
    match &out[0].event {
        ServerEvent::PeerJoined { peer } => {
            assert_eq!(peer.peer_id, "v");
            assert_eq!(peer.display_name, "V");
        }
        _ => panic!("expected peer_joined"),
    }
    assert_eq!(out[1].to, vec![1]);
    assert!(matches!(&out[1].event, ServerEvent::HostPeerDetails { peers } if peers.len() == 2));
    assert_eq!(out[2].to, vec![1, 2]);
    assert!(matches!(out[2].event, ServerEvent::RoomUpdated { viewer_count: 1, password_protected: true }));
    let mut none: Vec<Outbound> = Vec::new();
    rooms.broadcast_join("r", "ghost", &mut none);
    assert!(none.is_empty());
}

#[test]
fn password_change_keeps_viewers_and_binds_newcomers() {
    let mut rooms = room_with_viewer();
    let mut out: Vec<Outbound> = Vec::new();
    let e = rooms.set_join_password_at("r", "v", Some("x".to_string()), 200, &mut out).err().unwrap();
    assert_eq!(e, "only the host can update the room password");
    assert!(out.is_empty());
    let r = rooms.set_join_password_at("r", "h", Some("new".to_string()), 200, &mut out).ok().unwrap();
    assert_eq!(r, (1, true));
    assert_eq!(out.len(), 1);
    assert_eq!(out[0].to, vec![1, 2]);
    assert_eq!(rooms.snapshot("r").unwrap().viewer_count, 1);
    assert!(rooms.join_at(join_req("r", PeerRole::Viewer, "v3", "t3", Some("pw"), "4.4.4.4", 4), 201).is_err());
    assert!(rooms.join_at(join_req("r", PeerRole::Viewer, "v3", "t3", Some("new"), "4.4.4.4", 4), 201).is_ok());
    let mut out2: Vec<Outbound> = Vec::new();
    let r = rooms.set_join_password_at("r", "h", Some(String::new()), 202, &mut out2).ok().unwrap();
    assert_eq!(r, (2, false));
    assert!(rooms.join_at(join_req("r", PeerRole::Viewer, "v4", "t4", None, "5.5.5.5", 5), 203).is_ok());
}

#[test]
fn kick_with_token_ban() {
    let mut rooms = room_with_viewer();
    let mut out: Vec<Outbound> = Vec::new();
    let kick = |req: &str, target: &str| KickRequest {
        room: "r".to_string(),
        requester_peer_id: req.to_string(),
        target_peer_id: target.to_string(),
        ban_client_token: true,
        ban_networks: false,
    };
    assert_eq!(rooms.kick_peer_at(kick("v", "h"), 300, &mut out).err().unwrap(), "only the host can kick participants");
    assert_eq!(rooms.kick_peer_at(kick("h", "h"), 300, &mut out).err().unwrap(), "host cannot kick itself");
    assert_eq!(rooms.kick_peer_at(kick("h", "nobody"), 300, &mut out).err().unwrap(), "target viewer not found");
    assert!(out.is_empty());
    rooms.kick_peer_at(kick("h", "v"), 300, &mut out).ok().unwrap();
    assert_eq!(out.len(), 4);
    assert_eq!(out[0].to, vec![2]);
    assert!(matches!(&out[0].event, ServerEvent::Kicked { reason } if reason == "you were removed by the room host"));
    assert_eq!(out[1].to, vec![1]);
    assert!(matches!(&out[1].event, ServerEvent::PeerLeft { peer_id, role: PeerRole::Viewer } if peer_id == "v"));
    assert!(matches!(out[2].event, ServerEvent::RoomUpdated { viewer_count: 0, .. }));
    assert!(matches!(&out[3].event, ServerEvent::HostPeerDetails { peers } if peers.len() == 1));
    let e = rooms.join_at(join_req("r", PeerRole::Viewer, "v9", "tv", Some("pw"), "9.9.9.9", 9), 301).err().unwrap();
    assert_eq!(e, "client token is banned from this room");
    assert!(rooms.join_at(join_req("r", PeerRole::Viewer, "v9", "other", Some("pw"), "2.2.2.2", 9), 301).is_ok());
}

#[test]
fn kick_with_network_ban() {
    let mut rooms = room_with_viewer();
    let mut out: Vec<Outbound> = Vec::new();
    rooms.kick_peer_at(KickRequest {
        room: "r".to_string(),
        requester_peer_id: "h".to_string(),
        target_peer_id: "v".to_string(),
        ban_client_token: false,
        ban_networks: true,
    }, 300, &mut out).ok().unwrap();
    let e = rooms.join_at(join_req("r", PeerRole::Viewer, "v9", "fresh", Some("pw"), "2.2.2.2", 9), 301).err().unwrap();
    assert_eq!(e, "network is banned from this room");
    assert!(rooms.join_at(join_req("r", PeerRole::Viewer, "v9", "fresh", Some("pw"), "2.2.2.3", 9), 301).is_ok());
}

#[test]
fn reported_fingerprints_are_recorded_and_banned_ones_kick() {
    let mut rooms = room_with_viewer();
    let mut out: Vec<Outbound> = Vec::new();
    rooms.update_network_fingerprints_at("r", "v", vec![" cand:9.9.9.9:1 ".to_string(), "".to_string(), "cand:1.1.1.1:2".to_string()], 400, &mut out).ok().unwrap();
    assert_eq!(out.len(), 1);
    match &out[0].event {
        ServerEvent::HostPeerDetails { peers } => {
            assert_eq!(peers[1].network_fingerprints, vec!["cand:1.1.1.1:2", "cand:9.9.9.9:1", "wsip:2.2.2.2"]);
        }
        _ => panic!("expected host details"),
    }
    // ban the viewer's networks, then a new viewer reports one of them
    let mut out: Vec<Outbound> = Vec::new();
    rooms.kick_peer_at(KickRequest { room: "r".to_string(), requester_peer_id: "h".to_string(), target_peer_id: "v".to_string(), ban_client_token: false, ban_networks: true }, 401, &mut out).ok().unwrap();
    rooms.join_at(join_req("r", PeerRole::Viewer, "w", "tw", Some("pw"), "7.7.7.7", 7), 402).ok().unwrap();
    let mut out: Vec<Outbound> = Vec::new();
    rooms.update_network_fingerprints_at("r", "w", vec!["cand:9.9.9.9:1".to_string()], 403, &mut out).ok().unwrap();
    assert!(out.iter().any(|o| o.to == vec![7] && matches!(&o.event, ServerEvent::Kicked { reason } if reason == "your network fingerprint is banned in this room")));
    assert_eq!(rooms.snapshot("r").unwrap().viewer_count, 0);
    let mut out: Vec<Outbound> = Vec::new();
    assert_eq!(rooms.update_network_fingerprints_at("r", "w", vec![], 404, &mut out).err().unwrap(), "participant not found");
    assert_eq!(rooms.update_network_fingerprints_at("zz", "w", vec![], 404, &mut out).err().unwrap(), "room no longer exists");
}

#[test]
fn rename_tells_the_others() {
    let mut rooms = room_with_viewer();
    let mut out: Vec<Outbound> = Vec::new();
    let p = rooms.update_display_name_at("r", "v", "  Vera  ".to_string(), 500, &mut out).ok().unwrap();
    assert_eq!(p.display_name, "Vera");
    assert_eq!(out.len(), 2);
    assert_eq!(out[0].to, vec![1]);
    assert!(matches!(&out[0].event, ServerEvent::PeerUpdated { peer } if peer.display_name == "Vera"));
    assert_eq!(out[1].to, vec![1]);
    let p = rooms.update_display_name_at("r", "h", "".to_string(), 501, &mut out).ok().unwrap();
    assert_eq!(p.display_name, "guest-h");
    assert_eq!(rooms.update_display_name_at("r", "x", "n".to_string(), 502, &mut out).err().unwrap(), "participant not found");
}

#[test]
fn relay_finds_the_target() {
    let rooms = room_with_viewer();
    let o = rooms.relay("r", "v", ServerEvent::Error { message: "m".to_string() }).ok().unwrap();
    assert_eq!(o.to, vec![2]);
    assert_eq!(rooms.relay("r", "x", ServerEvent::Error { message: "m".to_string() }).err().unwrap(), "target peer not found");
    assert_eq!(rooms.relay("q", "v", ServerEvent::Error { message: "m".to_string() }).err().unwrap(), "room no longer exists");
}

#[test]
fn last_one_out_closes_the_room() {
    let mut rooms = room_with_viewer();
    let mut out: Vec<Outbound> = Vec::new();
    rooms.leave_at("r", PeerRole::Viewer, "nobody", 600, &mut out);
    assert!(out.is_empty());
    rooms.leave_at("r", PeerRole::Host, "v", 600, &mut out);
    assert!(out.is_empty());
    rooms.leave_at("r", PeerRole::Viewer, "v", 600, &mut out);
    assert_eq!(out.len(), 3);
    assert!(matches!(&out[0].event, ServerEvent::PeerLeft { peer_id, .. } if peer_id == "v"));
    assert_eq!(out[0].to, vec![1]);
    assert_eq!(rooms.online_count(), 1);
    let mut out: Vec<Outbound> = Vec::new();
    rooms.leave_at("r", PeerRole::Host, "h", 601, &mut out);
    assert_eq!(out.len(), 2);
    assert!(out[0].to.is_empty());
    assert!(rooms.snapshot("r").is_none());
    assert_eq!(rooms.online_count(), 0);
}

#[test]
fn join_then_leave_restores_viewers() {
    let mut rooms = room_with_viewer();
    rooms.join_at(join_req("r", PeerRole::Viewer, "n", "tn", Some("pw"), "8.8.8.8", 8), 700).ok().unwrap();
    assert_eq!(rooms.online_count(), 3);
    let mut out: Vec<Outbound> = Vec::new();
    rooms.leave_at("r", PeerRole::Viewer, "n", 701, &mut out);
    assert_eq!(rooms.online_count(), 2);
    let mut out: Vec<Outbound> = Vec::new();
    rooms.broadcast_join("r", "v", &mut out);
    assert_eq!(out[2].to, vec![1, 2]);
}

#[test]
fn session_messages() {
    let mut rooms = room_with_viewer();
    let mut out: Vec<Outbound> = Vec::new();
    assert!(handle_inbound_message(&mut rooms, "r", PeerRole::Viewer, "v", Inbound::Close, &mut out).is_err());
    assert!(matches!(handle_inbound_message(&mut rooms, "r", PeerRole::Viewer, "v", Inbound::Malformed, &mut out), Ok(None)));
    assert!(matches!(handle_inbound_message(&mut rooms, "r", PeerRole::Viewer, "v", Inbound::Event(ClientEvent::Ping), &mut out), Ok(None)));
    let relay = handle_inbound_message(&mut rooms, "r", PeerRole::Viewer, "v", Inbound::Event(ClientEvent::Offer { target: "h".to_string(), sdp: "o".to_string() }), &mut out).ok().unwrap().unwrap();
    assert_eq!(relay.to, vec![1]);
    assert!(matches!(&relay.event, ServerEvent::Signal { from, .. } if from == "v"));
    assert!(handle_inbound_message(&mut rooms, "r", PeerRole::Viewer, "v", Inbound::Event(ClientEvent::Answer { target: "zz".to_string(), sdp: "a".to_string() }), &mut out).is_err());
    assert!(out.is_empty());
    // a viewer may not set the password: the session ends
    assert!(handle_inbound_message(&mut rooms, "r", PeerRole::Viewer, "v", Inbound::Event(ClientEvent::SetJoinPassword { password: None }), &mut out).is_err());
    assert!(handle_inbound_message(&mut rooms, "r", PeerRole::Host, "h", Inbound::Event(ClientEvent::KickPeer { target: "v".to_string(), ban_client_token: false, ban_networks: false }), &mut out).is_ok());
    assert_eq!(rooms.snapshot("r").unwrap().viewer_count, 0);
    assert!(handle_inbound_message(&mut rooms, "r", PeerRole::Host, "h", Inbound::Event(ClientEvent::SetDisplayName { display_name: "Hal".to_string() }), &mut out).is_ok());
    assert!(handle_inbound_message(&mut rooms, "r", PeerRole::Host, "h", Inbound::Event(ClientEvent::ReportNetworkFingerprints { fingerprints: vec!["cand:1".to_string()] }), &mut out).is_ok());
}

#[test]
fn join_now_reads_the_clock() {
    let mut rooms = AppState::new();
    let req = join_req("r", PeerRole::Host, "h", "t", None, "1.1.1.1", 1);
    assert!(!rooms.join_is_undefined(&req));
    rooms.join(req).ok().unwrap();
    let at = rooms.snapshot("r").unwrap().updated_at_epoch;
    assert!(at + 60 >= room_server::clock::unix_now());
    let mut out: Vec<Outbound> = Vec::new();
    rooms.leave("r", PeerRole::Host, "h", &mut out);
    assert!(rooms.snapshot("r").is_none());
}

#[test]
fn join_undefined_case() {
    let rooms = AppState::new();
    let mut req = join_req("r", PeerRole::Host, "abcdefgé", "t", None, "1.1.1.1", 1);
    req.display_name = String::new();
    assert!(rooms.join_is_undefined(&req));
    req.display_name = "ok".to_string();
    assert!(!rooms.join_is_undefined(&req));
}

#[test]
fn rename_undefined_case() {
    let mut rooms = AppState::new();
    let mut req = join_req("r", PeerRole::Host, "abcdefgé", "t", None, "1.1.1.1", 1);
    req.display_name = "named".to_string();
    rooms.join_at(req, 10).ok().unwrap();
    assert!(rooms.rename_is_undefined("r", "abcdefgé", "   "));
    assert!(!rooms.rename_is_undefined("r", "abcdefgé", "x"));
    assert!(!rooms.rename_is_undefined("r", "someone", "   "));
    assert!(!rooms.rename_is_undefined("q", "abcdefgé", "   "));
    assert!(!rooms.rename_is_undefined("r", "abcdefgh", ""));
}

#[test]
fn seated_connections_follow_the_rooms() {
    let mut rooms = room_with_viewer();
    assert!(rooms.is_seated(1));
    assert!(rooms.is_seated(2));
    assert!(!rooms.is_seated(3));
    // the same viewer id again takes the place of the first connection
    rooms.join_at(join_req("r", PeerRole::Viewer, "v", "tv", Some("pw"), "2.2.2.2", 3), 102).ok().unwrap();
    assert!(!rooms.is_seated(2));
    assert!(rooms.is_seated(3));
    let mut out: Vec<Outbound> = Vec::new();
    rooms.kick_peer_at(KickRequest { room: "r".to_string(), requester_peer_id: "h".to_string(), target_peer_id: "v".to_string(), ban_client_token: false, ban_networks: false }, 103, &mut out).ok().unwrap();
    assert!(!rooms.is_seated(3));
    assert!(rooms.is_seated(1));
}

#[test]
fn plain_kick_bans_nothing() {
    let mut rooms = room_with_viewer();
    let mut out: Vec<Outbound> = Vec::new();
    rooms.kick_peer_at(KickRequest {
        room: "r".to_string(),
        requester_peer_id: "h".to_string(),
        target_peer_id: "v".to_string(),
        ban_client_token: false,
        ban_networks: false,
    }, 300, &mut out).ok().unwrap();
    assert_eq!(rooms.snapshot("r").unwrap().viewer_count, 0);
    assert!(rooms.join_at(join_req("r", PeerRole::Viewer, "v", "tv", Some("pw"), "2.2.2.2", 5), 301).is_ok());
}
