use room_server::rooms::AppState;
use room_server::config::{Config, ServerConfig};
use room_server::env::Env;
use room_server::room::PeerRole;
use room_server::signaling::{
    is_valid_room, normalized_client_token, origin_allowed, parse_role, role_name, welcome_event,
    ws_handler, RequestHeaders, WsQuery,
};

fn is_uuid(s: &str) -> bool {
    s.len() == 36
        && s.chars().enumerate().all(|(i, c)| {
            if [8, 13, 18, 23].contains(&i) {
                c == '-'
            } else {
                c.is_ascii_hexdigit() && !c.is_ascii_uppercase()
            }
        })
        && s.as_bytes()[14] == b'4'
}

#[test]
fn roles_parse() {
    assert_eq!(parse_role("host"), Ok(PeerRole::Host));
    assert_eq!(parse_role("viewer"), Ok(PeerRole::Viewer));
    assert_eq!(parse_role("Host"), Err("role must be host or viewer"));
    assert_eq!(parse_role(""), Err("role must be host or viewer"));
    assert_eq!(parse_role(role_name(PeerRole::Host)), Ok(PeerRole::Host));
    assert_eq!(parse_role(role_name(PeerRole::Viewer)), Ok(PeerRole::Viewer));
}

#[test]
fn room_ids() {
    assert!(is_valid_room("abc-DEF_123"));
    assert!(!is_valid_room(""));
    assert!(is_valid_room(&"a".repeat(64)));
    assert!(!is_valid_room(&"a".repeat(65)));
    assert!(!is_valid_room("a b"));
    assert!(!is_valid_room("é"));
    assert!(!is_valid_room("a/b"));
}

fn headers(origin: Option<&str>, host: Option<&str>) -> RequestHeaders {
    RequestHeaders { origin: origin.map(str::to_string), host: host.map(str::to_string) }
}

#[test]
fn origin_checks() {
    assert!(origin_allowed(&headers(Some("http://evil.example"), Some("good.example")), true));
    assert!(origin_allowed(&headers(None, Some("good.example")), false));
    assert!(!origin_allowed(&headers(Some("http://good.example"), None), false));
    assert!(origin_allowed(&headers(Some("https://Share.Example.com"), Some("share.example.COM")), false));
    assert!(origin_allowed(&headers(Some("http://a.example:8080"), Some("a.example:8080")), false));
    assert!(!origin_allowed(&headers(Some("http://a.example:8080"), Some("a.example")), false));
    assert!(!origin_allowed(&headers(Some("http://evil.example"), Some("good.example")), false));
    assert!(!origin_allowed(&headers(Some("null"), Some("good.example")), false));
    assert!(!origin_allowed(&headers(Some("http://bad host"), Some("bad host")), false));
}

#[test]
fn client_tokens() {
    assert_eq!(normalized_client_token(Some("ab c!d-_9".to_string())), "abcd-_9");
    assert_eq!(normalized_client_token(Some("x".repeat(80))), "x".repeat(64));
    assert!(is_uuid(&normalized_client_token(Some("!!!".to_string()))));
    assert!(is_uuid(&normalized_client_token(None)));
    assert_ne!(normalized_client_token(None), normalized_client_token(None));
}

fn server(maxonline: usize, originany: bool) -> ServerConfig {
    ServerConfig { listen: "0.0.0.0:0".to_string(), originany, maxonline }
}

fn query() -> WsQuery {
    WsQuery { peer_id: None, client_token: None, display_name: None, password: None }
}

#[test]
fn ws_handler_rejections() {
    let rooms = AppState::new();
    let h = headers(None, None);
    let e = ws_handler(&server(10, false), &rooms, "r1".to_string(), "admin", query(), "1.2.3.4".to_string(), &h, 1).err().unwrap();
    assert_eq!((e.status, e.message.as_str()), (400, "role must be host or viewer"));
    let e = ws_handler(&server(10, false), &rooms, "bad room".to_string(), "host", query(), "1.2.3.4".to_string(), &h, 1).err().unwrap();
    assert_eq!((e.status, e.message.as_str()), (400, "invalid room id"));
    let bad = headers(Some("http://evil.example"), Some("good.example"));
    let e = ws_handler(&server(10, false), &rooms, "r1".to_string(), "host", query(), "1.2.3.4".to_string(), &bad, 1).err().unwrap();
    assert_eq!((e.status, e.message.as_str()), (403, "origin not allowed"));
    let e = ws_handler(&server(0, false), &rooms, "r1".to_string(), "host", query(), "1.2.3.4".to_string(), &h, 1).err().unwrap();
    assert_eq!((e.status, e.message.as_str()), (429, "room service is full"));
}

#[test]
fn ws_handler_builds_join_request() {
    let rooms = AppState::new();
    let h = headers(None, None);
    let q = WsQuery {
        peer_id: Some("peer-1".to_string()),
        client_token: Some("tok en".to_string()),
        display_name: Some("Bob".to_string()),
        password: Some(String::new()),
    };
    let req = ws_handler(&server(10, false), &rooms, "r1".to_string(), "viewer", q, "10.0.0.2".to_string(), &h, 9).ok().unwrap();
    assert_eq!(req.room, "r1");
    assert_eq!(req.role, PeerRole::Viewer);
    assert_eq!(req.peer_id, "peer-1");
    assert_eq!(req.client_token, "token");
    assert_eq!(req.display_name, "Bob");
    assert_eq!(req.password, None);
    assert_eq!(req.remote_addr.as_deref(), Some("10.0.0.2"));
    assert_eq!(req.conn, 9);
    let req = ws_handler(&server(10, false), &rooms, "r1".to_string(), "host", query(), "::1".to_string(), &h, 3).ok().unwrap();
    assert!(is_uuid(&req.peer_id));
    assert!(is_uuid(&req.client_token));
    assert_eq!(req.display_name, "");
}

#[test]
fn welcome_carries_join_result_and_ice_servers() {
    let config = Config::from_env(&Env::new()).ok().unwrap();
    let mut rooms = AppState::new();
    let h = headers(None, None);
    let req = ws_handler(&config.server, &rooms, "r1".to_string(), "host", WsQuery { peer_id: Some("h1".to_string()), ..query() }, "1.1.1.1".to_string(), &h, 1).ok().unwrap();
    let join = rooms.join(req).ok().unwrap();
    match welcome_event(&config, "r1", "h1", PeerRole::Host, join) {
        room_server::room::ServerEvent::Welcome { peer_id, room, role, host_present, viewer_count, self_display_name, ice_servers, host_peer_details, .. } => {
            assert_eq!(peer_id, "h1");
            assert_eq!(room, "r1");
            assert_eq!(role, PeerRole::Host);
            assert!(host_present);
            assert_eq!(viewer_count, 0);
            assert_eq!(self_display_name, "guest-h1");
            assert_eq!(ice_servers.len(), 2);
            assert_eq!(host_peer_details.unwrap().len(), 1);
        }
        _ => panic!("expected a welcome"),
    }
}
