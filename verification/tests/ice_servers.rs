use room_server::config::{Config, TurnConfig};
use room_server::env::Env;
use room_server::signaling::{ice_config, IceQuery};

fn base_config() -> Config {
    Config::from_env(&Env::new()).ok().unwrap()
}

const BUILTIN_STUN: [&str; 4] = [
    "stun:stun.l.google.com:19302",
    "stun:stun1.l.google.com:19302",
    "stun:stun2.l.google.com:19302",
    "stun:stun.cloudflare.com:3478",
];

const BUILTIN_TURN: [&str; 3] = [
    "turn:openrelay.metered.ca:80",
    "turn:openrelay.metered.ca:443",
    "turn:openrelay.metered.ca:443?transport=tcp",
];

#[test]
fn public_stun_and_turn_when_turn_disabled() {
    let c = base_config();
    let servers = c.ice_servers_at("room1", "viewer", 1_000_000);
    assert_eq!(servers.len(), 2);
    assert_eq!(servers[0].urls, BUILTIN_STUN.to_vec());
    assert_eq!(servers[0].username, None);
    assert_eq!(servers[0].credential, None);
    assert_eq!(servers[1].urls, BUILTIN_TURN.to_vec());
    assert_eq!(servers[1].username.as_deref(), Some("openrelayproject"));
    assert_eq!(servers[1].credential.as_deref(), Some("openrelayproject"));
}

#[test]
fn configured_urls_are_appended_to_the_built_in_ones() {
    let mut env = Env::new();
    env.set("ROOM_ICE_STUNURLS".to_string(), "stun:x:3478, ,stun:y:3478".to_string());
    env.set("ROOM_TURN_URLS".to_string(), "turn:z:3478".to_string());
    let c = Config::from_env(&env).ok().unwrap();
    let mut stun = BUILTIN_STUN.to_vec();
    stun.push("stun:x:3478");
    stun.push("stun:y:3478");
    let mut turn = BUILTIN_TURN.to_vec();
    turn.push("turn:z:3478");
    let servers = c.ice_servers_at("r", "host", 0);
    assert_eq!(servers.len(), 2);
    assert_eq!(servers[0].urls, stun);
    assert_eq!(servers[1].urls, turn);
}

#[test]
fn no_entries_without_urls() {
    let mut c = base_config();
    c.ice.stunurls = Vec::new();
    c.ice.turnurls = Vec::new();
    assert!(c.ice_servers_at("r", "host", 0).is_empty());
}

#[test]
fn static_turn_credentials() {
    let mut c = base_config();
    c.turn = TurnConfig::Static {
        urls: vec!["turn:t.example:3478".to_string()],
        username: "user".to_string(),
        credential: "pass".to_string(),
    };
    let servers = c.ice_servers_at("room1", "host", 5);
    assert_eq!(servers.len(), 2);
    assert_eq!(servers[1].urls, vec!["turn:t.example:3478"]);
    assert_eq!(servers[1].username.as_deref(), Some("user"));
    assert_eq!(servers[1].credential.as_deref(), Some("pass"));
}

#[test]
fn turn_rest_credentials_are_hmac_sha1_base64() {
    let mut c = base_config();
    c.turn = TurnConfig::Coturnrest {
        urls: vec!["turn:t.example:3478".to_string()],
        secret: "secret".to_string(),
        ttlseconds: 3600,
    };
    let servers = c.ice_servers_at("room1", "viewer", 1_000_000);
    assert_eq!(servers.len(), 2);
    assert_eq!(servers[1].username.as_deref(), Some("1003600:room1:viewer"));
    assert_eq!(servers[1].credential.as_deref(), Some("G5We/wxi+Yx4HmYkpc5LgSKtzZE="));
}

#[test]
fn turn_rest_expiry_wraps_like_release_arithmetic() {
    let mut c = base_config();
    c.turn = TurnConfig::Coturnrest { urls: vec!["turn:x".to_string()], secret: String::new(), ttlseconds: u64::MAX };
    let servers = c.ice_servers_at("r", "host", 2);
    assert_eq!(servers[1].username.as_deref(), Some("1:r:host"));
}

#[test]
fn ice_config_defaults_room_and_role() {
    let mut c = base_config();
    c.ice.stunurls = Vec::new();
    c.turn = TurnConfig::Coturnrest { urls: vec!["turn:x".to_string()], secret: String::new(), ttlseconds: 3600 };
    let servers = ice_config(&c, IceQuery { room: None, role: None });
    assert_eq!(servers.len(), 1);
    let user = servers[0].username.clone().unwrap();
    assert!(user.ends_with(":public:viewer"));
    let expiry: u64 = user.split(':').next().unwrap().parse().unwrap();
    assert!(expiry >= 3600);
    let servers = ice_config(&c, IceQuery { room: Some("abc".to_string()), role: Some("host".to_string()) });
    assert!(servers[0].username.clone().unwrap().ends_with(":abc:host"));
}

#[test]
fn turn_rest_vector_with_empty_secret() {
    let mut c = base_config();
    c.ice.stunurls = Vec::new();
    c.turn = TurnConfig::Coturnrest { urls: vec!["turn:x".to_string()], secret: String::new(), ttlseconds: 3600 };
    let servers = c.ice_servers_at("public", "viewer", 0);
    assert_eq!(servers[0].username.as_deref(), Some("3600:public:viewer"));
    assert_eq!(servers[0].credential.as_deref(), Some("Tu84or7lLOdISLVPCBaQEiGAkHA="));
}

#[test]
fn ice_servers_uses_the_clock() {
    let mut c = base_config();
    c.turn = TurnConfig::Coturnrest { urls: vec!["turn:x".to_string()], secret: "s".to_string(), ttlseconds: 10 };
    let servers = c.ice_servers("r", "viewer");
    let user = servers[1].username.clone().unwrap();
    let expiry: u64 = user.split(':').next().unwrap().parse().unwrap();
    let now = room_server::clock::unix_now();
    assert!(expiry <= now + 10 && expiry + 60 >= now + 10);
}
