use room_server::env::Env;
use room_server::turn::build_config;

fn env_of(pairs: &[(&str, &str)]) -> Env {
    let mut env = Env::new();
    for (k, v) in pairs {
        env.set(k.to_string(), v.to_string());
    }
    env
}

#[test]
fn turn_defaults() {
    let s = build_config(&Env::new());
    assert_eq!(s.realm, "sharedesk");
    assert_eq!(s.listen, "0.0.0.0:3478");
    assert_eq!(s.external, "0.0.0.0:3478");
    assert_eq!(s.port_range, Some((49152, 49200)));
    assert!(s.static_credentials.is_empty());
    assert_eq!(s.static_auth_secret, None);
}

#[test]
fn turn_reads_variables() {
    let s = build_config(&env_of(&[
        ("ROOM_TURN_LISTEN", "0.0.0.0:4000"),
        ("ROOM_TURN_USERNAME", "u"),
        ("ROOM_TURN_PASSWORD", "p"),
        ("ROOM_TURN_SECRET", "s"),
        ("ROOM_TURN_PORTRANGE", "50000..50010"),
    ]));
    assert_eq!(s.external, "0.0.0.0:4000");
    assert_eq!(s.port_range, Some((50000, 50010)));
    assert_eq!(s.static_credentials.len(), 1);
    assert_eq!(s.static_credentials[0].username, "u");
    assert_eq!(s.static_credentials[0].password, "p");
    assert_eq!(s.static_auth_secret.as_deref(), Some("s"));
}

#[test]
fn turn_credentials_need_both_parts() {
    let s = build_config(&env_of(&[("ROOM_TURN_USERNAME", "u"), ("ROOM_TURN_PASSWORD", ""), ("ROOM_TURN_SECRET", "")]));
    assert!(s.static_credentials.is_empty());
    assert_eq!(s.static_auth_secret, None);
}

#[test]
fn turn_port_range_must_parse() {
    for bad in ["49152-49200", "a..b", "1..70000", "..", ""] {
        assert!(build_config(&env_of(&[("ROOM_TURN_PORTRANGE", bad)])).port_range.is_none(), "{bad}");
    }
    assert!(build_config(&env_of(&[("ROOM_TURN_PORTRANGE", "1..2..3")])).port_range.is_none());
    assert_eq!(build_config(&env_of(&[("ROOM_TURN_PORTRANGE", "+1..2")])).port_range, Some((1, 2)));
    assert_eq!(build_config(&env_of(&[("ROOM_TURN_PORTRANGE", "900..80")])).port_range, Some((900, 80)));
}
