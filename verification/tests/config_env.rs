use room_server::config::{
    csv_required, csv_string, env_bool, env_string, env_u64, env_usize, normalize_path,
    option_string, parse_turn, Config, ConfigError, TurnConfig,
};
use room_server::env::Env;

fn env_of(pairs: &[(&str, &str)]) -> Env {
    let mut env = Env::new();
    for (k, v) in pairs {
        env.set(k.to_string(), v.to_string());
    }
    env
}

#[test]
fn env_get_takes_the_last_setting() {
    let env = env_of(&[("A", "1"), ("B", "2"), ("A", "3")]);
    assert_eq!(env.get("A"), Some("3".to_string()));
    assert_eq!(env.get("B"), Some("2".to_string()));
    assert_eq!(env.get("C"), None);
}

#[test]
fn env_string_falls_back_to_default() {
    let env = env_of(&[("X", "value")]);
    assert_eq!(env_string(&env, "X", "d"), "value");
    assert_eq!(env_string(&env, "Y", "d"), "d");
}

#[test]
fn option_string_blank_is_none() {
    let env = env_of(&[("A", "   "), ("B", " x ")]);
    assert_eq!(option_string(&env, "A", ""), None);
    assert_eq!(option_string(&env, "B", ""), Some(" x ".to_string()));
    assert_eq!(option_string(&env, "C", ""), None);
    assert_eq!(option_string(&env, "C", "dflt"), Some("dflt".to_string()));
}

#[test]
fn csv_string_trims_and_drops_empty_items() {
    let env = env_of(&[("L", " a, ,b ,,\tc\n")]);
    assert_eq!(csv_string(&env, "L", ""), vec!["a", "b", "c"]);
    assert_eq!(csv_string(&env, "M", ""), Vec::<String>::new());
    assert_eq!(
        csv_string(&env, "M", "stun:stun.l.google.com:19302"),
        vec!["stun:stun.l.google.com:19302"]
    );
}

#[test]
fn csv_required_needs_an_item() {
    let env = env_of(&[("L", " , ")]);
    match csv_required(&env, "L", "") {
        Err(e) => assert_eq!(e.message(), "L is required"),
        Ok(_) => panic!("expected an error"),
    }
    let env = env_of(&[("L", "turn:a:3478")]);
    assert_eq!(csv_required(&env, "L", "").ok().unwrap(), vec!["turn:a:3478"]);
}

#[test]
fn env_bool_reads_true_words() {
    let env = env_of(&[
        ("A", " TRUE "),
        ("B", "yes"),
        ("C", "On"),
        ("D", "1"),
        ("E", "0"),
        ("F", "enabled"),
    ]);
    assert!(env_bool(&env, "A", false));
    assert!(env_bool(&env, "B", false));
    assert!(env_bool(&env, "C", false));
    assert!(env_bool(&env, "D", false));
    assert!(!env_bool(&env, "E", true));
    assert!(!env_bool(&env, "F", true));
    assert!(env_bool(&env, "G", true));
    assert!(!env_bool(&env, "G", false));
}

#[test]
fn env_integers_parse_like_str_parse() {
    let env = env_of(&[
        ("A", " 42 "),
        ("B", "+7"),
        ("C", "-1"),
        ("D", "18446744073709551615"),
        ("E", "18446744073709551616"),
        ("F", ""),
        ("G", "+"),
        ("H", "1x"),
    ]);
    assert_eq!(env_u64(&env, "A", 0).ok(), Some(42));
    assert_eq!(env_u64(&env, "B", 0).ok(), Some(7));
    assert!(env_u64(&env, "C", 0).is_err());
    assert_eq!(env_u64(&env, "D", 0).ok(), Some(u64::MAX));
    assert!(env_u64(&env, "E", 0).is_err());
    assert!(env_u64(&env, "F", 0).is_err());
    assert!(env_u64(&env, "G", 0).is_err());
    assert!(env_u64(&env, "H", 0).is_err());
    assert_eq!(env_u64(&env, "Z", 3600).ok(), Some(3600));
    assert_eq!(env_usize(&env, "A", 0).ok(), Some(42));
    match env_usize(&env, "H", 0) {
        Err(e) => assert_eq!(e.message(), "H must be a valid positive integer"),
        Ok(_) => panic!("expected an error"),
    }
    for (text, _) in [("A", 0)] {
        assert_eq!(env_usize(&env, text, 1).ok(), " 42 ".trim().parse::<usize>().ok());
    }
}

#[test]
fn normalize_path_cases() {
    assert_eq!(normalize_path("".to_string()), "/backend");
    assert_eq!(normalize_path("   ".to_string()), "/backend");
    assert_eq!(normalize_path("/backend/".to_string()), "/backend");
    assert_eq!(normalize_path(" api// ".to_string()), "/api");
    assert_eq!(normalize_path("/a/b".to_string()), "/a/b");
    assert_eq!(normalize_path("/".to_string()), "");
}

#[test]
fn parse_turn_modes() {
    assert!(matches!(parse_turn(&Env::new()), Ok(TurnConfig::Disabled)));
    assert!(matches!(
        parse_turn(&env_of(&[("ROOM_TURN_MODE", "")])),
        Ok(TurnConfig::Disabled)
    ));
    match parse_turn(&env_of(&[("ROOM_TURN_MODE", "static")])) {
        Err(ConfigError::Required { name }) => assert_eq!(name, "ROOM_TURN_URLS"),
        _ => panic!("expected a missing-URL error"),
    }
    match parse_turn(&env_of(&[
        ("ROOM_TURN_MODE", "static"),
        ("ROOM_TURN_URLS", "turn:a:3478, turns:a:5349"),
        ("ROOM_TURN_USERNAME", "u"),
        ("ROOM_TURN_PASSWORD", "p"),
    ])) {
        Ok(TurnConfig::Static { urls, username, credential }) => {
            assert_eq!(urls, vec!["turn:a:3478", "turns:a:5349"]);
            assert_eq!(username, "u");
            assert_eq!(credential, "p");
        }
        _ => panic!("expected static TURN"),
    }
    match parse_turn(&env_of(&[("ROOM_TURN_MODE", "coturnrest"), ("ROOM_TURN_URLS", "turn:x")])) {
        Ok(TurnConfig::Coturnrest { urls, secret, ttlseconds }) => {
            assert_eq!(urls, vec!["turn:x"]);
            assert_eq!(secret, "");
            assert_eq!(ttlseconds, 3600);
        }
        _ => panic!("expected coturnrest"),
    }
    match parse_turn(&env_of(&[
        ("ROOM_TURN_MODE", "coturnrest"),
        ("ROOM_TURN_URLS", "turn:x"),
        ("ROOM_TURN_TTLSECONDS", "soon"),
    ])) {
        Err(e) => assert_eq!(e.message(), "ROOM_TURN_TTLSECONDS must be a valid positive integer"),
        Ok(_) => panic!("expected an error"),
    }
    match parse_turn(&env_of(&[("ROOM_TURN_MODE", "Static")])) {
        Err(e) => assert_eq!(e.message(), "unsupported ROOM_TURN_MODE: Static"),
        Ok(_) => panic!("expected an error"),
    }
}

#[test]
fn config_defaults() {
    let c = Config::from_env(&Env::new()).ok().unwrap();
    assert_eq!(c.server.listen, "0.0.0.0:38080");
    assert!(!c.server.originany);
    assert_eq!(c.server.maxonline, 200);
    assert_eq!(c.web.publicbase, None);
    assert_eq!(c.web.staticdir, "../client/dist");
    assert_eq!(c.web.backendbase, "/backend");
    assert_eq!(
        c.ice.stunurls,
        vec![
            "stun:stun.l.google.com:19302",
            "stun:stun1.l.google.com:19302",
            "stun:stun2.l.google.com:19302",
            "stun:stun.cloudflare.com:3478",
        ]
    );
    assert_eq!(c.ice.turnurls.len(), 3);
    assert!(matches!(c.turn, TurnConfig::Disabled));
    assert_eq!(c.log.filter, "room_server=info,tower_http=info");
}

#[test]
fn config_reads_variables() {
    let env = env_of(&[
        ("ROOM_SERVER_LISTEN", "127.0.0.1:9000"),
        ("ROOM_SERVER_ORIGINANY", "on"),
        ("ROOM_SERVER_MAXONLINE", "5"),
        ("ROOM_WEB_PUBLICBASE", "https://share.example.com"),
        ("ROOM_WEB_BACKENDBASE", "api/"),
        ("ROOM_ICE_STUNURLS", ""),
        ("ROOM_LOG_FILTER", "debug"),
    ]);
    let c = Config::from_env(&env).ok().unwrap();
    assert_eq!(c.server.listen, "127.0.0.1:9000");
    assert!(c.server.originany);
    assert_eq!(c.server.maxonline, 5);
    assert_eq!(c.web.publicbase, Some("https://share.example.com".to_string()));
    assert_eq!(c.web.backendbase, "/api");
    assert_eq!(c.ice.stunurls.len(), 4);
    assert_eq!(c.log.filter, "debug");
}

#[test]
fn config_error_order() {
    let env = env_of(&[("ROOM_SERVER_MAXONLINE", "many"), ("ROOM_TURN_MODE", "bogus")]);
    match Config::from_env(&env) {
        Err(e) => assert_eq!(e.message(), "ROOM_SERVER_MAXONLINE must be a valid positive integer"),
        Ok(_) => panic!("expected an error"),
    }
    let env = env_of(&[("ROOM_TURN_MODE", "bogus")]);
    match Config::from_env(&env) {
        Err(e) => assert_eq!(e.message(), "unsupported ROOM_TURN_MODE: bogus"),
        Ok(_) => panic!("expected an error"),
    }
}

#[test]
fn normalize_path_twice_is_once() {
    for p in ["api", "/api/", "a/b//", "/x", "backend"] {
        let once = normalize_path(p.to_string());
        assert_eq!(normalize_path(once.clone()), once, "{p}");
    }
    // the law leaves out paths that are only slashes
    assert_eq!(normalize_path("/".to_string()), "");
    assert_eq!(normalize_path(String::new()), "/backend");
}
