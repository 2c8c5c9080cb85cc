//! Settings of the TURN/STUN service, read from `ROOM_TURN_*` variables.
use turn_server::service::session::ports::PortRange;
use vstd::prelude::*;

use crate::config::{env_string, env_text};
use crate::env::Env;
use crate::text::parse_unsigned;

verus! {

/// `..` stands at position `i` of `s`.
pub open spec fn dots_at(s: Seq<char>, i: int) -> bool {
    0 <= i && i + 1 < s.len() && s[i] == '.' && s[i + 1] == '.'
}

/// Position `i` holds the first `..` of `s`.
pub open spec fn first_dots(s: Seq<char>, i: int) -> bool {
    dots_at(s, i) && forall|j: int| 0 <= j < i ==> !dots_at(s, j)
}

/// The bounds that a port range text such as `49152..49200` spells: the text
/// before the first `..` and the text after it, each an unsigned 16-bit number.
pub open spec fn port_range_bounds(s: Seq<char>) -> Option<(nat, nat)> {
    if exists|i: int| first_dots(s, i) {
        let i = choose|i: int| first_dots(s, i);
        match (parse_unsigned(s.take(i), 65535), parse_unsigned(s.skip(i + 2), 65535)) {
            (Some(a), Some(b)) => Some((a, b)),
            _ => None,
        }
    } else {
        None
    }
}

/// `PortRange::from_str` of the `turn-server` crate, read back through its
/// `start` and `end` accessors: the text is split at its first `..` and each
/// side parsed as a `u16`; any failure gives `None`.
#[verifier::external_body]
fn parse_port_range(text: &str) -> (r: Option<(u16, u16)>)
    ensures
        match r {
            Some((start, end)) => port_range_bounds(text@) == Some((start as nat, end as nat)),
            None => port_range_bounds(text@) is None,
        },
{
    match <PortRange as std::str::FromStr>::from_str(text) {
        Ok(range) => Some((range.start(), range.end())),
        Err(_) => None,
    }
}

/// A user name and password that the TURN service accepts.
pub struct StaticCredential {
    pub username: String,
    pub password: String,
}

/// What the TURN service is started with. Socket addresses are kept as text,
/// for the program that binds them to parse.
pub struct TurnSettings {
    pub realm: String,
    pub listen: String,
    pub external: String,
    /// The first and last port of the relay range, or `None` where its text
    /// is no port range. `None` is an error of the configuration, which the
    /// program that starts the relay reports after it has checked the two
    /// socket addresses, as those are read first.
    pub port_range: Option<(u16, u16)>,
    pub static_credentials: Vec<StaticCredential>,
    pub static_auth_secret: Option<String>,
}

/// The value of variable `name` where it is set and not empty.
pub open spec fn env_nonempty(env: &Env, name: Seq<char>) -> Option<Seq<char>> {
    match env.var(name) {
        Some(v) => if v.len() > 0 {
            Some(v)
        } else {
            None
        },
        None => None,
    }
}

/// The value of variable `name` where it is set and not empty.
fn env_nonempty_string(env: &Env, name: &str) -> (r: Option<String>)
    ensures
        r.deep_view() == env_nonempty(env, name@),
{
    match env.get(name) {
        Some(v) => if v.as_str().is_empty() {
            None
        } else {
            Some(v)
        },
        None => None,
    }
}

/// The settings that the `ROOM_TURN_*` variables select: realm `sharedesk`,
/// listening on `0.0.0.0:3478` and announcing the listening address unless
/// told otherwise, ports `49152..49200`, a static credential where both user
/// name and password are set and not empty, and a REST secret where set and
/// not empty.
pub fn build_config(env: &Env) -> (s: TurnSettings)
    ensures
        s.realm@ == env_text(env, "ROOM_TURN_REALM"@, "sharedesk"@),
        s.listen@ == env_text(env, "ROOM_TURN_LISTEN"@, "0.0.0.0:3478"@),
        s.external@ == env_text(
            env,
            "ROOM_TURN_EXTERNAL"@,
            env_text(env, "ROOM_TURN_LISTEN"@, "0.0.0.0:3478"@),
        ),
        match s.port_range {
            Some((start, end)) => port_range_bounds(
                env_text(env, "ROOM_TURN_PORTRANGE"@, "49152..49200"@),
            ) == Some((start as nat, end as nat)),
            None => port_range_bounds(env_text(env, "ROOM_TURN_PORTRANGE"@, "49152..49200"@)) is None,
        },
        match (env_nonempty(env, "ROOM_TURN_USERNAME"@), env_nonempty(env, "ROOM_TURN_PASSWORD"@)) {
            (Some(u), Some(p)) => s.static_credentials@.len() == 1
                && s.static_credentials@[0].username@ == u && s.static_credentials@[0].password@
                == p,
            _ => s.static_credentials@.len() == 0,
        },
        s.static_auth_secret.deep_view() == env_nonempty(env, "ROOM_TURN_SECRET"@),
{
    let realm = env_string(env, "ROOM_TURN_REALM", "sharedesk");
    let listen = env_string(env, "ROOM_TURN_LISTEN", "0.0.0.0:3478");
    let listen_default = env_string(env, "ROOM_TURN_LISTEN", "0.0.0.0:3478");
    let external = env_string(env, "ROOM_TURN_EXTERNAL", listen_default.as_str());
    let range_text = env_string(env, "ROOM_TURN_PORTRANGE", "49152..49200");
    let port_range = parse_port_range(range_text.as_str());
    let mut static_credentials: Vec<StaticCredential> = Vec::new();
    match (env_nonempty_string(env, "ROOM_TURN_USERNAME"), env_nonempty_string(env, "ROOM_TURN_PASSWORD")) {
        (Some(username), Some(password)) => {
            static_credentials.push(StaticCredential { username, password });
        },
        _ => {},
    }
    TurnSettings {
        realm,
        listen,
        external,
        port_range,
        static_credentials,
        static_auth_secret: env_nonempty_string(env, "ROOM_TURN_SECRET"),
    }
}

} // verus!
