//! Service configuration read from `ROOM_*` environment variables, and the ICE
//! servers handed to browsers.
use vstd::prelude::*;
use vstd::utf8::encode_utf8;

use crate::crypto::{base64_encode, base64_standard, hmac_sha1, hmac_sha1_tag};
use crate::env::Env;
use crate::text::{
    chars_eq, chars_of, lower, text_eq, lower_chars, parse_unsigned, parse_unsigned_chars, split_on, string_of,
    decimal, push_decimal, trim, trim_chars, trim_end_char, trim_end_char_chars, trimmed,
};

verus! {

// ---------------------------------------------------------------------------
// Configuration types
// ---------------------------------------------------------------------------

/// Listener settings. `listen` holds the socket address as text; the program
/// that binds it parses it.
pub struct ServerConfig {
    pub listen: String,
    pub originany: bool,
    pub maxonline: usize,
}

/// Web settings. `staticdir` holds a file-system path as text.
pub struct WebConfig {
    pub publicbase: Option<String>,
    pub staticdir: String,
    pub backendbase: String,
}

pub struct IceConfig {
    /// The STUN servers: the built-in ones, then those configured.
    pub stunurls: Vec<String>,
    /// The public TURN servers offered while no TURN service of one's own is
    /// configured: the built-in ones, then those configured.
    pub turnurls: Vec<String>,
}

pub enum TurnConfig {
    Disabled,
    Static { urls: Vec<String>, username: String, credential: String },
    Coturnrest { urls: Vec<String>, secret: String, ttlseconds: u64 },
}

pub struct LogConfig {
    pub filter: String,
}

pub struct Config {
    pub server: ServerConfig,
    pub web: WebConfig,
    pub ice: IceConfig,
    pub turn: TurnConfig,
    pub log: LogConfig,
}

pub struct ServerConfigView {
    pub listen: Seq<char>,
    pub originany: bool,
    pub maxonline: usize,
}

pub struct WebConfigView {
    pub publicbase: Option<Seq<char>>,
    pub staticdir: Seq<char>,
    pub backendbase: Seq<char>,
}

pub enum TurnConfigView {
    Disabled,
    Static { urls: Seq<Seq<char>>, username: Seq<char>, credential: Seq<char> },
    Coturnrest { urls: Seq<Seq<char>>, secret: Seq<char>, ttlseconds: u64 },
}

pub struct ConfigView {
    pub server: ServerConfigView,
    pub web: WebConfigView,
    pub stunurls: Seq<Seq<char>>,
    pub turnurls: Seq<Seq<char>>,
    pub turn: TurnConfigView,
    pub log_filter: Seq<char>,
}

impl View for TurnConfig {
    type V = TurnConfigView;

    open spec fn view(&self) -> TurnConfigView {
        match self {
            TurnConfig::Disabled => TurnConfigView::Disabled,
            TurnConfig::Static { urls, username, credential } => TurnConfigView::Static {
                urls: urls.deep_view(),
                username: username@,
                credential: credential@,
            },
            TurnConfig::Coturnrest { urls, secret, ttlseconds } => TurnConfigView::Coturnrest {
                urls: urls.deep_view(),
                secret: secret@,
                ttlseconds: *ttlseconds,
            },
        }
    }
}

impl View for Config {
    type V = ConfigView;

    open spec fn view(&self) -> ConfigView {
        ConfigView {
            server: ServerConfigView {
                listen: self.server.listen@,
                originany: self.server.originany,
                maxonline: self.server.maxonline,
            },
            web: WebConfigView {
                publicbase: self.web.publicbase.deep_view(),
                staticdir: self.web.staticdir@,
                backendbase: self.web.backendbase@,
            },
            stunurls: self.ice.stunurls.deep_view(),
            turnurls: self.ice.turnurls.deep_view(),
            turn: self.turn@,
            log_filter: self.log.filter@,
        }
    }
}

/// One entry of the `iceServers` list of a WebRTC configuration.
pub struct IceServer {
    pub urls: Vec<String>,
    pub username: Option<String>,
    pub credential: Option<String>,
}

pub struct IceServerView {
    pub urls: Seq<Seq<char>>,
    pub username: Option<Seq<char>>,
    pub credential: Option<Seq<char>>,
}

impl View for IceServer {
    type V = IceServerView;

    open spec fn view(&self) -> IceServerView {
        IceServerView {
            urls: self.urls.deep_view(),
            username: self.username.deep_view(),
            credential: self.credential.deep_view(),
        }
    }
}

/// Why the configuration cannot be built.
pub enum ConfigError {
    /// The variable holds no valid unsigned integer.
    InvalidInteger { name: String },
    /// The variable names no item, though the chosen mode needs one.
    Required { name: String },
    /// `ROOM_TURN_MODE` names no known mode.
    UnsupportedTurnMode { mode: String },
}

pub enum ConfigErrorView {
    InvalidInteger { name: Seq<char> },
    Required { name: Seq<char> },
    UnsupportedTurnMode { mode: Seq<char> },
}

impl View for ConfigError {
    type V = ConfigErrorView;

    open spec fn view(&self) -> ConfigErrorView {
        match self {
            ConfigError::InvalidInteger { name } => ConfigErrorView::InvalidInteger { name: name@ },
            ConfigError::Required { name } => ConfigErrorView::Required { name: name@ },
            ConfigError::UnsupportedTurnMode { mode } => ConfigErrorView::UnsupportedTurnMode {
                mode: mode@,
            },
        }
    }
}

impl ConfigError {
    /// The message that explains the error.
    pub fn message(&self) -> (m: String)
        ensures
            m@ == match self@ {
                ConfigErrorView::InvalidInteger { name } => name
                    + " must be a valid positive integer"@,
                ConfigErrorView::Required { name } => name + " is required"@,
                ConfigErrorView::UnsupportedTurnMode { mode } => "unsupported ROOM_TURN_MODE: "@
                    + mode,
            },
    {
        match self {
            ConfigError::InvalidInteger { name } => {
                let m = name.clone();
                m.concat(" must be a valid positive integer")
            },
            ConfigError::Required { name } => {
                let m = name.clone();
                m.concat(" is required")
            },
            ConfigError::UnsupportedTurnMode { mode } => {
                let m = String::from_str("unsupported ROOM_TURN_MODE: ");
                m.concat(mode.as_str())
            },
        }
    }
}

// ---------------------------------------------------------------------------
// Reading variables
// ---------------------------------------------------------------------------

/// The value of `name`, or `default` where it is not set.
pub open spec fn env_text(env: &Env, name: Seq<char>, default: Seq<char>) -> Seq<char> {
    match env.var(name) {
        Some(v) => v,
        None => default,
    }
}

/// `None` for a value that is blank once trimmed, else the value as it stands.
pub open spec fn optional_text(v: Seq<char>) -> Option<Seq<char>> {
    if trim(v).len() == 0 {
        None
    } else {
        Some(v)
    }
}

/// The items of `s` that are not empty, in order.
pub open spec fn nonempty_items(s: Seq<Seq<char>>) -> Seq<Seq<char>>
    decreases s.len(),
{
    if s.len() == 0 {
        s
    } else if s.last().len() > 0 {
        nonempty_items(s.drop_last()).push(s.last())
    } else {
        nonempty_items(s.drop_last())
    }
}

/// The comma-separated items of `v`, each trimmed, the empty ones left out.
pub open spec fn csv_items(v: Seq<char>) -> Seq<Seq<char>> {
    nonempty_items(split_on(v, ',').map_values(|p: Seq<char>| trim(p)))
}

/// Whether a flag value reads as true: `1`, `true`, `yes` or `on`, trimmed and
/// in any ASCII case.
pub open spec fn truthy(v: Seq<char>) -> bool {
    let l = lower(trim(v));
    ||| l == seq!['1']
    ||| l == seq!['t', 'r', 'u', 'e']
    ||| l == seq!['y', 'e', 's']
    ||| l == seq!['o', 'n']
}

/// A base path: trimmed, with one leading `/` and no trailing `/`; `/backend`
/// where nothing is left after trimming.
pub open spec fn normalized_path(input: Seq<char>) -> Seq<char> {
    let t = trim(input);
    if t.len() == 0 {
        seq!['/', 'b', 'a', 'c', 'k', 'e', 'n', 'd']
    } else if t[0] == '/' {
        trim_end_char(t, '/')
    } else {
        seq!['/'] + trim_end_char(t, '/')
    }
}

/// The value of variable `name`, or `default` where it is not set.
pub fn env_string(env: &Env, name: &str, default: &str) -> (s: String)
    ensures
        s@ == env_text(env, name@, default@),
{
    match env.get(name) {
        Some(v) => v,
        None => default.to_owned(),
    }
}

/// The value of variable `name` (or `default`), `None` where it is blank.
pub fn option_string(env: &Env, name: &str, default: &str) -> (r: Option<String>)
    ensures
        r.deep_view() == optional_text(env_text(env, name@, default@)),
{
    let value = env_string(env, name, default);
    let t = trimmed(value.as_str());
    if t.len() == 0 {
        None
    } else {
        Some(value)
    }
}

proof fn lemma_nonempty_push(s: Seq<Seq<char>>, x: Seq<char>)
    ensures
        nonempty_items(s.push(x)) == if x.len() > 0 {
            nonempty_items(s).push(x)
        } else {
            nonempty_items(s)
        },
{
    assert(s.push(x).drop_last() =~= s);
}

proof fn lemma_map_push<A, B>(s: Seq<A>, x: A, f: spec_fn(A) -> B)
    ensures
        s.push(x).map_values(f) =~= s.map_values(f).push(f(x)),
{
}

/// The comma-separated items of `v`, trimmed, without empty ones.
pub fn csv_chars(v: &Vec<char>) -> (r: Vec<String>)
    ensures
        r.deep_view() == csv_items(v@),
{
    let ghost trim_fn = |p: Seq<char>| trim(p);
    let mut items: Vec<String> = Vec::new();
    let mut cur: Vec<char> = Vec::new();
    let ghost mut done: Seq<Seq<char>> = Seq::empty();
    let mut i: usize = 0;
    assert(v@.take(0) =~= Seq::<char>::empty());
    assert(split_on(Seq::<char>::empty(), ',') == seq![Seq::<char>::empty()]);
    assert(done.push(cur@) =~= seq![Seq::<char>::empty()]);
    while i < v.len()
        invariant
            i <= v.len(),
            split_on(v@.take(i as int), ',') == done.push(cur@),
            items.deep_view() == nonempty_items(done.map_values(trim_fn)),
            trim_fn == (|p: Seq<char>| trim(p)),
        decreases v.len() - i,
    {
        let c = v[i];
        proof {
            assert(v@.take(i + 1).drop_last() =~= v@.take(i as int));
            assert(v@.take(i + 1).last() == c);
        }
        if c == ',' {
            let t = trim_chars(&cur);
            proof {
                lemma_map_push(done, cur@, trim_fn);
                lemma_nonempty_push(done.map_values(trim_fn), t@);
            }
            if t.len() > 0 {
                let ghost before = items.deep_view();
                items.push(string_of(&t));
                assert(items.deep_view() =~= before.push(t@));
            }
            proof {
                done = done.push(cur@);
            }
            cur = Vec::new();
            assert(done.push(cur@) =~= split_on(v@.take(i + 1), ','));
        } else {
            let ghost old_cur = cur@;
            cur.push(c);
            assert(done.push(old_cur).update(done.len() as int, old_cur.push(c)) =~= done.push(cur@));
        }
        i = i + 1;
    }
    let t = trim_chars(&cur);
    proof {
        lemma_map_push(done, cur@, trim_fn);
        lemma_nonempty_push(done.map_values(trim_fn), t@);
        assert(v@.take(v.len() as int) =~= v@);
    }
    if t.len() > 0 {
        let ghost before = items.deep_view();
        items.push(string_of(&t));
        assert(items.deep_view() =~= before.push(t@));
    }
    items
}

/// The comma-separated items of variable `name` (or `default`).
pub fn csv_string(env: &Env, name: &str, default: &str) -> (r: Vec<String>)
    ensures
        r.deep_view() == csv_items(env_text(env, name@, default@)),
{
    let value = env_string(env, name, default);
    let v = chars_of(value.as_str());
    csv_chars(&v)
}

/// The comma-separated items of variable `name` (or `default`); there must be one.
pub fn csv_required(env: &Env, name: &str, default: &str) -> (r: Result<Vec<String>, ConfigError>)
    ensures
        match r {
            Ok(items) => items.deep_view() == csv_items(env_text(env, name@, default@))
                && items.len() > 0,
            Err(e) => csv_items(env_text(env, name@, default@)).len() == 0 && e@
                == (ConfigErrorView::Required { name: name@ }),
        },
{
    let values = csv_string(env, name, default);
    if values.len() == 0 {
        return Err(ConfigError::Required { name: name.to_owned() });
    }
    Ok(values)
}

/// Whether `a` holds the characters of the literal `lit`.
fn chars_are(a: &Vec<char>, lit: &str) -> (r: bool)
    ensures
        r == (a@ == lit@),
{
    let b = chars_of(lit);
    chars_eq(a, &b)
}

/// Variable `name` read as a flag; `default` where it is not set.
pub fn env_bool(env: &Env, name: &str, default: bool) -> (r: bool)
    ensures
        r == match env.var(name@) {
            Some(v) => truthy(v),
            None => default,
        },
{
    match env.get(name) {
        Some(value) => {
            let l = lower_chars(&trimmed(value.as_str()));
            proof {
                reveal_strlit("1");
                reveal_strlit("true");
                reveal_strlit("yes");
                reveal_strlit("on");
                assert("1"@ =~= seq!['1']);
                assert("true"@ =~= seq!['t', 'r', 'u', 'e']);
                assert("yes"@ =~= seq!['y', 'e', 's']);
                assert("on"@ =~= seq!['o', 'n']);
            }
            chars_are(&l, "1") || chars_are(&l, "true") || chars_are(&l, "yes") || chars_are(
                &l,
                "on",
            )
        },
        None => default,
    }
}

/// Variable `name` read as a `u64`; `default` where it is not set.
pub fn env_u64(env: &Env, name: &str, default: u64) -> (r: Result<u64, ConfigError>)
    ensures
        match env.var(name@) {
            None => r == Ok::<u64, ConfigError>(default),
            Some(v) => match parse_unsigned(trim(v), u64::MAX as nat) {
                Some(n) => r == Ok::<u64, ConfigError>(n as u64),
                None => r matches Err(e) && e@ == (ConfigErrorView::InvalidInteger { name: name@ }),
            },
        },
{
    match env.get(name) {
        Some(value) => {
            let t = trimmed(value.as_str());
            match parse_unsigned_chars(&t, u64::MAX) {
                Some(n) => Ok(n),
                None => Err(ConfigError::InvalidInteger { name: name.to_owned() }),
            }
        },
        None => Ok(default),
    }
}

/// Variable `name` read as a `usize`; `default` where it is not set.
pub fn env_usize(env: &Env, name: &str, default: usize) -> (r: Result<usize, ConfigError>)
    ensures
        match env.var(name@) {
            None => r == Ok::<usize, ConfigError>(default),
            Some(v) => match parse_unsigned(trim(v), usize::MAX as nat) {
                Some(n) => r == Ok::<usize, ConfigError>(n as usize),
                None => r matches Err(e) && e@ == (ConfigErrorView::InvalidInteger { name: name@ }),
            },
        },
{
    match env.get(name) {
        Some(value) => {
            let t = trimmed(value.as_str());
            match parse_unsigned_chars(&t, usize::MAX as u64) {
                Some(n) => Ok(n as usize),
                None => Err(ConfigError::InvalidInteger { name: name.to_owned() }),
            }
        },
        None => Ok(default),
    }
}

/// The base path `input` normalised: trimmed, one leading `/`, no trailing `/`,
/// and `/backend` where it is blank.
pub fn normalize_path(input: String) -> (r: String)
    ensures
        r@ == normalized_path(input@),
{
    let t = trimmed(input.as_str());
    if t.len() == 0 {
        proof {
            reveal_strlit("/backend");
        }
        String::from_str("/backend")
    } else if t[0] == '/' {
        let e = trim_end_char_chars(&t, '/');
        string_of(&e)
    } else {
        let e = trim_end_char_chars(&t, '/');
        let mut v: Vec<char> = Vec::new();
        v.push('/');
        let mut i: usize = 0;
        while i < e.len()
            invariant
                i <= e.len(),
                v@ == seq!['/'] + e@.take(i as int),
            decreases e.len() - i,
        {
            v.push(e[i]);
            assert(seq!['/'] + e@.take(i + 1) =~= (seq!['/'] + e@.take(i as int)).push(e@[i as int]));
            i = i + 1;
        }
        assert(e@.take(e.len() as int) =~= e@);
        string_of(&v)
    }
}


/// Variable `name` read as an unsigned integer no larger than `max`: `default`
/// where it is not set, `None` where it holds no such integer.
pub open spec fn env_unsigned(env: &Env, name: Seq<char>, default: nat, max: nat) -> Option<nat> {
    match env.var(name) {
        None => Some(default),
        Some(v) => parse_unsigned(trim(v), max),
    }
}

/// The public anonymous STUN servers that are always offered.
pub open spec fn builtin_stun_urls() -> Seq<Seq<char>> {
    seq![
        "stun:stun.l.google.com:19302"@,
        "stun:stun1.l.google.com:19302"@,
        "stun:stun2.l.google.com:19302"@,
        "stun:stun.cloudflare.com:3478"@,
    ]
}

/// The public anonymous TURN servers that are offered while TURN is disabled,
/// a fallback for trials, not for production.
pub open spec fn builtin_turn_urls() -> Seq<Seq<char>> {
    seq![
        "turn:openrelay.metered.ca:80"@,
        "turn:openrelay.metered.ca:443"@,
        "turn:openrelay.metered.ca:443?transport=tcp"@,
    ]
}

/// The user name of the public TURN servers.
pub open spec fn public_turn_username() -> Seq<char> {
    "openrelayproject"@
}

/// The password of the public TURN servers.
pub open spec fn public_turn_credential() -> Seq<char> {
    "openrelayproject"@
}

/// The built-in STUN servers.
fn builtin_stun() -> (r: Vec<String>)
    ensures
        r.deep_view() == builtin_stun_urls(),
{
    let mut r: Vec<String> = Vec::new();
    r.push(String::from_str("stun:stun.l.google.com:19302"));
    r.push(String::from_str("stun:stun1.l.google.com:19302"));
    r.push(String::from_str("stun:stun2.l.google.com:19302"));
    r.push(String::from_str("stun:stun.cloudflare.com:3478"));
    assert(r.deep_view() =~= builtin_stun_urls());
    r
}

/// The built-in TURN servers.
fn builtin_turn() -> (r: Vec<String>)
    ensures
        r.deep_view() == builtin_turn_urls(),
{
    let mut r: Vec<String> = Vec::new();
    r.push(String::from_str("turn:openrelay.metered.ca:80"));
    r.push(String::from_str("turn:openrelay.metered.ca:443"));
    r.push(String::from_str("turn:openrelay.metered.ca:443?transport=tcp"));
    assert(r.deep_view() =~= builtin_turn_urls());
    r
}

/// `a` followed by a copy of `b`.
fn concat_strings(a: Vec<String>, b: &Vec<String>) -> (r: Vec<String>)
    ensures
        r.deep_view() == a.deep_view() + b.deep_view(),
{
    let mut r = a;
    let ghost start = r.deep_view();
    let mut i: usize = 0;
    while i < b.len()
        invariant
            i <= b.len(),
            r.deep_view() == start + b.deep_view().take(i as int),
        decreases b.len() - i,
    {
        let ghost before = r.deep_view();
        r.push(b[i].clone());
        assert(r.deep_view() =~= before.push(b[i as int]@));
        assert(start + b.deep_view().take(i + 1) =~= (start + b.deep_view().take(i as int)).push(b[i as int]@));
        i = i + 1;
    }
    assert(b.deep_view().take(b.len() as int) =~= b.deep_view());
    r
}

/// The TURN settings that the `ROOM_TURN_*` variables select.
pub open spec fn turn_settings(env: &Env) -> Result<TurnConfigView, ConfigErrorView> {
    let mode = env_text(env, "ROOM_TURN_MODE"@, "disabled"@);
    let urls = csv_items(env_text(env, "ROOM_TURN_URLS"@, ""@));
    if mode == ""@ || mode == "disabled"@ {
        Ok(TurnConfigView::Disabled)
    } else if mode == "static"@ {
        if urls.len() == 0 {
            Err(ConfigErrorView::Required { name: "ROOM_TURN_URLS"@ })
        } else {
            Ok(
                TurnConfigView::Static {
                    urls,
                    username: env_text(env, "ROOM_TURN_USERNAME"@, ""@),
                    credential: env_text(env, "ROOM_TURN_PASSWORD"@, ""@),
                },
            )
        }
    } else if mode == "coturnrest"@ {
        if urls.len() == 0 {
            Err(ConfigErrorView::Required { name: "ROOM_TURN_URLS"@ })
        } else {
            match env_unsigned(env, "ROOM_TURN_TTLSECONDS"@, 3600, u64::MAX as nat) {
                None => Err(ConfigErrorView::InvalidInteger { name: "ROOM_TURN_TTLSECONDS"@ }),
                Some(ttl) => Ok(
                    TurnConfigView::Coturnrest {
                        urls,
                        secret: env_text(env, "ROOM_TURN_SECRET"@, ""@),
                        ttlseconds: ttl as u64,
                    },
                ),
            }
        }
    } else {
        Err(ConfigErrorView::UnsupportedTurnMode { mode })
    }
}

/// The configuration that the `ROOM_*` variables select, or the first error
/// in the order in which the variables are read.
pub open spec fn settings(env: &Env) -> Result<ConfigView, ConfigErrorView> {
    match env_unsigned(env, "ROOM_SERVER_MAXONLINE"@, 200, usize::MAX as nat) {
        None => Err(ConfigErrorView::InvalidInteger { name: "ROOM_SERVER_MAXONLINE"@ }),
        Some(maxonline) => match turn_settings(env) {
            Err(e) => Err(e),
            Ok(turn) => Ok(
                ConfigView {
                    server: ServerConfigView {
                        listen: env_text(env, "ROOM_SERVER_LISTEN"@, "0.0.0.0:38080"@),
                        originany: match env.var("ROOM_SERVER_ORIGINANY"@) {
                            Some(v) => truthy(v),
                            None => false,
                        },
                        maxonline: maxonline as usize,
                    },
                    web: WebConfigView {
                        publicbase: optional_text(env_text(env, "ROOM_WEB_PUBLICBASE"@, ""@)),
                        staticdir: env_text(env, "ROOM_WEB_STATICDIR"@, "../client/dist"@),
                        backendbase: normalized_path(
                            env_text(env, "ROOM_WEB_BACKENDBASE"@, "/backend"@),
                        ),
                    },
                    stunurls: builtin_stun_urls() + csv_items(
                        env_text(env, "ROOM_ICE_STUNURLS"@, ""@),
                    ),
                    turnurls: builtin_turn_urls() + csv_items(
                        env_text(env, "ROOM_TURN_URLS"@, ""@),
                    ),
                    turn,
                    log_filter: env_text(
                        env,
                        "ROOM_LOG_FILTER"@,
                        "room_server=info,tower_http=info"@,
                    ),
                },
            ),
        },
    }
}

/// The TURN settings that the `ROOM_TURN_*` variables select.
pub fn parse_turn(env: &Env) -> (r: Result<TurnConfig, ConfigError>)
    ensures
        match r {
            Ok(t) => turn_settings(env) == Ok::<TurnConfigView, ConfigErrorView>(t@),
            Err(e) => turn_settings(env) == Err::<TurnConfigView, ConfigErrorView>(e@),
        },
{
    let mode = env_string(env, "ROOM_TURN_MODE", "disabled");
    if text_eq(mode.as_str(), "") || text_eq(mode.as_str(), "disabled") {
        Ok(TurnConfig::Disabled)
    } else if text_eq(mode.as_str(), "static") {
        let urls = csv_required(env, "ROOM_TURN_URLS", "")?;
        Ok(
            TurnConfig::Static {
                urls,
                username: env_string(env, "ROOM_TURN_USERNAME", ""),
                credential: env_string(env, "ROOM_TURN_PASSWORD", ""),
            },
        )
    } else if text_eq(mode.as_str(), "coturnrest") {
        let urls = csv_required(env, "ROOM_TURN_URLS", "")?;
        let secret = env_string(env, "ROOM_TURN_SECRET", "");
        let ttlseconds = env_u64(env, "ROOM_TURN_TTLSECONDS", 3600)?;
        Ok(TurnConfig::Coturnrest { urls, secret, ttlseconds })
    } else {
        Err(ConfigError::UnsupportedTurnMode { mode })
    }
}

impl Config {
    /// The configuration that the `ROOM_*` variables of `env` select.
    pub fn from_env(env: &Env) -> (r: Result<Config, ConfigError>)
        ensures
            match r {
                Ok(c) => settings(env) == Ok::<ConfigView, ConfigErrorView>(c@),
                Err(e) => settings(env) == Err::<ConfigView, ConfigErrorView>(e@),
            },
    {
        let listen = env_string(env, "ROOM_SERVER_LISTEN", "0.0.0.0:38080");
        let originany = env_bool(env, "ROOM_SERVER_ORIGINANY", false);
        let maxonline = env_usize(env, "ROOM_SERVER_MAXONLINE", 200)?;
        let publicbase = option_string(env, "ROOM_WEB_PUBLICBASE", "");
        let staticdir = env_string(env, "ROOM_WEB_STATICDIR", "../client/dist");
        let backendbase = normalize_path(env_string(env, "ROOM_WEB_BACKENDBASE", "/backend"));
        let stunurls = concat_strings(builtin_stun(), &csv_string(env, "ROOM_ICE_STUNURLS", ""));
        let turnurls = concat_strings(builtin_turn(), &csv_string(env, "ROOM_TURN_URLS", ""));
        let turn = parse_turn(env)?;
        let filter = env_string(env, "ROOM_LOG_FILTER", "room_server=info,tower_http=info");
        Ok(
            Config {
                server: ServerConfig { listen, originany, maxonline },
                web: WebConfig { publicbase, staticdir, backendbase },
                ice: IceConfig { stunurls, turnurls },
                turn,
                log: LogConfig { filter },
            },
        )
    }
}


/// A copy of a list of texts.
pub fn copy_strings(v: &Vec<String>) -> (r: Vec<String>)
    ensures
        r.deep_view() == v.deep_view(),
{
    let mut r: Vec<String> = Vec::new();
    let mut i: usize = 0;
    while i < v.len()
        invariant
            i <= v.len(),
            r.deep_view() == v.deep_view().take(i as int),
        decreases v.len() - i,
    {
        let ghost before = r.deep_view();
        r.push(v[i].clone());
        assert(r.deep_view() =~= before.push(v[i as int]@));
        assert(v.deep_view().take(i + 1) =~= v.deep_view().take(i as int).push(v[i as int]@));
        i = i + 1;
    }
    assert(v.deep_view().take(v.len() as int) =~= v.deep_view());
    r
}

/// The user name of a TURN REST credential: `expiry:room:role`.
pub open spec fn turn_rest_username(expires: u64, room: Seq<char>, role: Seq<char>) -> Seq<char> {
    decimal(expires as nat) + seq![':'] + room + seq![':'] + role
}

/// The password of a TURN REST credential: the Base64 of the HMAC-SHA1 tag of
/// the user name under the shared secret.
pub open spec fn turn_rest_password(secret: Seq<char>, username: Seq<char>) -> Seq<char> {
    base64_standard(hmac_sha1(encode_utf8(secret), encode_utf8(username)))
}

/// The ICE servers handed to a peer of `room` with `role` at time `now`: the
/// STUN servers, where there are any, then the TURN server of the configured
/// mode, or, with TURN disabled, the public TURN servers where there are any.
pub open spec fn ice_server_list(c: ConfigView, room: Seq<char>, role: Seq<char>, now: u64) -> Seq<IceServerView> {
    let stun = if c.stunurls.len() > 0 {
        seq![IceServerView { urls: c.stunurls, username: None, credential: None }]
    } else {
        Seq::empty()
    };
    match c.turn {
        TurnConfigView::Disabled => if c.turnurls.len() > 0 {
            stun.push(
                IceServerView {
                    urls: c.turnurls,
                    username: Some(public_turn_username()),
                    credential: Some(public_turn_credential()),
                },
            )
        } else {
            stun
        },
        TurnConfigView::Static { urls, username, credential } => stun.push(
            IceServerView { urls, username: Some(username), credential: Some(credential) },
        ),
        TurnConfigView::Coturnrest { urls, secret, ttlseconds } => {
            let username = turn_rest_username(
                vstd::wrapping::u64_specs::wrapping_add(now, ttlseconds),
                room,
                role,
            );
            stun.push(
                IceServerView {
                    urls,
                    username: Some(username),
                    credential: Some(turn_rest_password(secret, username)),
                },
            )
        },
    }
}

/// The views of a list of ICE servers.
pub open spec fn ice_views(v: Seq<IceServer>) -> Seq<IceServerView> {
    v.map_values(|s: IceServer| s@)
}

/// The text `expires:room:role`.
fn rest_username(expires: u64, room: &str, role: &str) -> (s: String)
    ensures
        s@ == turn_rest_username(expires, room@, role@),
{
    let mut v: Vec<char> = Vec::new();
    push_decimal(&mut v, expires);
    let s = string_of(&v);
    let s = s.concat(":");
    let s = s.concat(room);
    let s = s.concat(":");
    let s = s.concat(role);
    proof {
        reveal_strlit(":");
        assert(":"@ =~= seq![':']);
    }
    s
}

impl Config {
    /// The ICE servers for a peer of `room` with `role`, with TURN REST
    /// credentials that expire `ttlseconds` after `now`.
    pub fn ice_servers_at(&self, room: &str, role: &str, now: u64) -> (r: Vec<IceServer>)
        ensures
            ice_views(r@) == ice_server_list(self@, room@, role@, now),
    {
        let mut servers: Vec<IceServer> = Vec::new();
        if self.ice.stunurls.len() > 0 {
            servers.push(
                IceServer { urls: copy_strings(&self.ice.stunurls), username: None, credential: None },
            );
        }
        let ghost stun = ice_views(servers@);
        match &self.turn {
            TurnConfig::Disabled => {
                if self.ice.turnurls.len() > 0 {
                    servers.push(
                        IceServer {
                            urls: copy_strings(&self.ice.turnurls),
                            username: Some(String::from_str("openrelayproject")),
                            credential: Some(String::from_str("openrelayproject")),
                        },
                    );
                }
            },
            TurnConfig::Static { urls, username, credential } => {
                servers.push(
                    IceServer {
                        urls: copy_strings(urls),
                        username: Some(username.clone()),
                        credential: Some(credential.clone()),
                    },
                );
            },
            TurnConfig::Coturnrest { urls, secret, ttlseconds } => {
                let expires_at = now.wrapping_add(*ttlseconds);
                let username = rest_username(expires_at, room, role);
                let tag = hmac_sha1_tag(secret.as_str().as_bytes(), username.as_str().as_bytes());
                let credential = base64_encode(tag.as_slice());
                servers.push(
                    IceServer { urls: copy_strings(urls), username: Some(username), credential: Some(credential) },
                );
            },
        }
        assert(ice_views(servers@) =~= ice_server_list(self@, room@, role@, now));
        servers
    }

    /// The ICE servers for a peer of `room` with `role`; TURN REST credentials
    /// expire `ttlseconds` after the current time.
    pub fn ice_servers(&self, room: &str, role: &str) -> (r: Vec<IceServer>)
        ensures
            exists|now: u64| ice_views(r@) == ice_server_list(self@, room@, role@, now),
    {
        let now = crate::clock::unix_now();
        self.ice_servers_at(room, role, now)
    }
}

} // verus!
