//! Application settings, with built-in defaults and a map of custom entries.
use vstd::prelude::*;
use crate::text_map::TextMap;
use crate::text::chars_of;

verus! {

/// Relies on `num_cpus::get`: the number of logical CPUs, which it documents as always at least 1.
#[verifier::external_body]
fn logical_cpus() -> (n: usize)
    ensures
        n >= 1,
{
    num_cpus::get()
}

pub struct ServerConfig {
    pub host: String,
    pub port: u16,
    pub workers: usize,
}

pub struct DatabaseConfig {
    pub url: String,
    pub max_connections: u32,
    pub timeout: u64,
}

pub struct AuthConfig {
    pub jwt_secret: String,
    pub session_timeout: u64,
    pub bcrypt_cost: u32,
}

pub struct FeatureConfig {
    pub compression: bool,
    pub metrics: bool,
    pub hot_reload: bool,
    pub logging: bool,
}

/// The environment variables that override settings; each is `None` when unset.
pub struct EnvOverrides {
    /// `RUSTNEXT_HOST`
    pub host: Option<String>,
    /// `RUSTNEXT_PORT`
    pub port: Option<String>,
    /// `DATABASE_URL`
    pub database_url: Option<String>,
    /// `JWT_SECRET`
    pub jwt_secret: Option<String>,
    /// `ENABLE_COMPRESSION`
    pub enable_compression: Option<String>,
    /// `ENABLE_METRICS`
    pub enable_metrics: Option<String>,
    /// `ENABLE_HOT_RELOAD`
    pub enable_hot_reload: Option<String>,
    /// `ENABLE_LOGGING`
    pub enable_logging: Option<String>,
}

/// The value of a string of decimal digits.
pub open spec fn digits_value(s: Seq<char>) -> nat
    decreases s.len(),
{
    if s.len() == 0 {
        0
    } else {
        digits_value(s.drop_last()) * 10 + ((s.last() as u32) - ('0' as u32)) as nat
    }
}

pub open spec fn only_digits(s: Seq<char>) -> bool {
    forall|i: int| 0 <= i < s.len() ==> '0' <= #[trigger] s[i] && s[i] <= '9'
}

/// What the standard library's `u16` parser gives for `s`: an optional `+`,
/// then at least one ASCII digit, with a value that fits in 16 bits.
pub open spec fn port_value(s: Seq<char>) -> Option<u16> {
    let d = if s.len() > 0 && s[0] == '+' {
        s.drop_first()
    } else {
        s
    };
    if d.len() > 0 && only_digits(d) && digits_value(d) <= 65535 {
        Some(digits_value(d) as u16)
    } else {
        None
    }
}

/// A flag setting from its variable: `true` exactly when the text is `true`;
/// an unset variable keeps `current`.
pub open spec fn flag_value(var: Option<Seq<char>>, current: bool) -> bool {
    match var {
        Some(v) => v == "true"@,
        None => current,
    }
}

pub open spec fn text_of_opt(v: Option<String>) -> Option<Seq<char>> {
    match v {
        Some(s) => Some(s@),
        None => None,
    }
}

proof fn lemma_digits_value_grows(s: Seq<char>, c: char)
    requires
        '0' <= c <= '9',
    ensures
        digits_value(s.push(c)) >= digits_value(s),
        digits_value(s.push(c)) == digits_value(s) * 10 + ((c as u32) - ('0' as u32)) as nat,
{
    assert(s.push(c).drop_last() =~= s);
}

/// Parses a port number as the standard library's `u16` parser does.
pub fn parse_port(s: &str) -> (r: Option<u16>)
    ensures
        r == port_value(s@),
{
    let v = chars_of(s);
    let start: usize = if v.len() > 0 && v[0] == '+' {
        1
    } else {
        0
    };
    let ghost d = if v@.len() > 0 && v@[0] == '+' {
        v@.drop_first()
    } else {
        v@
    };
    assert(d =~= v@.subrange(start as int, v@.len() as int));
    if start == v.len() {
        return None;
    }
    let mut value: u32 = 0;
    let mut i = start;
    while i < v.len()
        invariant
            start <= i <= v@.len(),
            v@ == s@,
            d == v@.subrange(start as int, v@.len() as int),
            port_value(s@) == (if d.len() > 0 && only_digits(d) && digits_value(d) <= 65535 {
                Some(digits_value(d) as u16)
            } else {
                None
            }),
            only_digits(v@.subrange(start as int, i as int)),
            value == digits_value(v@.subrange(start as int, i as int)),
            value <= 65535,
        decreases v@.len() - i,
    {
        let c = v[i];
        let ghost pre = v@.subrange(start as int, i as int);
        assert(v@.subrange(start as int, i + 1) =~= pre.push(c));
        if c < '0' || c > '9' {
            assert(!only_digits(d)) by {
                assert(d[i - start] == c);
            }
            return None;
        }
        proof {
            lemma_digits_value_grows(pre, c);
        }
        let next = value * 10 + (c as u32 - '0' as u32);
        if next > 65535 {
            proof {
                let dd = v@.subrange(start as int, v@.len() as int);
                assert(dd.subrange(0, i - start + 1) =~= pre.push(c));
                assert(only_digits(pre.push(c))) by {
                    assert forall|x: int| 0 <= x < pre.push(c).len() implies '0' <= #[trigger] pre.push(c)[x]
                        && pre.push(c)[x] <= '9' by {
                        if x < pre.len() {
                            assert(pre.push(c)[x] == pre[x]);
                        }
                    }
                }
                lemma_value_stays_large(v@.subrange(start as int, v@.len() as int), i - start);
            }
            return None;
        }
        value = next;
        proof {
            assert forall|x: int| 0 <= x < pre.push(c).len() implies '0' <= #[trigger] pre.push(c)[x]
                && pre.push(c)[x] <= '9' by {
                if x < pre.len() {
                    assert(pre.push(c)[x] == pre[x]);
                }
            }
        }
        i += 1;
    }
    assert(v@.subrange(start as int, i as int) =~= d);
    Some(value as u16)
}

proof fn lemma_value_stays_large(d: Seq<char>, k: int)
    requires
        0 <= k < d.len(),
        only_digits(d.subrange(0, k + 1)),
        digits_value(d.subrange(0, k + 1)) > 65535,
    ensures
        !(only_digits(d) && digits_value(d) <= 65535),
    decreases d.len() - k,
{
    if k + 1 < d.len() && only_digits(d) {
        let p = d.subrange(0, k + 1);
        assert(d.subrange(0, k + 2) =~= p.push(d[k + 1]));
        assert('0' <= d[k + 1] <= '9');
        lemma_digits_value_grows(p, d[k + 1]);
        assert(only_digits(d.subrange(0, k + 2)));
        lemma_value_stays_large(d, k + 1);
    } else if k + 1 == d.len() {
        assert(d.subrange(0, k + 1) =~= d);
    }
}

fn flag(var: &Option<String>, current: bool) -> (r: bool)
    ensures
        r == flag_value(text_of_opt(*var), current),
{
    match var {
        Some(v) => {
            let a = chars_of(v.as_str());
            let t = chars_of("true");
            crate::text::same_chars(&a, &t)
        },
        None => current,
    }
}

/// All settings of an application.
pub struct Config {
    pub server: ServerConfig,
    pub database: DatabaseConfig,
    pub auth: AuthConfig,
    pub features: FeatureConfig,
    pub custom: TextMap,
}

impl Config {
    /// The built-in settings: a local server on port 3000 with one worker per
    /// logical CPU, a local database, and compression and logging switched on.
    pub fn defaults() -> (r: Config)
        ensures
            r.server.host@ == "127.0.0.1"@,
            r.server.port == 3000,
            r.server.workers >= 1,
            r.database.url@ == "postgresql://localhost/rustnext"@,
            r.database.max_connections == 10,
            r.database.timeout == 30,
            r.auth.jwt_secret@ == "your-secret-key"@,
            r.auth.session_timeout == 3600,
            r.auth.bcrypt_cost == 12,
            r.features.compression,
            !r.features.metrics,
            !r.features.hot_reload,
            r.features.logging,
            r.custom.wf(),
            r.custom@ == Map::<Seq<char>, Seq<char>>::empty(),
    {
        Config {
            server: ServerConfig { host: "127.0.0.1".to_string(), port: 3000, workers: logical_cpus() },
            database: DatabaseConfig {
                url: "postgresql://localhost/rustnext".to_string(),
                max_connections: 10,
                timeout: 30,
            },
            auth: AuthConfig {
                jwt_secret: "your-secret-key".to_string(),
                session_timeout: 3600,
                bcrypt_cost: 12,
            },
            features: FeatureConfig { compression: true, metrics: false, hot_reload: false, logging: true },
            custom: TextMap::new(),
        }
    }

    /// Applies the environment overrides: the host, database URL and secret
    /// are replaced when set; the port when set to a valid port number (an
    /// invalid one is ignored); each feature flag, when its variable is set,
    /// becomes whether the variable reads `true`.
    pub fn apply_overrides(&mut self, env: &EnvOverrides)
        ensures
            final(self).server.host@ == (match env.host {
                Some(h) => h@,
                None => old(self).server.host@,
            }),
            final(self).server.port == (match env.port {
                Some(p) => match port_value(p@) {
                    Some(n) => n,
                    None => old(self).server.port,
                },
                None => old(self).server.port,
            }),
            final(self).server.workers == old(self).server.workers,
            final(self).database.url@ == (match env.database_url {
                Some(u) => u@,
                None => old(self).database.url@,
            }),
            final(self).database.max_connections == old(self).database.max_connections,
            final(self).database.timeout == old(self).database.timeout,
            final(self).auth.jwt_secret@ == (match env.jwt_secret {
                Some(s) => s@,
                None => old(self).auth.jwt_secret@,
            }),
            final(self).auth.session_timeout == old(self).auth.session_timeout,
            final(self).auth.bcrypt_cost == old(self).auth.bcrypt_cost,
            final(self).features.compression == flag_value(
                text_of_opt(env.enable_compression),
                old(self).features.compression,
            ),
            final(self).features.metrics == flag_value(text_of_opt(env.enable_metrics), old(self).features.metrics),
            final(self).features.hot_reload == flag_value(
                text_of_opt(env.enable_hot_reload),
                old(self).features.hot_reload,
            ),
            final(self).features.logging == flag_value(text_of_opt(env.enable_logging), old(self).features.logging),
            final(self).custom == old(self).custom,
    {
        if let Some(h) = &env.host {
            self.server.host = h.clone();
        }
        if let Some(p) = &env.port {
            if let Some(n) = parse_port(p.as_str()) {
                self.server.port = n;
            }
        }
        if let Some(u) = &env.database_url {
            self.database.url = u.clone();
        }
        if let Some(s) = &env.jwt_secret {
            self.auth.jwt_secret = s.clone();
        }
        self.features.compression = flag(&env.enable_compression, self.features.compression);
        self.features.metrics = flag(&env.enable_metrics, self.features.metrics);
        self.features.hot_reload = flag(&env.enable_hot_reload, self.features.hot_reload);
        self.features.logging = flag(&env.enable_logging, self.features.logging);
    }

    /// The custom entry `key`, if set.
    pub fn get(&self, key: &str) -> (r: Option<&String>)
        requires
            self.custom.wf(),
        ensures
            r is Some <==> self.custom@.contains_key(key@),
            r is Some ==> r->0@ == self.custom@[key@],
    {
        self.custom.get(key)
    }

    /// Sets the custom entry `key` to `value`.
    pub fn set(&mut self, key: &str, value: &str)
        requires
            old(self).custom.wf(),
        ensures
            final(self).custom.wf(),
            final(self).custom@ == old(self).custom@.insert(key@, value@),
            final(self).server == old(self).server,
            final(self).database == old(self).database,
            final(self).auth == old(self).auth,
            final(self).features == old(self).features,
    {
        self.custom.insert(key.to_string(), value.to_string());
    }
}

} // verus!
