//! The decisions of the built-in middleware: CORS, the authentication guard,
//! and the per-client rate limiter.
use vstd::prelude::*;
use crate::http::{
    Method, STATUS_OK, STATUS_FOUND, STATUS_UNAUTHORIZED, STATUS_FORBIDDEN, STATUS_TOO_MANY_REQUESTS,
};
use crate::text::{chars_of, same_chars, decimal, decimal_spec};
use crate::text_map::TextMap;

verus! {

/// A response that a middleware builds itself.
pub struct Reply {
    pub status: u16,
    pub headers: TextMap,
    pub body: String,
}

/// Records method, path, status and elapsed time of each request; it never
/// changes a response and never answers on its own.
pub struct Logger;

/// Cross-origin resource sharing: answers preflight requests itself, and adds
/// the allowed origin to every other response.
pub struct Cors {
    pub allow_origin: String,
    pub allow_methods: String,
    pub allow_headers: String,
}

impl Cors {
    /// Allows every origin, the common verbs, and the content-type and authorization headers.
    pub fn new() -> (r: Cors)
        ensures
            r.allow_origin@ == "*"@,
            r.allow_methods@ == "GET, POST, PUT, DELETE, OPTIONS"@,
            r.allow_headers@ == "Content-Type, Authorization"@,
    {
        Cors {
            allow_origin: "*".to_string(),
            allow_methods: "GET, POST, PUT, DELETE, OPTIONS".to_string(),
            allow_headers: "Content-Type, Authorization".to_string(),
        }
    }

    /// Sets the allowed origin.
    pub fn allow_origin(self, origin: &str) -> (r: Cors)
        ensures
            r.allow_origin@ == origin@,
            r.allow_methods == self.allow_methods,
            r.allow_headers == self.allow_headers,
    {
        Cors { allow_origin: origin.to_string(), ..self }
    }

    /// Whether a request with this method is a preflight, which the middleware answers itself.
    pub fn is_preflight(method: Method) -> (r: bool)
        ensures
            r == (method == Method::Options),
    {
        method == Method::Options
    }

    /// The answer to a preflight request: an empty success carrying the three CORS headers.
    pub fn preflight_reply(&self) -> (r: Reply)
        ensures
            r.status == STATUS_OK,
            r.body@.len() == 0,
            r.headers.wf(),
            r.headers@ == Map::<Seq<char>, Seq<char>>::empty().insert(
                "Access-Control-Allow-Origin"@,
                self.allow_origin@,
            ).insert("Access-Control-Allow-Methods"@, self.allow_methods@).insert(
                "Access-Control-Allow-Headers"@,
                self.allow_headers@,
            ),
    {
        let mut headers = TextMap::new();
        headers.insert("Access-Control-Allow-Origin".to_string(), self.allow_origin.clone());
        headers.insert("Access-Control-Allow-Methods".to_string(), self.allow_methods.clone());
        headers.insert("Access-Control-Allow-Headers".to_string(), self.allow_headers.clone());
        Reply { status: STATUS_OK, headers, body: String::new() }
    }

    /// Adds the allowed origin to the headers of a response on its way out.
    pub fn on_response(&self, headers: &mut TextMap)
        requires
            old(headers).wf(),
        ensures
            final(headers).wf(),
            final(headers)@ == old(headers)@.insert("Access-Control-Allow-Origin"@, self.allow_origin@),
    {
        headers.insert("Access-Control-Allow-Origin".to_string(), self.allow_origin.clone());
    }
}

/// What the authentication guard does with a request.
#[derive(Debug)]
pub enum GuardDecision {
    /// Hand the request on unchanged.
    Proceed,
    /// No identity, and a login location is configured: send the client there.
    Redirect(String),
    /// No identity is attached to the request.
    Unauthorized,
    /// The identity has none of the required roles.
    Forbidden,
}

/// Whether some role of `required` is among `held`.
pub open spec fn shares_role(required: Seq<Seq<char>>, held: Seq<Seq<char>>) -> bool {
    exists|i: int, j: int| 0 <= i < required.len() && 0 <= j < held.len() && required[i] == held[j]
}

/// Lets a request through only with a verified identity that holds one of the required roles.
pub struct AuthGuard {
    pub required_roles: Vec<String>,
    pub redirect_url: Option<String>,
}

impl AuthGuard {
    /// A guard that asks for an identity and no particular role, and answers with "unauthorized".
    pub fn new() -> (r: AuthGuard)
        ensures
            r.required_roles@.len() == 0,
            r.redirect_url is None,
    {
        AuthGuard { required_roles: Vec::new(), redirect_url: None }
    }

    /// Adds a role; an identity passes if it holds any of the required roles.
    pub fn require_role(self, role: &str) -> (r: AuthGuard)
        ensures
            r.required_roles.deep_view() == self.required_roles.deep_view().push(role@),
            r.redirect_url == self.redirect_url,
    {
        let mut s = self;
        let ghost before = s.required_roles.deep_view();
        s.required_roles.push(role.to_string());
        assert(s.required_roles.deep_view() =~= before.push(role@));
        s
    }

    /// Sends clients without an identity to `url` instead of answering "unauthorized".
    pub fn redirect_to(self, url: &str) -> (r: AuthGuard)
        ensures
            r.redirect_url is Some && r.redirect_url->0@ == url@,
            r.required_roles == self.required_roles,
    {
        AuthGuard { redirect_url: Some(url.to_string()), ..self }
    }

    /// Decides on a request from the identity attached to it and that identity's roles.
    pub fn decide(&self, user_id: &Option<String>, user_roles: &Vec<String>) -> (r: GuardDecision)
        ensures
            user_id is None ==> match self.redirect_url {
                Some(u) => r is Redirect && (r->Redirect_0)@ == u@,
                None => r is Unauthorized,
            },
            user_id is Some ==> (r is Forbidden <==> (self.required_roles@.len() > 0 && !shares_role(
                self.required_roles.deep_view(),
                user_roles.deep_view(),
            ))),
            user_id is Some ==> (r is Proceed || r is Forbidden),
    {
        if user_id.is_none() {
            if let Some(u) = &self.redirect_url {
                let target = u.clone();
                return GuardDecision::Redirect(target);
            } else {
                return GuardDecision::Unauthorized;
            }
        }
        if self.required_roles.len() == 0 {
            return GuardDecision::Proceed;
        }
        let mut i: usize = 0;
        while i < self.required_roles.len()
            invariant
                user_id is Some,
                self.required_roles@.len() > 0,
                i <= self.required_roles@.len(),
                forall|a: int, b: int|
                    0 <= a < i && 0 <= b < user_roles@.len() ==> self.required_roles.deep_view()[a]
                        != user_roles.deep_view()[b],
            decreases self.required_roles@.len() - i,
        {
            let want = chars_of(self.required_roles[i].as_str());
            let mut j: usize = 0;
            while j < user_roles.len()
                invariant
                    user_id is Some,
                    self.required_roles@.len() > 0,
                    i < self.required_roles@.len(),
                    want@ == self.required_roles.deep_view()[i as int],
                    j <= user_roles@.len(),
                    forall|b: int| 0 <= b < j ==> want@ != user_roles.deep_view()[b],
                decreases user_roles@.len() - j,
            {
                let have = chars_of(user_roles[j].as_str());
                if same_chars(&want, &have) {
                    assert(shares_role(self.required_roles.deep_view(), user_roles.deep_view())) by {
                        assert(self.required_roles.deep_view()[i as int] == user_roles.deep_view()[j as int]);
                    }
                    return GuardDecision::Proceed;
                }
                j += 1;
            }
            i += 1;
        }
        GuardDecision::Forbidden
    }
}

impl GuardDecision {
    /// The response with which the guard answers, or `None` when it hands the request on.
    pub fn reply(&self) -> (r: Option<Reply>)
        ensures
            self is Proceed <==> r is None,
            self is Unauthorized ==> r is Some && r->0.status == STATUS_UNAUTHORIZED
                && r->0.body@ == "{\"error\":\"Authentication required\"}"@ && r->0.headers.wf()
                && r->0.headers@ == Map::<Seq<char>, Seq<char>>::empty().insert("Content-Type"@, "application/json"@),
            self is Forbidden ==> r is Some && r->0.status == STATUS_FORBIDDEN
                && r->0.body@ == "{\"error\":\"Insufficient permissions\"}"@ && r->0.headers.wf()
                && r->0.headers@ == Map::<Seq<char>, Seq<char>>::empty().insert("Content-Type"@, "application/json"@),
            self is Redirect ==> r is Some && r->0.status == STATUS_FOUND && r->0.body@.len() == 0 && r->0.headers.wf()
                && r->0.headers@ == Map::<Seq<char>, Seq<char>>::empty().insert(
                "Location"@,
                self->Redirect_0@,
            ),
    {
        match self {
            GuardDecision::Proceed => None,
            GuardDecision::Redirect(url) => {
                let mut headers = TextMap::new();
                headers.insert("Location".to_string(), url.clone());
                Some(Reply { status: STATUS_FOUND, headers, body: String::new() })
            },
            GuardDecision::Unauthorized => Some(json_reply(STATUS_UNAUTHORIZED, "{\"error\":\"Authentication required\"}")),
            GuardDecision::Forbidden => Some(json_reply(STATUS_FORBIDDEN, "{\"error\":\"Insufficient permissions\"}")),
        }
    }
}

/// A reply with a JSON body.
fn json_reply(status: u16, body: &str) -> (r: Reply)
    ensures
        r.status == status,
        r.body@ == body@,
        r.headers.wf(),
        r.headers@ == Map::<Seq<char>, Seq<char>>::empty().insert("Content-Type"@, "application/json"@),
{
    let mut headers = TextMap::new();
    headers.insert("Content-Type".to_string(), "application/json".to_string());
    Reply { status, headers, body: body.to_string() }
}

/// The key under which a client is counted: the forwarded-for header if the
/// request has one, else the real-ip header, else `unknown`. Each argument is
/// `None` when the header is absent, and `Some(None)` when its value is not text.
pub fn client_key(forwarded_for: Option<Option<&str>>, real_ip: Option<Option<&str>>) -> (r: String)
    ensures
        r@ == match forwarded_for {
            Some(Some(v)) => v@,
            Some(None) => "unknown"@,
            None => match real_ip {
                Some(Some(v)) => v@,
                _ => "unknown"@,
            },
        },
{
    let chosen = match forwarded_for {
        Some(v) => v,
        None => match real_ip {
            Some(v) => v,
            None => None,
        },
    };
    match chosen {
        Some(v) => v.to_string(),
        None => "unknown".to_string(),
    }
}

/// The count and window start (in milliseconds) of one client.
pub struct ClientWindow {
    pub key: String,
    pub count: u32,
    pub window_start_ms: u64,
}

/// The first window kept for `key` in `ws`, if any.
pub open spec fn window_lookup(ws: Seq<ClientWindow>, key: Seq<char>) -> Option<(u32, u64)>
    decreases ws.len(),
{
    if ws.len() == 0 {
        None
    } else if ws[0].key@ == key {
        Some((ws[0].count, ws[0].window_start_ms))
    } else {
        window_lookup(ws.drop_first(), key)
    }
}

/// The whole seconds from `start` to `now` (milliseconds), zero if `now` is earlier.
pub open spec fn elapsed_seconds(start: u64, now: u64) -> nat {
    if now >= start {
        ((now - start) / 1000) as nat
    } else {
        0
    }
}

/// The count and window start of a client after one more request at `now`:
/// a client seen for the first time starts a window at `now`; a window whose
/// length in whole seconds exceeds `window_seconds` is restarted at `now` with
/// a count of zero; then the count goes up by one (it stays at `u32::MAX` once there).
pub open spec fn next_window(prev: Option<(u32, u64)>, now: u64, window_seconds: u64) -> (u32, u64) {
    let (count, start) = match prev {
        Some(e) => e,
        None => (0u32, now),
    };
    let (c, s) = if elapsed_seconds(start, now) > window_seconds {
        (0u32, now)
    } else {
        (count, start)
    };
    (if c < u32::MAX { (c + 1) as u32 } else { c }, s)
}

/// Limits each client to `max_requests` requests per window of `window_seconds`.
pub struct RateLimiter {
    pub max_requests: u32,
    pub window_seconds: u64,
    /// The window of each client seen so far; where a key repeats, the first entry counts.
    pub clients: Vec<ClientWindow>,
}

impl RateLimiter {
    /// The count and window start kept for `key`.
    pub open spec fn window(&self, key: Seq<char>) -> Option<(u32, u64)> {
        window_lookup(self.clients@, key)
    }

    /// A limiter that has seen no client yet.
    pub fn new(max_requests: u32, window_seconds: u64) -> (r: RateLimiter)
        ensures
            r.max_requests == max_requests,
            r.window_seconds == window_seconds,
            forall|k: Seq<char>| r.window(k) is None,
    {
        RateLimiter { max_requests, window_seconds, clients: Vec::new() }
    }

    /// Counts a request from `key` at `now_ms` and says whether it may go on:
    /// it may unless the client's count in its window now exceeds the maximum.
    pub fn check_request(&mut self, key: &str, now_ms: u64) -> (allowed: bool)
        ensures
            final(self).max_requests == old(self).max_requests,
            final(self).window_seconds == old(self).window_seconds,
            final(self).window(key@) == Some(
                next_window(old(self).window(key@), now_ms, old(self).window_seconds),
            ),
            forall|k: Seq<char>| k != key@ ==> final(self).window(k) == old(self).window(k),
            allowed == (next_window(old(self).window(key@), now_ms, old(self).window_seconds).0
                <= old(self).max_requests),
    {
        let k = chars_of(key);
        let mut i: usize = 0;
        let mut found = false;
        assert(self.clients@.subrange(0, self.clients@.len() as int) =~= self.clients@);
        while i < self.clients.len() && !found
            invariant
                k@ == key@,
                i <= self.clients@.len(),
                forall|j: int| 0 <= j < i ==> self.clients@[j].key@ != key@,
                found ==> i < self.clients@.len() && self.clients@[i as int].key@ == key@,
                !found ==> window_lookup(self.clients@, key@) == window_lookup(
                    self.clients@.subrange(i as int, self.clients@.len() as int),
                    key@,
                ),
            decreases self.clients@.len() - i, if found { 0int } else { 1int },
        {
            let ghost rest = self.clients@.subrange(i as int, self.clients@.len() as int);
            assert(rest.drop_first() =~= self.clients@.subrange(i + 1, self.clients@.len() as int));
            let ck = chars_of(self.clients[i].key.as_str());
            if same_chars(&ck, &k) {
                found = true;
            } else {
                i += 1;
            }
        }
        let ghost old_clients = self.clients@;
        proof {
            if !found {
                assert(self.clients@.subrange(i as int, self.clients@.len() as int).len() == 0);
            } else {
                lemma_lookup_first(old_clients, i as int, key@);
            }
        }
        let (count, start) = if found {
            (self.clients[i].count, self.clients[i].window_start_ms)
        } else {
            (0u32, now_ms)
        };
        let elapsed: u64 = if now_ms >= start {
            (now_ms - start) / 1000
        } else {
            0
        };
        let (c, s) = if elapsed > self.window_seconds {
            (0u32, now_ms)
        } else {
            (count, start)
        };
        let c2 = if c < u32::MAX {
            c + 1
        } else {
            c
        };
        let entry = ClientWindow { key: key.to_string(), count: c2, window_start_ms: s };
        if found {
            self.clients.set(i, entry);
            proof {
                lemma_lookup_update(old_clients, i as int, self.clients@, key@);
            }
        } else {
            self.clients.push(entry);
            proof {
                lemma_lookup_push(old_clients, self.clients@, key@);
            }
        }
        c2 <= self.max_requests
    }

    /// The answer to a request over the limit: "too many requests", with a
    /// hint of when to retry.
    pub fn reject_reply(&self) -> (r: Reply)
        ensures
            r.status == STATUS_TOO_MANY_REQUESTS,
            r.headers.wf(),
            r.headers@ == Map::<Seq<char>, Seq<char>>::empty().insert(
                "Retry-After"@,
                decimal_spec(self.window_seconds as nat),
            ).insert("Content-Type"@, "application/json"@),
            r.body@ == "{\"error\":\"Rate limit exceeded\"}"@,
    {
        let mut headers = TextMap::new();
        headers.insert("Retry-After".to_string(), decimal(self.window_seconds));
        headers.insert("Content-Type".to_string(), "application/json".to_string());
        Reply { status: STATUS_TOO_MANY_REQUESTS, headers, body: "{\"error\":\"Rate limit exceeded\"}".to_string() }
    }
}

proof fn lemma_lookup_first(ws: Seq<ClientWindow>, i: int, key: Seq<char>)
    requires
        0 <= i < ws.len(),
        ws[i].key@ == key,
        forall|j: int| 0 <= j < i ==> ws[j].key@ != key,
    ensures
        window_lookup(ws, key) == Some((ws[i].count, ws[i].window_start_ms)),
    decreases i,
{
    if i > 0 {
        lemma_lookup_first(ws.drop_first(), i - 1, key);
    }
}

proof fn lemma_lookup_update(ws: Seq<ClientWindow>, i: int, ws2: Seq<ClientWindow>, key: Seq<char>)
    requires
        0 <= i < ws.len(),
        ws2.len() == ws.len(),
        forall|j: int| 0 <= j < ws.len() && j != i ==> ws2[j] == ws[j],
        ws[i].key@ == key,
        ws2[i].key@ == key,
        forall|j: int| 0 <= j < i ==> ws[j].key@ != key,
    ensures
        window_lookup(ws2, key) == Some((ws2[i].count, ws2[i].window_start_ms)),
        forall|k: Seq<char>| k != key ==> window_lookup(ws2, k) == window_lookup(ws, k),
    decreases ws.len(),
{
    if i > 0 {
        lemma_lookup_update(ws.drop_first(), i - 1, ws2.drop_first(), key);
    }
    assert forall|k: Seq<char>| k != key implies window_lookup(ws2, k) == window_lookup(ws, k) by {
        lemma_lookup_update_other(ws, i, ws2, key, k);
    }
}

proof fn lemma_lookup_update_other(ws: Seq<ClientWindow>, i: int, ws2: Seq<ClientWindow>, key: Seq<char>, k: Seq<char>)
    requires
        0 <= i < ws.len(),
        ws2.len() == ws.len(),
        forall|j: int| 0 <= j < ws.len() && j != i ==> ws2[j] == ws[j],
        ws[i].key@ == key,
        ws2[i].key@ == key,
        k != key,
    ensures
        window_lookup(ws2, k) == window_lookup(ws, k),
    decreases ws.len(),
{
    if ws.len() > 0 && i > 0 && ws[0].key@ != k {
        lemma_lookup_update_other(ws.drop_first(), i - 1, ws2.drop_first(), key, k);
    } else if ws.len() > 0 && i == 0 {
        assert(ws.drop_first() =~= ws2.drop_first());
    }
}

proof fn lemma_lookup_push(ws: Seq<ClientWindow>, ws2: Seq<ClientWindow>, key: Seq<char>)
    requires
        ws2.len() == ws.len() + 1,
        forall|j: int| 0 <= j < ws.len() ==> ws2[j] == ws[j],
        ws2[ws.len() as int].key@ == key,
        window_lookup(ws, key) is None,
    ensures
        window_lookup(ws2, key) == Some((ws2[ws.len() as int].count, ws2[ws.len() as int].window_start_ms)),
        forall|k: Seq<char>| k != key ==> window_lookup(ws2, k) == window_lookup(ws, k),
    decreases ws.len(),
{
    if ws.len() > 0 {
        assert(ws2[0] == ws[0]);
        lemma_lookup_push(ws.drop_first(), ws2.drop_first(), key);
        assert forall|k: Seq<char>| k != key implies window_lookup(ws2, k) == window_lookup(ws, k) by {
            if ws[0].key@ != k {
                assert(window_lookup(ws2.drop_first(), k) == window_lookup(ws.drop_first(), k));
            }
        }
    } else {
        assert forall|k: Seq<char>| k != key implies window_lookup(ws2, k) == window_lookup(ws, k) by {
            assert(ws2.drop_first().len() == 0);
            assert(window_lookup(ws2.drop_first(), k) is None);
        }
    }
}

/// Within one window a client gets at most `max_requests` requests through:
/// once its count has reached the maximum, a request in the same window is
/// turned away; a request after the window has run out is let through and
/// starts a new window with a count of one. (A maximum of `u32::MAX` is left
/// out: the count stops there, so such a limiter never turns a request away.)
pub proof fn rate_limit_window(max_requests: u32, window_seconds: u64, count: u32, start: u64, now: u64)
    requires
        max_requests < u32::MAX,
    ensures
        count >= max_requests && elapsed_seconds(start, now) <= window_seconds ==> next_window(
            Some((count, start)),
            now,
            window_seconds,
        ).0 > max_requests,
        elapsed_seconds(start, now) > window_seconds ==> next_window(Some((count, start)), now, window_seconds)
            == (1u32, now),
        elapsed_seconds(start, now) > window_seconds && max_requests >= 1 ==> next_window(
            Some((count, start)),
            now,
            window_seconds,
        ).0 <= max_requests,
{
}

/// A client's first request starts a window at that moment with a count of one.
pub proof fn rate_limit_first_request(now: u64, window_seconds: u64)
    ensures
        next_window(None, now, window_seconds) == (1u32, now),
{
}

} // verus!
