//! Token authentication settings and the decisions of the token middleware.
use vstd::prelude::*;
use crate::text::{chars_of, same_chars, starts_with_chars, text_of};

verus! {

/// The claims that a token carries.
pub struct Claims {
    pub sub: String,
    pub exp: usize,
    pub iat: usize,
    pub roles: Vec<String>,
}

/// Signs and checks tokens with a shared secret.
pub struct JwtAuth {
    secret: String,
}

impl JwtAuth {
    pub closed spec fn secret_spec(&self) -> Seq<char> {
        self.secret@
    }

    pub fn new(secret: &str) -> (r: JwtAuth)
        ensures
            r.secret_spec() == secret@,
    {
        JwtAuth { secret: secret.to_string() }
    }

    /// The shared secret.
    pub fn secret(&self) -> (r: &String)
        ensures
            r@ == self.secret_spec(),
    {
        &self.secret
    }
}

/// What the token middleware does with a request.
#[derive(Debug)]
pub enum TokenStep {
    /// The path needs no token: hand the request on.
    Skip,
    /// Check this token, then hand the request on or answer "invalid token".
    Verify(String),
    /// No bearer token: answer "missing token".
    Missing,
}

/// Checks bearer tokens, except on a list of open paths.
pub struct AuthMiddleware {
    pub jwt: std::sync::Arc<JwtAuth>,
    pub skip_paths: Vec<String>,
}

/// The token in an authorization header: what follows `Bearer `.
pub open spec fn bearer_token(header: Seq<char>) -> Option<Seq<char>> {
    if "Bearer "@.len() <= header.len() && header.subrange(0, 7) == "Bearer "@ {
        Some(header.subrange(7, header.len() as int))
    } else {
        None
    }
}

impl AuthMiddleware {
    /// Leaves `/login` and `/register` open.
    pub fn new(jwt: std::sync::Arc<JwtAuth>) -> (r: AuthMiddleware)
        ensures
            r.skip_paths.deep_view() == seq!["/login"@, "/register"@],
    {
        let mut skip_paths: Vec<String> = Vec::new();
        skip_paths.push("/login".to_string());
        skip_paths.push("/register".to_string());
        assert(skip_paths.deep_view() =~= seq!["/login"@, "/register"@]);
        AuthMiddleware { jwt, skip_paths }
    }

    /// Leaves one more path open.
    pub fn skip_path(self, path: &str) -> (r: AuthMiddleware)
        ensures
            r.skip_paths.deep_view() == self.skip_paths.deep_view().push(path@),
            r.jwt == self.jwt,
    {
        let mut s = self;
        let ghost before = s.skip_paths.deep_view();
        s.skip_paths.push(path.to_string());
        assert(s.skip_paths.deep_view() =~= before.push(path@));
        s
    }

    /// Decides from the request path and its authorization header (`None`
    /// when absent or not text).
    pub fn step(&self, path: &str, authorization: Option<&str>) -> (r: TokenStep)
        ensures
            self.skip_paths.deep_view().contains(path@) ==> r is Skip,
            !self.skip_paths.deep_view().contains(path@) ==> match authorization {
                Some(h) => match bearer_token(h@) {
                    Some(t) => r is Verify && (r->Verify_0)@ == t,
                    None => r is Missing,
                },
                None => r is Missing,
            },
    {
        let p = chars_of(path);
        let mut i: usize = 0;
        while i < self.skip_paths.len()
            invariant
                p@ == path@,
                i <= self.skip_paths@.len(),
                forall|j: int| 0 <= j < i ==> self.skip_paths.deep_view()[j] != path@,
            decreases self.skip_paths@.len() - i,
        {
            let q = chars_of(self.skip_paths[i].as_str());
            if same_chars(&p, &q) {
                assert(self.skip_paths.deep_view()[i as int] == path@);
                return TokenStep::Skip;
            }
            i += 1;
        }
        assert(!self.skip_paths.deep_view().contains(path@));
        match authorization {
            None => TokenStep::Missing,
            Some(h) => {
                let hv = chars_of(h);
                let pre = chars_of("Bearer ");
                proof {
                    reveal_strlit("Bearer ");
                }
                if !starts_with_chars(&hv, &pre) {
                    return TokenStep::Missing;
                }
                let mut rest: Vec<char> = Vec::new();
                let mut j: usize = pre.len();
                while j < hv.len()
                    invariant
                        pre@.len() == 7,
                        7 <= j <= hv@.len(),
                        rest@ == hv@.subrange(7, j as int),
                    decreases hv@.len() - j,
                {
                    rest.push(hv[j]);
                    assert(rest@ =~= hv@.subrange(7, j + 1));
                    j += 1;
                }
                TokenStep::Verify(text_of(&rest))
            },
        }
    }
}

} // verus!
