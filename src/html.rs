//! HTML text escaping and status reason phrases, as the error page uses them.
use vstd::prelude::*;

verus! {

/// What `html_escape::encode_text` turns one character into.
pub open spec fn escape_char(c: char) -> Seq<char> {
    if c == '&' {
        "&amp;"@
    } else if c == '<' {
        "&lt;"@
    } else if c == '>' {
        "&gt;"@
    } else {
        seq![c]
    }
}

/// `s` with `&`, `<` and `>` replaced by their entities, the rest unchanged.
pub open spec fn escaped_text(s: Seq<char>) -> Seq<char>
    decreases s.len(),
{
    if s.len() == 0 {
        seq![]
    } else {
        escaped_text(s.drop_last()) + escape_char(s.last())
    }
}

/// Relies on `html_escape::encode_text`, which its documentation says
/// escapes exactly `&` as `&amp;`, `<` as `&lt;` and `>` as `&gt;`.
#[verifier::external_body]
pub(crate) fn encode_text(s: &str) -> (r: String)
    ensures
        r@ == escaped_text(s@),
{
    html_escape::encode_text(s).into_owned()
}

/// The standard reason phrase of a status code, if it has one.
pub uninterp spec fn reason_phrase_of(status: u16) -> Option<Seq<char>>;

pub open spec fn text_opt(r: Option<String>) -> Option<Seq<char>> {
    match r {
        Some(s) => Some(s@),
        None => None,
    }
}

/// Relies on `http::StatusCode::canonical_reason` (reached through
/// `StatusCode::from_u16`, which refuses codes outside 100 to 999): the
/// standard phrase of a registered code, as its table lists it.
#[verifier::external_body]
pub(crate) fn reason_phrase(status: u16) -> (r: Option<String>)
    ensures
        text_opt(r) == reason_phrase_of(status),
        status < 100 || status >= 1000 ==> r is None,
        status == 400 ==> r is Some && r->0@ == "Bad Request"@,
        status == 401 ==> r is Some && r->0@ == "Unauthorized"@,
        status == 403 ==> r is Some && r->0@ == "Forbidden"@,
        status == 404 ==> r is Some && r->0@ == "Not Found"@,
        status == 500 ==> r is Some && r->0@ == "Internal Server Error"@,
{
    hyper::StatusCode::from_u16(status).ok().and_then(|c| c.canonical_reason()).map(|p| p.to_string())
}

} // verus!
