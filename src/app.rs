//! The outermost dispatch step: static assets, the router, and turning an
//! error into a response.
use vstd::prelude::*;
use crate::http::AppError;
use crate::middleware::Reply;
use crate::router::Router;
use crate::static_files::StaticFiles;
use crate::template::TemplateEngine;
use crate::html::{encode_text, escaped_text, reason_phrase, reason_phrase_of};
use crate::text::{concat, decimal, decimal_spec};
use crate::text_map::TextMap;

verus! {

/// Where a request goes.
#[derive(Clone, Copy, Debug, PartialEq, Eq, Structural)]
pub enum Target {
    /// To the static-file handler, bypassing the router.
    StaticFiles,
    /// To the router.
    Routes,
}

/// An application: a router, and optionally static files and templates.
pub struct App<H, M> {
    pub router: Router<H, M>,
    pub static_files: Option<StaticFiles>,
    pub templates: Option<TemplateEngine>,
}

/// Whether `path` falls under `prefix`.
pub open spec fn under_prefix(path: Seq<char>, prefix: Seq<char>) -> bool {
    prefix.len() <= path.len() && path.subrange(0, prefix.len() as int) == prefix
}

/// The heading of the default error page: the code and its reason phrase
/// (`Unknown Error` for a code without one).
pub open spec fn error_heading(status: u16) -> Seq<char> {
    "Error "@ + decimal_spec(status as nat) + ": "@ + match reason_phrase_of(status) {
        Some(r) => r,
        None => "Unknown Error"@,
    }
}

/// The content of the default error page: a container holding the heading
/// and the message, both escaped as HTML text.
pub open spec fn error_page(status: u16, message: Seq<char>) -> Seq<char> {
    "<div class=\"container\"><h1>"@ + escaped_text(error_heading(status)) + "</h1><p>"@ + escaped_text(
        message,
    ) + "</p></div>"@
}

impl<H, M> App<H, M> {
    /// An application with an empty router and nothing else.
    pub fn new() -> (r: App<H, M>)
        ensures
            r.router.wf(),
            r.router.table().len() == 0,
            r.router.layers().len() == 0,
            r.static_files is None,
            r.templates is None,
    {
        App { router: Router::new(), static_files: None, templates: None }
    }

    /// Uses `router` for every request outside the static prefix.
    pub fn router(self, router: Router<H, M>) -> (r: App<H, M>)
        ensures
            r.router == router,
            r.static_files == self.static_files,
    {
        App { router, ..self }
    }

    /// Serves the files of `dir` for the paths under `prefix`.
    pub fn static_files(self, dir: &str, prefix: &str) -> (r: App<H, M>)
        ensures
            r.static_files is Some,
            r.static_files->0.dir@ == dir@,
            r.static_files->0.prefix@ == prefix@,
            r.router == self.router,
    {
        App { static_files: Some(StaticFiles::new(dir, prefix)), ..self }
    }

    /// Uses `engine` for templates.
    pub fn templates(self, engine: TemplateEngine) -> (r: App<H, M>)
        ensures
            r.templates is Some,
            r.router == self.router,
            r.static_files == self.static_files,
    {
        App { templates: Some(engine), ..self }
    }

    /// Where a request for `path` goes: to the static files when they are
    /// configured and the path is under their prefix, else to the router.
    pub fn target(&self, path: &str) -> (r: Target)
        ensures
            r == (match self.static_files {
                Some(s) => if under_prefix(path@, s.prefix@) {
                    Target::StaticFiles
                } else {
                    Target::Routes
                },
                None => Target::Routes,
            }),
    {
        match &self.static_files {
            Some(s) => if s.serves(path) {
                Target::StaticFiles
            } else {
                Target::Routes
            },
            None => Target::Routes,
        }
    }
}

/// The default conversion of an error into a response: the error's status,
/// and an HTML page headed by the code and its reason phrase, with the
/// escaped message below. The body is the page content, which the server
/// places in its document shell.
pub fn default_error_reply(err: &AppError) -> (r: Reply)
    ensures
        r.status == err.status_spec(),
        r.body@ == error_page(err.status_spec(), err.message_spec()),
        r.headers.wf(),
        r.headers@ == Map::<Seq<char>, Seq<char>>::empty().insert("Content-Type"@, "text/html"@),
{
    let status = err.status();
    let reason = match reason_phrase(status) {
        Some(p) => p,
        None => "Unknown Error".to_string(),
    };
    let a = concat("Error ", decimal(status as u64).as_str());
    let b = concat(a.as_str(), ": ");
    let heading = concat(b.as_str(), reason.as_str());
    let c = concat("<div class=\"container\"><h1>", encode_text(heading.as_str()).as_str());
    let d = concat(c.as_str(), "</h1><p>");
    let e = concat(d.as_str(), encode_text(err.message().as_str()).as_str());
    let body = concat(e.as_str(), "</p></div>");
    let mut headers = TextMap::new();
    headers.insert("Content-Type".to_string(), "text/html".to_string());
    Reply { status, headers, body }
}

} // verus!
