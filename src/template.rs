//! A minimal template engine that wraps a template in a page body.
use vstd::prelude::*;
use crate::http::AppError;
use crate::text::concat;

verus! {

/// A template engine without registered templates.
pub struct TemplateEngine {}

impl TemplateEngine {
    pub fn new() -> TemplateEngine {
        TemplateEngine {}
    }

    /// Accepts a template file; this engine keeps nothing, so it always succeeds.
    pub fn register_template_file(&mut self, name: &str, path: &str) -> (r: Result<(), AppError>)
        ensures
            r is Ok,
    {
        Ok(())
    }

    /// The page that renders `template`: the template inside a body element.
    pub fn render(&self, template: &str) -> (r: String)
        ensures
            r@ == "<html><body>"@ + template@ + "</body></html>"@,
    {
        let a = concat("<html><body>", template);
        concat(a.as_str(), "</body></html>")
    }
}

} // verus!
