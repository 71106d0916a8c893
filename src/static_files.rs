//! Serving files under a URL prefix from a directory.
use vstd::prelude::*;
use crate::text::{chars_of, starts_with_chars, text_of};

verus! {

/// Serves the files of `dir` for the paths under `prefix`.
pub struct StaticFiles {
    pub dir: String,
    pub prefix: String,
}

impl StaticFiles {
    pub fn new(dir: &str, prefix: &str) -> (r: StaticFiles)
        ensures
            r.dir@ == dir@,
            r.prefix@ == prefix@,
    {
        StaticFiles { dir: dir.to_string(), prefix: prefix.to_string() }
    }

    /// Whether a request path falls under the prefix.
    pub fn serves(&self, path: &str) -> (r: bool)
        ensures
            r == (self.prefix@.len() <= path@.len() && path@.subrange(0, self.prefix@.len() as int)
                == self.prefix@),
    {
        let p = chars_of(path);
        let pre = chars_of(self.prefix.as_str());
        starts_with_chars(&p, &pre)
    }

    /// The file path that a request path names: what follows the prefix, or
    /// `None` when the path is not under the prefix.
    pub fn file_path(&self, path: &str) -> (r: Option<String>)
        ensures
            match r {
                Some(f) => self.prefix@.len() <= path@.len() && path@.subrange(
                    0,
                    self.prefix@.len() as int,
                ) == self.prefix@ && f@ == path@.subrange(self.prefix@.len() as int, path@.len() as int),
                None => !(self.prefix@.len() <= path@.len() && path@.subrange(
                    0,
                    self.prefix@.len() as int,
                ) == self.prefix@),
            },
    {
        let p = chars_of(path);
        let pre = chars_of(self.prefix.as_str());
        if !starts_with_chars(&p, &pre) {
            return None;
        }
        let mut rest: Vec<char> = Vec::new();
        let mut i = pre.len();
        while i < p.len()
            invariant
                pre@.len() <= i <= p@.len(),
                rest@ == p@.subrange(pre@.len() as int, i as int),
            decreases p@.len() - i,
        {
            rest.push(p[i]);
            assert(rest@ =~= p@.subrange(pre@.len() as int, i + 1));
            i += 1;
        }
        Some(text_of(&rest))
    }
}

} // verus!
