//! Asset settings and the content type of an asset path.
use vstd::prelude::*;
use crate::text::{
    chars_of, same_chars, concat, decimal, decimal_spec, split_on, lemma_split_on_nonempty, trim_spec,
    trim_chars, starts_with_chars, text_of,
};
use vstd::string::StrSliceExecFns;
use vstd::utf8::{valid_utf8, decode_utf8, encode_utf8};

verus! {

/// What `std::path::Path::extension` gives for a path: the text after the last
/// `.` of the file name, if the name has one that does not start it.
pub uninterp spec fn extension_of(path: Seq<char>) -> Option<Seq<char>>;

/// Relies on `std::path::Path::extension`; the extension of a `&str` path is always text.
#[verifier::external_body]
fn path_extension(path: &str) -> (r: Option<String>)
    ensures
        match r {
            Some(e) => extension_of(path@) == Some(e@),
            None => extension_of(path@) is None,
        },
{
    std::path::Path::new(path).extension().and_then(|e| e.to_str()).map(|e| e.to_string())
}

/// What `String::from_utf8_lossy` gives for `bytes`.
pub uninterp spec fn lossy_text(bytes: Seq<u8>) -> Seq<char>;

/// Relies on `String::from_utf8_lossy`: valid UTF-8 decodes to exactly its
/// characters; each invalid sequence becomes a replacement character.
#[verifier::external_body]
fn text_from_bytes(bytes: &Vec<u8>) -> (r: String)
    ensures
        r@ == lossy_text(bytes@),
        valid_utf8(bytes@) ==> r@ == decode_utf8(bytes@),
{
    String::from_utf8_lossy(bytes).into_owned()
}

/// The lines of `text` that remain after minifying: each line trimmed, and
/// the empty ones and those that start with `marker` left out.
pub open spec fn kept_lines(lines: Seq<Seq<char>>, marker: Seq<char>) -> Seq<Seq<char>>
    decreases lines.len(),
{
    if lines.len() == 0 {
        seq![]
    } else {
        let rest = kept_lines(lines.drop_last(), marker);
        let t = trim_spec(lines.last());
        if t.len() > 0 && !(marker.len() <= t.len() && t.subrange(0, marker.len() as int) == marker) {
            rest.push(t)
        } else {
            rest
        }
    }
}

/// The pieces joined with single spaces.
pub open spec fn join_spaced(ps: Seq<Seq<char>>) -> Seq<char>
    decreases ps.len(),
{
    if ps.len() == 0 {
        seq![]
    } else if ps.len() == 1 {
        ps[0]
    } else {
        join_spaced(ps.drop_last()) + seq![' '] + ps.last()
    }
}

/// `text` minified: its kept lines joined with spaces.
pub open spec fn minified(text: Seq<char>, marker: Seq<char>) -> Seq<char> {
    join_spaced(kept_lines(split_on(text, '\n'), marker))
}

/// Appends one line to the minified text, as `kept_lines` and `join_spaced` do.
fn keep_line(out: &mut Vec<char>, any: &mut bool, line: &Vec<char>, marker: &Vec<char>, Ghost(kept): Ghost<Seq<Seq<char>>>)
    requires
        old(out)@ == join_spaced(kept),
        *old(any) == (kept.len() > 0),
    ensures
        ({
            let t = trim_spec(line@);
            let keep = t.len() > 0 && !(marker@.len() <= t.len() && t.subrange(0, marker@.len() as int)
                == marker@);
            let kept2 = if keep {
                kept.push(t)
            } else {
                kept
            };
            final(out)@ == join_spaced(kept2) && *final(any) == (kept2.len() > 0)
        }),
{
    let t = trim_chars(line);
    if t.len() == 0 || starts_with_chars(&t, marker) {
        return;
    }
    let ghost k2 = kept.push(t@);
    assert(k2.drop_last() =~= kept);
    if *any {
        out.push(' ');
    }
    let mut i: usize = 0;
    let ghost base = out@;
    while i < t.len()
        invariant
            i <= t@.len(),
            out@ == base + t@.subrange(0, i as int),
        decreases t@.len() - i,
    {
        out.push(t[i]);
        assert(out@ =~= base + t@.subrange(0, i + 1));
        i += 1;
    }
    assert(t@.subrange(0, t@.len() as int) =~= t@);
    if !*any {
        assert(kept.len() == 0);
        assert(out@ =~= t@);
    } else {
        assert(out@ =~= join_spaced(kept) + seq![' '] + t@);
    }
    *any = true;
}

/// An asset kept in memory, with the headers it is served with.
pub struct CachedAsset {
    pub content: Vec<u8>,
    pub content_type: String,
    pub etag: String,
    pub last_modified: String,
}

/// How assets are prepared and how long clients may keep them.
pub struct AssetOptimization {
    pub minify_css: bool,
    pub minify_js: bool,
    pub compress_images: bool,
    pub cache_duration: u64,
}

impl Default for AssetOptimization {
    fn default() -> (r: AssetOptimization)
        ensures
            r.minify_css && r.minify_js && r.compress_images,
            r.cache_duration == 3600,
    {
        AssetOptimization { minify_css: true, minify_js: true, compress_images: true, cache_duration: 3600 }
    }
}

/// Serves the assets under a root directory, keeping each one it has read.
pub struct AssetManager {
    pub root_dir: String,
    pub cache: Vec<(String, CachedAsset)>,
    pub optimization: AssetOptimization,
}

/// The content type that an extension stands for.
pub open spec fn content_type_for(ext: Option<Seq<char>>) -> Seq<char> {
    match ext {
        Some(e) => if e == "css"@ {
            "text/css"@
        } else if e == "js"@ {
            "application/javascript"@
        } else if e == "png"@ {
            "image/png"@
        } else if e == "jpg"@ || e == "jpeg"@ {
            "image/jpeg"@
        } else if e == "gif"@ {
            "image/gif"@
        } else if e == "svg"@ {
            "image/svg+xml"@
        } else if e == "woff"@ {
            "font/woff"@
        } else if e == "woff2"@ {
            "font/woff2"@
        } else if e == "ttf"@ {
            "font/ttf"@
        } else if e == "ico"@ {
            "image/x-icon"@
        } else {
            "application/octet-stream"@
        },
        None => "application/octet-stream"@,
    }
}

/// The content type that an extension (`None` for a path without one) stands for.
pub fn content_type_of_extension(ext: Option<&str>) -> (r: String)
    ensures
        r@ == content_type_for(match ext {
            Some(e) => Some(e@),
            None => None,
        }),
{
    match ext {
        None => "application/octet-stream".to_string(),
        Some(e) => {
            let v = chars_of(e);
            if is_word(&v, "css") {
                "text/css".to_string()
            } else if is_word(&v, "js") {
                "application/javascript".to_string()
            } else if is_word(&v, "png") {
                "image/png".to_string()
            } else if is_word(&v, "jpg") || is_word(&v, "jpeg") {
                "image/jpeg".to_string()
            } else if is_word(&v, "gif") {
                "image/gif".to_string()
            } else if is_word(&v, "svg") {
                "image/svg+xml".to_string()
            } else if is_word(&v, "woff") {
                "font/woff".to_string()
            } else if is_word(&v, "woff2") {
                "font/woff2".to_string()
            } else if is_word(&v, "ttf") {
                "font/ttf".to_string()
            } else if is_word(&v, "ico") {
                "image/x-icon".to_string()
            } else {
                "application/octet-stream".to_string()
            }
        },
    }
}

fn is_word(e: &Vec<char>, w: &str) -> (r: bool)
    ensures
        r == (e@ == w@),
{
    let wv = chars_of(w);
    same_chars(e, &wv)
}

impl AssetManager {
    /// A manager for `root_dir` with an empty cache and the default optimization.
    pub fn new(root_dir: &str) -> (r: AssetManager)
        ensures
            r.root_dir@ == root_dir@,
            r.cache@.len() == 0,
            r.optimization.cache_duration == 3600,
    {
        AssetManager { root_dir: root_dir.to_string(), cache: Vec::new(), optimization: AssetOptimization::default() }
    }

    /// The content type of an asset, from the extension of its path.
    pub fn get_content_type(&self, path: &str) -> (r: String)
        ensures
            r@ == content_type_for(extension_of(path@)),
    {
        let ext = path_extension(path);
        match ext {
            Some(e) => content_type_of_extension(Some(e.as_str())),
            None => content_type_of_extension(None),
        }
    }

    /// The content of an asset as it is served: CSS and JavaScript are
    /// minified when their option is on (each line trimmed, blank lines and
    /// lines that start a comment dropped, the rest joined with spaces);
    /// anything else is served as it is.
    pub fn optimize_content(&self, content: &Vec<u8>, content_type: &str) -> (r: Vec<u8>)
        ensures
            (content_type@ == "text/css"@ && self.optimization.minify_css) ==> r@ == encode_utf8(
                minified(lossy_text(content@), "/*"@),
            ),
            ((content_type@ == "application/javascript"@ || content_type@ == "text/javascript"@)
                && self.optimization.minify_js) ==> r@ == encode_utf8(minified(lossy_text(content@), "//"@)),
            !((content_type@ == "text/css"@ && self.optimization.minify_css) || ((content_type@
                == "application/javascript"@ || content_type@ == "text/javascript"@)
                && self.optimization.minify_js)) ==> r@ == content@,
    {
        let ct = chars_of(content_type);
        proof {
            reveal_strlit("text/css");
            reveal_strlit("application/javascript");
            reveal_strlit("text/javascript");
            assert("application/javascript"@.len() != "text/css"@.len());
            assert("text/javascript"@.len() != "text/css"@.len());
        }
        let marker = if is_word(&ct, "text/css") && self.optimization.minify_css {
            "/*"
        } else if (is_word(&ct, "application/javascript") || is_word(&ct, "text/javascript"))
            && self.optimization.minify_js {
            "//"
        } else {
            return content.clone();
        };
        let text = text_from_bytes(content);
        let out = minify(text.as_str(), marker);
        let s = text_of(&out);
        s.as_str().as_bytes_vec()
    }

    /// The cache-control header value for served assets.
    pub fn cache_control(&self) -> (r: String)
        ensures
            r@ == "public, max-age="@ + decimal_spec(self.optimization.cache_duration as nat),
    {
        concat("public, max-age=", decimal(self.optimization.cache_duration).as_str())
    }

    /// The index of the cached asset for `path`, if any.
    pub fn cached(&self, path: &str) -> (r: Option<usize>)
        ensures
            match r {
                Some(i) => i < self.cache@.len() && self.cache@[i as int].0@ == path@ && forall|j: int|
                    0 <= j < i ==> self.cache@[j].0@ != path@,
                None => forall|j: int| 0 <= j < self.cache@.len() ==> self.cache@[j].0@ != path@,
            },
    {
        let p = chars_of(path);
        let mut i: usize = 0;
        while i < self.cache.len()
            invariant
                p@ == path@,
                i <= self.cache@.len(),
                forall|j: int| 0 <= j < i ==> self.cache@[j].0@ != path@,
            decreases self.cache@.len() - i,
        {
            let k = chars_of(self.cache[i].0.as_str());
            if same_chars(&k, &p) {
                return Some(i);
            }
            i += 1;
        }
        None
    }

    /// Keeps `asset` as the cached asset for `path`.
    pub fn remember(&mut self, path: &str, asset: CachedAsset)
        ensures
            final(self).root_dir == old(self).root_dir,
            match old(self).cached_index(path@) {
                Some(i) => final(self).cache@ == old(self).cache@.update(i, final(self).cache@[i]),
                None => final(self).cache@ == old(self).cache@.push(final(self).cache@.last()),
            },
            exists|i: int| 0 <= i < final(self).cache@.len() && final(self).cache@[i].0@ == path@,
    {
        let ghost before = self.cache@;
        match self.cached(path) {
            Some(i) => {
                proof {
                    lemma_first_index(before, path@, i as int);
                }
                self.cache.set(i, (path.to_string(), asset));
                assert(self.cache@[i as int].0@ == path@);
            },
            None => {
                proof {
                    lemma_first_index_none(before, path@);
                }
                self.cache.push((path.to_string(), asset));
                assert(self.cache@[self.cache@.len() - 1].0@ == path@);
            },
        }
    }

    /// The index of the first cached entry for `path`.
    pub closed spec fn cached_index(&self, path: Seq<char>) -> Option<int> {
        first_index(self.cache@, path)
    }
}

/// `text` minified with comment marker `marker`.
pub fn minify(text: &str, marker: &str) -> (r: Vec<char>)
    ensures
        r@ == minified(text@, marker@),
{
    let v = chars_of(text);
    let mk = chars_of(marker);
    let mut out: Vec<char> = Vec::new();
    let mut any = false;
    let mut cur: Vec<char> = Vec::new();
    let mut i: usize = 0;
    assert(v@.subrange(0, 0) =~= Seq::<char>::empty());
    while i < v.len()
        invariant
            i <= v@.len(),
            mk@ == marker@,
            split_on(v@.subrange(0, i as int), '\n').len() >= 1,
            cur@ == split_on(v@.subrange(0, i as int), '\n').last(),
            out@ == join_spaced(kept_lines(split_on(v@.subrange(0, i as int), '\n').drop_last(), marker@)),
            any == (kept_lines(split_on(v@.subrange(0, i as int), '\n').drop_last(), marker@).len() > 0),
        decreases v@.len() - i,
    {
        let ghost before = v@.subrange(0, i as int);
        let ghost next = v@.subrange(0, i + 1);
        assert(next.drop_last() =~= before);
        proof {
            lemma_split_on_nonempty(before, '\n');
        }
        let c = v[i];
        if c == '\n' {
            let ghost ps = split_on(before, '\n');
            keep_line(&mut out, &mut any, &cur, &mk, Ghost(kept_lines(ps.drop_last(), marker@)));
            proof {
                assert(split_on(next, '\n') == ps.push(Seq::<char>::empty()));
                assert(split_on(next, '\n').drop_last() =~= ps);
                assert(ps.drop_last().push(ps.last()) =~= ps);
                assert(ps.drop_last() =~= ps.drop_last());
                assert(ps.last() == cur@);
                assert(ps =~= ps.drop_last().push(cur@));
                assert(ps.drop_last() =~= ps.drop_last().push(cur@).drop_last());
            }
            cur = Vec::new();
            proof {
                assert(split_on(next, '\n').last() =~= cur@);
            }
        } else {
            cur.push(c);
            proof {
                let ps = split_on(before, '\n');
                assert(split_on(next, '\n') == ps.update(ps.len() - 1, ps.last().push(c)));
                assert(split_on(next, '\n').drop_last() =~= ps.drop_last());
            }
        }
        i += 1;
    }
    let ghost ps = split_on(v@.subrange(0, i as int), '\n');
    keep_line(&mut out, &mut any, &cur, &mk, Ghost(kept_lines(ps.drop_last(), marker@)));
    proof {
        assert(ps.drop_last().push(ps.last()) =~= ps);
        assert(v@.subrange(0, i as int) =~= text@);
    }
    out
}

pub open spec fn first_index(c: Seq<(String, CachedAsset)>, path: Seq<char>) -> Option<int>
    decreases c.len(),
{
    if c.len() == 0 {
        None
    } else if c[0].0@ == path {
        Some(0)
    } else {
        match first_index(c.drop_first(), path) {
            Some(i) => Some(i + 1),
            None => None,
        }
    }
}

proof fn lemma_first_index(c: Seq<(String, CachedAsset)>, path: Seq<char>, i: int)
    requires
        0 <= i < c.len(),
        c[i].0@ == path,
        forall|j: int| 0 <= j < i ==> c[j].0@ != path,
    ensures
        first_index(c, path) == Some(i),
    decreases i,
{
    if i > 0 {
        lemma_first_index(c.drop_first(), path, i - 1);
    }
}

proof fn lemma_first_index_none(c: Seq<(String, CachedAsset)>, path: Seq<char>)
    requires
        forall|j: int| 0 <= j < c.len() ==> c[j].0@ != path,
    ensures
        first_index(c, path) is None,
    decreases c.len(),
{
    if c.len() > 0 {
        lemma_first_index_none(c.drop_first(), path);
    }
}

} // verus!
