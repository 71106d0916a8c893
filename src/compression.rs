//! Choosing whether and how to compress a response body.
use vstd::prelude::*;
use crate::text::{chars_of, contains_text, occurs_in};

verus! {

/// A content encoding that the compressor can produce.
#[derive(Clone, Copy, Debug, PartialEq, Eq, Structural)]
pub enum Encoding {
    Brotli,
    Gzip,
}

/// The encoding to use for an accept-encoding header: brotli if it names
/// `br`, else gzip if it names `gzip`, else none.
pub open spec fn encoding_for(accept: Seq<char>) -> Option<Encoding> {
    if occurs_in(accept, "br"@) {
        Some(Encoding::Brotli)
    } else if occurs_in(accept, "gzip"@) {
        Some(Encoding::Gzip)
    } else {
        None
    }
}

/// Compresses response bodies of at least `min_size` bytes.
pub struct CompressionMiddleware {
    min_size: usize,
}

impl CompressionMiddleware {
    pub closed spec fn threshold(&self) -> usize {
        self.min_size
    }

    /// Compresses bodies of 1024 bytes or more.
    pub fn new() -> (r: CompressionMiddleware)
        ensures
            r.threshold() == 1024,
    {
        CompressionMiddleware { min_size: 1024 }
    }

    /// Sets the smallest body size that gets compressed.
    pub fn min_size(self, size: usize) -> (r: CompressionMiddleware)
        ensures
            r.threshold() == size,
    {
        CompressionMiddleware { min_size: size }
    }

    /// Whether a body of `len` bytes gets compressed.
    pub fn should_compress(&self, len: usize) -> (r: bool)
        ensures
            r == (len >= self.threshold()),
    {
        len >= self.min_size
    }

    /// The encoding for a request's accept-encoding header (empty when absent).
    pub fn choose_encoding(accept: &str) -> (r: Option<Encoding>)
        ensures
            r == encoding_for(accept@),
    {
        let a = chars_of(accept);
        let br = chars_of("br");
        if contains_text(&a, &br) {
            return Some(Encoding::Brotli);
        }
        let gz = chars_of("gzip");
        if contains_text(&a, &gz) {
            return Some(Encoding::Gzip);
        }
        None
    }
}

impl Encoding {
    /// The name of the encoding in a content-encoding header.
    pub fn name(&self) -> (r: &'static str)
        ensures
            *self == Encoding::Brotli ==> r@ == "br"@,
            *self == Encoding::Gzip ==> r@ == "gzip"@,
    {
        match self {
            Encoding::Brotli => "br",
            Encoding::Gzip => "gzip",
        }
    }
}

} // verus!
