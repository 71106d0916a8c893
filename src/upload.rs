//! Files received in a request body.
use vstd::prelude::*;

verus! {

/// One uploaded file.
pub struct FileUpload {
    pub filename: String,
    pub content_type: String,
    pub size: usize,
    pub data: Vec<u8>,
}

/// The uploads that a form body holds: the whole body, as one plain-text file
/// named `example.txt`.
pub fn uploads_from_body(body: Vec<u8>) -> (r: Vec<FileUpload>)
    ensures
        r@.len() == 1,
        r@[0].filename@ == "example.txt"@,
        r@[0].content_type@ == "text/plain"@,
        r@[0].size == body@.len(),
        r@[0].data@ == body@,
{
    let size = body.len();
    let mut out: Vec<FileUpload> = Vec::new();
    out.push(FileUpload {
        filename: "example.txt".to_string(),
        content_type: "text/plain".to_string(),
        size,
        data: body,
    });
    out
}

} // verus!
