//! Content types for served files, decided by the file extension of a
//! lower-cased path.

use vstd::prelude::*;

use crate::text::lower_of;
use crate::text::to_lower;

verus! {

/// Whether `s` ends in `suffix`.
pub open spec fn ends_with(s: Seq<char>, suffix: Seq<char>) -> bool {
    s.len() >= suffix.len() && s.skip(s.len() - suffix.len()) == suffix
}

/// Decides [`ends_with`] on concrete strings.
pub fn str_ends_with(s: &str, suffix: &str) -> (r: bool)
    ensures
        r == ends_with(s@, suffix@),
{
    let n = s.unicode_len();
    let m = suffix.unicode_len();
    if n < m {
        return false;
    }
    let base = n - m;
    let mut i: usize = 0;
    while i < m
        invariant
            i <= m,
            base == n - m,
            m <= n,
            n == s@.len(),
            m == suffix@.len(),
            forall|k: int| 0 <= k < i ==> s@[base + k] == suffix@[k],
        decreases m - i,
    {
        if s.get_char(base + i) != suffix.get_char(i) {
            proof {
                assert(s@.skip(base as int)[i as int] == s@[base + i]);
            }
            return false;
        }
        i = i + 1;
    }
    proof {
        assert(s@.skip(base as int) =~= suffix@);
    }
    true
}

/// The content type for a lower-cased path, by its extension; anything
/// unrecognized is served as a plain byte stream.
pub open spec fn spec_content_type(lower: Seq<char>) -> Seq<char> {
    if ends_with(lower, ".html"@) || ends_with(lower, ".htm"@) {
        "text/html; charset=utf-8"@
    } else if ends_with(lower, ".css"@) {
        "text/css; charset=utf-8"@
    } else if ends_with(lower, ".js"@) || ends_with(lower, ".mjs"@) {
        "application/javascript; charset=utf-8"@
    } else if ends_with(lower, ".json"@) {
        "application/json; charset=utf-8"@
    } else if ends_with(lower, ".png"@) {
        "image/png"@
    } else if ends_with(lower, ".jpg"@) || ends_with(lower, ".jpeg"@) {
        "image/jpeg"@
    } else if ends_with(lower, ".gif"@) {
        "image/gif"@
    } else if ends_with(lower, ".svg"@) {
        "image/svg+xml"@
    } else if ends_with(lower, ".webp"@) {
        "image/webp"@
    } else if ends_with(lower, ".ico"@) {
        "image/x-icon"@
    } else if ends_with(lower, ".woff2"@) {
        "font/woff2"@
    } else if ends_with(lower, ".woff"@) {
        "font/woff"@
    } else if ends_with(lower, ".ttf"@) {
        "font/ttf"@
    } else if ends_with(lower, ".xml"@) {
        "application/xml; charset=utf-8"@
    } else if ends_with(lower, ".txt"@) {
        "text/plain; charset=utf-8"@
    } else if ends_with(lower, ".mp4"@) {
        "video/mp4"@
    } else if ends_with(lower, ".mp3"@) {
        "audio/mpeg"@
    } else if ends_with(lower, ".pdf"@) {
        "application/pdf"@
    } else if ends_with(lower, ".wasm"@) {
        "application/wasm"@
    } else {
        "application/octet-stream"@
    }
}

/// Determines the content type for a file from its path, lower-cased.
pub fn content_type_for(path: &str) -> (r: &'static str)
    ensures
        r@ == spec_content_type(lower_of(path@)),
{
    let low = to_lower(path);
    let l = low.as_str();
    if str_ends_with(l, ".html") || str_ends_with(l, ".htm") {
        "text/html; charset=utf-8"
    } else if str_ends_with(l, ".css") {
        "text/css; charset=utf-8"
    } else if str_ends_with(l, ".js") || str_ends_with(l, ".mjs") {
        "application/javascript; charset=utf-8"
    } else if str_ends_with(l, ".json") {
        "application/json; charset=utf-8"
    } else if str_ends_with(l, ".png") {
        "image/png"
    } else if str_ends_with(l, ".jpg") || str_ends_with(l, ".jpeg") {
        "image/jpeg"
    } else if str_ends_with(l, ".gif") {
        "image/gif"
    } else if str_ends_with(l, ".svg") {
        "image/svg+xml"
    } else if str_ends_with(l, ".webp") {
        "image/webp"
    } else if str_ends_with(l, ".ico") {
        "image/x-icon"
    } else if str_ends_with(l, ".woff2") {
        "font/woff2"
    } else if str_ends_with(l, ".woff") {
        "font/woff"
    } else if str_ends_with(l, ".ttf") {
        "font/ttf"
    } else if str_ends_with(l, ".xml") {
        "application/xml; charset=utf-8"
    } else if str_ends_with(l, ".txt") {
        "text/plain; charset=utf-8"
    } else if str_ends_with(l, ".mp4") {
        "video/mp4"
    } else if str_ends_with(l, ".mp3") {
        "audio/mpeg"
    } else if str_ends_with(l, ".pdf") {
        "application/pdf"
    } else if str_ends_with(l, ".wasm") {
        "application/wasm"
    } else {
        "application/octet-stream"
    }
}

} // verus!
