//! The file extension that a recording of a given audio MIME type is sent with.
use vstd::prelude::*;
use crate::text::{ascii_lower, contains, has_infix, to_ascii_lowercase};

verus! {

/// The extension for a MIME type, by the first container name that the
/// type, in ASCII lower case, mentions; `webm` when it names none.
pub open spec fn extension_for(mime: Seq<char>) -> Seq<char> {
    let n = ascii_lower(mime);
    if has_infix(n, "webm"@) {
        "webm"@
    } else if has_infix(n, "ogg"@) {
        "ogg"@
    } else if has_infix(n, "mp4"@) || has_infix(n, "m4a"@) {
        "m4a"@
    } else if has_infix(n, "wav"@) {
        "wav"@
    } else {
        "webm"@
    }
}

/// The file extension for an audio MIME type.
pub fn mime_to_extension(mime_type: &str) -> (r: &'static str)
    ensures
        r@ == extension_for(mime_type@),
{
    let normalized = to_ascii_lowercase(mime_type);
    if contains(normalized.as_str(), "webm") {
        return "webm";
    }
    if contains(normalized.as_str(), "ogg") {
        return "ogg";
    }
    if contains(normalized.as_str(), "mp4") || contains(normalized.as_str(), "m4a") {
        return "m4a";
    }
    if contains(normalized.as_str(), "wav") {
        return "wav";
    }
    "webm"
}

} // verus!
