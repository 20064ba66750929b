//! The media types of the video files that are served, by file extension.

use crate::path::{extension, get_extension};
use crate::text::{lowercase_of, str_eq, to_lowercase};
use vstd::prelude::*;
use vstd::string::*;

verus! {

/// The media type of anything that is not a known video format.
pub open spec fn default_mime() -> Seq<char> {
    "application/octet-stream"@
}

/// Whether a lowercase extension is one of the video formats that are served.
pub open spec fn is_video_extension(ext: Seq<char>) -> bool {
    ext == "mp4"@ || ext == "avi"@ || ext == "mkv"@ || ext == "mov"@ || ext == "wmv"@ || ext
        == "flv"@ || ext == "webm"@ || ext == "m4v"@
}

/// The media type that belongs to a lowercase extension.
pub open spec fn mime_for_extension(ext: Seq<char>) -> Seq<char> {
    if ext == "mp4"@ {
        "video/mp4"@
    } else if ext == "avi"@ {
        "video/x-msvideo"@
    } else if ext == "mkv"@ {
        "video/x-matroska"@
    } else if ext == "mov"@ {
        "video/quicktime"@
    } else if ext == "wmv"@ {
        "video/x-ms-wmv"@
    } else if ext == "flv"@ {
        "video/x-flv"@
    } else if ext == "webm"@ {
        "video/webm"@
    } else if ext == "m4v"@ {
        "video/x-m4v"@
    } else {
        default_mime()
    }
}

/// The media type of a file, by the lowercase form of its extension.
pub open spec fn mime_type(filename: Seq<char>) -> Seq<char> {
    match extension(filename) {
        Some(ext) => mime_for_extension(lowercase_of(ext)),
        None => default_mime(),
    }
}

/// The extension under which a file counts as a video: the lowercase form
/// of its extension, where that is one of the video formats.
pub open spec fn video_extension(path: Seq<char>) -> Option<Seq<char>> {
    match extension(path) {
        Some(ext) => if is_video_extension(lowercase_of(ext)) {
            Some(lowercase_of(ext))
        } else {
            None
        },
        None => None,
    }
}

/// Exactly the video formats have a media type of their own.
pub proof fn lemma_video_extensions_have_a_type(ext: Seq<char>)
    ensures
        is_video_extension(ext) <==> mime_for_extension(ext) != default_mime(),
{
    reveal_strlit("application/octet-stream");
    reveal_strlit("video/mp4");
    reveal_strlit("video/x-msvideo");
    reveal_strlit("video/x-matroska");
    reveal_strlit("video/quicktime");
    reveal_strlit("video/x-ms-wmv");
    reveal_strlit("video/x-flv");
    reveal_strlit("video/webm");
    reveal_strlit("video/x-m4v");
    assert(default_mime().len() == 24);
    assert("video/mp4"@.len() == 9);
    assert("video/x-msvideo"@.len() == 15);
    assert("video/x-matroska"@.len() == 16);
    assert("video/quicktime"@.len() == 15);
    assert("video/x-ms-wmv"@.len() == 14);
    assert("video/x-flv"@.len() == 11);
    assert("video/webm"@.len() == 10);
    assert("video/x-m4v"@.len() == 11);
}

/// The extensions of the video formats are made of letters and numerals:
/// none holds a `/` or a `.`.
pub proof fn lemma_video_extension_is_plain(ext: Seq<char>)
    requires
        is_video_extension(ext),
    ensures
        !ext.contains('/'),
        !ext.contains('.'),
{
    reveal_strlit("mp4");
    reveal_strlit("avi");
    reveal_strlit("mkv");
    reveal_strlit("mov");
    reveal_strlit("wmv");
    reveal_strlit("flv");
    reveal_strlit("webm");
    reveal_strlit("m4v");
    assert(ext.len() <= 4);
    assert forall|i: int| 0 <= i < ext.len() implies ext[i] != '/' && ext[i] != '.' by {
        assert(i == 0 || i == 1 || i == 2 || i == 3);
    }
}

/// Whether the lowercase extension `ext` is one of the video formats.
pub fn is_video_ext(ext: &str) -> (r: bool)
    ensures
        r == is_video_extension(ext@),
{
    str_eq(ext, "mp4") || str_eq(ext, "avi") || str_eq(ext, "mkv") || str_eq(ext, "mov")
        || str_eq(ext, "wmv") || str_eq(ext, "flv") || str_eq(ext, "webm") || str_eq(ext, "m4v")
}

/// Looks a lowercase extension up in the table of media types.
pub fn mime_type_for_extension(ext: &str) -> (r: &'static str)
    ensures
        r@ == mime_for_extension(ext@),
{
    if str_eq(ext, "mp4") {
        "video/mp4"
    } else if str_eq(ext, "avi") {
        "video/x-msvideo"
    } else if str_eq(ext, "mkv") {
        "video/x-matroska"
    } else if str_eq(ext, "mov") {
        "video/quicktime"
    } else if str_eq(ext, "wmv") {
        "video/x-ms-wmv"
    } else if str_eq(ext, "flv") {
        "video/x-flv"
    } else if str_eq(ext, "webm") {
        "video/webm"
    } else if str_eq(ext, "m4v") {
        "video/x-m4v"
    } else {
        "application/octet-stream"
    }
}

/// The lowercase form of the extension of the file that `path` names, if it
/// has an extension.
pub fn get_lowercase_extension(path: &str) -> (r: Option<String>)
    ensures
        match r {
            Some(lower) => extension(path@) is Some && lower@ == lowercase_of(
                extension(path@).unwrap(),
            ),
            None => extension(path@) is None,
        },
{
    match get_extension(path) {
        Some(ext) => Some(to_lowercase(ext)),
        None => None,
    }
}

/// The media type under which the file `filename` is served.
pub fn get_mime_type(filename: &str) -> (r: &'static str)
    ensures
        r@ == mime_type(filename@),
{
    match get_lowercase_extension(filename) {
        Some(lower) => mime_type_for_extension(lower.as_str()),
        None => "application/octet-stream",
    }
}

} // verus!
