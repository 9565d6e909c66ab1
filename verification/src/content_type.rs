//! The content type of a file, told from the extension of its name.
//!
//! A compression extension does not determine the type: where a name ends in
//! one, the extension of what stands before it decides, so that
//! `page.html.gz` is still an HTML document.
use vstd::prelude::*;
use crate::text::{
    after_last, find_after_last, lemma_after_last, to_chars, to_string, window_is,
};

verus! {

/// The type of HTML documents, and of the built-in error pages.
pub const HTML: &'static str = "text/html; charset=utf-8";

/// The type of plain text.
pub const TEXT: &'static str = "text/plain; charset=utf-8";

/// The type of files whose extension is missing or unknown.
pub const OCTET: &'static str = "application/octet-stream";

/// The last component of a path written with `/`: what follows its last
/// `/`, or the whole path where it holds none.
pub open spec fn file_name(path: Seq<char>) -> Seq<char> {
    path.skip(after_last(path, '/') as int)
}

/// Where the extension of the file name `name` begins, or `None` where it
/// has none. A name has no extension where it holds no `.`, where its only
/// `.` is its first character, and where it is `..`.
pub open spec fn extension_start(name: Seq<char>) -> Option<nat> {
    let at = after_last(name, '.');
    if at <= 1 || name == ".."@ {
        None
    } else {
        Some(at)
    }
}

/// The extension of the file name `name`: what follows its last `.`.
pub open spec fn extension(name: Seq<char>) -> Option<Seq<char>> {
    match extension_start(name) {
        Some(at) => Some(name.skip(at as int)),
        None => None,
    }
}

/// The file name `name` without its extension and the `.` before it, or the
/// whole name where it has no extension.
pub open spec fn file_stem(name: Seq<char>) -> Seq<char> {
    match extension_start(name) {
        Some(at) => name.take(at - 1),
        None => name,
    }
}

/// Whether `ext` is the extension of a compressed file.
pub open spec fn is_compressed_ext(ext: Seq<char>) -> bool {
    ext == "gz"@ || ext == "zstd"@ || ext == "br"@
}

/// The name that decides the content type of `path`: its file name, without
/// a compression extension where it has one.
pub open spec fn typed_name(path: Seq<char>) -> Seq<char> {
    let name = file_name(path);
    match extension(name) {
        Some(ext) => if is_compressed_ext(ext) {
            file_stem(name)
        } else {
            name
        },
        None => name,
    }
}

/// The path that decides the content type of `path`: the stem of its file
/// name where that name has a compression extension, else `path` itself.
pub open spec fn alt_path(path: Seq<char>) -> Seq<char> {
    let name = file_name(path);
    match extension(name) {
        Some(ext) => if is_compressed_ext(ext) {
            file_stem(name)
        } else {
            path
        },
        None => path,
    }
}

/// The content type that the table gives to the extension `ext`.
pub open spec fn mime_of(ext: Seq<char>) -> Seq<char> {
    if ext == "aac"@ {
        "audio/aac"@
    } else if ext == "bmp"@ {
        "image/bmp"@
    } else if ext == "css"@ {
        "text/css; charset=utf-8"@
    } else if ext == "csv"@ {
        "text/csv; charset=utf-8"@
    } else if ext == "flac"@ {
        "audio/flac"@
    } else if ext == "gif"@ {
        "image/gif"@
    } else if ext == "gz"@ {
        "application/gzip"@
    } else if ext == "html"@ {
        HTML@
    } else if ext == "ico"@ {
        "image/vnd.microsoft.icon"@
    } else if ext == "jpeg"@ {
        "image/jpeg"@
    } else if ext == "jpg"@ {
        "image/jpeg"@
    } else if ext == "js"@ {
        "text/javascript; charset=utf-8"@
    } else if ext == "json"@ {
        "application/json; charset=utf-8"@
    } else if ext == "webmanifest"@ {
        "application/manifest+json"@
    } else if ext == "m3u8"@ {
        "application/x-mpegURL"@
    } else if ext == "m3u"@ {
        "application/x-mpegURL"@
    } else if ext == "midi"@ {
        "audio/midi"@
    } else if ext == "mp3"@ {
        "audio/mpeg"@
    } else if ext == "mp4"@ {
        "video/mp4"@
    } else if ext == "mpd"@ {
        "application/dash+xml"@
    } else if ext == "mpeg"@ {
        "video/mpeg"@
    } else if ext == "oga"@ {
        "audio/ogg"@
    } else if ext == "ogv"@ {
        "video/ogg"@
    } else if ext == "otf"@ {
        "font/otf"@
    } else if ext == "pdf"@ {
        "application/pdf"@
    } else if ext == "png"@ {
        "image/png"@
    } else if ext == "svg"@ {
        "image/svg+xml"@
    } else if ext == "txt"@ {
        TEXT@
    } else if ext == "tiff"@ {
        "image/tiff"@
    } else if ext == "ts"@ {
        "video/MP2T"@
    } else if ext == "ttf"@ {
        "font/ttf"@
    } else if ext == "wasm"@ {
        "application/wasm"@
    } else if ext == "wav"@ {
        "audio/wav"@
    } else if ext == "weba"@ {
        "audio/webm"@
    } else if ext == "webm"@ {
        "video/webm"@
    } else if ext == "webp"@ {
        "image/webp"@
    } else if ext == "woff2"@ {
        "font/woff2"@
    } else if ext == "woff"@ {
        "font/woff"@
    } else if ext == "xml"@ {
        "application/xml; charset=utf-8"@
    } else if ext == "zip"@ {
        "application/zip"@
    } else {
        OCTET@
    }
}

/// The content type of the file at `path`: that of the extension of the name
/// that decides, and `application/octet-stream` where that name has none.
pub open spec fn content_type_of(path: Seq<char>) -> Seq<char> {
    match extension(typed_name(path)) {
        Some(ext) => mime_of(ext),
        None => OCTET@,
    }
}

/// The encoding that the extension of `path` tells of, if any.
pub open spec fn content_encoding_of(path: Seq<char>) -> Option<Seq<char>> {
    match extension(file_name(path)) {
        Some(ext) => if ext == "gz"@ {
            Some("gz"@)
        } else if ext == "br"@ {
            Some("br"@)
        } else if ext == "zstd"@ {
            Some("zstd"@)
        } else {
            None
        },
        None => None,
    }
}

fn name_start(v: &Vec<char>) -> (at: usize)
    ensures
        at <= v.len(),
        v@.subrange(at as int, v.len() as int) == file_name(v@),
{
    assert(v@.subrange(0, v.len() as int) =~= v@);
    let at = find_after_last(v, 0, v.len(), '/');
    assert(v@.subrange(at as int, v.len() as int) =~= v@.skip(at as int));
    at
}

fn find_extension(v: &Vec<char>, lo: usize, hi: usize) -> (r: Option<usize>)
    requires
        lo <= hi <= v.len(),
    ensures
        match extension_start(v@.subrange(lo as int, hi as int)) {
            Some(at) => r == Some((lo + at) as usize) && lo + 2 <= lo + at <= hi,
            None => r is None,
        },
        r matches Some(at) ==> {
            &&& v@.subrange(at as int, hi as int) == extension(
                v@.subrange(lo as int, hi as int),
            ).unwrap()
            &&& v@.subrange(lo as int, at - 1) == file_stem(v@.subrange(lo as int, hi as int))
        },
{
    let at = find_after_last(v, lo, hi, '.');
    if at - lo <= 1 || window_is(v, lo, hi, "..") {
        None
    } else {
        proof {
            let name = v@.subrange(lo as int, hi as int);
            assert(name.skip(at - lo) =~= v@.subrange(at as int, hi as int));
            assert(name.take(at - lo - 1) =~= v@.subrange(lo as int, at - 1));
        }
        Some(at)
    }
}

fn window_is_compressed(v: &Vec<char>, lo: usize, hi: usize) -> (b: bool)
    requires
        lo <= hi <= v.len(),
    ensures
        b == is_compressed_ext(v@.subrange(lo as int, hi as int)),
{
    window_is(v, lo, hi, "gz") || window_is(v, lo, hi, "zstd") || window_is(v, lo, hi, "br")
}

fn window_mime(v: &Vec<char>, lo: usize, hi: usize) -> (t: &'static str)
    requires
        lo <= hi <= v.len(),
    ensures
        t@ == mime_of(v@.subrange(lo as int, hi as int)),
{
    let ghost ext = v@.subrange(lo as int, hi as int);
    if window_is(v, lo, hi, "aac") {
        "audio/aac"
    } else if window_is(v, lo, hi, "bmp") {
        "image/bmp"
    } else if window_is(v, lo, hi, "css") {
        "text/css; charset=utf-8"
    } else if window_is(v, lo, hi, "csv") {
        "text/csv; charset=utf-8"
    } else if window_is(v, lo, hi, "flac") {
        "audio/flac"
    } else if window_is(v, lo, hi, "gif") {
        "image/gif"
    } else if window_is(v, lo, hi, "gz") {
        "application/gzip"
    } else if window_is(v, lo, hi, "html") {
        HTML
    } else if window_is(v, lo, hi, "ico") {
        "image/vnd.microsoft.icon"
    } else if window_is(v, lo, hi, "jpeg") {
        "image/jpeg"
    } else if window_is(v, lo, hi, "jpg") {
        "image/jpeg"
    } else if window_is(v, lo, hi, "js") {
        "text/javascript; charset=utf-8"
    } else if window_is(v, lo, hi, "json") {
        "application/json; charset=utf-8"
    } else if window_is(v, lo, hi, "webmanifest") {
        "application/manifest+json"
    } else if window_is(v, lo, hi, "m3u8") {
        "application/x-mpegURL"
    } else if window_is(v, lo, hi, "m3u") {
        "application/x-mpegURL"
    } else if window_is(v, lo, hi, "midi") {
        "audio/midi"
    } else if window_is(v, lo, hi, "mp3") {
        "audio/mpeg"
    } else if window_is(v, lo, hi, "mp4") {
        "video/mp4"
    } else if window_is(v, lo, hi, "mpd") {
        "application/dash+xml"
    } else if window_is(v, lo, hi, "mpeg") {
        "video/mpeg"
    } else if window_is(v, lo, hi, "oga") {
        "audio/ogg"
    } else if window_is(v, lo, hi, "ogv") {
        "video/ogg"
    } else if window_is(v, lo, hi, "otf") {
        "font/otf"
    } else if window_is(v, lo, hi, "pdf") {
        "application/pdf"
    } else if window_is(v, lo, hi, "png") {
        "image/png"
    } else if window_is(v, lo, hi, "svg") {
        "image/svg+xml"
    } else if window_is(v, lo, hi, "txt") {
        TEXT
    } else if window_is(v, lo, hi, "tiff") {
        "image/tiff"
    } else if window_is(v, lo, hi, "ts") {
        "video/MP2T"
    } else if window_is(v, lo, hi, "ttf") {
        "font/ttf"
    } else if window_is(v, lo, hi, "wasm") {
        "application/wasm"
    } else if window_is(v, lo, hi, "wav") {
        "audio/wav"
    } else if window_is(v, lo, hi, "weba") {
        "audio/webm"
    } else if window_is(v, lo, hi, "webm") {
        "video/webm"
    } else if window_is(v, lo, hi, "webp") {
        "image/webp"
    } else if window_is(v, lo, hi, "woff2") {
        "font/woff2"
    } else if window_is(v, lo, hi, "woff") {
        "font/woff"
    } else if window_is(v, lo, hi, "xml") {
        "application/xml; charset=utf-8"
    } else if window_is(v, lo, hi, "zip") {
        "application/zip"
    } else {
        OCTET
    }
}

/// Tells whether `ext_str` is the extension of a compressed file.
pub fn compressed_ext(ext_str: &str) -> (b: bool)
    ensures
        b == is_compressed_ext(ext_str@),
{
    let v = to_chars(ext_str);
    assert(v@.subrange(0, v.len() as int) =~= v@);
    window_is_compressed(&v, 0, v.len())
}

/// The path whose extension decides the content type of `path`.
pub fn get_alt_path(path: &str) -> (alt: String)
    ensures
        alt@ == alt_path(path@),
{
    let v = to_chars(path);
    assert(v@.subrange(0, v.len() as int) =~= v@);
    let lo = name_start(&v);
    match find_extension(&v, lo, v.len()) {
        Some(at) => {
            if window_is_compressed(&v, at, v.len()) {
                to_string(&v, lo, at - 1)
            } else {
                to_string(&v, 0, v.len())
            }
        },
        None => to_string(&v, 0, v.len()),
    }
}

/// The content type of the file at `path`.
pub fn get_content_type(path: &str) -> (content_type: &'static str)
    ensures
        content_type@ == content_type_of(path@),
{
    let v = to_chars(path);
    let lo = name_start(&v);
    let hi = match find_extension(&v, lo, v.len()) {
        Some(at) => {
            if window_is_compressed(&v, at, v.len()) {
                at - 1
            } else {
                v.len()
            }
        },
        None => v.len(),
    };
    assert(v@.subrange(lo as int, hi as int) == typed_name(path@));
    match find_extension(&v, lo, hi) {
        Some(at) => window_mime(&v, at, hi),
        None => OCTET,
    }
}

/// The encoding of the file at `path`, told from its extension: `gz`, `br`
/// or `zstd`, and `None` for any other name.
pub fn get_content_encoding(path: &str) -> (encoding: Option<&'static str>)
    ensures
        match content_encoding_of(path@) {
            Some(e) => encoding matches Some(found) && found@ == e,
            None => encoding is None,
        },
{
    let v = to_chars(path);
    let lo = name_start(&v);
    match find_extension(&v, lo, v.len()) {
        Some(at) => {
            if window_is(&v, at, v.len(), "gz") {
                Some("gz")
            } else if window_is(&v, at, v.len(), "br") {
                Some("br")
            } else if window_is(&v, at, v.len(), "zstd") {
                Some("zstd")
            } else {
                None
            }
        },
        None => None,
    }
}

/// The index of a directory is an HTML document: whatever the path of the
/// directory, its `index.html` has the content type of HTML.
pub proof fn lemma_index_is_html(directory: Seq<char>)
    ensures
        content_type_of(directory + "/index.html"@) == HTML@,
{
    reveal_strlit("/index.html");
    reveal_strlit("..");
    reveal_strlit("gz");
    reveal_strlit("zstd");
    reveal_strlit("br");
    reveal_strlit("aac");
    reveal_strlit("bmp");
    reveal_strlit("css");
    reveal_strlit("csv");
    reveal_strlit("flac");
    reveal_strlit("gif");
    reveal_strlit("html");
    let index = "/index.html"@;
    let path = directory + index;
    let from = directory.len() + 1;
    assert forall|k: int| from <= k < path.len() implies path[k] != '/' by {
        assert(path[k] == index[k - directory.len()]);
    }
    assert(path[from - 1] == index[0]);
    lemma_after_last(path, '/', from as int);
    let name = file_name(path);
    assert(name.len() == 10);
    assert forall|k: int| 0 <= k < 10 implies name[k] == index[k + 1] by {
        assert(name[k] == path[from + k]);
    }
    assert(name[5] == '.');
    assert forall|k: int| 6 <= k < name.len() implies name[k] != '.' by {
        assert(name[k] == index[k + 1]);
    }
    lemma_after_last(name, '.', 6);
    assert(name.len() != ".."@.len());
    let ext = name.skip(6);
    assert(ext =~= "html"@) by {
        assert(ext.len() == 4);
        assert(ext[0] == name[6] && ext[1] == name[7] && ext[2] == name[8] && ext[3] == name[9]);
    }
    assert("html"@.len() == 4 && "html"@[0] == 'h');
    assert("zstd"@[0] == 'z' && "flac"@[0] == 'f');
    assert(!is_compressed_ext(ext));
    assert(typed_name(path) == name);
    assert(extension(name) == Some(ext));
}

} // verus!
