//! The responses of the server, as plain values: what a response holds, the
//! built-in error pages, and the response that one candidate file gives once
//! the file system has told what is found at its path.
//!
//! Nothing here touches a file. A response names the file and the window of
//! bytes that make up its body; reading and sending them is left to the
//! caller.
use vstd::prelude::*;
use crate::content_type::HTML;
use crate::path::{confined, valid_path};
use crate::range::{
    build_content_range_header_str, content_range, get_window, resolve_bounds, ByteRange,
};
use crate::response_paths::{PathDetails, PathDetailsView, Status};
use crate::text::{clone_encoding, clone_string, decimal, push_decimal};

verus! {

/// The body of the built-in page for status 404.
pub const NOT_FOUND_404: &'static str = "404 not found";

/// The body of the built-in page for status 416.
pub const RANGE_NOT_SATISFIABLE_416: &'static str = "416 range not satisfiable";

/// The body of the built-in page for status 405.
pub const METHOD_NOT_ALLOWED_405: &'static str = "405 method not allowed";

/// The body of a response.
#[derive(Clone, Debug, PartialEq, Eq)]
pub enum Body {
    /// No body: the response ends with its headers.
    Empty,
    /// A fixed text.
    Text { text: &'static str },
    /// The bytes of the file at `path` from position `start` up to, but not
    /// including, position `end`.
    File { path: String, start: usize, end: usize },
}

/// What a `Body` says, as plain sequences.
pub enum BodyView {
    Empty,
    Text { text: Seq<char> },
    File { path: Seq<char>, start: usize, end: usize },
}

impl View for Body {
    type V = BodyView;

    open spec fn view(&self) -> BodyView {
        match self {
            Body::Empty => BodyView::Empty,
            Body::Text { text } => BodyView::Text { text: text@ },
            Body::File { path, start, end } => BodyView::File {
                path: path@,
                start: *start,
                end: *end,
            },
        }
    }
}

/// A response: its status, the headers that depend on the file that is
/// served, and its body.
#[derive(Clone, Debug, PartialEq, Eq)]
pub struct Response {
    pub status_code: Status,
    /// The value of `Content-Type`.
    pub content_type: &'static str,
    /// The value of `Content-Length`, where the header is sent.
    pub content_length: Option<usize>,
    /// The value of `Content-Range`, where the header is sent.
    pub content_range: Option<String>,
    /// The value of `Content-Encoding`, where the header is sent.
    pub content_encoding: Option<String>,
    /// Whether `Accept-Ranges: bytes` is sent.
    pub accept_ranges: bool,
    pub body: Body,
}

/// What a `Response` says, as plain sequences.
pub struct ResponseView {
    pub status_code: Status,
    pub content_type: Seq<char>,
    pub content_length: Option<usize>,
    pub content_range: Option<Seq<char>>,
    pub content_encoding: Option<Seq<char>>,
    pub accept_ranges: bool,
    pub body: BodyView,
}

impl View for Response {
    type V = ResponseView;

    open spec fn view(&self) -> ResponseView {
        ResponseView {
            status_code: self.status_code,
            content_type: self.content_type@,
            content_length: self.content_length,
            content_range: self.content_range.deep_view(),
            content_encoding: self.content_encoding.deep_view(),
            accept_ranges: self.accept_ranges,
            body: self.body@,
        }
    }
}

/// The headers of a response, as they are sent: the name and the value of
/// each, in order. `Content-Type` is always sent; `Accept-Ranges`,
/// `Content-Range`, `Content-Length` and `Content-Encoding` follow where the
/// response has them. A length is written in decimal.
pub open spec fn header_list(response: ResponseView) -> Seq<(Seq<char>, Seq<char>)> {
    seq![("content-type"@, response.content_type)] + (if response.accept_ranges {
        seq![("accept-ranges"@, "bytes"@)]
    } else {
        Seq::empty()
    }) + (match response.content_range {
        Some(range) => seq![("content-range"@, range)],
        None => Seq::empty(),
    }) + (match response.content_length {
        Some(length) => seq![("content-length"@, decimal(length as nat))],
        None => Seq::empty(),
    }) + (match response.content_encoding {
        Some(encoding) => seq![("content-encoding"@, encoding)],
        None => Seq::empty(),
    })
}

impl Response {
    /// The headers of the response, as they are sent.
    pub fn headers(&self) -> (headers: Vec<(&'static str, String)>)
        ensures
            headers.deep_view() == header_list(self@),
    {
        let mut headers: Vec<(&'static str, String)> = Vec::new();
        headers.push(("content-type", self.content_type.to_owned()));
        assert(headers.deep_view() =~= seq![("content-type"@, self@.content_type)]);
        if self.accept_ranges {
            let ghost before = headers.deep_view();
            headers.push(("accept-ranges", "bytes".to_owned()));
            assert(headers.deep_view() =~= before + seq![("accept-ranges"@, "bytes"@)]);
        }
        let ghost first = headers.deep_view();
        match &self.content_range {
            Some(range) => {
                headers.push(("content-range", clone_string(range)));
                assert(headers.deep_view() =~= first + seq![("content-range"@, range@)]);
            },
            None => {
                assert(headers.deep_view() =~= first + Seq::<(Seq<char>, Seq<char>)>::empty());
            },
        }
        let ghost second = headers.deep_view();
        match self.content_length {
            Some(length) => {
                let mut text = String::new();
                push_decimal(&mut text, length);
                assert(text@ =~= decimal(length as nat));
                headers.push(("content-length", text));
                assert(headers.deep_view() =~= second + seq![
                    ("content-length"@, decimal(length as nat)),
                ]);
            },
            None => {
                assert(headers.deep_view() =~= second + Seq::<(Seq<char>, Seq<char>)>::empty());
            },
        }
        let ghost third = headers.deep_view();
        match &self.content_encoding {
            Some(encoding) => {
                headers.push(("content-encoding", clone_string(encoding)));
                assert(headers.deep_view() =~= third + seq![("content-encoding"@, encoding@)]);
            },
            None => {
                assert(headers.deep_view() =~= third + Seq::<(Seq<char>, Seq<char>)>::empty());
            },
        }
        headers
    }
}

/// What the file system holds at a path.
#[derive(Clone, Debug, PartialEq, Eq)]
pub enum Found {
    /// Nothing that can be read.
    Missing,
    /// A directory, whose path with every link followed is `canonical`.
    Directory { canonical: String },
    /// A regular file of `size` bytes, whose path with every link followed
    /// is `canonical`.
    File { canonical: String, size: usize },
}

/// What a `Found` says, as plain sequences.
pub enum FoundView {
    Missing,
    Directory { canonical: Seq<char> },
    File { canonical: Seq<char>, size: usize },
}

impl View for Found {
    type V = FoundView;

    open spec fn view(&self) -> FoundView {
        match self {
            Found::Missing => FoundView::Missing,
            Found::Directory { canonical } => FoundView::Directory { canonical: canonical@ },
            Found::File { canonical, size } => FoundView::File {
                canonical: canonical@,
                size: *size,
            },
        }
    }
}

/// The built-in page for `status_code`: an HTML response with the fixed
/// text `body`.
pub open spec fn last_resort(status_code: Status, body: Seq<char>) -> ResponseView {
    ResponseView {
        status_code,
        content_type: HTML@,
        content_length: None,
        content_range: None,
        content_encoding: None,
        accept_ranges: false,
        body: BodyView::Text { text: body },
    }
}

/// The response that serves the whole of `file`, a file of `size` bytes, for
/// the candidate `details`. The status, the content type and the encoding
/// are those of the candidate. A response to `HEAD` has the same headers and
/// no body.
pub open spec fn full_response(
    details: PathDetailsView,
    file: Seq<char>,
    size: usize,
    head: bool,
) -> ResponseView {
    ResponseView {
        status_code: details.status_code,
        content_type: details.content_type,
        content_length: Some(size),
        content_range: None,
        content_encoding: details.content_encoding,
        accept_ranges: true,
        body: if head {
            BodyView::Empty
        } else {
            BodyView::File { path: file, start: 0, end: size }
        },
    }
}

/// The response to a request for `range` of `file`, a file of `size` bytes,
/// for the candidate `details`.
///
/// Where the range selects a window `[start, end)` that holds at least one
/// byte, the response has status 206, names the window's first and last byte
/// in `Content-Range`, and gives its length in `Content-Length`. Where the
/// range does not fit the file, or selects no byte, the response is the
/// built-in page for status 416.
pub open spec fn range_response(
    details: PathDetailsView,
    file: Seq<char>,
    range: ByteRange,
    size: usize,
) -> ResponseView {
    match resolve_bounds(range, size) {
        Some((start, end)) => if start < end {
            ResponseView {
                status_code: Status::PartialContent,
                content_type: details.content_type,
                content_length: Some((end - start) as usize),
                content_range: Some(content_range(start, (end - 1) as usize, size)),
                content_encoding: details.content_encoding,
                accept_ranges: false,
                body: BodyView::File { path: file, start, end },
            }
        } else {
            last_resort(Status::RangeNotSatisfiable, RANGE_NOT_SATISFIABLE_416@)
        },
        None => last_resort(Status::RangeNotSatisfiable, RANGE_NOT_SATISFIABLE_416@),
    }
}

/// The response that the candidate `details` gives once `found` is known to
/// be at its path, or `None` where the candidate is passed over.
///
/// A candidate answers where a regular file is found whose path, with every
/// link followed, lies in `directory`. A request with a range is answered
/// from the window of the file, unless the method is `HEAD` or the candidate
/// is a substitute: those are answered from the whole file.
pub open spec fn served(
    directory: Seq<char>,
    details: PathDetailsView,
    found: FoundView,
    head: bool,
    range: Option<ByteRange>,
) -> Option<ResponseView> {
    match found {
        FoundView::File { canonical, size } => if confined(directory, canonical) {
            if range is Some && !head && details.status_code == Status::Success {
                Some(range_response(details, canonical, range.unwrap(), size))
            } else {
                Some(full_response(details, canonical, size, head))
            }
        } else {
            None
        },
        _ => None,
    }
}

/// The built-in page for `status_code`, with the fixed text `body`. It is
/// the answer where no file can be served, and it needs no file itself.
pub fn build_last_resort_response(status_code: Status, body: &'static str) -> (response: Response)
    ensures
        response@ == last_resort(status_code, body@),
{
    Response {
        status_code,
        content_type: HTML,
        content_length: None,
        content_range: None,
        content_encoding: None,
        accept_ranges: false,
        body: Body::Text { text: body },
    }
}

/// The response to `GET` that serves the whole of `file`, a file of `size`
/// bytes, for the candidate `details`.
pub fn compose_get_response(details: &PathDetails, file: &str, size: usize) -> (response: Response)
    ensures
        response@ == full_response(details@, file@, size, false),
{
    Response {
        status_code: details.status_code,
        content_type: details.content_type,
        content_length: Some(size),
        content_range: None,
        content_encoding: clone_encoding(&details.content_encoding),
        accept_ranges: true,
        body: Body::File { path: file.to_owned(), start: 0, end: size },
    }
}

/// The response to `HEAD` for the candidate `details`, whose file holds
/// `size` bytes: the headers of the response to `GET`, and no body.
pub fn compose_head_response(details: &PathDetails, size: usize) -> (response: Response)
    ensures
        forall|file: Seq<char>| response@ == #[trigger] full_response(details@, file, size, true),
{
    Response {
        status_code: details.status_code,
        content_type: details.content_type,
        content_length: Some(size),
        content_range: None,
        content_encoding: clone_encoding(&details.content_encoding),
        accept_ranges: true,
        body: Body::Empty,
    }
}

/// The response to a request for `range` of `file`, a file of `size` bytes,
/// for the candidate `details`: status 206 and the window that the range
/// selects, or the built-in page for status 416.
pub fn compose_single_range_response(
    details: &PathDetails,
    file: &str,
    range: &ByteRange,
    size: usize,
) -> (response: Response)
    ensures
        response@ == range_response(details@, file@, *range, size),
{
    match get_window(range, size) {
        Some((start, end)) => {
            if start < end {
                let last = end - 1;
                Response {
                    status_code: Status::PartialContent,
                    content_type: details.content_type,
                    content_length: Some(end - start),
                    content_range: Some(build_content_range_header_str(&start, &last, &size)),
                    content_encoding: clone_encoding(&details.content_encoding),
                    accept_ranges: false,
                    body: Body::File { path: file.to_owned(), start, end },
                }
            } else {
                build_last_resort_response(Status::RangeNotSatisfiable, RANGE_NOT_SATISFIABLE_416)
            }
        },
        None => build_last_resort_response(Status::RangeNotSatisfiable, RANGE_NOT_SATISFIABLE_416),
    }
}

/// Decides what the candidate `details` answers once `found` is known to be
/// at its path. Returns the response, or `None` where the candidate is
/// passed over and the next one is to be tried.
pub fn build_file_response(
    directory: &str,
    details: &PathDetails,
    found: &Found,
    head: bool,
    range: &Option<ByteRange>,
) -> (response: Option<Response>)
    ensures
        response.deep_view() == served(directory@, details@, found@, head, *range),
{
    match found {
        Found::File { canonical, size } => {
            if !valid_path(directory, canonical.as_str()) {
                return None;
            }
            if head {
                return Some(compose_head_response(details, *size));
            }
            match range {
                Some(r) => {
                    if details.status_code == Status::Success {
                        Some(compose_single_range_response(details, canonical.as_str(), r, *size))
                    } else {
                        Some(compose_get_response(details, canonical.as_str(), *size))
                    }
                },
                None => Some(compose_get_response(details, canonical.as_str(), *size)),
            }
        },
        _ => None,
    }
}

impl DeepView for Response {
    type V = ResponseView;

    open spec fn deep_view(&self) -> ResponseView {
        self@
    }
}

} // verus!
