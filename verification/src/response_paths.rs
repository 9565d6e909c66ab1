//! From a request to the files that may answer it: the encodings that client
//! and deployment agree on, and the list of candidate files in the order in
//! which they are tried.
use vstd::prelude::*;
use crate::available_encodings::{encoded_ext, get_encoded_ext, AvailableEncodings};
use crate::content_type::{content_type_of, get_content_type};
use crate::path::{confined, valid_path};
use crate::text::{
    clone_encoding, clone_string, split, split_window, to_chars, to_string, trim, trim_window,
    windows,
};

verus! {

/// The status of a response.
#[derive(Clone, Copy, Debug, PartialEq, Eq, Structural)]
pub enum Status {
    Success,
    PartialContent,
    NotFound,
    MethodNotAllowed,
    RangeNotSatisfiable,
}

impl Status {
    /// The number that stands for the status on the wire.
    pub open spec fn code_of(self) -> u16 {
        match self {
            Status::Success => 200,
            Status::PartialContent => 206,
            Status::NotFound => 404,
            Status::MethodNotAllowed => 405,
            Status::RangeNotSatisfiable => 416,
        }
    }

    /// The number that stands for the status on the wire.
    #[verifier::when_used_as_spec(code_of)]
    pub fn code(self) -> (code: u16)
        ensures
            code == self.code_of(),
    {
        match self {
            Status::Success => 200,
            Status::PartialContent => 206,
            Status::NotFound => 404,
            Status::MethodNotAllowed => 405,
            Status::RangeNotSatisfiable => 416,
        }
    }
}

/// A file that may answer a request, and how it is to be served.
#[derive(Clone, Debug, PartialEq, Eq)]
pub struct PathDetails {
    /// Where the file is expected.
    pub path: String,
    /// The status that a response from this file carries.
    pub status_code: Status,
    /// The encoding in which the file holds its content, if any.
    pub content_encoding: Option<String>,
    /// The type of the content.
    pub content_type: &'static str,
}

/// What a `PathDetails` says, as plain sequences.
pub struct PathDetailsView {
    pub path: Seq<char>,
    pub status_code: Status,
    pub content_encoding: Option<Seq<char>>,
    pub content_type: Seq<char>,
}

impl View for PathDetails {
    type V = PathDetailsView;

    open spec fn view(&self) -> PathDetailsView {
        PathDetailsView {
            path: self.path@,
            status_code: self.status_code,
            content_encoding: self.content_encoding.deep_view(),
            content_type: self.content_type@,
        }
    }
}

impl DeepView for PathDetails {
    type V = PathDetailsView;

    open spec fn deep_view(&self) -> PathDetailsView {
        self@
    }
}

/// The tokens of `tokens` that name an encoding which the deployment
/// offers, each without the white space around it, in the order of `tokens`.
pub open spec fn negotiated(tokens: Seq<Seq<char>>, available: AvailableEncodings) -> Seq<
    Seq<char>,
>
    decreases tokens.len(),
{
    if tokens.len() == 0 {
        Seq::empty()
    } else {
        let rest = negotiated(tokens.drop_last(), available);
        let token = trim(tokens.last());
        if available.allows(token) {
            rest.push(token)
        } else {
            rest
        }
    }
}

/// The encodings that the value `header` of an `Accept-Encoding` header and
/// the deployment agree on, in the order in which the client lists them.
/// The header is a list of tokens separated by commas; a token counts where
/// it is, letter for letter, the name of an encoding that is offered.
pub open spec fn negotiate(header: Seq<char>, available: AvailableEncodings) -> Seq<Seq<char>> {
    negotiated(split(header, ','), available)
}

/// Where the variant of `filepath` in the encoding `encoding` is stored:
/// `filepath` with the extension of the encoding appended to it.
pub open spec fn encoded_path(filepath: Seq<char>, encoding: Seq<char>) -> Option<Seq<char>> {
    match encoded_ext(encoding) {
        Some(ext) => Some(filepath + ext),
        None => None,
    }
}

/// The candidate that stands for the variant of `req_path` in `encoding`.
pub open spec fn encoded_candidate(req_path: Seq<char>, encoding: Seq<char>) -> PathDetailsView {
    PathDetailsView {
        path: encoded_path(req_path, encoding).unwrap(),
        status_code: Status::Success,
        content_encoding: Some(encoding),
        content_type: content_type_of(req_path),
    }
}

/// The candidates for the encoded variants of `req_path`, one for each of
/// `encodings` in their order. A variant whose path does not lie in
/// `directory` is left out.
pub open spec fn encoded_candidates(
    directory: Seq<char>,
    req_path: Seq<char>,
    encodings: Seq<Seq<char>>,
) -> Seq<PathDetailsView>
    decreases encodings.len(),
{
    if encodings.len() == 0 {
        Seq::empty()
    } else {
        let rest = encoded_candidates(directory, req_path, encodings.drop_last());
        let encoding = encodings.last();
        match encoded_path(req_path, encoding) {
            Some(path) => if confined(directory, path) {
                rest.push(encoded_candidate(req_path, encoding))
            } else {
                rest
            },
            None => rest,
        }
    }
}

/// The candidate that stands for `req_path` itself.
pub open spec fn origin_candidate(req_path: Seq<char>) -> PathDetailsView {
    PathDetailsView {
        path: req_path,
        status_code: Status::Success,
        content_encoding: None,
        content_type: content_type_of(req_path),
    }
}

/// The candidates that answer a request for `req_path` with status 200: the
/// encoded variants in the order of `encodings`, then `req_path` itself.
pub open spec fn primary_candidates(
    directory: Seq<char>,
    req_path: Seq<char>,
    encodings: Seq<Seq<char>>,
) -> Seq<PathDetailsView> {
    let encoded = encoded_candidates(directory, req_path, encodings);
    if confined(directory, req_path) {
        encoded.push(origin_candidate(req_path))
    } else {
        encoded
    }
}

/// The candidate that stands for one configured substitute.
pub open spec fn fallback_candidate(entry: (Seq<char>, Option<Seq<char>>)) -> PathDetailsView {
    PathDetailsView {
        path: entry.0,
        status_code: Status::NotFound,
        content_encoding: entry.1,
        content_type: content_type_of(entry.0),
    }
}

/// The candidates that answer with status 404 where nothing else does: the
/// configured substitutes in their order. One that does not lie in
/// `directory` is left out.
pub open spec fn fallback_candidates(
    directory: Seq<char>,
    filepath_404s: Seq<(Seq<char>, Option<Seq<char>>)>,
) -> Seq<PathDetailsView>
    decreases filepath_404s.len(),
{
    if filepath_404s.len() == 0 {
        Seq::empty()
    } else {
        let rest = fallback_candidates(directory, filepath_404s.drop_last());
        let entry = filepath_404s.last();
        if confined(directory, entry.0) {
            rest.push(fallback_candidate(entry))
        } else {
            rest
        }
    }
}

/// All candidates for a request, in the order in which they are tried: the
/// primary candidates of `req_path` where there is one, then the substitutes.
pub open spec fn candidates(
    directory: Seq<char>,
    req_path: Option<Seq<char>>,
    encodings: Seq<Seq<char>>,
    filepath_404s: Seq<(Seq<char>, Option<Seq<char>>)>,
) -> Seq<PathDetailsView> {
    match req_path {
        Some(path) => primary_candidates(directory, path, encodings) + fallback_candidates(
            directory,
            filepath_404s,
        ),
        None => fallback_candidates(directory, filepath_404s),
    }
}

/// Whether every candidate of `list` lies in `directory`.
pub open spec fn all_confined(directory: Seq<char>, list: Seq<PathDetailsView>) -> bool {
    forall|i: int| 0 <= i < list.len() ==> confined(directory, (#[trigger] list[i]).path)
}

/// Reads the value of an `Accept-Encoding` header against the encodings that
/// the deployment offers. Returns the encodings that both name, in the order
/// of the header.
pub fn get_encodings(accept_encoding: &str, available_encodings: &AvailableEncodings) -> (encodings:
    Vec<String>)
    ensures
        encodings.deep_view() == negotiate(accept_encoding@, *available_encodings),
{
    let v = to_chars(accept_encoding);
    assert(v@.subrange(0, v.len() as int) =~= v@);
    let pieces = split_window(&v, 0, v.len(), ',');
    let ghost tokens = split(accept_encoding@, ',');
    let mut encodings: Vec<String> = Vec::new();
    let mut i: usize = 0;
    assert(encodings.deep_view() =~= negotiated(tokens.take(0), *available_encodings));
    while i < pieces.len()
        invariant
            i <= pieces.len(),
            windows(v@, pieces@) == tokens,
            forall|k: int|
                0 <= k < pieces.len() ==> (#[trigger] pieces[k]).0 <= pieces[k].1 <= v.len(),
            encodings.deep_view() == negotiated(tokens.take(i as int), *available_encodings),
        decreases pieces.len() - i,
    {
        let (a, b) = pieces[i];
        let ghost before = encodings.deep_view();
        proof {
            assert(tokens[i as int] == v@.subrange(a as int, b as int));
            assert(tokens.take(i + 1).drop_last() =~= tokens.take(i as int));
            assert(tokens.take(i + 1).last() == tokens[i as int]);
        }
        let (ta, tb) = trim_window(&v, a, b);
        let token = to_string(&v, ta, tb);
        if available_encodings.encoding_is_available(token.as_str()) {
            encodings.push(token);
            assert(encodings.deep_view() =~= before.push(trim(tokens[i as int])));
        }
        i += 1;
    }
    assert(tokens.take(i as int) =~= tokens);
    encodings
}

/// Where the variant of `filepath` in the encoding that `encoding` names is
/// stored: the extension of the encoding is appended to the path, behind
/// the extension that the path has already. Returns `None` where `encoding`
/// names none of the known encodings.
pub fn add_extension(filepath: &str, encoding: &str) -> (path: Option<String>)
    ensures
        path.deep_view() == encoded_path(filepath@, encoding@),
{
    let ext = match get_encoded_ext(encoding) {
        Some(ext) => ext,
        None => return None,
    };
    let mut path = filepath.to_owned();
    path.append(ext);
    Some(path)
}

/// Appends the candidates for the encoded variants of `req_path` to `paths`.
pub fn push_encoded_paths(
    paths: &mut Vec<PathDetails>,
    directory: &str,
    req_path: &str,
    encodings: &Vec<String>,
)
    ensures
        final(paths).deep_view() == old(paths).deep_view() + encoded_candidates(
            directory@,
            req_path@,
            encodings.deep_view(),
        ),
{
    let content_type = get_content_type(req_path);
    let ghost all = encodings.deep_view();
    let mut i: usize = 0;
    assert(paths.deep_view() =~= old(paths).deep_view() + encoded_candidates(
        directory@,
        req_path@,
        all.take(0),
    ));
    while i < encodings.len()
        invariant
            i <= encodings.len(),
            all == encodings.deep_view(),
            content_type@ == content_type_of(req_path@),
            paths.deep_view() == old(paths).deep_view() + encoded_candidates(
                directory@,
                req_path@,
                all.take(i as int),
            ),
        decreases encodings.len() - i,
    {
        let ghost before = paths.deep_view();
        proof {
            assert(all[i as int] == encodings[i as int]@);
            assert(all.take(i + 1).drop_last() =~= all.take(i as int));
            assert(all.take(i + 1).last() == all[i as int]);
        }
        match add_extension(req_path, encodings[i].as_str()) {
            Some(path) => {
                if valid_path(directory, path.as_str()) {
                    paths.push(
                        PathDetails {
                            path,
                            status_code: Status::Success,
                            content_encoding: Some(clone_string(&encodings[i])),
                            content_type,
                        },
                    );
                    assert(paths.deep_view() =~= before.push(
                        encoded_candidate(req_path@, all[i as int]),
                    ));
                }
            },
            None => {},
        }
        i += 1;
    }
    assert(all.take(i as int) =~= all);
}

/// Appends the candidates that answer a request for `req_path` with status
/// 200 to `paths`.
pub fn push_primary_paths(
    paths: &mut Vec<PathDetails>,
    directory: &str,
    req_path: &str,
    encodings: &Vec<String>,
)
    ensures
        final(paths).deep_view() == old(paths).deep_view() + primary_candidates(
            directory@,
            req_path@,
            encodings.deep_view(),
        ),
{
    push_encoded_paths(paths, directory, req_path, encodings);
    let ghost before = paths.deep_view();
    if valid_path(directory, req_path) {
        paths.push(
            PathDetails {
                path: req_path.to_owned(),
                status_code: Status::Success,
                content_encoding: None,
                content_type: get_content_type(req_path),
            },
        );
        assert(paths.deep_view() =~= before.push(origin_candidate(req_path@)));
    }
    assert(paths.deep_view() =~= old(paths).deep_view() + primary_candidates(
        directory@,
        req_path@,
        encodings.deep_view(),
    ));
}

/// Appends the candidates for the configured substitutes to `paths`.
pub fn push_fallback_paths(
    paths: &mut Vec<PathDetails>,
    directory: &str,
    filepath_404s: &Vec<(String, Option<String>)>,
)
    ensures
        final(paths).deep_view() == old(paths).deep_view() + fallback_candidates(
            directory@,
            filepath_404s.deep_view(),
        ),
{
    let ghost all = filepath_404s.deep_view();
    let mut i: usize = 0;
    assert(paths.deep_view() =~= old(paths).deep_view() + fallback_candidates(
        directory@,
        all.take(0),
    ));
    while i < filepath_404s.len()
        invariant
            i <= filepath_404s.len(),
            all == filepath_404s.deep_view(),
            paths.deep_view() == old(paths).deep_view() + fallback_candidates(
                directory@,
                all.take(i as int),
            ),
        decreases filepath_404s.len() - i,
    {
        let ghost before = paths.deep_view();
        proof {
            assert(all[i as int] == filepath_404s[i as int].deep_view());
            assert(all.take(i + 1).drop_last() =~= all.take(i as int));
            assert(all.take(i + 1).last() == all[i as int]);
        }
        let entry = &filepath_404s[i];
        if valid_path(directory, entry.0.as_str()) {
            paths.push(
                PathDetails {
                    path: clone_string(&entry.0),
                    status_code: Status::NotFound,
                    content_encoding: clone_encoding(&entry.1),
                    content_type: get_content_type(entry.0.as_str()),
                },
            );
            assert(paths.deep_view() =~= before.push(fallback_candidate(all[i as int])));
        }
        i += 1;
    }
    assert(all.take(i as int) =~= all);
}

/// The files that may answer a request, in the order in which they are
/// tried: the variants of `req_path` in the encodings that the client
/// accepts and the deployment offers, in the client's order; `req_path`
/// itself; then the configured substitutes, which answer with status 404.
/// `req_path` is the file that the request path was mapped to, if it was
/// mapped to any. Only paths that lie in `directory` are listed.
pub fn get_filepaths_from_request(
    directory: &str,
    available_encodings: &AvailableEncodings,
    filepath_404s: &Vec<(String, Option<String>)>,
    req_path: Option<&str>,
    accept_encoding: Option<&str>,
) -> (paths: Vec<PathDetails>)
    ensures
        paths.deep_view() == candidates(
            directory@,
            req_path.deep_view(),
            match accept_encoding {
                Some(header) => negotiate(header@, *available_encodings),
                None => Seq::empty(),
            },
            filepath_404s.deep_view(),
        ),
        all_confined(directory@, paths.deep_view()),
{
    let mut paths: Vec<PathDetails> = Vec::new();
    let encodings = match accept_encoding {
        Some(header) => get_encodings(header, available_encodings),
        None => Vec::new(),
    };
    assert(accept_encoding is None ==> encodings.deep_view() =~= Seq::<Seq<char>>::empty());
    match req_path {
        Some(path) => {
            push_primary_paths(&mut paths, directory, path, &encodings);
        },
        None => {},
    }
    let ghost primary = paths.deep_view();
    push_fallback_paths(&mut paths, directory, filepath_404s);
    proof {
        assert(primary =~= match req_path {
            Some(path) => primary_candidates(directory@, path@, encodings.deep_view()),
            None => Seq::empty(),
        });
        assert(paths.deep_view() =~= candidates(
            directory@,
            req_path.deep_view(),
            encodings.deep_view(),
            filepath_404s.deep_view(),
        ));
        lemma_candidates_are_confined(
            directory@,
            req_path.deep_view(),
            encodings.deep_view(),
            filepath_404s.deep_view(),
        );
    }
    paths
}

/// What is negotiated is offered: every encoding that client and deployment
/// agree on is one that the deployment offers, and so one of the four known
/// encodings, for which there is an extension.
pub proof fn lemma_negotiated_are_offered(tokens: Seq<Seq<char>>, available: AvailableEncodings)
    ensures
        forall|i: int|
            0 <= i < negotiated(tokens, available).len() ==> {
                &&& available.allows(#[trigger] negotiated(tokens, available)[i])
                &&& encoded_ext(negotiated(tokens, available)[i]) is Some
            },
    decreases tokens.len(),
{
    if tokens.len() > 0 {
        lemma_negotiated_are_offered(tokens.drop_last(), available);
    }
}

/// Every encoded candidate lies in the directory.
pub proof fn lemma_encoded_candidates_are_confined(
    directory: Seq<char>,
    req_path: Seq<char>,
    encodings: Seq<Seq<char>>,
)
    ensures
        all_confined(directory, encoded_candidates(directory, req_path, encodings)),
    decreases encodings.len(),
{
    if encodings.len() > 0 {
        lemma_encoded_candidates_are_confined(directory, req_path, encodings.drop_last());
    }
}

/// Every substitute that is listed lies in the directory.
pub proof fn lemma_fallback_candidates_are_confined(
    directory: Seq<char>,
    filepath_404s: Seq<(Seq<char>, Option<Seq<char>>)>,
)
    ensures
        all_confined(directory, fallback_candidates(directory, filepath_404s)),
    decreases filepath_404s.len(),
{
    if filepath_404s.len() > 0 {
        lemma_fallback_candidates_are_confined(directory, filepath_404s.drop_last());
    }
}

/// The sandbox holds of the whole list: no candidate of any request lies
/// outside the directory, whatever the request path, the encodings and the
/// configured substitutes are.
pub proof fn lemma_candidates_are_confined(
    directory: Seq<char>,
    req_path: Option<Seq<char>>,
    encodings: Seq<Seq<char>>,
    filepath_404s: Seq<(Seq<char>, Option<Seq<char>>)>,
)
    ensures
        all_confined(directory, candidates(directory, req_path, encodings, filepath_404s)),
{
    lemma_fallback_candidates_are_confined(directory, filepath_404s);
    match req_path {
        Some(path) => {
            lemma_encoded_candidates_are_confined(directory, path, encodings);
        },
        None => {},
    }
}

} // verus!
