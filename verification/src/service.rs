//! The service: from a request to its response, one question to the file
//! system at a time.
//!
//! The service never touches a file. It answers a request either with the
//! response or with the path of a file that it needs to know about; the
//! caller looks that path up and hands back what it found, until the
//! response stands.
//!
//! Two descriptions of the service stand side by side. `response_to` says
//! what the response to a request is over a given file system. `started` and
//! `resumed` say, step by step, which path the service asks about and when it
//! answers. The laws at the end show that the steps lead to that response.
use vstd::prelude::*;
use crate::available_encodings::AvailableEncodings;
use crate::config::{clone_filepaths, Config};
use crate::path::{
    confined, get_path_from_request_url, lemma_resolved_path_is_confined, resolved_path,
    valid_path,
};
use crate::range::{get_ranges, ranges_of, ByteRange};
use crate::response_paths::{
    all_confined, encoded_candidates, fallback_candidates, get_encodings,
    lemma_encoded_candidates_are_confined, lemma_fallback_candidates_are_confined, negotiate,
    primary_candidates, push_fallback_paths, push_primary_paths, PathDetails, PathDetailsView,
    Status,
};
use crate::responses::{
    build_file_response, build_last_resort_response, last_resort, served, Found, FoundView,
    Response, ResponseView, METHOD_NOT_ALLOWED_405, NOT_FOUND_404, RANGE_NOT_SATISFIABLE_416,
};
use crate::text::{clone_string, to_chars, window_is};

verus! {

/// What the service reads of a request.
#[derive(Clone, Debug, PartialEq, Eq)]
pub struct RequestDetails {
    /// The name of the method, in capital letters.
    pub method: String,
    /// The path of the request URL.
    pub path: String,
    /// The value of the `Accept-Encoding` header, if the request has one.
    pub accept_encoding: Option<String>,
    /// The value of the `Range` header, if the request has one.
    pub range: Option<String>,
}

/// What a `RequestDetails` says, as plain sequences.
pub struct RequestView {
    pub method: Seq<char>,
    pub path: Seq<char>,
    pub accept_encoding: Option<Seq<char>>,
    pub range: Option<Seq<char>>,
}

impl View for RequestDetails {
    type V = RequestView;

    open spec fn view(&self) -> RequestView {
        RequestView {
            method: self.method@,
            path: self.path@,
            accept_encoding: self.accept_encoding.deep_view(),
            range: self.range.deep_view(),
        }
    }
}

/// Whether the byte `b` may stand in the text of a header value: a visible
/// ASCII character, a space or a tab.
pub open spec fn is_header_char(b: u8) -> bool {
    (32 <= b && b < 127) || b == 9
}

/// The text of the header value `value`, or `None` where it holds a byte
/// that is no text.
pub open spec fn header_text(value: Seq<u8>) -> Option<Seq<char>> {
    if forall|i: int| 0 <= i < value.len() ==> is_header_char(#[trigger] value[i]) {
        Some(Seq::new(value.len(), |i: int| value[i] as char))
    } else {
        None
    }
}

/// Reads the bytes of a header value as text. Returns `None` where a byte
/// is neither a visible ASCII character nor a space nor a tab.
pub fn get_header_text(value: &[u8]) -> (text: Option<String>)
    ensures
        text.deep_view() == header_text(value@),
{
    let mut text = String::new();
    let mut i: usize = 0;
    while i < value.len()
        invariant
            i <= value.len(),
            forall|k: int| 0 <= k < i ==> is_header_char(#[trigger] value@[k]),
            text@ == Seq::new(i as nat, |k: int| value@[k] as char),
        decreases value.len() - i,
    {
        let b = value[i];
        if !((32 <= b && b < 127) || b == 9) {
            return None;
        }
        text.push(b as char);
        i += 1;
        assert(text@ =~= Seq::new(i as nat, |k: int| value@[k] as char));
    }
    Some(text)
}

/// What the service reads of a request: the name of its method, the path of
/// its URL, and the text of its `Accept-Encoding` and `Range` headers, given
/// as the bytes of their values.
pub fn get_request_details(
    method: &str,
    path: &str,
    accept_encoding: Option<&[u8]>,
    range: Option<&[u8]>,
) -> (details: RequestDetails)
    ensures
        details@ == (RequestView {
            method: method@,
            path: path@,
            accept_encoding: match accept_encoding {
                Some(value) => header_text(value@),
                None => None,
            },
            range: match range {
                Some(value) => header_text(value@),
                None => None,
            },
        }),
{
    RequestDetails {
        method: method.to_owned(),
        path: path.to_owned(),
        accept_encoding: match accept_encoding {
            Some(value) => get_header_text(value),
            None => None,
        },
        range: match range {
            Some(value) => get_header_text(value),
            None => None,
        },
    }
}

/// What a service is configured with, as plain sequences.
pub struct ServiceView {
    pub directory: Seq<char>,
    pub encodings: AvailableEncodings,
    pub filepath_404s: Seq<(Seq<char>, Option<Seq<char>>)>,
}

/// A file system, as far as the service is concerned: what is found at each
/// path.
pub type Files = spec_fn(Seq<char>) -> FoundView;

/// What a request asks of the file that answers it.
pub enum RangePlan {
    /// The whole file.
    Whole,
    /// The window that `range` selects.
    Window { range: ByteRange },
    /// A window, in a `Range` header that cannot be read.
    Malformed,
    /// Several windows at once, which the service does not serve.
    Several,
}

/// What a request with the `Range` header `range` asks for. A `HEAD`
/// request asks for no body, so its `Range` header is not read.
pub open spec fn range_plan(head: bool, range: Option<Seq<char>>) -> RangePlan {
    match range {
        Some(value) => if head {
            RangePlan::Whole
        } else {
            match ranges_of(value) {
                Some(ranges) => if ranges.len() == 1 {
                    RangePlan::Window { range: ranges[0] }
                } else {
                    RangePlan::Several
                },
                None => RangePlan::Malformed,
            }
        },
        None => RangePlan::Whole,
    }
}

/// The encodings that a request with the `Accept-Encoding` header
/// `accept_encoding` and the deployment agree on.
pub open spec fn accepted(
    accept_encoding: Option<Seq<char>>,
    available: AvailableEncodings,
) -> Seq<Seq<char>> {
    match accept_encoding {
        Some(header) => negotiate(header, available),
        None => Seq::empty(),
    }
}

/// The file that answers for the directory at `path`.
pub open spec fn index_of_directory(path: Seq<char>) -> Seq<char> {
    path + "/index.html"@
}

/// The candidates for a request that was mapped to `base`, once `found` is
/// known to be at `base`. Where `base` is a directory, its `index.html`
/// answers for it; a directory that links out of `directory` has no primary
/// candidates. The substitutes `fallbacks` come last.
pub open spec fn candidates_after(
    directory: Seq<char>,
    base: Seq<char>,
    found: FoundView,
    encodings: Seq<Seq<char>>,
    fallbacks: Seq<PathDetailsView>,
) -> Seq<PathDetailsView> {
    match found {
        FoundView::Directory { canonical } => if confined(directory, canonical) {
            primary_candidates(directory, index_of_directory(base), encodings) + fallbacks
        } else {
            fallbacks
        },
        _ => primary_candidates(directory, base, encodings) + fallbacks,
    }
}

/// The candidates for `request`, in the order in which they are tried.
pub open spec fn request_candidates(
    request: RequestView,
    service: ServiceView,
    files: Files,
) -> Seq<PathDetailsView> {
    let fallbacks = fallback_candidates(service.directory, service.filepath_404s);
    match resolved_path(service.directory, request.path) {
        Some(base) => candidates_after(
            service.directory,
            base,
            files(base),
            accepted(request.accept_encoding, service.encodings),
            fallbacks,
        ),
        None => fallbacks,
    }
}

/// The response of the first candidate of `list`, from position `from` on,
/// that answers, and the built-in page for status 404 where none does.
pub open spec fn first_served(
    directory: Seq<char>,
    list: Seq<PathDetailsView>,
    from: int,
    head: bool,
    range: Option<ByteRange>,
    files: Files,
) -> ResponseView
    decreases list.len() - from,
{
    if from < 0 || from >= list.len() {
        last_resort(Status::NotFound, NOT_FOUND_404@)
    } else {
        match served(directory, list[from], files(list[from].path), head, range) {
            Some(response) => response,
            None => first_served(directory, list, from + 1, head, range, files),
        }
    }
}

/// The response to `request` of a service configured as `service`, over the
/// file system `files`.
///
/// A method other than `GET` and `HEAD` gets the built-in page for status
/// 405. A `Range` header that cannot be read gets the built-in page for
/// status 416, and one that asks for several windows the built-in page for
/// status 404. Any other request is answered by the first of its candidates
/// that is found.
pub open spec fn response_to(
    request: RequestView,
    service: ServiceView,
    files: Files,
) -> ResponseView {
    if request.method != "GET"@ && request.method != "HEAD"@ {
        last_resort(Status::MethodNotAllowed, METHOD_NOT_ALLOWED_405@)
    } else {
        let head = request.method == "HEAD"@;
        let list = request_candidates(request, service, files);
        match range_plan(head, request.range) {
            RangePlan::Malformed => last_resort(
                Status::RangeNotSatisfiable,
                RANGE_NOT_SATISFIABLE_416@,
            ),
            RangePlan::Several => last_resort(Status::NotFound, NOT_FOUND_404@),
            RangePlan::Window { range } => first_served(
                service.directory,
                list,
                0,
                head,
                Some(range),
                files,
            ),
            RangePlan::Whole => first_served(service.directory, list, 0, head, None, files),
        }
    }
}

/// An exchange: a request on its way to its response, as plain sequences.
pub struct ExchangeView {
    /// The root directory of the service.
    pub directory: Seq<char>,
    /// Whether the method is `HEAD`.
    pub head: bool,
    /// The window that the request asks for, if it asks for one.
    pub range: Option<ByteRange>,
    /// The file that the request was mapped to, until it is known whether
    /// it is a directory.
    pub base: Option<Seq<char>>,
    /// The encodings that client and deployment agree on.
    pub encodings: Seq<Seq<char>>,
    /// The candidates; until `base` is dealt with, the substitutes only.
    pub candidates: Seq<PathDetailsView>,
    /// The position of the candidate that is asked about.
    pub next: nat,
}

/// A step of the service, as plain sequences.
pub enum StepView {
    Probe { path: Seq<char>, exchange: ExchangeView },
    Respond { response: ResponseView },
}

/// The step of an exchange that has come to the candidate at `next`: the
/// question about that candidate, or the built-in page for status 404 where
/// the candidates are used up.
pub open spec fn proceed(exchange: ExchangeView) -> StepView {
    if exchange.next < exchange.candidates.len() {
        StepView::Probe { path: exchange.candidates[exchange.next as int].path, exchange }
    } else {
        StepView::Respond { response: last_resort(Status::NotFound, NOT_FOUND_404@) }
    }
}

impl ExchangeView {
    /// What holds of every exchange that waits for an answer: its candidates
    /// and the file that the request was mapped to lie in the directory, and
    /// there is a path that it asks about.
    pub open spec fn wf(self) -> bool {
        &&& all_confined(self.directory, self.candidates)
        &&& match self.base {
            Some(base) => self.next == 0 && confined(self.directory, base),
            None => self.next < self.candidates.len(),
        }
    }

    /// The path that the exchange asks about.
    pub open spec fn awaits(self) -> Seq<char> {
        match self.base {
            Some(base) => base,
            None => self.candidates[self.next as int].path,
        }
    }

    /// The response that the exchange ends with over the file system
    /// `files`.
    pub open spec fn outcome(self, files: Files) -> ResponseView {
        match self.base {
            Some(base) => first_served(
                self.directory,
                candidates_after(
                    self.directory,
                    base,
                    files(base),
                    self.encodings,
                    self.candidates,
                ),
                0,
                self.head,
                self.range,
                files,
            ),
            None => first_served(
                self.directory,
                self.candidates,
                self.next as int,
                self.head,
                self.range,
                files,
            ),
        }
    }

    /// A bound on the number of questions that the exchange has yet to ask,
    /// the pending one included.
    pub open spec fn probes_left(self) -> nat {
        match self.base {
            Some(_) => self.encodings.len() + self.candidates.len() + 2,
            None => (self.candidates.len() - self.next) as nat,
        }
    }

    /// The step that follows once `found` is known to be at the path that
    /// the exchange asks about.
    ///
    /// Where the exchange asked about the file that the request was mapped
    /// to, the candidates are drawn up and the first of them is asked about.
    /// Where it asked about a candidate, the candidate answers or the next
    /// one is asked about.
    pub open spec fn resumed(self, found: FoundView) -> StepView {
        match self.base {
            Some(base) => proceed(
                ExchangeView {
                    directory: self.directory,
                    head: self.head,
                    range: self.range,
                    base: None,
                    encodings: self.encodings,
                    candidates: candidates_after(
                        self.directory,
                        base,
                        found,
                        self.encodings,
                        self.candidates,
                    ),
                    next: 0,
                },
            ),
            None => match served(
                self.directory,
                self.candidates[self.next as int],
                found,
                self.head,
                self.range,
            ) {
                Some(response) => StepView::Respond { response },
                None => proceed(
                    ExchangeView {
                        directory: self.directory,
                        head: self.head,
                        range: self.range,
                        base: None,
                        encodings: self.encodings,
                        candidates: self.candidates,
                        next: self.next + 1,
                    },
                ),
            },
        }
    }
}

/// The first step for a request that is answered from a file: the question
/// about the file that the request was mapped to, and where it was mapped
/// to none, the question about the first substitute.
pub open spec fn file_step(
    request: RequestView,
    service: ServiceView,
    head: bool,
    range: Option<ByteRange>,
) -> StepView {
    let exchange = ExchangeView {
        directory: service.directory,
        head,
        range,
        base: resolved_path(service.directory, request.path),
        encodings: accepted(request.accept_encoding, service.encodings),
        candidates: fallback_candidates(service.directory, service.filepath_404s),
        next: 0,
    };
    match exchange.base {
        Some(base) => StepView::Probe { path: base, exchange },
        None => proceed(exchange),
    }
}

/// The first step for a `GET` request whose `Range` header has the value
/// `value`. A header that cannot be read is answered with the built-in page
/// for status 416, one that asks for several windows with the built-in page
/// for status 404, and one that asks for one window from a file.
pub open spec fn range_step(request: RequestView, service: ServiceView, value: Seq<char>) -> StepView {
    match ranges_of(value) {
        Some(ranges) => if ranges.len() == 1 {
            file_step(request, service, false, Some(ranges[0]))
        } else {
            StepView::Respond { response: last_resort(Status::NotFound, NOT_FOUND_404@) }
        },
        None => StepView::Respond {
            response: last_resort(Status::RangeNotSatisfiable, RANGE_NOT_SATISFIABLE_416@),
        },
    }
}

/// The first step for a `GET` request.
pub open spec fn get_step(request: RequestView, service: ServiceView) -> StepView {
    match request.range {
        Some(value) => range_step(request, service, value),
        None => file_step(request, service, false, None),
    }
}

/// The first step for a `HEAD` request. It asks for no body, so its `Range`
/// header is not read.
pub open spec fn head_step(request: RequestView, service: ServiceView) -> StepView {
    file_step(request, service, true, None)
}

/// The first step for `request` of a service configured as `service`.
///
/// A request whose method is neither `GET` nor `HEAD`, and one whose
/// `Range` header cannot be served, is answered at once. For any other the
/// service asks about a file.
pub open spec fn started(request: RequestView, service: ServiceView) -> StepView {
    if request.method == "HEAD"@ {
        head_step(request, service)
    } else if request.method == "GET"@ {
        get_step(request, service)
    } else {
        StepView::Respond {
            response: last_resort(Status::MethodNotAllowed, METHOD_NOT_ALLOWED_405@),
        }
    }
}

/// What comes of a step when every question is answered from the file
/// system `files`: the response, or `None` where more than `probes`
/// questions are asked.
pub open spec fn run(step: StepView, files: Files, probes: nat) -> Option<ResponseView>
    decreases probes,
{
    match step {
        StepView::Respond { response } => Some(response),
        StepView::Probe { path, exchange } => if probes == 0 {
            None
        } else {
            run(exchange.resumed(files(path)), files, (probes - 1) as nat)
        },
    }
}

/// A number of questions that is enough for `request`: one about the file
/// that it is mapped to, one for each encoding, one for the file itself, and
/// one for each substitute.
pub open spec fn probe_limit(request: RequestView, service: ServiceView) -> nat {
    accepted(request.accept_encoding, service.encodings).len() + fallback_candidates(
        service.directory,
        service.filepath_404s,
    ).len() + 2
}

/// The service of one deployment.
#[derive(Clone, Debug)]
pub struct Svc {
    directory: String,
    available_encodings: AvailableEncodings,
    filepath_404s: Vec<(String, Option<String>)>,
}

impl View for Svc {
    type V = ServiceView;

    closed spec fn view(&self) -> ServiceView {
        ServiceView {
            directory: self.directory@,
            encodings: self.available_encodings,
            filepath_404s: self.filepath_404s.deep_view(),
        }
    }
}

/// A request on its way to its response: what is left to find out.
#[derive(Debug)]
pub struct Exchange {
    directory: String,
    head: bool,
    range: Option<ByteRange>,
    base: Option<String>,
    encodings: Vec<String>,
    candidates: Vec<PathDetails>,
    next: usize,
}

impl View for Exchange {
    type V = ExchangeView;

    closed spec fn view(&self) -> ExchangeView {
        ExchangeView {
            directory: self.directory@,
            head: self.head,
            range: self.range,
            base: self.base.deep_view(),
            encodings: self.encodings.deep_view(),
            candidates: self.candidates.deep_view(),
            next: self.next as nat,
        }
    }
}

/// What the service does next for a request.
#[derive(Debug)]
pub enum Step {
    /// The caller is to look up `path` in the file system and to resume
    /// `exchange` with what it found.
    Probe { path: String, exchange: Exchange },
    /// The response stands.
    Respond { response: Response },
}

impl View for Step {
    type V = StepView;

    open spec fn view(&self) -> StepView {
        match self {
            Step::Probe { path, exchange } => StepView::Probe {
                path: path@,
                exchange: exchange@,
            },
            Step::Respond { response } => StepView::Respond { response: response@ },
        }
    }
}

/// Asks about the candidate at `next`, or answers with the built-in page for
/// status 404 where the candidates are used up.
fn proceed_with(
    directory: String,
    head: bool,
    range: Option<ByteRange>,
    encodings: Vec<String>,
    candidates: Vec<PathDetails>,
    next: usize,
) -> (step: Step)
    requires
        all_confined(directory@, candidates.deep_view()),
    ensures
        step@ == proceed(
            ExchangeView {
                directory: directory@,
                head,
                range,
                base: None,
                encodings: encodings.deep_view(),
                candidates: candidates.deep_view(),
                next: next as nat,
            },
        ),
{
    if next < candidates.len() {
        let path = clone_string(&candidates[next].path);
        assert(candidates.deep_view()[next as int] == candidates[next as int]@);
        Step::Probe {
            path,
            exchange: Exchange { directory, head, range, base: None, encodings, candidates, next },
        }
    } else {
        Step::Respond { response: build_last_resort_response(Status::NotFound, NOT_FOUND_404) }
    }
}

impl Exchange {
    #[verifier::type_invariant]
    closed spec fn inv(self) -> bool {
        self@.wf()
    }

    /// Goes on with the exchange, now that `found` is known to be at the
    /// path that it asked about. Returns the response, or the next path to
    /// look up.
    pub fn resume(self, found: &Found) -> (step: Step)
        ensures
            self@.wf(),
            step@ == self@.resumed(found@),
    {
        proof {
            use_type_invariant(&self);
        }
        let Exchange { directory, head, range, base, encodings, candidates, next } = self;
        match base {
            Some(base) => {
                let mut list: Vec<PathDetails> = Vec::new();
                let mut fallbacks = candidates;
                let ghost substitutes = fallbacks.deep_view();
                match found {
                    Found::Directory { canonical } => {
                        if valid_path(directory.as_str(), canonical.as_str()) {
                            let mut index = clone_string(&base);
                            index.append("/index.html");
                            push_primary_paths(
                                &mut list,
                                directory.as_str(),
                                index.as_str(),
                                &encodings,
                            );
                        }
                    },
                    _ => {
                        push_primary_paths(
                            &mut list,
                            directory.as_str(),
                            base.as_str(),
                            &encodings,
                        );
                    },
                }
                let ghost primary = list.deep_view();
                list.append(&mut fallbacks);
                proof {
                    assert(list.deep_view() =~= primary + substitutes);
                    assert(list.deep_view() =~= candidates_after(
                        directory@,
                        base@,
                        found@,
                        encodings.deep_view(),
                        substitutes,
                    ));
                    lemma_candidates_after_are_confined(
                        directory@,
                        base@,
                        found@,
                        encodings.deep_view(),
                        substitutes,
                    );
                }
                proceed_with(directory, head, range, encodings, list, 0)
            },
            None => {
                assert(next < candidates.len());
                assert(candidates.deep_view()[next as int] == candidates[next as int]@);
                match build_file_response(
                    directory.as_str(),
                    &candidates[next],
                    found,
                    head,
                    &range,
                ) {
                    Some(response) => Step::Respond { response },
                    None => proceed_with(directory, head, range, encodings, candidates, next + 1),
                }
            },
        }
    }
}

impl Svc {
    /// The service of the deployment that `config` describes, offering the
    /// encodings `available_encodings`.
    pub fn new(config: &Config, available_encodings: &AvailableEncodings) -> (svc: Svc)
        ensures
            svc@ == (ServiceView {
                directory: config.directory@,
                encodings: *available_encodings,
                filepath_404s: config.filepath_404s.deep_view(),
            }),
    {
        Svc {
            directory: clone_string(&config.directory),
            available_encodings: *available_encodings,
            filepath_404s: clone_filepaths(&config.filepath_404s),
        }
    }

    /// Takes up `request`. Returns the response, or the first path to look
    /// up together with the exchange to resume.
    pub fn call(&self, request: &RequestDetails) -> (step: Step)
        ensures
            step@ == started(request@, self@),
    {
        build_response(self, request)
    }
}

/// The first step for a request that is answered from a file.
fn build_file_step(svc: &Svc, request: &RequestDetails, head: bool, range: Option<ByteRange>) -> (step:
    Step)
    ensures
        step@ == file_step(request@, svc@, head, range),
{
    let encodings = match &request.accept_encoding {
        Some(header) => get_encodings(header.as_str(), &svc.available_encodings),
        None => Vec::new(),
    };
    assert(request.accept_encoding is None ==> encodings.deep_view() =~= Seq::<
        Seq<char>,
    >::empty());
    let mut fallbacks: Vec<PathDetails> = Vec::new();
    push_fallback_paths(&mut fallbacks, svc.directory.as_str(), &svc.filepath_404s);
    proof {
        lemma_fallback_candidates_are_confined(svc.directory@, svc.filepath_404s.deep_view());
        assert(fallbacks.deep_view() =~= fallback_candidates(
            svc.directory@,
            svc.filepath_404s.deep_view(),
        ));
    }
    let directory = clone_string(&svc.directory);
    match get_path_from_request_url(svc.directory.as_str(), request.path.as_str()) {
        Some(base) => {
            proof {
                lemma_resolved_path_is_confined(svc.directory@, request.path@);
            }
            let path = clone_string(&base);
            Step::Probe {
                path,
                exchange: Exchange {
                    directory,
                    head,
                    range,
                    base: Some(base),
                    encodings,
                    candidates: fallbacks,
                    next: 0,
                },
            }
        },
        None => proceed_with(directory, head, range, encodings, fallbacks, 0),
    }
}

/// Takes up a `GET` request with a `Range` header. Returns `None` where the
/// request has no such header, and else its first step: the built-in page
/// for status 416 where the header cannot be read, the built-in page for
/// status 404 where it asks for several windows, and the question about
/// the file from which the one window is served.
pub fn build_range_response(svc: &Svc, request: &RequestDetails) -> (step: Option<Step>)
    ensures
        match request@.range {
            Some(value) => step matches Some(first) && first@ == range_step(
                request@,
                svc@,
                value,
            ),
            None => step is None,
        },
{
    let value = match &request.range {
        Some(value) => value,
        None => return None,
    };
    match get_ranges(value.as_str()) {
        Some(ranges) => {
            if ranges.len() == 1 {
                Some(build_file_step(svc, request, false, Some(ranges[0])))
            } else {
                Some(
                    Step::Respond {
                        response: build_last_resort_response(Status::NotFound, NOT_FOUND_404),
                    },
                )
            }
        },
        None => Some(
            Step::Respond {
                response: build_last_resort_response(
                    Status::RangeNotSatisfiable,
                    RANGE_NOT_SATISFIABLE_416,
                ),
            },
        ),
    }
}

/// Takes up a `GET` request: as a request for a range where it has a
/// `Range` header, and as a request for a whole file where it has none.
pub fn build_get_response(svc: &Svc, request: &RequestDetails) -> (step: Step)
    ensures
        step@ == get_step(request@, svc@),
{
    match build_range_response(svc, request) {
        Some(step) => step,
        None => build_file_step(svc, request, false, None),
    }
}

/// Takes up a `HEAD` request: it is answered with the headers of the
/// response to `GET` for the whole file, and no body.
pub fn build_head_response(svc: &Svc, request: &RequestDetails) -> (step: Step)
    ensures
        step@ == head_step(request@, svc@),
{
    build_file_step(svc, request, true, None)
}

/// Takes up `request`: `HEAD` and `GET` are answered from the files of the
/// service, any other method with the built-in page for status 405.
pub fn build_response(svc: &Svc, request: &RequestDetails) -> (step: Step)
    ensures
        step@ == started(request@, svc@),
{
    let method = to_chars(request.method.as_str());
    assert(method@.subrange(0, method.len() as int) =~= method@);
    if window_is(&method, 0, method.len(), "HEAD") {
        build_head_response(svc, request)
    } else if window_is(&method, 0, method.len(), "GET") {
        build_get_response(svc, request)
    } else {
        Step::Respond {
            response: build_last_resort_response(
                Status::MethodNotAllowed,
                METHOD_NOT_ALLOWED_405,
            ),
        }
    }
}

/// The candidates that are drawn up once the file that the request was
/// mapped to is known lie in the directory, where the substitutes do.
pub proof fn lemma_candidates_after_are_confined(
    directory: Seq<char>,
    base: Seq<char>,
    found: FoundView,
    encodings: Seq<Seq<char>>,
    fallbacks: Seq<PathDetailsView>,
)
    requires
        all_confined(directory, fallbacks),
    ensures
        all_confined(
            directory,
            candidates_after(directory, base, found, encodings, fallbacks),
        ),
        candidates_after(directory, base, found, encodings, fallbacks).len() <= encodings.len()
            + fallbacks.len() + 1,
{
    lemma_primary_candidates(directory, base, encodings);
    lemma_primary_candidates(directory, index_of_directory(base), encodings);
    let list = candidates_after(directory, base, found, encodings, fallbacks);
    assert forall|i: int| 0 <= i < list.len() implies confined(directory, (#[trigger] list[i]).path) by {
        let primary = if list.len() == fallbacks.len() {
            Seq::<PathDetailsView>::empty()
        } else if found is Directory {
            primary_candidates(directory, index_of_directory(base), encodings)
        } else {
            primary_candidates(directory, base, encodings)
        };
        assert(list =~= primary + fallbacks || list =~= fallbacks);
        if list =~= fallbacks {
        } else if i < primary.len() {
            assert(list[i] == primary[i]);
        } else {
            assert(list[i] == fallbacks[i - primary.len()]);
        }
    }
}

/// The primary candidates of a path lie in the directory, and there is at
/// most one for each encoding and one for the path itself.
pub proof fn lemma_primary_candidates(
    directory: Seq<char>,
    req_path: Seq<char>,
    encodings: Seq<Seq<char>>,
)
    ensures
        all_confined(directory, primary_candidates(directory, req_path, encodings)),
        primary_candidates(directory, req_path, encodings).len() <= encodings.len() + 1,
{
    lemma_encoded_candidates_are_confined(directory, req_path, encodings);
    lemma_encoded_candidates_len(directory, req_path, encodings);
}

proof fn lemma_encoded_candidates_len(
    directory: Seq<char>,
    req_path: Seq<char>,
    encodings: Seq<Seq<char>>,
)
    ensures
        encoded_candidates(directory, req_path, encodings).len() <= encodings.len(),
    decreases encodings.len(),
{
    if encodings.len() > 0 {
        lemma_encoded_candidates_len(directory, req_path, encodings.drop_last());
    }
}

} // verus!
