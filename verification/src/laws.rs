//! The laws of the service: what holds of every request, every
//! configuration and every file system.
use vstd::prelude::*;
use crate::content_type::{lemma_index_is_html, HTML};
use crate::path::{
    confined, is_name, lemma_child_is_confined, lemma_resolved_path_is_confined, resolved_path,
};
use crate::range::{resolve_bounds, ByteRange};
use crate::range::content_range;
use crate::response_paths::{
    encoded_candidate, encoded_candidates, encoded_path, lemma_fallback_candidates_are_confined,
    lemma_negotiated_are_offered, PathDetailsView, Status,
};
use crate::text::split;
use crate::responses::{
    full_response, last_resort, range_response, served, BodyView, FoundView, ResponseView,
    METHOD_NOT_ALLOWED_405, RANGE_NOT_SATISFIABLE_416,
};
use crate::service::{
    accepted, candidates_after, first_served, index_of_directory,
    lemma_candidates_after_are_confined, probe_limit, range_plan, request_candidates,
    response_to, run, started, ExchangeView, Files, RangePlan, RequestView, ServiceView,
    StepView,
};

verus! {

/// The first step leads to the response: where the service answers at
/// once, its answer is the response to the request over every file system;
/// where it asks, it asks about a path in the directory, and its exchange
/// ends with the response to the request.
pub proof fn lemma_started(request: RequestView, service: ServiceView, files: Files)
    ensures
        match started(request, service) {
            StepView::Respond { response } => response == response_to(request, service, files),
            StepView::Probe { path, exchange } => {
                &&& exchange.wf()
                &&& path == exchange.awaits()
                &&& exchange.directory == service.directory
                &&& confined(service.directory, path)
                &&& exchange.probes_left() <= probe_limit(request, service)
                &&& exchange.outcome(files) == response_to(request, service, files)
            },
        },
{
    lemma_fallback_candidates_are_confined(service.directory, service.filepath_404s);
    lemma_resolved_path_is_confined(service.directory, request.path);
}

/// Each step keeps the outcome: over every file system that holds `found`
/// at the path that the exchange asks about, the answer of the next step is
/// the outcome of the exchange, and an exchange that goes on has the same
/// outcome, asks about a path in the directory, and has fewer questions left.
pub proof fn lemma_resumed(exchange: ExchangeView, found: FoundView, files: Files)
    requires
        exchange.wf(),
        files(exchange.awaits()) == found,
    ensures
        match exchange.resumed(found) {
            StepView::Respond { response } => response == exchange.outcome(files),
            StepView::Probe { path, exchange: next } => {
                &&& next.wf()
                &&& path == next.awaits()
                &&& next.directory == exchange.directory
                &&& confined(next.directory, path)
                &&& next.probes_left() < exchange.probes_left()
                &&& next.outcome(files) == exchange.outcome(files)
            },
        },
{
    match exchange.base {
        Some(base) => {
            lemma_candidates_after_are_confined(
                exchange.directory,
                base,
                found,
                exchange.encodings,
                exchange.candidates,
            );
            let list = candidates_after(
                exchange.directory,
                base,
                found,
                exchange.encodings,
                exchange.candidates,
            );
            if list.len() > 0 {
                assert(confined(exchange.directory, list[0].path));
            }
        },
        None => {
            let list = exchange.candidates;
            let at = exchange.next as int;
            assert(files(list[at].path) == found);
            if served(exchange.directory, list[at], found, exchange.head, exchange.range) is None {
                assert(first_served(
                    exchange.directory,
                    list,
                    at,
                    exchange.head,
                    exchange.range,
                    files,
                ) == first_served(
                    exchange.directory,
                    list,
                    at + 1,
                    exchange.head,
                    exchange.range,
                    files,
                ));
                if at + 1 < list.len() {
                    assert(confined(exchange.directory, list[at + 1].path));
                }
            }
        },
    }
}

proof fn lemma_run_exchange(exchange: ExchangeView, files: Files, probes: nat)
    requires
        exchange.wf(),
        probes >= exchange.probes_left(),
    ensures
        run(StepView::Probe { path: exchange.awaits(), exchange }, files, probes) == Some(
            exchange.outcome(files),
        ),
    decreases exchange.probes_left(),
{
    let found = files(exchange.awaits());
    lemma_resumed(exchange, found, files);
    match exchange.resumed(found) {
        StepView::Respond { response } => {},
        StepView::Probe { path, exchange: next } => {
            lemma_run_exchange(next, files, (probes - 1) as nat);
        },
    }
}

/// The service gives the response: when every question of the service is
/// answered from one file system, the steps end, after no more questions
/// than `probe_limit` allows, with the response to the request over that
/// file system.
pub proof fn lemma_run_gives_response(request: RequestView, service: ServiceView, files: Files)
    ensures
        run(started(request, service), files, probe_limit(request, service)) == Some(
            response_to(request, service, files),
        ),
{
    lemma_started(request, service, files);
    match started(request, service) {
        StepView::Respond { response } => {},
        StepView::Probe { path, exchange } => {
            lemma_run_exchange(exchange, files, probe_limit(request, service));
        },
    }
}

/// The method gate: a request whose method is neither `GET` nor `HEAD` is
/// answered with the built-in page for status 405 at the first step, before
/// any question about a file is asked.
pub proof fn lemma_method_gate(request: RequestView, service: ServiceView)
    requires
        request.method != "GET"@,
        request.method != "HEAD"@,
    ensures
        started(request, service) == (StepView::Respond {
            response: last_resort(Status::MethodNotAllowed, METHOD_NOT_ALLOWED_405@),
        }),
{
}

/// A range that does not fit the first candidate that is found ends the
/// exchange: the answer is the built-in page for status 416, and no further
/// candidate is asked about.
pub proof fn lemma_unsatisfiable_range_ends_exchange(
    exchange: ExchangeView,
    canonical: Seq<char>,
    size: usize,
)
    requires
        exchange.wf(),
        exchange.base is None,
        !exchange.head,
        exchange.range is Some,
        exchange.candidates[exchange.next as int].status_code == Status::Success,
        confined(exchange.directory, canonical),
        resolve_bounds(exchange.range.unwrap(), size) is None,
    ensures
        exchange.resumed(FoundView::File { canonical, size }) == (StepView::Respond {
            response: last_resort(Status::RangeNotSatisfiable, RANGE_NOT_SATISFIABLE_416@),
        }),
{
}

proof fn lemma_first_served_skips(
    directory: Seq<char>,
    list: Seq<PathDetailsView>,
    from: int,
    at: int,
    head: bool,
    range: Option<ByteRange>,
    files: Files,
)
    requires
        0 <= from <= at < list.len(),
        forall|i: int|
            from <= i < at ==> served(
                directory,
                #[trigger] list[i],
                files(list[i].path),
                head,
                range,
            ) is None,
    ensures
        first_served(directory, list, from, head, range, files) == first_served(
            directory,
            list,
            at,
            head,
            range,
            files,
        ),
    decreases at - from,
{
    if from < at {
        assert(served(directory, list[from], files(list[from].path), head, range) is None);
        lemma_first_served_skips(directory, list, from + 1, at, head, range, files);
    }
}

/// The first candidate that is found answers: where none of the candidates
/// before position `at` answers and the one at `at` does, its response is
/// the response.
pub proof fn lemma_first_found_answers(
    directory: Seq<char>,
    list: Seq<PathDetailsView>,
    at: int,
    head: bool,
    range: Option<ByteRange>,
    files: Files,
)
    requires
        0 <= at < list.len(),
        forall|i: int|
            0 <= i < at ==> served(
                directory,
                #[trigger] list[i],
                files(list[i].path),
                head,
                range,
            ) is None,
        served(directory, list[at], files(list[at].path), head, range) is Some,
    ensures
        first_served(directory, list, 0, head, range, files) == served(
            directory,
            list[at],
            files(list[at].path),
            head,
            range,
        ).unwrap(),
{
    lemma_first_served_skips(directory, list, 0, at, head, range, files);
}

proof fn lemma_first_encoded_candidate(
    directory: Seq<char>,
    req_path: Seq<char>,
    encodings: Seq<Seq<char>>,
)
    requires
        encodings.len() > 0,
        encoded_path(req_path, encodings[0]) is Some,
        confined(directory, encoded_path(req_path, encodings[0]).unwrap()),
    ensures
        encoded_candidates(directory, req_path, encodings).len() > 0,
        encoded_candidates(directory, req_path, encodings)[0] == encoded_candidate(
            req_path,
            encodings[0],
        ),
    decreases encodings.len(),
{
    if encodings.len() > 1 {
        assert(encodings.drop_last()[0] == encodings[0]);
        lemma_first_encoded_candidate(directory, req_path, encodings.drop_last());
    } else {
        assert(encodings.drop_last() =~= Seq::<Seq<char>>::empty());
        assert(encoded_candidates(directory, req_path, encodings.drop_last()).len() == 0);
        assert(encodings.last() == encodings[0]);
    }
}

/// Encoded variants come before the file itself, in the client's order: a
/// `GET` request without a range, for a path that is no directory, is
/// answered from the variant in the first encoding that client and
/// deployment agree on, where that variant is found in the directory. The
/// response names that encoding and carries the content type of the file
/// that was asked for.
pub proof fn lemma_first_encoding_answers(
    request: RequestView,
    service: ServiceView,
    files: Files,
    base: Seq<char>,
    canonical: Seq<char>,
    size: usize,
)
    requires
        request.method == "GET"@,
        request.range is None,
        resolved_path(service.directory, request.path) == Some(base),
        !(files(base) is Directory),
        accepted(request.accept_encoding, service.encodings).len() > 0,
        confined(
            service.directory,
            encoded_path(base, accepted(request.accept_encoding, service.encodings)[0]).unwrap(),
        ),
        files(
            encoded_path(base, accepted(request.accept_encoding, service.encodings)[0]).unwrap(),
        ) == (FoundView::File { canonical, size }),
        confined(service.directory, canonical),
    ensures
        response_to(request, service, files) == full_response(
            encoded_candidate(base, accepted(request.accept_encoding, service.encodings)[0]),
            canonical,
            size,
            false,
        ),
{
    reveal_strlit("GET");
    reveal_strlit("HEAD");
    assert("GET"@.len() != "HEAD"@.len());
    let encodings = accepted(request.accept_encoding, service.encodings);
    match request.accept_encoding {
        Some(header) => {
            lemma_negotiated_are_offered(split(header, ','), service.encodings);
        },
        None => {},
    }
    lemma_first_encoded_candidate(service.directory, base, encodings);
    let list = request_candidates(request, service, files);
    assert(list[0] == encoded_candidate(base, encodings[0]));
}

proof fn lemma_first_served_agrees(
    directory: Seq<char>,
    list: Seq<PathDetailsView>,
    from: int,
    head: bool,
    range: Option<ByteRange>,
    files: Files,
    other: Files,
)
    requires
        forall|i: int| 0 <= i < list.len() ==> files((#[trigger] list[i]).path) == other(list[i].path),
    ensures
        first_served(directory, list, from, head, range, files) == first_served(
            directory,
            list,
            from,
            head,
            range,
            other,
        ),
    decreases list.len() - from,
{
    if 0 <= from < list.len() {
        assert(files(list[from].path) == other(list[from].path));
        lemma_first_served_agrees(directory, list, from + 1, head, range, files, other);
    }
}

/// The response is a function of what the request touches: two file systems
/// that hold the same at the path that the request is mapped to and at the
/// paths of its candidates give the same response, status, headers and body
/// alike. A request that is repeated while those files stay as they are is
/// answered as before.
pub proof fn lemma_same_files_same_response(
    request: RequestView,
    service: ServiceView,
    files: Files,
    other: Files,
)
    requires
        match resolved_path(service.directory, request.path) {
            Some(base) => files(base) == other(base),
            None => true,
        },
        forall|i: int|
            0 <= i < request_candidates(request, service, files).len() ==> files(
                (#[trigger] request_candidates(request, service, files)[i]).path,
            ) == other(request_candidates(request, service, files)[i].path),
    ensures
        response_to(request, service, files) == response_to(request, service, other),
{
    let list = request_candidates(request, service, files);
    assert(list == request_candidates(request, service, other));
    let head = request.method == "HEAD"@;
    match range_plan(head, request.range) {
        RangePlan::Window { range } => {
            lemma_first_served_agrees(service.directory, list, 0, head, Some(range), files, other);
        },
        RangePlan::Whole => {
            lemma_first_served_agrees(service.directory, list, 0, head, None, files, other);
        },
        _ => {},
    }
}

proof fn lemma_first_served_is_confined(
    directory: Seq<char>,
    list: Seq<PathDetailsView>,
    from: int,
    head: bool,
    range: Option<ByteRange>,
    files: Files,
)
    ensures
        first_served(directory, list, from, head, range, files).body matches BodyView::File {
            path,
            start,
            end,
        } ==> confined(directory, path) && start <= end,
    decreases list.len() - from,
{
    if 0 <= from < list.len() {
        lemma_first_served_is_confined(directory, list, from + 1, head, range, files);
    }
}

/// The sandbox holds of every response: whatever the request and whatever
/// the file system holds, links included, a response is read from a file
/// whose path, with every link followed, lies in the root directory.
pub proof fn lemma_response_stays_in_directory(
    request: RequestView,
    service: ServiceView,
    files: Files,
)
    ensures
        response_to(request, service, files).body matches BodyView::File { path, start, end }
            ==> confined(service.directory, path) && start <= end,
{
    let list = request_candidates(request, service, files);
    let head = request.method == "HEAD"@;
    match range_plan(head, request.range) {
        RangePlan::Window { range } => {
            lemma_first_served_is_confined(service.directory, list, 0, head, Some(range), files);
        },
        RangePlan::Whole => {
            lemma_first_served_is_confined(service.directory, list, 0, head, None, files);
        },
        _ => {},
    }
}

/// The window that is named is the window that is read. A range from byte
/// `first` to byte `last` of a file that holds that last byte is answered
/// with status 206, the bytes from `first` up to and including `last`, their
/// number as the length, and both positions in `Content-Range`.
pub proof fn lemma_window_is_served(
    details: PathDetailsView,
    file: Seq<char>,
    first: usize,
    last: usize,
    size: usize,
)
    requires
        first <= last < size,
    ensures
        range_response(details, file, (Some(first), Some(last)), size) == (ResponseView {
            status_code: Status::PartialContent,
            content_type: details.content_type,
            content_length: Some((last - first + 1) as usize),
            content_range: Some(content_range(first, last, size)),
            content_encoding: details.content_encoding,
            accept_ranges: false,
            body: BodyView::File { path: file, start: first, end: (last + 1) as usize },
        }),
{
}

/// A range of the last `n` bytes of a file that holds at least one byte is
/// answered with status 206 and the end of the file: the last `n` bytes, or
/// the whole file where it holds fewer.
pub proof fn lemma_suffix_is_served(details: PathDetailsView, file: Seq<char>, n: usize, size: usize)
    requires
        0 < n,
        0 < size,
    ensures
        range_response(details, file, (None, Some(n)), size) == (ResponseView {
            status_code: Status::PartialContent,
            content_type: details.content_type,
            content_length: Some(
                if n >= size {
                    size
                } else {
                    n
                },
            ),
            content_range: Some(
                content_range(
                    if n >= size {
                        0
                    } else {
                        (size - n) as usize
                    },
                    (size - 1) as usize,
                    size,
                ),
            ),
            content_encoding: details.content_encoding,
            accept_ranges: false,
            body: BodyView::File {
                path: file,
                start: if n >= size {
                    0
                } else {
                    (size - n) as usize
                },
                end: size,
            },
        }),
{
}

/// A range that begins behind the last byte of the file is answered with the
/// built-in page for status 416, whatever its end.
pub proof fn lemma_range_behind_the_end_is_refused(
    details: PathDetailsView,
    file: Seq<char>,
    first: usize,
    last: Option<usize>,
    size: usize,
)
    requires
        first >= size,
    ensures
        range_response(details, file, (Some(first), last), size) == last_resort(
            Status::RangeNotSatisfiable,
            RANGE_NOT_SATISFIABLE_416@,
        ),
{
}

/// A missing file is answered by its substitute: where none of the
/// candidates before position `at` answers, and the candidate at `at` is a
/// substitute whose file is found in the directory, the response carries
/// status 404 and the whole of that file, range or no range.
pub proof fn lemma_substitute_answers(
    request: RequestView,
    service: ServiceView,
    files: Files,
    at: int,
    canonical: Seq<char>,
    size: usize,
)
    requires
        request.method == "GET"@ || request.method == "HEAD"@,
        !(range_plan(request.method == "HEAD"@, request.range) is Malformed),
        !(range_plan(request.method == "HEAD"@, request.range) is Several),
        0 <= at < request_candidates(request, service, files).len(),
        request_candidates(request, service, files)[at].status_code == Status::NotFound,
        forall|i: int|
            0 <= i < at ==> !(files(
                (#[trigger] request_candidates(request, service, files)[i]).path,
            ) is File),
        files(request_candidates(request, service, files)[at].path) == (FoundView::File {
            canonical,
            size,
        }),
        confined(service.directory, canonical),
    ensures
        response_to(request, service, files) == full_response(
            request_candidates(request, service, files)[at],
            canonical,
            size,
            request.method == "HEAD"@,
        ),
        response_to(request, service, files).status_code == Status::NotFound,
{
    let list = request_candidates(request, service, files);
    let head = request.method == "HEAD"@;
    match range_plan(head, request.range) {
        RangePlan::Window { range } => {
            lemma_first_found_answers(service.directory, list, at, head, Some(range), files);
        },
        RangePlan::Whole => {
            lemma_first_found_answers(service.directory, list, at, head, None, files);
        },
        _ => {},
    }
}

proof fn lemma_first_served_length(
    directory: Seq<char>,
    list: Seq<PathDetailsView>,
    from: int,
    head: bool,
    range: Option<ByteRange>,
    files: Files,
)
    ensures
        first_served(directory, list, from, head, range, files).body matches BodyView::File {
            path,
            start,
            end,
        } ==> first_served(directory, list, from, head, range, files).content_length == Some(
            (end - start) as usize,
        ),
    decreases list.len() - from,
{
    if 0 <= from < list.len() {
        lemma_first_served_length(directory, list, from + 1, head, range, files);
    }
}

/// The length that is announced is the length that is sent: a response
/// whose body is read from a file gives the number of bytes of the window
/// that is read as its `Content-Length`.
pub proof fn lemma_length_is_the_length_of_the_body(
    request: RequestView,
    service: ServiceView,
    files: Files,
)
    ensures
        response_to(request, service, files).body matches BodyView::File { path, start, end }
            ==> response_to(request, service, files).content_length == Some(
            (end - start) as usize,
        ),
{
    let list = request_candidates(request, service, files);
    let head = request.method == "HEAD"@;
    match range_plan(head, request.range) {
        RangePlan::Window { range } => {
            lemma_first_served_length(service.directory, list, 0, head, Some(range), files);
        },
        RangePlan::Whole => {
            lemma_first_served_length(service.directory, list, 0, head, None, files);
        },
        _ => {},
    }
}

/// A directory is answered by its index: a `GET` request without a range
/// that is mapped to a directory in the root directory is answered, where
/// no encoding is agreed on and the `index.html` of the directory is found,
/// with status 200 and the whole of that file as an HTML document.
pub proof fn lemma_directory_is_answered_by_its_index(
    request: RequestView,
    service: ServiceView,
    files: Files,
    base: Seq<char>,
    canonical: Seq<char>,
    index_file: Seq<char>,
    size: usize,
)
    requires
        request.method == "GET"@,
        request.range is None,
        resolved_path(service.directory, request.path) == Some(base),
        files(base) == (FoundView::Directory { canonical }),
        confined(service.directory, canonical),
        accepted(request.accept_encoding, service.encodings).len() == 0,
        files(index_of_directory(base)) == (FoundView::File { canonical: index_file, size }),
        confined(service.directory, index_file),
    ensures
        response_to(request, service, files) == (ResponseView {
            status_code: Status::Success,
            content_type: HTML@,
            content_length: Some(size),
            content_range: None,
            content_encoding: None,
            accept_ranges: true,
            body: BodyView::File { path: index_file, start: 0, end: size },
        }),
{
    reveal_strlit("GET");
    reveal_strlit("HEAD");
    reveal_strlit("/index.html");
    reveal_strlit("index.html");
    reveal_strlit(".");
    reveal_strlit("..");
    assert("GET"@.len() != "HEAD"@.len());
    let name = "index.html"@;
    assert(is_name(name)) by {
        assert(name.len() == 10);
        assert(!name.contains('/'));
    }
    let index = index_of_directory(base);
    assert(index =~= base + seq!['/'] + name);
    lemma_resolved_path_is_confined(service.directory, request.path);
    lemma_child_is_confined(service.directory, base, name);
    lemma_index_is_html(base);
    let encodings = accepted(request.accept_encoding, service.encodings);
    assert(encoded_candidates(service.directory, index, encodings).len() == 0);
    let list = request_candidates(request, service, files);
    assert(list[0].path == index);
}

} // verus!
