//! One connection's exchange: the request is run through the handler chain
//! of a server, and the response is written out once.
//!
//! The exchange decides; its caller does the outside work. Each call of
//! `step` takes the answer to the previous action and returns the next one:
//! whether a path names a directory or a file, the contents of a file, an
//! access-log line to print, or the end of the connection. The bytes for
//! the wire collect in the exchange until the caller takes them.

use vstd::prelude::*;
use vstd::utf8::encode_utf8;

use crate::clock::clock_date;
use crate::headers::{lemma_store_lookup, lookup, HeaderSeq};
use crate::paths::{extension, extension_of, join, join_path};
use crate::request::{canonical, parse_header_lines, request_line, request_text, Request};
use crate::response::{
    after_head, after_send, head_bytes, head_text, send_bytes, with_header, with_status, Response,
    ResponseView,
};
use crate::server::{lookup_last, Handler, Server, ServerView};
use crate::text::{after_first_line, chars_of, decimal, decimal_text, lower_of, same_text};

verus! {

/// Where an exchange stands.
#[derive(Clone, Copy, Debug, PartialEq, Eq, Structural)]
pub enum Stage {
    /// The handler at `next` is to run.
    Ready,
    /// Waiting to learn whether the local path names a directory.
    Directory,
    /// Waiting to learn whether the current index file exists.
    IndexFile,
    /// Waiting for the contents of the local path.
    Contents,
    /// Waiting for the caller to run a handler of its own.
    Custom,
    /// The chain has stopped; the connection is to be closed.
    Done,
}

/// What the caller is to do next.
pub enum Action {
    /// Tell whether this path names a directory, with `Event::Answer`.
    CheckDirectory(String),
    /// Tell whether this path names a regular file, with `Event::Answer`.
    CheckFile(String),
    /// Read the whole file at this path, with `Event::Contents`.
    ReadFile(String),
    /// Print this access-log line, then send `Event::Proceed`.
    Log(String),
    /// Run the caller's handler of this number on the request and the
    /// response (see `Exchange::response_mut`), then send `Event::Proceed`
    /// to go on with the chain or `Event::Stop` to end it.
    Run(u32),
    /// Close the connection.
    Close,
}

pub enum ActionView {
    CheckDirectory(Seq<char>),
    CheckFile(Seq<char>),
    ReadFile(Seq<char>),
    Log(Seq<char>),
    Run(u32),
    Close,
}

impl View for Action {
    type V = ActionView;

    open spec fn view(&self) -> ActionView {
        match self {
            Action::CheckDirectory(p) => ActionView::CheckDirectory(p@),
            Action::CheckFile(p) => ActionView::CheckFile(p@),
            Action::ReadFile(p) => ActionView::ReadFile(p@),
            Action::Log(l) => ActionView::Log(l@),
            Action::Run(id) => ActionView::Run(*id),
            Action::Close => ActionView::Close,
        }
    }
}

/// The caller's answer to the last action.
pub enum Event {
    /// Go on (after a log line, or to start).
    Proceed,
    /// The answer to a check.
    Answer(bool),
    /// The contents of a file, or `None` where it could not be read.
    Contents(Option<Vec<u8>>),
    /// End the chain after the caller's handler: the response is sent,
    /// unless it already was.
    Stop,
}

/// The answer that `ev` gives to a check: anything but a positive answer
/// counts as no.
pub open spec fn answer(ev: &Event) -> bool {
    match ev {
        Event::Answer(b) => *b,
        _ => false,
    }
}

/// The contents that `ev` gives: anything but contents counts as a failed
/// read.
pub open spec fn contents_of(ev: &Event) -> Option<Seq<u8>> {
    match ev {
        Event::Contents(Some(c)) => Some(c@),
        _ => None,
    }
}

/// The state of an exchange.
pub struct ExchangeView {
    pub method: Seq<char>,
    pub uri: Seq<char>,
    pub version: Seq<char>,
    pub request_headers: HeaderSeq,
    /// The address of the client.
    pub peer: Seq<char>,
    pub response: ResponseView,
    /// The index of the next handler of the chain.
    pub next: nat,
    pub stage: Stage,
    /// The local path being resolved.
    pub path: Seq<char>,
    /// The index file being tried.
    pub index: nat,
    /// Bytes for the wire that the caller has not taken yet.
    pub output: Seq<u8>,
}

/// The methods answered: `GET`, `HEAD`, and `TRACE` where allowed.
pub open spec fn method_allowed(allow_trace: bool, m: Seq<char>) -> bool {
    m == "GET"@ || m == "HEAD"@ || (allow_trace && m == "TRACE"@)
}

/// The access-log line of an exchange.
pub open spec fn log_line(s: ExchangeView) -> Seq<char> {
    s.peer + " - - ["@ + s.response.date + "] \""@ + s.method + " "@ + s.uri + " "@ + s.version
        + "\" "@ + decimal(s.response.status_code as nat) + " -"@
}

/// The local path of a request URI: the root path followed by the
/// canonical URI.
pub open spec fn local_path(sv: ServerView, uri: Seq<char>) -> Seq<char> {
    sv.root_path + canonical(uri)
}

/// Sends the whole response and stops the chain.
pub open spec fn send_and_stop(s: ExchangeView) -> (ExchangeView, ActionView) {
    (
        ExchangeView {
            response: after_send(s.response),
            output: s.output + send_bytes(s.response),
            stage: Stage::Done,
            ..s
        },
        ActionView::Close,
    )
}

/// Sends the response with the given status and stops the chain.
pub open spec fn reply(s: ExchangeView, code: u16, message: Seq<char>) -> (
    ExchangeView,
    ActionView,
) {
    send_and_stop(ExchangeView { response: with_status(s.response, code, message), ..s })
}

/// The static-file handler, up to its first question: the method gate, the
/// `TRACE` echo, or the question whether the local path is a directory.
pub open spec fn serve_start(sv: ServerView, s: ExchangeView) -> (ExchangeView, ActionView) {
    if !method_allowed(sv.allow_trace, s.method) {
        reply(s, 501, "Not Implemented"@)
    } else if s.method == "TRACE"@ {
        let r = with_header(s.response, "content-type"@, "message/http"@);
        let echo = encode_utf8(request_text(s.method, s.uri, s.version, s.request_headers));
        send_and_stop(ExchangeView { response: ResponseView { body: echo, ..r }, ..s })
    } else {
        let p = local_path(sv, s.uri);
        (ExchangeView { stage: Stage::Directory, path: p, ..s }, ActionView::CheckDirectory(p))
    }
}

/// Runs the handler at `s.next`, moving past it; past the last one, sends
/// the response (if no handler did) and stops.
pub open spec fn run_next(sv: ServerView, s: ExchangeView) -> (ExchangeView, ActionView) {
    if s.next >= sv.handlers.len() {
        send_and_stop(s)
    } else {
        match sv.handlers[s.next as int] {
            Handler::PrintLog => (
                ExchangeView { next: s.next + 1, stage: Stage::Ready, ..s },
                ActionView::Log(log_line(s)),
            ),
            Handler::ServeStatic => serve_start(sv, ExchangeView { next: s.next + 1, ..s }),
            Handler::Custom(id) => (
                ExchangeView { next: s.next + 1, stage: Stage::Custom, ..s },
                ActionView::Run(id),
            ),
        }
    }
}

/// Sets the media type of the local path where its extension has one, and
/// asks for its contents.
pub open spec fn begin_read(sv: ServerView, s: ExchangeView) -> (ExchangeView, ActionView) {
    let r = match extension_of(s.path) {
        Some(e) => match lookup_last(sv.content_types, e) {
            Some(t) => with_header(s.response, "content-type"@, t),
            None => s.response,
        },
        None => s.response,
    };
    (ExchangeView { response: r, stage: Stage::Contents, ..s }, ActionView::ReadFile(s.path))
}

/// Whether the local path names a directory: a directory requested
/// without a trailing `/` is redirected to the URI with one; otherwise its
/// index files are tried in order.
pub open spec fn on_directory(sv: ServerView, s: ExchangeView, is_dir: bool) -> (
    ExchangeView,
    ActionView,
) {
    if is_dir && !(s.uri.len() > 0 && s.uri.last() == '/') {
        let r = with_header(
            with_status(s.response, 301, "Moved Permanently"@),
            "location"@,
            s.uri + seq!['/'],
        );
        send_and_stop(ExchangeView { response: r, ..s })
    } else if is_dir && sv.directory_indexes.len() > 0 {
        (
            ExchangeView { stage: Stage::IndexFile, index: 0, ..s },
            ActionView::CheckFile(join(s.path, sv.directory_indexes[0])),
        )
    } else {
        begin_read(sv, s)
    }
}

/// Whether the index file `s.index` exists: the first that does becomes
/// the local path; where none does, the directory itself is read.
pub open spec fn on_index_file(sv: ServerView, s: ExchangeView, is_file: bool) -> (
    ExchangeView,
    ActionView,
) {
    if is_file && s.index < sv.directory_indexes.len() {
        begin_read(
            sv,
            ExchangeView { path: join(s.path, sv.directory_indexes[s.index as int]), ..s },
        )
    } else if s.index + 1 < sv.directory_indexes.len() {
        (
            ExchangeView { index: s.index + 1, ..s },
            ActionView::CheckFile(join(s.path, sv.directory_indexes[s.index as int + 1])),
        )
    } else {
        begin_read(sv, s)
    }
}

/// The contents of the local path: a failed read is answered with 404;
/// otherwise the contents join the body, the response goes out (its head
/// alone for `HEAD`), and the chain goes on.
pub open spec fn on_contents(sv: ServerView, s: ExchangeView, c: Option<Seq<u8>>) -> (
    ExchangeView,
    ActionView,
) {
    match c {
        None => reply(s, 404, "Not Found"@),
        Some(bytes) => {
            let r = ResponseView { body: s.response.body + bytes, ..s.response };
            let out = if s.method == "HEAD"@ {
                s.output + head_bytes(r)
            } else {
                s.output + send_bytes(r)
            };
            run_next(
                sv,
                ExchangeView { response: after_send(r), output: out, ..s },
            )
        },
    }
}

/// A directory requested without a trailing `/`, before anything is sent,
/// is answered at once with 301 `Moved Permanently` and a `location` field
/// of the URI with `/` added; the chain stops.
pub proof fn lemma_directory_redirect(sv: ServerView, s: ExchangeView)
    requires
        !s.response.head_sent,
        !(s.uri.len() > 0 && s.uri.last() == '/'),
    ensures
        ({
            let r = with_header(
                with_status(s.response, 301, "Moved Permanently"@),
                "location"@,
                s.uri + seq!['/'],
            );
            &&& r.status_code == 301
            &&& r.status_message == "Moved Permanently"@
            &&& lookup(r.headers, lower_of("location"@)) == Some(s.uri + seq!['/'])
            &&& on_directory(sv, s, true) == (
                ExchangeView {
                    response: after_send(r),
                    output: s.output + send_bytes(r),
                    stage: Stage::Done,
                    ..s
                },
                ActionView::Close,
            )
        }),
{
    let r0 = with_status(s.response, 301, "Moved Permanently"@);
    lemma_store_lookup(r0.headers, lower_of("location"@), s.uri + seq!['/'], lower_of("location"@));
}

/// A file read for `GET` or for `HEAD`, with nothing sent yet and no handler
/// left after the static one, puts the same head on the wire: the head of
/// the response with the file as its body. `GET` follows it with the body;
/// `HEAD` writes nothing more.
pub proof fn lemma_get_and_head_send_the_same_head(
    sv: ServerView,
    s: ExchangeView,
    file: Seq<u8>,
)
    requires
        !s.response.head_sent,
        !s.response.finished,
        s.next >= sv.handlers.len(),
    ensures
        ({
            let r = ResponseView { body: s.response.body + file, ..s.response };
            let head = encode_utf8(head_text(after_head(r)));
            let get = on_contents(sv, ExchangeView { method: "GET"@, ..s }, Some(file));
            let head_only = on_contents(sv, ExchangeView { method: "HEAD"@, ..s }, Some(file));
            &&& get.0.output == s.output + head + r.body
            &&& head_only.0.output == s.output + head
            &&& get.0.response == after_send(r)
            &&& head_only.0.response == after_send(r)
            &&& get.0.response.status_code == s.response.status_code
            &&& get.1 == ActionView::Close
            &&& head_only.1 == ActionView::Close
        }),
{
    let r = ResponseView { body: s.response.body + file, ..s.response };
    reveal_strlit("GET");
    reveal_strlit("HEAD");
    assert("GET"@ != "HEAD"@) by {
        assert("GET"@.len() != "HEAD"@.len());
    }
    assert(send_bytes(after_send(r)) =~= Seq::<u8>::empty());
    let head = encode_utf8(head_text(after_head(r)));
    assert(s.output + send_bytes(r) + Seq::<u8>::empty() =~= s.output + head + r.body);
    assert(s.output + head_bytes(r) + Seq::<u8>::empty() =~= s.output + head);
}

/// One step of an exchange: its next state and the caller's next action.
pub open spec fn step_result(sv: ServerView, s: ExchangeView, ev: &Event) -> (
    ExchangeView,
    ActionView,
) {
    match s.stage {
        Stage::Ready => run_next(sv, s),
        Stage::Directory => on_directory(sv, s, answer(ev)),
        Stage::IndexFile => on_index_file(sv, s, answer(ev)),
        Stage::Contents => on_contents(sv, s, contents_of(ev)),
        Stage::Custom => if ev is Stop {
            send_and_stop(s)
        } else {
            run_next(sv, s)
        },
        Stage::Done => (s, ActionView::Close),
    }
}

/// The contents that an optional file gives.
pub open spec fn bytes_of(c: Option<Vec<u8>>) -> Option<Seq<u8>> {
    match c {
        Some(v) => Some(v@),
        None => None,
    }
}

/// The exchange of one connection.
pub struct Exchange {
    request: Request,
    response: Response,
    peer: String,
    next: usize,
    stage: Stage,
    path: String,
    index: usize,
    output: Vec<u8>,
}

impl View for Exchange {
    type V = ExchangeView;

    closed spec fn view(&self) -> ExchangeView {
        ExchangeView {
            method: self.request.method@,
            uri: self.request.uri@,
            version: self.request.version@,
            request_headers: self.request.headers@,
            peer: self.peer@,
            response: self.response@,
            next: self.next as nat,
            stage: self.stage,
            path: self.path@,
            index: self.index as nat,
            output: self.output@,
        }
    }
}

impl Exchange {
    /// An exchange about to run the chain on `request`, answering with
    /// `response`, for the client at `peer`.
    pub fn start(request: Request, response: Response, peer: String) -> (r: Exchange)
        ensures
            r@ == (ExchangeView {
                method: request.method@,
                uri: request.uri@,
                version: request.version@,
                request_headers: request.headers@,
                peer: peer@,
                response: response@,
                next: 0,
                stage: Stage::Ready,
                path: Seq::empty(),
                index: 0,
                output: Seq::empty(),
            }),
    {
        Exchange {
            request,
            response,
            peer,
            next: 0,
            stage: Stage::Ready,
            path: String::new(),
            index: 0,
            output: Vec::new(),
        }
    }

    /// An exchange for the raw request head `message` from the client at
    /// `peer`, with a fresh response dated now; none where the head does
    /// not parse, and the connection is then dropped.
    pub fn open(message: &str, peer: &str) -> (r: Option<Exchange>)
        ensures
            match r {
                Some(x) => {
                    &&& request_line(message@) == Some((x@.method, x@.uri, x@.version))
                    &&& x@.request_headers == parse_header_lines(
                        after_first_line(message@),
                        Seq::empty(),
                    )
                    &&& x@.peer == peer@
                    &&& clock_date(x@.response.date)
                    &&& x@.response.status_code == 200
                    &&& x@.response.status_message == "Ok"@
                    &&& x@.response.headers == Seq::<(Seq<char>, Seq<char>)>::empty()
                    &&& x@.response.body == Seq::<u8>::empty()
                    &&& !x@.response.head_sent
                    &&& !x@.response.finished
                    &&& x@.next == 0
                    &&& x@.stage == Stage::Ready
                    &&& x@.output == Seq::<u8>::empty()
                },
                None => request_line(message@) is None,
            },
    {
        match Request::from_str(message) {
            Ok(request) => Some(Exchange::start(request, Response::new(), String::from_str(peer))),
            Err(_) => None,
        }
    }

    pub fn request(&self) -> (r: &Request)
        ensures
            r.method@ == self@.method,
            r.uri@ == self@.uri,
            r.version@ == self@.version,
            r.headers@ == self@.request_headers,
    {
        &self.request
    }

    pub fn response(&self) -> (r: &Response)
        ensures
            r@ == self@.response,
    {
        &self.response
    }

    pub fn stage(&self) -> (r: Stage)
        ensures
            r == self@.stage,
    {
        self.stage
    }

    /// The response, for a handler of the caller's own to change.
    pub fn response_mut(&mut self) -> (r: &mut Response)
        ensures
            r@ == old(self)@.response,
            final(self)@ == (ExchangeView { response: final(r)@, ..old(self)@ }),
    {
        &mut self.response
    }

    /// Writes the whole response now, once: for a handler of the caller's
    /// own that answers by itself.
    pub fn send_response(&mut self)
        ensures
            final(self)@ == (ExchangeView {
                response: after_send(old(self)@.response),
                output: old(self)@.output + send_bytes(old(self)@.response),
                ..old(self)@
            }),
    {
        self.response.send(&mut self.output);
    }

    /// Hands over the bytes for the wire written so far.
    pub fn take_output(&mut self) -> (r: Vec<u8>)
        ensures
            r@ == old(self)@.output,
            final(self)@ == (ExchangeView { output: Seq::empty(), ..old(self)@ }),
    {
        let mut out: Vec<u8> = Vec::new();
        std::mem::swap(&mut out, &mut self.output);
        out
    }

    /// The access-log line: client, date, request line and status.
    pub fn log_text(&self) -> (r: String)
        ensures
            r@ == log_line(self@),
    {
        let mut s = String::from_str(self.peer.as_str());
        s.append(" - - [");
        s.append(self.response.date().as_str());
        s.append("] \"");
        s.append(self.request.method.as_str());
        s.append(" ");
        s.append(self.request.uri.as_str());
        s.append(" ");
        s.append(self.request.version.as_str());
        s.append("\" ");
        let code = decimal_text(self.response.status_code() as usize);
        s.append(code.as_str());
        s.append(" -");
        s
    }

    fn send_and_stop_now(&mut self) -> (a: Action)
        ensures
            (final(self)@, a@) == send_and_stop(old(self)@),
    {
        self.response.send(&mut self.output);
        self.stage = Stage::Done;
        Action::Close
    }

    fn reply_with(&mut self, code: u16, message: &str) -> (a: Action)
        ensures
            (final(self)@, a@) == reply(old(self)@, code, message@),
    {
        self.response.set_status(code, message);
        self.send_and_stop_now()
    }

    fn serve_begin(&mut self, server: &Server) -> (a: Action)
        ensures
            (final(self)@, a@) == serve_start(server@, old(self)@),
    {
        let is_get = same_text(self.request.method.as_str(), "GET");
        let is_head = same_text(self.request.method.as_str(), "HEAD");
        let is_trace = same_text(self.request.method.as_str(), "TRACE");
        if !(is_get || is_head || (server.allow_trace && is_trace)) {
            return self.reply_with(501, "Not Implemented");
        }
        if is_trace {
            self.response.set_header("content-type", "message/http");
            let text = self.request.to_string();
            let echo = text.as_str().as_bytes_vec();
            self.response.set_body(echo);
            return self.send_and_stop_now();
        }
        let uri = self.request.get_uri();
        let mut p = String::from_str(server.root_path.as_str());
        p.append(uri.as_str());
        let a = Action::CheckDirectory(p.clone());
        self.path = p;
        self.stage = Stage::Directory;
        a
    }

    fn run_next_handler(&mut self, server: &Server) -> (a: Action)
        ensures
            (final(self)@, a@) == run_next(server@, old(self)@),
    {
        if self.next >= server.handlers.len() {
            return self.send_and_stop_now();
        }
        match server.handlers[self.next] {
            Handler::PrintLog => {
                let line = self.log_text();
                self.next = self.next + 1;
                self.stage = Stage::Ready;
                Action::Log(line)
            },
            Handler::ServeStatic => {
                self.next = self.next + 1;
                self.serve_begin(server)
            },
            Handler::Custom(id) => {
                self.next = self.next + 1;
                self.stage = Stage::Custom;
                Action::Run(id)
            },
        }
    }

    fn start_read(&mut self, server: &Server) -> (a: Action)
        ensures
            (final(self)@, a@) == begin_read(server@, old(self)@),
    {
        match extension(self.path.as_str()) {
            Some(e) => match server.content_type(e.as_str()) {
                Some(t) => self.response.set_header("content-type", t.as_str()),
                None => {},
            },
            None => {},
        }
        self.stage = Stage::Contents;
        Action::ReadFile(self.path.clone())
    }

    fn directory_answer(&mut self, server: &Server, is_dir: bool) -> (a: Action)
        ensures
            (final(self)@, a@) == on_directory(server@, old(self)@, is_dir),
    {
        let u = chars_of(self.request.uri.as_str());
        let slash = u.len() > 0 && u[u.len() - 1] == '/';
        if is_dir && !slash {
            let ghost s0 = self@;
            self.response.set_status(301, "Moved Permanently");
            let mut location = self.request.uri.clone();
            proof {
                reveal_strlit("/");
            }
            location.append("/");
            self.response.set_header("location", location.as_str());
            proof {
                assert(location@ =~= s0.uri + seq!['/']);
                assert(self@ == ExchangeView {
                    response: with_header(
                        with_status(s0.response, 301, "Moved Permanently"@),
                        "location"@,
                        s0.uri + seq!['/'],
                    ),
                    ..s0
                });
            }
            return self.send_and_stop_now();
        }
        if is_dir && server.directory_indexes.len() > 0 {
            self.stage = Stage::IndexFile;
            self.index = 0;
            return Action::CheckFile(
                join_path(self.path.as_str(), server.directory_indexes[0].as_str()),
            );
        }
        self.start_read(server)
    }

    fn index_answer(&mut self, server: &Server, is_file: bool) -> (a: Action)
        ensures
            (final(self)@, a@) == on_index_file(server@, old(self)@, is_file),
    {
        let n = server.directory_indexes.len();
        if is_file && self.index < n {
            self.path = join_path(self.path.as_str(), server.directory_indexes[self.index].as_str());
            return self.start_read(server);
        }
        if self.index < n && self.index + 1 < n {
            self.index = self.index + 1;
            return Action::CheckFile(
                join_path(self.path.as_str(), server.directory_indexes[self.index].as_str()),
            );
        }
        self.start_read(server)
    }

    fn contents_answer(&mut self, server: &Server, c: Option<Vec<u8>>) -> (a: Action)
        ensures
            (final(self)@, a@) == on_contents(server@, old(self)@, bytes_of(c)),
    {
        match c {
            None => self.reply_with(404, "Not Found"),
            Some(bytes) => {
                self.response.write(bytes.as_slice());
                if same_text(self.request.method.as_str(), "HEAD") {
                    self.response.send_head_only(&mut self.output);
                } else {
                    self.response.send(&mut self.output);
                }
                self.run_next_handler(server)
            },
        }
    }

    /// Takes the answer to the last action and returns the next action;
    /// `Event::Proceed` starts the chain.
    pub fn step(&mut self, server: &Server, event: Event) -> (a: Action)
        ensures
            (final(self)@, a@) == step_result(server@, old(self)@, &event),
    {
        match self.stage {
            Stage::Ready => self.run_next_handler(server),
            Stage::Directory => {
                let b = match event {
                    Event::Answer(b) => b,
                    _ => false,
                };
                self.directory_answer(server, b)
            },
            Stage::IndexFile => {
                let b = match event {
                    Event::Answer(b) => b,
                    _ => false,
                };
                self.index_answer(server, b)
            },
            Stage::Contents => {
                let c = match event {
                    Event::Contents(c) => c,
                    _ => None,
                };
                self.contents_answer(server, c)
            },
            Stage::Custom => match event {
                Event::Stop => self.send_and_stop_now(),
                _ => self.run_next_handler(server),
            },
            Stage::Done => Action::Close,
        }
    }
}

} // verus!
