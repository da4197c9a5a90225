//! HTTP response messages: status, header fields and body, accumulated by
//! the handlers and written out in two phases, the head at most once and
//! the body after it.

use vstd::prelude::*;
use vstd::utf8::encode_utf8;

use crate::clock::{clock_date, current_date};
use crate::headers::{lookup, store, HeaderSeq, Headers};
use crate::request::{append_header_lines, header_lines};
use crate::text::{decimal, decimal_text, lower_of};

verus! {

/// The state of a response.
pub struct ResponseView {
    pub status_code: u16,
    pub status_message: Seq<char>,
    pub date: Seq<char>,
    pub headers: HeaderSeq,
    pub body: Seq<u8>,
    /// The status line and header fields have been written.
    pub head_sent: bool,
    /// The message is complete: nothing more is written.
    pub finished: bool,
}

/// `r` with the given status, unless its head is already sent.
pub open spec fn with_status(r: ResponseView, code: u16, message: Seq<char>) -> ResponseView {
    if r.head_sent {
        r
    } else {
        ResponseView { status_code: code, status_message: message, ..r }
    }
}

/// `r` with `value` stored under the lower-cased `name`, unless its head is
/// already sent.
pub open spec fn with_header(r: ResponseView, name: Seq<char>, value: Seq<char>) -> ResponseView {
    if r.head_sent {
        r
    } else {
        ResponseView { headers: store(r.headers, lower_of(name), value), ..r }
    }
}

/// The status line: version, code and reason phrase.
pub open spec fn status_line(code: u16, message: Seq<char>) -> Seq<char> {
    "HTTP/1.1"@ + seq![' '] + decimal(code as nat) + seq![' '] + message + seq!['\n']
}

/// The wire form of the head: status line, header lines and a blank line.
pub open spec fn head_text(r: ResponseView) -> Seq<char> {
    status_line(r.status_code, r.status_message) + header_lines(r.headers) + seq!['\n']
}

/// The header fields as the head goes out: `content-length` from the body
/// unless one was set, then `server`, `date` and `connection: close`.
pub open spec fn outgoing_headers(r: ResponseView) -> HeaderSeq {
    let h = if lookup(r.headers, lower_of("content-length"@)) is Some {
        r.headers
    } else {
        store(r.headers, lower_of("content-length"@), decimal(r.body.len()))
    };
    store(
        store(store(h, lower_of("server"@), "SimpletonHTTP/0.0.0"@), lower_of("date"@), r.date),
        lower_of("connection"@),
        "close"@,
    )
}

/// The response once its head has been sent.
pub open spec fn after_head(r: ResponseView) -> ResponseView {
    if r.head_sent {
        r
    } else {
        ResponseView { headers: outgoing_headers(r), head_sent: true, ..r }
    }
}

/// What sending the head writes: the completed head the first time,
/// nothing after that.
pub open spec fn head_bytes(r: ResponseView) -> Seq<u8> {
    if r.head_sent {
        Seq::empty()
    } else {
        encode_utf8(head_text(after_head(r)))
    }
}

/// The response once the whole message has been sent.
pub open spec fn after_send(r: ResponseView) -> ResponseView {
    ResponseView { finished: true, ..after_head(r) }
}

/// What sending the whole message writes: the head if it is not out yet,
/// then the body unless the message was already complete.
pub open spec fn send_bytes(r: ResponseView) -> Seq<u8> {
    head_bytes(r) + if r.finished {
        Seq::empty()
    } else {
        r.body
    }
}

/// Sending the head twice writes what sending it once writes, and leaves
/// the response as the first call left it.
pub proof fn lemma_send_head_idempotent(r: ResponseView)
    ensures
        after_head(after_head(r)) == after_head(r),
        head_bytes(r) + head_bytes(after_head(r)) == head_bytes(r),
{
    assert(head_bytes(r) + Seq::<u8>::empty() =~= head_bytes(r));
}

/// Sending the whole message twice writes what sending it once writes: the
/// head and the body go out once, the head first.
pub proof fn lemma_send_idempotent(r: ResponseView)
    ensures
        after_send(after_send(r)) == after_send(r),
        send_bytes(r) + send_bytes(after_send(r)) == send_bytes(r),
        send_bytes(r) == head_bytes(r) + (if r.finished {
            Seq::<u8>::empty()
        } else {
            r.body
        }),
{
    assert(send_bytes(r) + Seq::<u8>::empty() =~= send_bytes(r));
    assert(send_bytes(after_send(r)) =~= Seq::<u8>::empty());
}

/// Sending the head twice and then the whole message writes what sending
/// the whole message once writes; for a response with nothing sent yet,
/// that is the completed head once, followed by the body once.
pub proof fn lemma_head_twice_then_send(r: ResponseView)
    requires
        r.finished ==> r.head_sent,
    ensures
        head_bytes(r) + head_bytes(after_head(r)) + send_bytes(after_head(after_head(r)))
            == send_bytes(r),
        !r.head_sent ==> send_bytes(r) == encode_utf8(head_text(after_head(r))) + r.body,
{
    lemma_send_head_idempotent(r);
    assert(head_bytes(after_head(r)) =~= Seq::<u8>::empty());
    assert(head_bytes(r) + head_bytes(after_head(r)) =~= head_bytes(r));
    assert(send_bytes(after_head(r)) =~= (if r.finished {
        Seq::<u8>::empty()
    } else {
        r.body
    }));
    assert(head_bytes(r) + send_bytes(after_head(r)) =~= send_bytes(r));
}

/// An HTTP response message.
pub struct Response {
    status_code: u16,
    status_message: String,
    date: String,
    headers: Headers,
    body: Vec<u8>,
    phase: Phase,
}

/// How far a response has been written.
#[derive(Clone, Copy, Debug, PartialEq, Eq, Structural)]
enum Phase {
    /// Nothing written.
    Open,
    /// The head is written, the message is not complete.
    HeadSent,
    /// The message is complete.
    Finished,
}

impl View for Response {
    type V = ResponseView;

    closed spec fn view(&self) -> ResponseView {
        ResponseView {
            status_code: self.status_code,
            status_message: self.status_message@,
            date: self.date@,
            headers: self.headers@,
            body: self.body@,
            head_sent: self.phase != Phase::Open,
            finished: self.phase == Phase::Finished,
        }
    }
}

/// A response whose message is complete has had its head written.
pub proof fn lemma_finished_after_head(r: &Response)
    ensures
        r@.finished ==> r@.head_sent,
{
}

impl Response {
    /// A fresh response dated `date`: status 200 `Ok`, no header fields, an
    /// empty body, nothing sent.
    pub fn with_date(date: String) -> (r: Response)
        ensures
            r@ == (ResponseView {
                status_code: 200,
                status_message: "Ok"@,
                date: date@,
                headers: Seq::empty(),
                body: Seq::empty(),
                head_sent: false,
                finished: false,
            }),
    {
        Response {
            status_code: 200,
            status_message: String::from_str("Ok"),
            date,
            headers: Headers::new(),
            body: Vec::new(),
            phase: Phase::Open,
        }
    }

    /// A fresh response dated now: status 200 `Ok`, no header fields, an
    /// empty body, nothing sent.
    pub fn new() -> (r: Response)
        ensures
            r@.status_code == 200,
            r@.status_message == "Ok"@,
            r@.headers == Seq::<(Seq<char>, Seq<char>)>::empty(),
            r@.body == Seq::<u8>::empty(),
            !r@.head_sent,
            !r@.finished,
            clock_date(r@.date),
    {
        Response::with_date(current_date())
    }

    pub fn status_code(&self) -> (r: u16)
        ensures
            r == self@.status_code,
    {
        self.status_code
    }

    pub fn status_message(&self) -> (r: &String)
        ensures
            r@ == self@.status_message,
    {
        &self.status_message
    }

    pub fn date(&self) -> (r: &String)
        ensures
            r@ == self@.date,
    {
        &self.date
    }

    pub fn headers(&self) -> (r: &Headers)
        ensures
            r@ == self@.headers,
    {
        &self.headers
    }

    pub fn body(&self) -> (r: &Vec<u8>)
        ensures
            r@ == self@.body,
    {
        &self.body
    }

    pub fn head_sent(&self) -> (r: bool)
        ensures
            r == self@.head_sent,
    {
        self.phase != Phase::Open
    }

    pub fn is_finished(&self) -> (r: bool)
        ensures
            r == self@.finished,
    {
        self.phase == Phase::Finished
    }

    /// Sets the status code and reason phrase; no effect once the head is
    /// sent.
    pub fn set_status(&mut self, code: u16, message: &str)
        ensures
            final(self)@ == with_status(old(self)@, code, message@),
    {
        if self.phase == Phase::Open {
            self.status_code = code;
            self.status_message = String::from_str(message);
        }
    }

    /// The value of the header field `name`, compared without regard to
    /// case.
    pub fn get_header(&self, name: &str) -> (r: Option<&String>)
        ensures
            match r {
                Some(v) => lookup(self@.headers, lower_of(name@)) == Some(v@),
                None => lookup(self@.headers, lower_of(name@)) is None,
            },
    {
        self.headers.get(name)
    }

    /// Sets the header field `name`; no effect once the head is sent.
    pub fn set_header(&mut self, name: &str, value: &str)
        ensures
            final(self)@ == with_header(old(self)@, name@, value@),
    {
        if self.phase == Phase::Open {
            self.headers.set(name, value);
        }
    }

    /// Appends `chunk` to the body.
    pub fn write(&mut self, chunk: &[u8])
        ensures
            final(self)@ == (ResponseView { body: old(self)@.body + chunk@, ..old(self)@ }),
    {
        let mut bytes = vstd::slice::slice_to_vec(chunk);
        self.body.append(&mut bytes);
    }

    /// Replaces the body.
    pub fn set_body(&mut self, body: Vec<u8>)
        ensures
            final(self)@ == (ResponseView { body: body@, ..old(self)@ }),
    {
        self.body = body;
    }

    /// Dates the response now; no effect once the head is sent.
    pub fn end(&mut self)
        ensures
            old(self)@.head_sent ==> final(self)@ == old(self)@,
            !old(self)@.head_sent ==> final(self)@ == (ResponseView {
                date: final(self)@.date,
                ..old(self)@
            }) && clock_date(final(self)@.date),
    {
        if self.phase == Phase::Open {
            self.date = current_date();
        }
    }

    /// The wire form of the head as the response stands: status line,
    /// header lines in ascending order of name, and a blank line.
    pub fn to_string(&self) -> (r: String)
        ensures
            r@ == head_text(self@),
    {
        proof {
            reveal_strlit(" ");
            reveal_strlit("\n");
        }
        let mut s = String::new();
        s.append("HTTP/1.1");
        s.append(" ");
        let code = decimal_text(self.status_code as usize);
        s.append(code.as_str());
        s.append(" ");
        s.append(self.status_message.as_str());
        s.append("\n");
        append_header_lines(&mut s, &self.headers);
        s.append("\n");
        proof {
            assert(s@ =~= head_text(self@));
        }
        s
    }

    /// Writes the status line and header fields to `out`, once: the first
    /// call completes the header fields (`content-length` from the body
    /// unless set, `server`, `date`, `connection: close`) and writes them;
    /// later calls write nothing.
    pub fn send_head(&mut self, out: &mut Vec<u8>)
        ensures
            final(self)@ == after_head(old(self)@),
            final(out)@ == old(out)@ + head_bytes(old(self)@),
    {
        if self.phase != Phase::Open {
            proof {
                assert(old(out)@ + Seq::<u8>::empty() =~= old(out)@);
            }
            return;
        }
        if !self.headers.contains_key("content-length") {
            let len = decimal_text(self.body.len());
            self.headers.set("content-length", len.as_str());
        }
        self.headers.set("server", "SimpletonHTTP/0.0.0");
        self.headers.set("date", self.date.as_str());
        self.headers.set("connection", "close");
        self.phase = Phase::HeadSent;
        let text = self.to_string();
        let mut bytes = text.as_str().as_bytes_vec();
        out.append(&mut bytes);
        proof {
            assert(self@ == after_head(old(self)@));
        }
    }

    /// Writes the whole message to `out`: the head if it is not out yet,
    /// then the body, once.
    pub fn send(&mut self, out: &mut Vec<u8>)
        ensures
            final(self)@ == after_send(old(self)@),
            final(out)@ == old(out)@ + send_bytes(old(self)@),
    {
        self.send_head(out);
        if self.phase != Phase::Finished {
            let mut bytes = self.body.clone();
            out.append(&mut bytes);
            self.phase = Phase::Finished;
        } else {
            proof {
                assert(out@ + Seq::<u8>::empty() =~= out@);
            }
        }
        proof {
            assert(self@ == after_send(old(self)@));
            assert(out@ =~= old(out)@ + send_bytes(old(self)@));
        }
    }

    /// Writes the head to `out` and completes the message without its
    /// body, as a reply to `HEAD` does.
    pub fn send_head_only(&mut self, out: &mut Vec<u8>)
        ensures
            final(self)@ == after_send(old(self)@),
            final(out)@ == old(out)@ + head_bytes(old(self)@),
    {
        self.send_head(out);
        self.phase = Phase::Finished;
        proof {
            assert(self@ == after_send(old(self)@));
        }
    }
}

} // verus!
