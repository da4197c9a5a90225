use simpleton::exchange::{Action, Event, Exchange, Stage};
use simpleton::request::Request;
use simpleton::response::Response;
use simpleton::server::{Handler, Server};

/// A stand-in file system: directories and files by path.
struct Disk {
    dirs: Vec<&'static str>,
    files: Vec<(&'static str, &'static [u8])>,
}

impl Disk {
    fn answer(&self, action: &Action) -> Event {
        match action {
            Action::CheckDirectory(p) => Event::Answer(self.dirs.contains(&p.as_str())),
            Action::CheckFile(p) => Event::Answer(self.files.iter().any(|(f, _)| f == p)),
            Action::ReadFile(p) => Event::Contents(
                self.files.iter().find(|(f, _)| f == p).map(|(_, c)| c.to_vec()),
            ),
            Action::Log(_) | Action::Run(_) | Action::Close => Event::Proceed,
        }
    }
}

/// Runs an exchange to its end; returns the wire bytes, the actions asked
/// for, and the exchange.
fn run(server: &Server, mut ex: Exchange, disk: &Disk) -> (Vec<u8>, Vec<String>, Exchange) {
    let mut wire = Vec::new();
    let mut asked = Vec::new();
    let mut event = Event::Proceed;
    for _ in 0..64 {
        let action = ex.step(server, event);
        wire.extend(ex.take_output());
        let label = match &action {
            Action::CheckDirectory(p) => format!("dir {}", p),
            Action::CheckFile(p) => format!("file {}", p),
            Action::ReadFile(p) => format!("read {}", p),
            Action::Log(l) => format!("log {}", l),
            Action::Run(id) => format!("run {}", id),
            Action::Close => "close".to_string(),
        };
        asked.push(label);
        if let Action::Close = action {
            return (wire, asked, ex);
        }
        event = disk.answer(&action);
    }
    panic!("the exchange did not end");
}

fn static_server() -> Server {
    let mut server = Server::new();
    server.add_handler(Handler::ServeStatic);
    server
}

fn site() -> Disk {
    Disk {
        dirs: vec!["./", "./dir", "./empty"],
        files: vec![("./index.html", b"hi"), ("./dir/index.html", b"<p>dir</p>"), ("./notes.txt", b"n")],
    }
}

fn exchange(message: &str) -> Exchange {
    let request = Request::from_str(message).unwrap();
    Exchange::start(request, Response::with_date("Thu, 01 Jan 70 00:00:00 UTC".to_string()), "127.0.0.1".to_string())
}

fn split(wire: &[u8]) -> (String, Vec<u8>) {
    let text = String::from_utf8_lossy(wire).to_string();
    let end = text.find("\n\n").expect("a blank line ends the head") + 2;
    (text[..end].to_string(), wire[end..].to_vec())
}

#[test]
fn get_existing_file() {
    let server = static_server();
    let (wire, asked, ex) = run(&server, exchange("GET /index.html HTTP/1.1\r\nHost: x\r\n\r\n"), &site());
    let (head, body) = split(&wire);
    assert!(head.starts_with("HTTP/1.1 200 Ok\n"), "{}", head);
    assert!(head.contains("content-length: 2\n"));
    assert!(head.contains("content-type: text/html\n"));
    assert!(head.contains("connection: close\n"));
    assert!(head.contains("server: SimpletonHTTP/0.0.0\n"));
    assert!(head.contains("date: Thu, 01 Jan 70 00:00:00 UTC\n"));
    assert_eq!(body, b"hi".to_vec());
    assert_eq!(asked, vec!["dir ./index.html", "read ./index.html", "close"]);
    assert_eq!(ex.stage(), Stage::Done);
    assert_eq!(ex.response().status_code(), 200);
}

#[test]
fn get_missing_file_is_not_found() {
    let server = static_server();
    let (wire, _, ex) = run(&server, exchange("GET /missing HTTP/1.1\r\n\r\n"), &site());
    let (head, body) = split(&wire);
    assert!(head.starts_with("HTTP/1.1 404 Not Found\n"), "{}", head);
    assert!(head.contains("content-length: 0\n"));
    assert!(body.is_empty());
    assert_eq!(ex.response().status_code(), 404);
}

#[test]
fn unsupported_method_is_not_implemented() {
    let server = static_server();
    let (wire, asked, _) = run(&server, exchange("POST / HTTP/1.1\r\n\r\n"), &site());
    let (head, _) = split(&wire);
    assert!(head.starts_with("HTTP/1.1 501 Not Implemented\n"), "{}", head);
    assert_eq!(asked, vec!["close"]);
}

#[test]
fn directory_without_trailing_slash_is_redirected() {
    let server = static_server();
    let (wire, asked, _) = run(&server, exchange("GET /dir HTTP/1.1\r\n\r\n"), &site());
    let (head, _) = split(&wire);
    assert!(head.starts_with("HTTP/1.1 301 Moved Permanently\n"), "{}", head);
    assert!(head.contains("location: /dir/\n"));
    assert_eq!(asked, vec!["dir ./dir", "close"]);
}

#[test]
fn head_sends_headers_without_body() {
    let server = static_server();
    let (wire, _, ex) = run(&server, exchange("HEAD /index.html HTTP/1.1\r\n\r\n"), &site());
    let (head, body) = split(&wire);
    assert!(head.starts_with("HTTP/1.1 200 Ok\n"), "{}", head);
    assert!(head.contains("content-length: 2\n"));
    assert!(head.contains("content-type: text/html\n"));
    assert!(body.is_empty());
    assert!(ex.response().is_finished());
}

#[test]
fn directory_index_files_are_tried_in_order() {
    let server = static_server();
    let (wire, asked, _) = run(&server, exchange("GET /dir/ HTTP/1.1\r\n\r\n"), &site());
    let (head, body) = split(&wire);
    assert!(head.starts_with("HTTP/1.1 200 Ok\n"));
    assert_eq!(body, b"<p>dir</p>".to_vec());
    assert_eq!(
        asked,
        vec!["dir ./dir", "file ./dir/index.htm", "file ./dir/index.html", "read ./dir/index.html", "close"]
    );
}

#[test]
fn root_serves_its_index_file() {
    let server = static_server();
    let (wire, asked, _) = run(&server, exchange("GET / HTTP/1.1\r\n\r\n"), &site());
    let (_, body) = split(&wire);
    assert_eq!(body, b"hi".to_vec());
    assert_eq!(asked, vec!["dir ./", "file ./index.htm", "file ./index.html", "read ./index.html", "close"]);
}

#[test]
fn directory_without_index_file_is_not_found() {
    let server = static_server();
    let (wire, asked, _) = run(&server, exchange("GET /empty/ HTTP/1.1\r\n\r\n"), &site());
    let (head, _) = split(&wire);
    assert!(head.starts_with("HTTP/1.1 404 Not Found\n"));
    assert_eq!(asked, vec!["dir ./empty", "file ./empty/index.htm", "file ./empty/index.html", "read ./empty", "close"]);
}

#[test]
fn traversal_stays_under_the_root() {
    let server = static_server();
    let (_, asked, _) = run(&server, exchange("GET /../../notes.txt HTTP/1.1\r\n\r\n"), &site());
    assert_eq!(asked[0], "dir ./notes.txt");
    assert_eq!(asked[1], "read ./notes.txt");
}

#[test]
fn text_files_get_their_media_type() {
    let server = static_server();
    let (wire, _, _) = run(&server, exchange("GET /notes.txt HTTP/1.1\r\n\r\n"), &site());
    let (head, _) = split(&wire);
    assert!(head.contains("content-type: text/plain\n"));
}

#[test]
fn trace_is_refused_unless_allowed() {
    let server = static_server();
    let (wire, _, _) = run(&server, exchange("TRACE / HTTP/1.1\r\nHost: x\r\n\r\n"), &site());
    assert!(split(&wire).0.starts_with("HTTP/1.1 501 Not Implemented\n"));
}

#[test]
fn trace_echoes_the_request_when_allowed() {
    let mut server = static_server();
    server.allow_trace = true;
    let (wire, asked, _) = run(&server, exchange("TRACE /a HTTP/1.1\r\nHost: x\r\n\r\n"), &site());
    let (head, body) = split(&wire);
    assert!(head.starts_with("HTTP/1.1 200 Ok\n"));
    assert!(head.contains("content-type: message/http\n"));
    assert_eq!(String::from_utf8(body).unwrap(), "TRACE /a HTTP/1.1\nhost: x\n\n");
    assert_eq!(asked, vec!["close"]);
}

#[test]
fn log_handler_runs_after_the_response_is_sent() {
    let mut server = static_server();
    server.add_handler(Handler::PrintLog);
    let (wire, asked, _) = run(&server, exchange("GET /index.html HTTP/1.1\r\n\r\n"), &site());
    assert_eq!(split(&wire).1, b"hi".to_vec());
    assert_eq!(
        asked,
        vec![
            "dir ./index.html",
            "read ./index.html",
            "log 127.0.0.1 - - [Thu, 01 Jan 70 00:00:00 UTC] \"GET /index.html HTTP/1.1\" 200 -",
            "close",
        ]
    );
}

#[test]
fn chain_without_static_handler_sends_the_default_response() {
    let mut server = Server::new();
    server.add_handler(Handler::PrintLog);
    let (wire, asked, _) = run(&server, exchange("GET / HTTP/1.1\r\n\r\n"), &site());
    let (head, body) = split(&wire);
    assert!(head.starts_with("HTTP/1.1 200 Ok\n"));
    assert!(head.contains("content-length: 0\n"));
    assert!(body.is_empty());
    assert_eq!(asked.len(), 2);
    assert!(asked[0].ends_with("\"GET / HTTP/1.1\" 200 -"));
}

#[test]
fn malformed_request_line_opens_no_exchange() {
    assert!(Exchange::open("GET /\r\n", "::1").is_none());
    assert!(Exchange::open("", "::1").is_none());
    let ex = Exchange::open("GET / HTTP/1.1\r\nHost: x", "::1").unwrap();
    assert_eq!(ex.request().uri, "/");
    assert_eq!(ex.stage(), Stage::Ready);
}

#[test]
fn done_exchange_only_closes() {
    let server = static_server();
    let (_, _, mut ex) = run(&server, exchange("POST / HTTP/1.1\r\n\r\n"), &site());
    assert!(matches!(ex.step(&server, Event::Proceed), Action::Close));
    assert!(ex.take_output().is_empty());
}

#[test]
fn custom_handler_changes_the_response_and_the_chain_goes_on() {
    let mut server = Server::new();
    server.add_handler(Handler::Custom(7));
    server.add_handler(Handler::ServeStatic);
    let mut ex = exchange("GET /index.html HTTP/1.1\r\n\r\n");
    let action = ex.step(&server, Event::Proceed);
    assert!(matches!(action, Action::Run(7)));
    ex.response_mut().set_header("X-Handled-By", "seven");
    let action = ex.step(&server, Event::Proceed);
    assert!(matches!(action, Action::CheckDirectory(ref p) if p == "./index.html"));
    let (wire, _, _) = run(&server, ex, &site());
    let (head, body) = split(&wire);
    assert!(head.contains("x-handled-by: seven\n"));
    assert_eq!(body, b"hi".to_vec());
}

#[test]
fn custom_handler_can_stop_the_chain() {
    let mut server = Server::new();
    server.add_handler(Handler::Custom(0));
    server.add_handler(Handler::ServeStatic);
    let mut ex = exchange("DELETE /x HTTP/1.1\r\n\r\n");
    assert!(matches!(ex.step(&server, Event::Proceed), Action::Run(0)));
    ex.response_mut().set_status(204, "No Content");
    assert!(matches!(ex.step(&server, Event::Stop), Action::Close));
    let (head, body) = split(&ex.take_output());
    assert!(head.starts_with("HTTP/1.1 204 No Content\n"));
    assert!(body.is_empty());
}

#[test]
fn custom_handler_that_sends_is_not_sent_twice() {
    let mut server = Server::new();
    server.add_handler(Handler::Custom(1));
    let mut ex = exchange("GET / HTTP/1.1\r\n\r\n");
    assert!(matches!(ex.step(&server, Event::Proceed), Action::Run(1)));
    ex.response_mut().write(b"direct");
    ex.send_response();
    let once = ex.take_output();
    assert!(matches!(ex.step(&server, Event::Proceed), Action::Close));
    assert!(ex.take_output().is_empty());
    assert_eq!(split(&once).1, b"direct".to_vec());
}
