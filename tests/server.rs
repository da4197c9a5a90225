use simpleton::options::Options;
use simpleton::server::{Handler, Server};

#[test]
fn server_test_new() {
    let server = Server::new();

    assert!(server.handlers.is_empty());
}

#[test]
fn new_server_has_the_default_configuration() {
    let server = Server::new();
    assert_eq!(server.root_path, ".");
    assert!(!server.allow_trace);
    assert_eq!(server.directory_indexes, vec!["index.htm", "index.html"]);
    assert_eq!(server.content_type("html"), Some(&"text/html".to_string()));
    assert_eq!(server.content_type("txt"), Some(&"text/plain".to_string()));
    assert_eq!(server.content_type("png"), None);
}

#[test]
fn handlers_keep_their_order() {
    let mut server = Server::new();
    server.add_handler(Handler::ServeStatic);
    server.add_handler(Handler::PrintLog);
    assert_eq!(server.handlers, vec![Handler::ServeStatic, Handler::PrintLog]);
}

#[test]
fn last_content_type_of_an_extension_counts() {
    let mut server = Server::new();
    server.content_types.push(("html".to_string(), "application/xhtml+xml".to_string()));
    assert_eq!(server.content_type("html"), Some(&"application/xhtml+xml".to_string()));
    assert_eq!(server.content_type("txt"), Some(&"text/plain".to_string()));
}

#[test]
fn options_from_args() {
    let args = vec!["prog".to_string(), "--debug".to_string(), "www".to_string()];
    let options = Options::from_args(args);
    assert!(options.debug);
    assert!(!options.allow_trace);
    assert_eq!(options.root_path, ".");
    assert_eq!(options.name, "Simpleton HTTP Server");
    assert_eq!(options.address, "127.0.0.1");
    assert_eq!(options.port, 3000);
    assert_eq!(options.directory_indexes, vec!["index.htm", "index.html"]);

    let options = Options::from_args(vec!["--allow-trace".to_string()]);
    assert!(options.allow_trace);
    assert!(!options.debug);

    let options = Options::from_args(vec!["--debugging".to_string()]);
    assert!(!options.debug);
}
