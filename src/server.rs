//! The server: its read-only configuration, the ordered chain of handlers,
//! and the exchange that answers the one request of a connection.

use vstd::prelude::*;

use crate::headers::HeaderSeq;
use crate::text::same_text;

verus! {

/// The value of the last pair named `name`, if any.
pub open spec fn lookup_last(e: HeaderSeq, name: Seq<char>) -> Option<Seq<char>>
    decreases e.len(),
{
    if e.len() == 0 {
        None
    } else if e.last().0 == name {
        Some(e.last().1)
    } else {
        lookup_last(e.drop_last(), name)
    }
}

/// A handler of the chain.
#[derive(Clone, Copy, Debug, PartialEq, Eq, Structural)]
pub enum Handler {
    /// Method gate, `TRACE` echo, and files under the root path.
    ServeStatic,
    /// One access-log line per request.
    PrintLog,
    /// A handler of the caller's own, known by its number: the exchange asks
    /// the caller to run it.
    Custom(u32),
}

/// The configuration of a server.
pub struct ServerView {
    pub name: Seq<char>,
    pub handlers: Seq<Handler>,
    pub root_path: Seq<char>,
    pub allow_trace: bool,
    pub directory_indexes: Seq<Seq<char>>,
    pub content_types: HeaderSeq,
}

/// An HTTP server's configuration: set up before it listens, read-only
/// after.
pub struct Server {
    pub name: String,
    /// The handlers, run in this order on each request.
    pub handlers: Vec<Handler>,
    /// The directory that request paths are resolved under.
    pub root_path: String,
    /// Whether `TRACE` is answered.
    pub allow_trace: bool,
    /// The file names tried, in order, in a requested directory.
    pub directory_indexes: Vec<String>,
    /// Pairs of a file extension and its media type; the last pair of an
    /// extension counts.
    pub content_types: Vec<(String, String)>,
}

impl View for Server {
    type V = ServerView;

    open spec fn view(&self) -> ServerView {
        ServerView {
            name: self.name@,
            handlers: self.handlers@,
            root_path: self.root_path@,
            allow_trace: self.allow_trace,
            directory_indexes: self.directory_indexes@.map_values(|s: String| s@),
            content_types: self.content_types@.map_values(|p: (String, String)| (p.0@, p.1@)),
        }
    }
}

impl Server {
    /// The default configuration: root `.`, no `TRACE`, index files
    /// `index.htm` then `index.html`, media types for `html` and `txt`, and
    /// no handlers.
    pub fn new() -> (r: Server)
        ensures
            r@ == (ServerView {
                name: "Simpleton HTTP Server"@,
                handlers: Seq::empty(),
                root_path: "."@,
                allow_trace: false,
                directory_indexes: seq!["index.htm"@, "index.html"@],
                content_types: seq![("html"@, "text/html"@), ("txt"@, "text/plain"@)],
            }),
    {
        let indexes = vec![String::from_str("index.htm"), String::from_str("index.html")];
        let types = vec![
            (String::from_str("html"), String::from_str("text/html")),
            (String::from_str("txt"), String::from_str("text/plain")),
        ];
        let r = Server {
            name: String::from_str("Simpleton HTTP Server"),
            handlers: Vec::new(),
            root_path: String::from_str("."),
            allow_trace: false,
            directory_indexes: indexes,
            content_types: types,
        };
        proof {
            assert(r@.directory_indexes =~= seq!["index.htm"@, "index.html"@]);
            assert(r@.content_types =~= seq![("html"@, "text/html"@), ("txt"@, "text/plain"@)]);
            assert(r@.handlers =~= Seq::<Handler>::empty());
        }
        r
    }

    /// Appends `handler` to the chain.
    pub fn add_handler(&mut self, handler: Handler)
        ensures
            final(self)@ == (ServerView { handlers: old(self)@.handlers.push(handler), ..old(self)@ }),
    {
        self.handlers.push(handler);
    }

    /// The media type configured for the extension `ext`: the last pair of
    /// that extension, as a later insertion replaces an earlier one.
    pub fn content_type(&self, ext: &str) -> (r: Option<&String>)
        ensures
            match r {
                Some(t) => lookup_last(self@.content_types, ext@) == Some(t@),
                None => lookup_last(self@.content_types, ext@) is None,
            },
    {
        let ghost e = self@.content_types;
        let mut i: usize = self.content_types.len();
        proof {
            assert(e.subrange(0, i as int) =~= e);
        }
        while i > 0
            invariant
                e == self@.content_types,
                i <= self.content_types.len(),
                lookup_last(e, ext@) == lookup_last(e.subrange(0, i as int), ext@),
            decreases i,
        {
            proof {
                let k = (i - 1) as int;
                assert(e[k] == (self.content_types@[k].0@, self.content_types@[k].1@));
                assert(e.subrange(0, i as int).drop_last() =~= e.subrange(0, k));
            }
            if same_text(self.content_types[i - 1].0.as_str(), ext) {
                return Some(&self.content_types[i - 1].1);
            }
            i = i - 1;
        }
        None
    }
}

} // verus!
