//! HTTP request messages: the request line and header fields, parsed from
//! the raw head of a message or built by a client, and the canonical form
//! of the request URI.

use vstd::prelude::*;

use crate::headers::{store, HeaderSeq, Headers};
use crate::text::{
    after_first_line, chars_of, find, find_in, first_line, is_space, lemma_find, lemma_find_at,
    lemma_words_concat, line_content_end, lower_of, slice_text, split_words, trim, trimmed, words,
};

verus! {

/// One header line of a serialized message: `name: value` and a line feed.
pub open spec fn header_line_text(name: Seq<char>, value: Seq<char>) -> Seq<char> {
    name + seq![':', ' '] + value + seq!['\n']
}

/// The header lines of a serialized message, in the order of `e`.
pub open spec fn header_lines(e: HeaderSeq) -> Seq<char>
    decreases e.len(),
{
    if e.len() == 0 {
        Seq::empty()
    } else {
        header_lines(e.drop_last()) + header_line_text(e.last().0, e.last().1)
    }
}

/// Appends the header lines of `h` to `s`.
pub fn append_header_lines(s: &mut String, h: &Headers)
    ensures
        final(s)@ == old(s)@ + header_lines(h@),
{
    let es = h.entries();
    let ghost e = h@;
    let ghost start = s@;
    proof {
        reveal_strlit(": ");
        reveal_strlit("\n");
        assert(e.take(0) =~= Seq::<(Seq<char>, Seq<char>)>::empty());
        assert(start + header_lines(e.take(0)) =~= start);
    }
    let mut i: usize = 0;
    while i < es.len()
        invariant
            es@.map_values(|p: (String, String)| (p.0@, p.1@)) == e,
            i <= es.len(),
            s@ == start + header_lines(e.take(i as int)),
        decreases es.len() - i,
    {
        proof {
            reveal_strlit(": ");
            reveal_strlit("\n");
            assert(e[i as int] == (es@[i as int].0@, es@[i as int].1@));
        }
        let ghost before = s@;
        s.append(es[i].0.as_str());
        s.append(": ");
        s.append(es[i].1.as_str());
        s.append("\n");
        proof {
            assert(e.take(i + 1).drop_last() =~= e.take(i as int));
            assert(e.take(i + 1).last() == e[i as int]);
            assert(header_lines(e.take(i + 1)) == header_lines(e.take(i as int)) + header_line_text(
                e[i as int].0,
                e[i as int].1,
            ));
            assert(s@ =~= before + header_line_text(e[i as int].0, e[i as int].1));
            assert(s@ =~= start + header_lines(e.take(i + 1)));
        }
        i = i + 1;
    }
    proof {
        assert(e.take(es.len() as int) =~= e);
    }
}

/// The wire form of a request head: the request line, the header lines and
/// a blank line.
pub open spec fn request_text(
    method: Seq<char>,
    uri: Seq<char>,
    version: Seq<char>,
    e: HeaderSeq,
) -> Seq<char> {
    method + seq![' '] + uri + seq![' '] + version + seq!['\n'] + header_lines(e) + seq!['\n']
}

/// A path component that names an entry: not empty, not `.`, not `..`.
pub open spec fn is_normal(seg: Seq<char>) -> bool {
    seg != Seq::<char>::empty() && seg != seq!['.'] && seg != seq!['.', '.']
}

/// The stack of components after one more path component: `..` removes the
/// last one (none at the root), a normal component is added, any other is
/// dropped.
pub open spec fn resolve_step(stack: Seq<Seq<char>>, seg: Seq<char>) -> Seq<Seq<char>> {
    if seg == seq!['.', '.'] {
        if stack.len() > 0 {
            stack.drop_last()
        } else {
            stack
        }
    } else if is_normal(seg) {
        stack.push(seg)
    } else {
        stack
    }
}

/// The stack of components after the `/`-separated components of `s`.
pub open spec fn resolve(stack: Seq<Seq<char>>, s: Seq<char>) -> Seq<Seq<char>>
    decreases s.len(),
{
    let p = find(s, '/');
    if p < s.len() {
        resolve(resolve_step(stack, s.subrange(0, p as int)), s.subrange(p as int + 1, s.len() as int))
    } else {
        resolve_step(stack, s)
    }
}

/// `/` followed by the components joined with `/`.
pub open spec fn rooted(stack: Seq<Seq<char>>) -> Seq<char>
    decreases stack.len(),
{
    if stack.len() == 0 {
        seq!['/']
    } else if stack.len() == 1 {
        seq!['/'] + stack[0]
    } else {
        rooted(stack.drop_last()) + seq!['/'] + stack.last()
    }
}

/// The components that the canonical form of `uri` keeps.
pub open spec fn components(uri: Seq<char>) -> Seq<Seq<char>> {
    resolve(Seq::empty(), uri)
}

/// The canonical form of `uri`, rooted at `/`.
pub open spec fn canonical(uri: Seq<char>) -> Seq<char> {
    rooted(components(uri))
}

/// Resolving keeps a stack of normal, separator-free components so.
proof fn lemma_resolve_normal(stack: Seq<Seq<char>>, s: Seq<char>)
    requires
        forall|i: int|
            0 <= i < stack.len() ==> is_normal(#[trigger] stack[i]) && !stack[i].contains('/'),
    ensures
        forall|i: int|
            0 <= i < resolve(stack, s).len() ==> is_normal(#[trigger] resolve(stack, s)[i])
                && !resolve(stack, s)[i].contains('/'),
    decreases s.len(),
{
    let p = find(s, '/');
    lemma_find(s, '/');
    let seg = if p < s.len() {
        s.subrange(0, p as int)
    } else {
        s
    };
    let next = resolve_step(stack, seg);
    assert forall|i: int| 0 <= i < next.len() implies is_normal(#[trigger] next[i]) && !next[i].contains(
        '/',
    ) by {
        if i < stack.len() {
            assert(next[i] == stack[i]);
        } else {
            assert(next[i] == seg);
            if seg.contains('/') {
                let k = choose|k: int| 0 <= k < seg.len() && seg[k] == '/';
                assert(s[k] == seg[k]);
            }
        }
    }
    if p < s.len() {
        lemma_resolve_normal(next, s.subrange(p as int + 1, s.len() as int));
        assert(resolve(stack, s) == resolve(next, s.subrange(p as int + 1, s.len() as int)));
    } else {
        assert(resolve(stack, s) == next);
    }
}

/// `rooted` always opens with the root.
proof fn lemma_rooted_starts_at_root(stack: Seq<Seq<char>>)
    ensures
        rooted(stack).len() > 0,
        rooted(stack)[0] == '/',
    decreases stack.len(),
{
    if stack.len() > 1 {
        lemma_rooted_starts_at_root(stack.drop_last());
    }
}

/// The canonical form of any URI, `..` components included, names nothing
/// above the root: it is `/` followed by components none of which is empty,
/// `.` or `..`, or holds a `/`.
pub proof fn lemma_canonical_stays_under_root(uri: Seq<char>)
    ensures
        canonical(uri) == rooted(components(uri)),
        canonical(uri)[0] == '/',
        forall|i: int|
            0 <= i < components(uri).len() ==> is_normal(#[trigger] components(uri)[i])
                && !components(uri)[i].contains('/'),
{
    lemma_resolve_normal(Seq::empty(), uri);
    lemma_rooted_starts_at_root(components(uri));
}

/// The request line fields of a raw message: the three words of its first
/// line, if it has a first line and that line has exactly three words.
pub open spec fn request_line(m: Seq<char>) -> Option<(Seq<char>, Seq<char>, Seq<char>)> {
    let w = words(first_line(m));
    if m.len() > 0 && w.len() == 3 {
        Some((w[0], w[1], w[2]))
    } else {
        None
    }
}

/// The effect of one header line: a line with a `:` stores the trimmed text
/// after it under the lower-cased trimmed text before it; any other line
/// has none.
pub open spec fn parse_header_line(l: Seq<char>, e: HeaderSeq) -> HeaderSeq {
    let p = find(l, ':');
    if p < l.len() {
        store(
            e,
            lower_of(trimmed(l.subrange(0, p as int))),
            trimmed(l.subrange(p as int + 1, l.len() as int)),
        )
    } else {
        e
    }
}

/// The header fields read from the lines of `s` up to and including the
/// first blank line.
pub open spec fn parse_header_lines(s: Seq<char>, e: HeaderSeq) -> HeaderSeq
    decreases s.len(),
{
    if s.len() == 0 {
        e
    } else {
        let l = first_line(s);
        let e2 = parse_header_line(l, e);
        if l.len() == 0 {
            e2
        } else {
            parse_header_lines(after_first_line(s), e2)
        }
    }
}

/// A field of a request line: not empty and free of whitespace.
pub open spec fn is_token(t: Seq<char>) -> bool {
    t.len() > 0 && forall|i: int| 0 <= i < t.len() ==> !is_space(#[trigger] t[i])
}

/// Parsing the wire form of a request gives back its method, URI and
/// version, whatever its header fields.
pub proof fn lemma_parse_inverts_to_string(
    method: Seq<char>,
    uri: Seq<char>,
    version: Seq<char>,
    e: HeaderSeq,
)
    requires
        is_token(method),
        is_token(uri),
        is_token(version),
    ensures
        request_line(request_text(method, uri, version, e)) == Some((method, uri, version)),
{
    let l = method + seq![' '] + uri + seq![' '] + version;
    let t = request_text(method, uri, version, e);
    let rest = header_lines(e) + seq!['\n'];
    assert(t =~= l + seq!['\n'] + rest);
    assert forall|i: int| 0 <= i < l.len() implies l[i] != '\n' by {
        if i < method.len() {
            assert(l[i] == method[i]);
        } else if i == method.len() {
        } else if i < method.len() + 1 + uri.len() {
            assert(l[i] == uri[i - method.len() - 1]);
        } else if i == method.len() + 1 + uri.len() {
        } else {
            assert(l[i] == version[i - method.len() - 2 - uri.len()]);
        }
    }
    lemma_find_at(t, '\n', l.len() as int);
    assert(t.subrange(0, l.len() as int) =~= l);
    assert(l.last() == version.last());
    assert(first_line(t) == l);
    let tail1 = seq![' '] + uri + seq![' '] + version;
    let tail2 = seq![' '] + version;
    assert(l =~= method + tail1);
    lemma_words_concat(method, tail1);
    assert(tail1.drop_first() =~= uri + tail2);
    lemma_words_concat(uri, tail2);
    assert(tail2.drop_first() =~= version);
    lemma_words_concat(version, Seq::empty());
    assert(version + Seq::<char>::empty() =~= version);
    assert(words(l) =~= seq![method, uri, version]);
}

/// An HTTP request message.
pub struct Request {
    /// The method token, such as `GET`; case-sensitive.
    pub method: String,
    /// The request URI as received.
    pub uri: String,
    /// The protocol version, `HTTP/<major>.<minor>`.
    pub version: String,
    /// The request header fields.
    pub headers: Headers,
}

impl Request {
    /// The wire form of the request head.
    pub open spec fn text(&self) -> Seq<char> {
        request_text(self.method@, self.uri@, self.version@, self.headers@)
    }

    /// The wire form of the request head: the request line, the header
    /// lines in ascending order of name, and a blank line.
    pub fn to_string(&self) -> (r: String)
        ensures
            r@ == self.text(),
    {
        proof {
            reveal_strlit(" ");
            reveal_strlit("\n");
        }
        let mut s = String::new();
        s.append(self.method.as_str());
        s.append(" ");
        s.append(self.uri.as_str());
        s.append(" ");
        s.append(self.version.as_str());
        s.append("\n");
        append_header_lines(&mut s, &self.headers);
        s.append("\n");
        proof {
            assert(s@ =~= self.text());
        }
        s
    }

    /// A request for `uri` on `host`, with the headers a client sends.
    pub fn new(method: &str, host: &str, uri: &str) -> (r: Request)
        ensures
            r.method@ == method@,
            r.uri@ == uri@,
            r.version@ == "HTTP/1.1"@,
            r.headers@ == store(
                store(
                    store(Seq::empty(), lower_of("host"@), host@),
                    lower_of("user-agent"@),
                    "SimpletonHTTP/0.0.0"@,
                ),
                lower_of("accept"@),
                "*/*"@,
            ),
    {
        let mut headers = Headers::new();
        headers.set("host", host);
        headers.set("user-agent", "SimpletonHTTP/0.0.0");
        headers.set("accept", "*/*");
        Request {
            method: String::from_str(method),
            uri: String::from_str(uri),
            version: String::from_str("HTTP/1.1"),
            headers,
        }
    }

    /// Parses a raw request head: a request line of exactly three
    /// whitespace-separated fields, then header lines up to the first blank
    /// line. A header line without `:` is skipped; what follows the blank
    /// line is not read.
    pub fn from_str(message: &str) -> (r: Result<Request, String>)
        ensures
            match r {
                Ok(req) => request_line(message@) == Some((req.method@, req.uri@, req.version@))
                    && req.headers@ == parse_header_lines(after_first_line(message@), Seq::empty()),
                Err(e) => request_line(message@) is None && e@ == (if message@.len() == 0 {
                    "Could not read request line"@
                } else {
                    "Could not parse request line"@
                }),
            },
    {
        let cs = chars_of(message);
        let n = cs.len();
        let ghost m = message@;
        if n == 0 {
            return Err(String::from_str("Could not read request line"));
        }
        let e = find_in(&cs, 0, n, '\n');
        let end = line_content_end(&cs, 0, e);
        proof {
            assert(m.subrange(0, n as int) =~= m);
            assert(first_line(m) == m.subrange(0, end as int));
        }
        let fields = split_words(message, 0, end);
        if fields.len() != 3 {
            return Err(String::from_str("Could not parse request line"));
        }
        let mut headers = Headers::new();
        let mut pos: usize = if e < n {
            e + 1
        } else {
            n
        };
        proof {
            assert(after_first_line(m) =~= m.subrange(pos as int, n as int));
        }
        let ghost target = parse_header_lines(after_first_line(m), Seq::empty());
        loop
            invariant_except_break
                cs@ == m,
                m == message@,
                n == m.len(),
                pos <= n,
                target == parse_header_lines(m.subrange(pos as int, n as int), headers@),
            ensures
                target == headers@,
            decreases n - pos,
        {
            if pos == n {
                proof {
                    assert(m.subrange(pos as int, n as int).len() == 0);
                }
                break;
            }
            let ghost rest = m.subrange(pos as int, n as int);
            let le = find_in(&cs, pos, n, '\n');
            let lend = line_content_end(&cs, pos, le);
            let ghost line = m.subrange(pos as int, lend as int);
            proof {
                assert(rest.subrange(0, le - pos) =~= m.subrange(pos as int, le as int));
                assert(first_line(rest) =~= line);
            }
            let colon = find_in(&cs, pos, lend, ':');
            let ghost before = headers@;
            if colon < lend {
                let name = trim(message.substring_char(pos, colon));
                let value = trim(message.substring_char(colon + 1, lend));
                proof {
                    assert(line.subrange(0, colon - pos) =~= m.subrange(pos as int, colon as int));
                    assert(line.subrange(colon - pos + 1, line.len() as int) =~= m.subrange(
                        colon + 1,
                        lend as int,
                    ));
                }
                headers.set(name.as_str(), value.as_str());
            }
            proof {
                assert(headers@ == parse_header_line(line, before));
            }
            if lend == pos {
                break;
            }
            pos = if le < n {
                le + 1
            } else {
                n
            };
            proof {
                assert(after_first_line(rest) =~= m.subrange(pos as int, n as int));
            }
        }
        Ok(
            Request {
                method: fields[0].clone(),
                uri: fields[1].clone(),
                version: fields[2].clone(),
                headers,
            },
        )
    }

    /// The request URI with its `.` and `..` components resolved and rooted
    /// at `/`; a `..` at the root is dropped, so the result never climbs
    /// above the root.
    pub fn get_uri(&self) -> (r: String)
        ensures
            r@ == canonical(self.uri@),
    {
        let cs = chars_of(self.uri.as_str());
        let n = cs.len();
        let mut stack: Vec<String> = Vec::new();
        let mut pos: usize = 0;
        let ghost u = self.uri@;
        proof {
            assert(u.subrange(0, n as int) =~= u);
            assert(stack@.map_values(|s: String| s@) =~= Seq::<Seq<char>>::empty());
        }
        loop
            invariant_except_break
                cs@ == u,
                u == self.uri@,
                n == u.len(),
                pos <= n,
                resolve(Seq::empty(), u) == resolve(
                    stack@.map_values(|s: String| s@),
                    u.subrange(pos as int, n as int),
                ),
            ensures
                resolve(Seq::empty(), u) == stack@.map_values(|s: String| s@),
            decreases n - pos,
        {
            let p = find_in(&cs, pos, n, '/');
            let ghost rest = u.subrange(pos as int, n as int);
            let ghost seg = u.subrange(pos as int, p as int);
            let ghost before = stack@.map_values(|s: String| s@);
            proof {
                lemma_find(rest, '/');
                assert(rest.subrange(0, p - pos) =~= seg);
            }
            let len = p - pos;
            if len == 2 && cs[pos] == '.' && cs[pos + 1] == '.' {
                proof {
                    assert(seg =~= seq!['.', '.']);
                }
                stack.pop();
                proof {
                    if before.len() > 0 {
                        assert(stack@.map_values(|s: String| s@) =~= before.drop_last());
                    }
                }
            } else if len > 0 && !(len == 1 && cs[pos] == '.') {
                proof {
                    if len == 1 {
                        assert(seg[0] != seq!['.'][0]);
                    }
                    if len == 2 {
                        assert(seg[0] != '.' || seg[1] != '.');
                        assert(seg != seq!['.', '.']);
                    }
                }
                let part = slice_text(self.uri.as_str(), pos, p);
                stack.push(part);
                proof {
                    assert(stack@.map_values(|s: String| s@) =~= before.push(seg));
                }
            } else {
                proof {
                    if len == 1 {
                        assert(seg =~= seq!['.']);
                    } else {
                        assert(seg =~= Seq::<char>::empty());
                    }
                }
            }
            proof {
                assert(stack@.map_values(|s: String| s@) == resolve_step(before, seg));
            }
            if p < n {
                proof {
                    assert(rest.subrange(p - pos + 1, rest.len() as int) =~= u.subrange(
                        p + 1,
                        n as int,
                    ));
                }
                pos = p + 1;
            } else {
                proof {
                    assert(rest =~= seg);
                }
                break;
            }
        }
        let ghost c = stack@.map_values(|s: String| s@);
        proof {
            reveal_strlit("/");
            assert(c.take(0) =~= Seq::<Seq<char>>::empty());
        }
        let mut out = String::from_str("/");
        let mut i: usize = 0;
        while i < stack.len()
            invariant
                c == stack@.map_values(|s: String| s@),
                i <= stack.len(),
                out@ == rooted(c.take(i as int)),
            decreases stack.len() - i,
        {
            proof {
                reveal_strlit("/");
                assert(c.take(i + 1).drop_last() =~= c.take(i as int));
                assert(c.take(i + 1).last() == stack@[i as int]@);
            }
            let ghost before = out@;
            if i > 0 {
                out.append("/");
            }
            out.append(stack[i].as_str());
            proof {
                if i == 0 {
                    assert(c.take(1)[0] == stack@[0]@);
                    assert(out@ =~= rooted(c.take(1)));
                } else {
                    assert(out@ =~= rooted(c.take(i + 1)));
                }
            }
            i = i + 1;
        }
        proof {
            assert(c.take(stack.len() as int) =~= c);
        }
        out
    }

    /// Writes the request head to `out`, encoded as UTF-8.
    pub fn send(&self, out: &mut Vec<u8>)
        ensures
            final(out)@ == old(out)@ + vstd::utf8::encode_utf8(self.text()),
    {
        let s = self.to_string();
        let mut bytes = s.as_str().as_bytes_vec();
        out.append(&mut bytes);
    }
}

} // verus!
