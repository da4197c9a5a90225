//! Local file paths built from request URIs: joining a name onto a
//! directory, and the extension of the final component.

use vstd::prelude::*;

use crate::text::{chars_of, find, find_in, lemma_find, slice_text};

verus! {

/// `name` appended to `dir` with one separator; an absolute `name` stands
/// alone.
pub open spec fn join(dir: Seq<char>, name: Seq<char>) -> Seq<char> {
    if name.len() > 0 && name[0] == '/' {
        name
    } else if dir.len() > 0 && dir.last() == '/' {
        dir + name
    } else {
        dir + seq!['/'] + name
    }
}

/// `name` appended to `dir` with one separator; an absolute `name` stands
/// alone.
pub fn join_path(dir: &str, name: &str) -> (r: String)
    ensures
        r@ == join(dir@, name@),
{
    let d = chars_of(dir);
    let n = chars_of(name);
    if n.len() > 0 && n[0] == '/' {
        return String::from_str(name);
    }
    let mut out = String::from_str(dir);
    if !(d.len() > 0 && d[d.len() - 1] == '/') {
        proof {
            reveal_strlit("/");
        }
        out.append("/");
    }
    out.append(name);
    out
}

/// `a` where it is not empty, else `b`.
pub open spec fn pick(a: Seq<char>, b: Seq<char>) -> Seq<char> {
    if a.len() > 0 {
        a
    } else {
        b
    }
}

/// A component that names something: neither empty nor `.`.
pub open spec fn names_entry(seg: Seq<char>) -> bool {
    seg.len() > 0 && seg != seq!['.']
}

/// The last `/`-separated component of `p` that is neither empty nor `.`;
/// empty where there is none.
pub open spec fn last_part(p: Seq<char>) -> Seq<char>
    decreases p.len(),
{
    let k = find(p, '/');
    let seg = if k < p.len() {
        p.subrange(0, k as int)
    } else {
        p
    };
    let tail = if k < p.len() {
        last_part(p.subrange(k as int + 1, p.len() as int))
    } else {
        Seq::empty()
    };
    pick(
        tail,
        if names_entry(seg) {
            seg
        } else {
            Seq::empty()
        },
    )
}

/// The final component of a path, as `Path::file_name` gives it: none for
/// a path that ends in `..` or has no named component.
pub open spec fn file_name(p: Seq<char>) -> Option<Seq<char>> {
    let l = last_part(p);
    if l.len() == 0 || l == seq!['.', '.'] {
        None
    } else {
        Some(l)
    }
}

/// The position of the last `c` in `s`, or -1 where it holds none.
pub open spec fn find_last(s: Seq<char>, c: char) -> int
    decreases s.len(),
{
    if s.len() == 0 {
        -1
    } else if s.last() == c {
        s.len() - 1
    } else {
        find_last(s.drop_last(), c)
    }
}

/// The extension of a path, as `Path::extension` gives it: what follows the
/// last `.` of the file name, unless the name has no `.` or only a leading
/// one.
pub open spec fn extension_of(p: Seq<char>) -> Option<Seq<char>> {
    match file_name(p) {
        None => None,
        Some(n) => {
            let d = find_last(n, '.');
            if d <= 0 {
                None
            } else {
                Some(n.subrange(d + 1, n.len() as int))
            }
        },
    }
}

/// The extension of the file name of `path`.
pub fn extension(path: &str) -> (r: Option<String>)
    ensures
        match r {
            Some(e) => extension_of(path@) == Some(e@),
            None => extension_of(path@) is None,
        },
{
    let cs = chars_of(path);
    let n = cs.len();
    let ghost p = path@;
    let mut pos: usize = 0;
    let mut best_from: usize = 0;
    let mut best_to: usize = 0;
    proof {
        assert(p.subrange(0, n as int) =~= p);
    }
    loop
        invariant_except_break
            cs@ == p,
            n == p.len(),
            pos <= n,
            best_from <= best_to <= n,
            last_part(p) == pick(
                last_part(p.subrange(pos as int, n as int)),
                p.subrange(best_from as int, best_to as int),
            ),
        ensures
            best_from <= best_to <= n,
            last_part(p) == p.subrange(best_from as int, best_to as int),
        decreases n - pos,
    {
        let k = find_in(&cs, pos, n, '/');
        let ghost rest = p.subrange(pos as int, n as int);
        let ghost seg = p.subrange(pos as int, k as int);
        proof {
            lemma_find(rest, '/');
            assert(rest.subrange(0, k - pos) =~= seg);
        }
        let named = k > pos && !(k - pos == 1 && cs[pos] == '.');
        proof {
            if k - pos == 1 {
                if cs[pos as int] == '.' {
                    assert(seg =~= seq!['.']);
                } else {
                    assert(seg[0] != seq!['.'][0]);
                }
            }
        }
        let ghost old_best = p.subrange(best_from as int, best_to as int);
        if named {
            best_from = pos;
            best_to = k;
        }
        if k < n {
            proof {
                assert(rest.subrange(k - pos + 1, rest.len() as int) =~= p.subrange(
                    k + 1,
                    n as int,
                ));
            }
            pos = k + 1;
        } else {
            proof {
                assert(rest =~= seg);
            }
            break;
        }
    }
    let ghost name = p.subrange(best_from as int, best_to as int);
    if best_to == best_from || (best_to - best_from == 2 && cs[best_from] == '.' && cs[best_from
        + 1] == '.') {
        proof {
            if best_to - best_from == 2 && cs[best_from as int] == '.' && cs[best_from + 1]
                == '.' {
                assert(name =~= seq!['.', '.']);
            }
        }
        return None;
    }
    proof {
        if best_to - best_from == 2 {
            assert(name[0] != '.' || name[1] != '.');
            assert(name != seq!['.', '.']);
        }
    }
    let mut d: usize = best_to;
    while d > best_from && cs[d - 1] != '.'
        invariant
            cs@ == p,
            n == p.len(),
            best_from <= d <= best_to <= n,
            name == p.subrange(best_from as int, best_to as int),
            find_last(name, '.') == find_last(
                p.subrange(best_from as int, d as int),
                '.',
            ),
        decreases d,
    {
        proof {
            assert(p.subrange(best_from as int, d as int).drop_last() =~= p.subrange(
                best_from as int,
                d - 1,
            ));
        }
        d = d - 1;
    }
    if d <= best_from + 1 {
        None
    } else {
        proof {
            assert(find_last(name, '.') == d - 1 - best_from);
            assert(name.subrange(d - best_from, name.len() as int) =~= p.subrange(
                d as int,
                best_to as int,
            ));
        }
        Some(slice_text(path, d, best_to))
    }
}

} // verus!
