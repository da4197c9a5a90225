//! Header fields: a case-insensitive store of one value per name, kept in
//! ascending order of the lower-cased names so that the wire output does
//! not depend on the order of insertion.

use vstd::prelude::*;

use crate::text::{
    lemma_text_lt_irreflexive, lemma_text_lt_total, lemma_text_lt_transitive, lower_of,
    lowercase, same_text, text_less, text_lt,
};

verus! {

/// Header entries as (name, value) pairs.
pub type HeaderSeq = Seq<(Seq<char>, Seq<char>)>;

/// Names strictly ascending, hence each name at most once.
pub open spec fn ascending(e: HeaderSeq) -> bool {
    forall|i: int, j: int| 0 <= i < j < e.len() ==> text_lt(#[trigger] e[i].0, #[trigger] e[j].0)
}

/// The value stored under `name`, if any.
pub open spec fn lookup(e: HeaderSeq, name: Seq<char>) -> Option<Seq<char>>
    decreases e.len(),
{
    if e.len() == 0 {
        None
    } else if e[0].0 == name {
        Some(e[0].1)
    } else {
        lookup(e.drop_first(), name)
    }
}

/// `e` with `value` stored under `name`: the entry of that name is replaced,
/// or a new one is placed where the order asks.
pub open spec fn store(e: HeaderSeq, name: Seq<char>, value: Seq<char>) -> HeaderSeq
    decreases e.len(),
{
    if e.len() == 0 {
        seq![(name, value)]
    } else if e[0].0 == name {
        seq![(name, value)] + e.drop_first()
    } else if text_lt(name, e[0].0) {
        seq![(name, value)] + e
    } else {
        seq![e[0]] + store(e.drop_first(), name, value)
    }
}

/// After a store, the stored name reads back the stored value and every
/// other name reads back what it read before.
pub proof fn lemma_store_lookup(e: HeaderSeq, name: Seq<char>, value: Seq<char>, other: Seq<char>)
    ensures
        lookup(store(e, name, value), name) == Some(value),
        other != name ==> lookup(store(e, name, value), other) == lookup(e, other),
    decreases e.len(),
{
    if e.len() > 0 {
        lemma_store_lookup(e.drop_first(), name, value, other);
        let s = store(e, name, value);
        if e[0].0 == name {
            assert(s.drop_first() =~= e.drop_first());
        } else if text_lt(name, e[0].0) {
            assert(s.drop_first() =~= e);
        } else {
            assert(s.drop_first() =~= store(e.drop_first(), name, value));
        }
    } else {
        let s = store(e, name, value);
        assert(s.drop_first() =~= e);
    }
}

/// Names that differ only in case name the same field: after `set(n1, v)`,
/// `get(n2)` gives `v` whenever `n1` and `n2` lower-case alike.
pub proof fn lemma_set_then_get_ignores_case(
    e: HeaderSeq,
    n1: Seq<char>,
    n2: Seq<char>,
    value: Seq<char>,
)
    requires
        lower_of(n1) == lower_of(n2),
    ensures
        lookup(store(e, lower_of(n1), value), lower_of(n2)) == Some(value),
{
    lemma_store_lookup(e, lower_of(n1), value, lower_of(n2));
}

/// Every name of `store(e, name, value)` is `name` or a name of `e`.
proof fn lemma_store_names(e: HeaderSeq, name: Seq<char>, value: Seq<char>, i: int)
    requires
        0 <= i < store(e, name, value).len(),
    ensures
        store(e, name, value)[i].0 == name || exists|j: int|
            0 <= j < e.len() && e[j].0 == #[trigger] store(e, name, value)[i].0,
    decreases e.len(),
{
    let s = store(e, name, value);
    if e.len() > 0 && e[0].0 != name && !text_lt(name, e[0].0) && i > 0 {
        lemma_store_names(e.drop_first(), name, value, i - 1);
        assert(s[i] == store(e.drop_first(), name, value)[i - 1]);
        if s[i].0 != name {
            let j = choose|j: int|
                0 <= j < e.drop_first().len() && e.drop_first()[j].0 == #[trigger] store(
                    e.drop_first(),
                    name,
                    value,
                )[i - 1].0;
            assert(e[j + 1].0 == s[i].0);
        }
    } else if e.len() > 0 && e[0].0 == name && i > 0 {
        assert(s[i] == e[i]);
    } else if e.len() > 0 && e[0].0 != name && text_lt(name, e[0].0) && i > 0 {
        assert(s[i] == e[i - 1]);
    } else if e.len() > 0 && i == 0 && s[0].0 != name {
        assert(s[0] == e[0]);
    }
}

/// Storing keeps the names strictly ascending.
pub proof fn lemma_store_ascending(e: HeaderSeq, name: Seq<char>, value: Seq<char>)
    requires
        ascending(e),
    ensures
        ascending(store(e, name, value)),
    decreases e.len(),
{
    let s = store(e, name, value);
    if e.len() == 0 {
    } else if e[0].0 == name {
        assert forall|i: int, j: int| 0 <= i < j < s.len() implies text_lt(
            #[trigger] s[i].0,
            #[trigger] s[j].0,
        ) by {
            assert(s[j] == e[j]);
            if i > 0 {
                assert(s[i] == e[i]);
            }
        }
    } else if text_lt(name, e[0].0) {
        assert forall|i: int, j: int| 0 <= i < j < s.len() implies text_lt(
            #[trigger] s[i].0,
            #[trigger] s[j].0,
        ) by {
            assert(s[j] == e[j - 1]);
            if i > 0 {
                assert(s[i] == e[i - 1]);
            } else if j > 1 {
                lemma_text_lt_transitive(name, e[0].0, e[j - 1].0);
            }
        }
    } else {
        let t = e.drop_first();
        assert(ascending(t)) by {
            assert forall|i: int, j: int| 0 <= i < j < t.len() implies text_lt(
                #[trigger] t[i].0,
                #[trigger] t[j].0,
            ) by {
                assert(t[i] == e[i + 1]);
                assert(t[j] == e[j + 1]);
            }
        }
        lemma_store_ascending(t, name, value);
        lemma_text_lt_total(name, e[0].0);
        assert forall|i: int, j: int| 0 <= i < j < s.len() implies text_lt(
            #[trigger] s[i].0,
            #[trigger] s[j].0,
        ) by {
            assert(s[j] == store(t, name, value)[j - 1]);
            if i > 0 {
                assert(s[i] == store(t, name, value)[i - 1]);
            } else {
                assert(s[0] == e[0]);
                lemma_store_names(t, name, value, j - 1);
                if store(t, name, value)[j - 1].0 != name {
                    let k = choose|k: int|
                        0 <= k < t.len() && t[k].0 == #[trigger] store(t, name, value)[j
                            - 1].0;
                    assert(t[k] == e[k + 1]);
                }
            }
        }
    }
}

/// Entries whose names precede `name` stay in front of a store.
proof fn lemma_store_prefix(e: HeaderSeq, name: Seq<char>, value: Seq<char>, i: int)
    requires
        0 <= i <= e.len(),
        forall|j: int| 0 <= j < i ==> text_lt(#[trigger] e[j].0, name),
    ensures
        store(e, name, value) == e.subrange(0, i) + store(e.subrange(i, e.len() as int), name, value),
    decreases i,
{
    if i == 0 {
        assert(e.subrange(0, e.len() as int) =~= e);
        assert(e.subrange(0, 0) + store(e, name, value) =~= store(e, name, value));
    } else {
        let t = e.drop_first();
        assert forall|j: int| 0 <= j < i - 1 implies text_lt(#[trigger] t[j].0, name) by {
            assert(t[j] == e[j + 1]);
        }
        lemma_store_prefix(t, name, value, i - 1);
        assert(text_lt(e[0].0, name));
        lemma_text_lt_irreflexive(name);
        if text_lt(name, e[0].0) {
            lemma_text_lt_transitive(name, e[0].0, name);
        }
        assert(t.subrange(i - 1, t.len() as int) =~= e.subrange(i, e.len() as int));
        assert(seq![e[0]] + t.subrange(0, i - 1) =~= e.subrange(0, i));
        assert(store(e, name, value) =~= e.subrange(0, i) + store(
            e.subrange(i, e.len() as int),
            name,
            value,
        ));
    }
}

/// A set of header fields.
pub struct Headers {
    entries: Vec<(String, String)>,
}

impl View for Headers {
    type V = HeaderSeq;

    /// The entries, in ascending order of name.
    closed spec fn view(&self) -> HeaderSeq {
        self.entries@.map_values(|p: (String, String)| (p.0@, p.1@))
    }
}

impl Headers {
    #[verifier::type_invariant]
    spec fn well_formed(self) -> bool {
        ascending(self@)
    }

    /// An empty set of header fields.
    pub fn new() -> (r: Headers)
        ensures
            r@ == Seq::<(Seq<char>, Seq<char>)>::empty(),
    {
        let r = Headers { entries: Vec::new() };
        proof {
            assert(r@ =~= Seq::<(Seq<char>, Seq<char>)>::empty());
        }
        r
    }

    /// The index of the entry named `key`, if any.
    fn find(&self, key: &String) -> (r: Option<usize>)
        ensures
            match r {
                Some(i) => i < self@.len() && self@[i as int].0 == key@ && lookup(self@, key@)
                    == Some(self@[i as int].1),
                None => lookup(self@, key@) is None,
            },
    {
        let n = self.entries.len();
        let mut i: usize = 0;
        proof {
            assert(self@.subrange(0, n as int) =~= self@);
        }
        while i < n
            invariant
                n == self.entries.len(),
                n == self@.len(),
                i <= n,
                lookup(self@, key@) == lookup(self@.subrange(i as int, n as int), key@),
            decreases n - i,
        {
            let ghost rest = self@.subrange(i as int, n as int);
            if same_text(self.entries[i].0.as_str(), key.as_str()) {
                return Some(i);
            }
            proof {
                assert(rest.drop_first() =~= self@.subrange(i + 1, n as int));
            }
            i = i + 1;
        }
        None
    }

    /// The value stored under `name`, compared without regard to case.
    pub fn get(&self, name: &str) -> (r: Option<&String>)
        ensures
            match r {
                Some(v) => lookup(self@, lower_of(name@)) == Some(v@),
                None => lookup(self@, lower_of(name@)) is None,
            },
    {
        let key = lowercase(name);
        match self.find(&key) {
            Some(i) => Some(&self.entries[i].1),
            None => None,
        }
    }

    /// Whether a value is stored under `name`, compared without regard to
    /// case.
    pub fn contains_key(&self, name: &str) -> (r: bool)
        ensures
            r == lookup(self@, lower_of(name@)) is Some,
    {
        let key = lowercase(name);
        self.find(&key).is_some()
    }

    /// Stores `value` under the lower-cased `name`, replacing what was
    /// stored under it.
    pub fn set(&mut self, name: &str, value: &str)
        ensures
            final(self)@ == store(old(self)@, lower_of(name@), value@),
    {
        proof {
            use_type_invariant(&*self);
        }
        let key = lowercase(name);
        let val = String::from_str(value);
        let ghost e = self@;
        let ghost k = key@;
        let ghost v = val@;
        let n = self.entries.len();
        let mut i: usize = 0;
        while i < n && text_less(self.entries[i].0.as_str(), key.as_str())
            invariant
                e == self@,
                k == key@,
                n == self.entries.len(),
                n == e.len(),
                i <= n,
                forall|j: int| 0 <= j < i ==> text_lt(#[trigger] e[j].0, k),
            decreases n - i,
        {
            proof {
                assert(e[i as int] == (self.entries@[i as int].0@, self.entries@[i as int].1@));
            }
            i = i + 1;
        }
        proof {
            lemma_store_prefix(e, k, v, i as int);
            if i < n {
                assert(e[i as int] == (self.entries@[i as int].0@, self.entries@[i as int].1@));
            }
        }
        proof {
            lemma_store_ascending(e, k, v);
        }
        let mut entries: Vec<(String, String)> = Vec::new();
        std::mem::swap(&mut entries, &mut self.entries);
        if i < n && same_text(entries[i].0.as_str(), key.as_str()) {
            let ghost rest = e.subrange(i as int, n as int);
            proof {
                assert(rest[0] == e[i as int]);
                assert(rest.drop_first() =~= e.subrange(i + 1, n as int));
                assert(store(e, k, v) =~= e.update(i as int, (k, v)));
                assert(entries@.update(i as int, (key, val)).map_values(
                    |p: (String, String)| (p.0@, p.1@),
                ) =~= e.update(i as int, (k, v)));
            }
            entries.set(i, (key, val));
        } else {
            let ghost rest = e.subrange(i as int, n as int);
            proof {
                if i < n {
                    assert(rest[0] == e[i as int]);
                    lemma_text_lt_total(k, rest[0].0);
                }
                assert(store(e, k, v) =~= e.insert(i as int, (k, v)));
                assert(entries@.insert(i as int, (key, val)).map_values(
                    |p: (String, String)| (p.0@, p.1@),
                ) =~= e.insert(i as int, (k, v)));
            }
            entries.insert(i, (key, val));
        }
        self.entries = entries;
    }

    /// The entries as (name, value) pairs, in strictly ascending order of
    /// name.
    pub fn entries(&self) -> (r: Vec<(String, String)>)
        ensures
            r@.map_values(|p: (String, String)| (p.0@, p.1@)) == self@,
            ascending(self@),
    {
        proof {
            use_type_invariant(self);
        }
        let mut out: Vec<(String, String)> = Vec::new();
        let n = self.entries.len();
        let mut i: usize = 0;
        while i < n
            invariant
                n == self.entries.len(),
                i <= n,
                out@.map_values(|p: (String, String)| (p.0@, p.1@)) == self@.subrange(0, i as int),
            decreases n - i,
        {
            let name = self.entries[i].0.clone();
            let value = self.entries[i].1.clone();
            let ghost before = out@;
            out.push((name, value));
            proof {
                assert(out@.map_values(|p: (String, String)| (p.0@, p.1@)) =~= before.map_values(
                    |p: (String, String)| (p.0@, p.1@),
                ).push((name@, value@)));
                assert(self@.subrange(0, i + 1) =~= self@.subrange(0, i as int).push(self@[i as int]));
            }
            i = i + 1;
        }
        proof {
            assert(self@.subrange(0, n as int) =~= self@);
        }
        out
    }
}

} // verus!
