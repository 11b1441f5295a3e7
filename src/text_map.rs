//! A small string-to-string map that keeps its entries in insertion order.

use crate::text::{starts_with, str_eq};
use vstd::prelude::*;

verus! {

/// A pair of column (or variable) name and its text value, as seen by specs.
pub type Entry = (Seq<char>, Seq<char>);

/// The value stored under `key`, if any.
pub open spec fn lookup(entries: Seq<Entry>, key: Seq<char>) -> Option<Seq<char>>
    decreases entries.len(),
{
    if entries.len() == 0 {
        None
    } else if entries[0].0 == key {
        Some(entries[0].1)
    } else {
        lookup(entries.drop_first(), key)
    }
}

/// No key occurs twice.
pub open spec fn distinct_keys(entries: Seq<Entry>) -> bool {
    forall|i: int, j: int| 0 <= i < j < entries.len() ==> entries[i].0 != entries[j].0
}

/// Reserved prefix of columns that are never shown to callers.
pub open spec fn private_prefix() -> Seq<char> {
    seq!['p', 'r', 'i', 'v', 'a', 't', 'e', '_']
}

pub open spec fn is_private_key(key: Seq<char>) -> bool {
    key.len() >= 8 && key.subrange(0, 8) == private_prefix()
}

/// The entries whose key is not private, in their order.
pub open spec fn without_private(entries: Seq<Entry>) -> Seq<Entry>
    decreases entries.len(),
{
    if entries.len() == 0 {
        entries
    } else {
        let rest = without_private(entries.drop_first());
        if is_private_key(entries[0].0) {
            rest
        } else {
            seq![entries[0]] + rest
        }
    }
}

/// A map from text keys to text values; each key occurs once.
#[derive(Clone, Debug, PartialEq, Eq)]
pub struct TextMap {
    entries: Vec<(String, String)>,
}

impl View for TextMap {
    type V = Seq<Entry>;

    closed spec fn view(&self) -> Seq<Entry> {
        self.entries@.map_values(|e: (String, String)| (e.0@, e.1@))
    }
}

fn key_is_private(key: &String) -> (r: bool)
    ensures
        r == is_private_key(key@),
{
    proof {
        reveal_strlit("private_");
        assert("private_"@ =~= private_prefix());
    }
    starts_with(key.as_str(), "private_")
}

impl TextMap {
    /// An empty map.
    pub fn new() -> (r: TextMap)
        ensures
            r@ == Seq::<Entry>::empty(),
    {
        let r = TextMap { entries: Vec::new() };
        assert(r@ =~= Seq::<Entry>::empty());
        r
    }

    pub fn len(&self) -> (r: usize)
        ensures
            r == self@.len(),
    {
        self.entries.len()
    }

    /// The key and value at position `i`.
    pub fn entry(&self, i: usize) -> (r: (&String, &String))
        requires
            i < self@.len(),
        ensures
            r.0@ == self@[i as int].0,
            r.1@ == self@[i as int].1,
    {
        let e = &self.entries[i];
        (&e.0, &e.1)
    }

    /// The position of `key`, if present.
    fn position(&self, key: &str) -> (r: Option<usize>)
        ensures
            match r {
                Some(i) => i < self@.len() && self@[i as int].0 == key@ && forall|j: int|
                    0 <= j < i ==> self@[j].0 != key@,
                None => forall|j: int| 0 <= j < self@.len() ==> self@[j].0 != key@,
            },
    {
        let n = self.entries.len();
        let mut i: usize = 0;
        while i < n
            invariant
                n == self@.len(),
                i <= n,
                forall|j: int| 0 <= j < i ==> self@[j].0 != key@,
            decreases n - i,
        {
            assert(self@[i as int] == (self.entries@[i as int].0@, self.entries@[i as int].1@));
            if str_eq(self.entries[i].0.as_str(), key) {
                return Some(i);
            }
            i += 1;
        }
        None
    }

    /// The value stored under `key`.
    pub fn get(&self, key: &str) -> (r: Option<&String>)
        ensures
            match r {
                Some(v) => lookup(self@, key@) == Some(v@),
                None => lookup(self@, key@) is None,
            },
    {
        let p = self.position(key);
        proof {
            lemma_lookup_first(self@, key@);
        }
        match p {
            Some(i) => Some(&self.entries[i].1),
            None => None,
        }
    }

    pub fn contains_key(&self, key: &str) -> (r: bool)
        ensures
            r == (lookup(self@, key@) is Some),
    {
        self.get(key).is_some()
    }

    /// Stores `value` under `key`, replacing the value that was there; a new
    /// key goes last.
    pub fn insert(&mut self, key: String, value: String)
        ensures
            lookup(final(self)@, key@) == Some(value@),
            forall|k: Seq<char>| k != key@ ==> lookup(final(self)@, k) == lookup(old(self)@, k),
            lookup(old(self)@, key@) is None ==> final(self)@ == old(self)@.push((key@, value@)),
            distinct_keys(old(self)@) ==> distinct_keys(final(self)@),
    {
        let p = self.position(key.as_str());
        match p {
            Some(i) => {
                let ghost before = self@;
                proof {
                    lemma_lookup_first(before, key@);
                }
                self.entries.set(i, (key, value));
                proof {
                    assert(self@ =~= before.update(i as int, (key@, value@)));
                    lemma_lookup_update(before, i as int, value@);
                }
            },
            None => {
                let ghost before = self@;
                let ghost kv = key@;
                let ghost vv = value@;
                self.entries.push((key, value));
                proof {
                    assert(self@ =~= before.push((kv, vv)));
                    lemma_lookup_push(before, kv, vv);
                }
            },
        }
    }

    /// A copy of the map.
    pub fn duplicate(&self) -> (r: TextMap)
        ensures
            r@ == self@,
    {
        let n = self.entries.len();
        let mut out: Vec<(String, String)> = Vec::new();
        let mut i: usize = 0;
        while i < n
            invariant
                n == self@.len(),
                i <= n,
                out@.map_values(|e: (String, String)| (e.0@, e.1@)) == self@.subrange(0, i as int),
            decreases n - i,
        {
            let ghost prev = out@.map_values(|e: (String, String)| (e.0@, e.1@));
            let k = self.entries[i].0.clone();
            let v = self.entries[i].1.clone();
            out.push((k, v));
            assert(self@[i as int] == (self.entries@[i as int].0@, self.entries@[i as int].1@));
            assert(out@.map_values(|e: (String, String)| (e.0@, e.1@)) =~= prev.push(
                self@[i as int],
            ));
            assert(out@.map_values(|e: (String, String)| (e.0@, e.1@)) =~= self@.subrange(
                0,
                i + 1,
            ));
            i += 1;
        }
        assert(self@.subrange(0, n as int) =~= self@);
        TextMap { entries: out }
    }

    /// The same map without the entries whose key starts with `private_`.
    pub fn without_private(&self) -> (r: TextMap)
        ensures
            r@ == without_private(self@),
            forall|k: Seq<char>| #[trigger]
                lookup(r@, k) == if is_private_key(k) {
                    None
                } else {
                    lookup(self@, k)
                },
    {
        let n = self.entries.len();
        let mut out: Vec<(String, String)> = Vec::new();
        let mut i: usize = 0;
        proof {
            assert(self@.subrange(0, n as int) =~= self@);
            assert(out@.map_values(|e: (String, String)| (e.0@, e.1@)) + without_private(self@)
                =~= without_private(self@));
        }
        while i < n
            invariant
                n == self@.len(),
                i <= n,
                without_private(self@) == out@.map_values(|e: (String, String)| (e.0@, e.1@))
                    + without_private(self@.subrange(i as int, n as int)),
            decreases n - i,
        {
            let ghost prev = out@.map_values(|e: (String, String)| (e.0@, e.1@));
            proof {
                assert(self@.subrange(i as int, n as int).drop_first() =~= self@.subrange(
                    i + 1,
                    n as int,
                ));
                assert(self@.subrange(i as int, n as int)[0] == self@[i as int]);
            }
            if !key_is_private(&self.entries[i].0) {
                let k = self.entries[i].0.clone();
                let v = self.entries[i].1.clone();
                out.push((k, v));
                proof {
                    assert(out@.map_values(|e: (String, String)| (e.0@, e.1@)) =~= prev.push(
                        self@[i as int],
                    ));
                    assert(prev + (seq![self@[i as int]] + without_private(
                        self@.subrange(i + 1, n as int),
                    )) =~= prev.push(self@[i as int]) + without_private(
                        self@.subrange(i + 1, n as int),
                    ));
                }
            } else {
                proof {
                    assert(out@.map_values(|e: (String, String)| (e.0@, e.1@)) =~= prev);
                }
            }
            i += 1;
        }
        proof {
            assert(self@.subrange(n as int, n as int) =~= Seq::<Entry>::empty());
            assert(out@.map_values(|e: (String, String)| (e.0@, e.1@)) + Seq::<Entry>::empty()
                =~= out@.map_values(|e: (String, String)| (e.0@, e.1@)));
            lemma_without_private_lookup(self@);
        }
        TextMap { entries: out }
    }
}

proof fn lemma_lookup_first(entries: Seq<Entry>, key: Seq<char>)
    ensures
        forall|i: int|
            0 <= i < entries.len() && entries[i].0 == key && (forall|j: int|
                0 <= j < i ==> entries[j].0 != key) ==> lookup(entries, key) == Some(entries[i].1),
        (forall|j: int| 0 <= j < entries.len() ==> entries[j].0 != key) ==> lookup(entries, key)
            is None,
    decreases entries.len(),
{
    if entries.len() > 0 {
        lemma_lookup_first(entries.drop_first(), key);
        assert forall|i: int|
            0 <= i < entries.len() && entries[i].0 == key && (forall|j: int|
                0 <= j < i ==> entries[j].0 != key) implies lookup(entries, key) == Some(
            entries[i].1,
        ) by {
            if i > 0 {
                assert(entries.drop_first()[i - 1] == entries[i]);
                assert forall|j: int| 0 <= j < i - 1 implies entries.drop_first()[j].0 != key by {
                    assert(entries.drop_first()[j] == entries[j + 1]);
                }
            }
        }
        if forall|j: int| 0 <= j < entries.len() ==> entries[j].0 != key {
            assert forall|j: int| 0 <= j < entries.len() - 1 implies entries.drop_first()[j].0
                != key by {
                assert(entries.drop_first()[j] == entries[j + 1]);
            }
        }
    }
}

proof fn lemma_lookup_update(entries: Seq<Entry>, i: int, v: Seq<char>)
    requires
        0 <= i < entries.len(),
        forall|j: int| 0 <= j < i ==> entries[j].0 != entries[i].0,
    ensures
        distinct_keys(entries) ==> distinct_keys(entries.update(i, (entries[i].0, v))),
        lookup(entries.update(i, (entries[i].0, v)), entries[i].0) == Some(v),
        forall|k: Seq<char>|
            k != entries[i].0 ==> lookup(entries.update(i, (entries[i].0, v)), k) == lookup(
                entries,
                k,
            ),
    decreases entries.len(),
{
    let u = entries.update(i, (entries[i].0, v));
    if distinct_keys(entries) {
        assert forall|a: int, b: int| 0 <= a < b < u.len() implies u[a].0 != u[b].0 by {
            assert(u[a].0 == entries[a].0);
            assert(u[b].0 == entries[b].0);
        }
    }
    if i == 0 {
        assert(u.drop_first() =~= entries.drop_first());
        assert(u[0] == (entries[0].0, v));
    } else {
        assert(u.drop_first() =~= entries.drop_first().update(i - 1, (entries[i].0, v)));
        assert forall|j: int| 0 <= j < i - 1 implies #[trigger] entries.drop_first()[j].0 != entries.drop_first()[i - 1].0 by {
            assert(entries.drop_first()[j] == entries[j + 1]);
        }
        lemma_lookup_update(entries.drop_first(), i - 1, v);
        assert(entries[0].0 != entries[i].0);
        assert(u[0] == entries[0]);
    }
    assert forall|k: Seq<char>| k != entries[i].0 implies lookup(u, k) == lookup(entries, k) by {
        if i > 0 {
            assert(lookup(u.drop_first(), k) == lookup(entries.drop_first(), k));
        }
    }
}

proof fn lemma_lookup_push(entries: Seq<Entry>, k: Seq<char>, v: Seq<char>)
    requires
        forall|j: int| 0 <= j < entries.len() ==> entries[j].0 != k,
    ensures
        distinct_keys(entries) ==> distinct_keys(entries.push((k, v))),
        lookup(entries.push((k, v)), k) == Some(v),
        forall|q: Seq<char>| q != k ==> lookup(entries.push((k, v)), q) == lookup(entries, q),
        lookup(entries, k) is None,
    decreases entries.len(),
{
    let p = entries.push((k, v));
    if distinct_keys(entries) {
        assert forall|a: int, b: int| 0 <= a < b < p.len() implies p[a].0 != p[b].0 by {
            if b < entries.len() {
                assert(p[a] == entries[a] && p[b] == entries[b]);
            } else {
                assert(p[a] == entries[a]);
            }
        }
    }
    if entries.len() > 0 {
        assert(p.drop_first() =~= entries.drop_first().push((k, v)));
        assert forall|j: int| 0 <= j < entries.len() - 1 implies entries.drop_first()[j].0 != k by {
            assert(entries.drop_first()[j] == entries[j + 1]);
        }
        lemma_lookup_push(entries.drop_first(), k, v);
        assert(p[0] == entries[0]);
        assert(entries[0].0 != k);
        assert forall|q: Seq<char>| q != k implies lookup(p, q) == lookup(entries, q) by {
            assert(lookup(p.drop_first(), q) == lookup(entries.drop_first(), q));
        }
    } else {
        assert(p.drop_first() =~= Seq::<Entry>::empty());
        assert(p[0] == (k, v));
        assert forall|q: Seq<char>| q != k implies lookup(p, q) == lookup(entries, q) by {
            assert(lookup(p.drop_first(), q) is None);
        }
    }
}

/// Leaving out the private entries hides exactly the private keys.
pub proof fn lemma_without_private_lookup(entries: Seq<Entry>)
    ensures
        forall|k: Seq<char>| #[trigger]
            lookup(without_private(entries), k) == if is_private_key(k) {
                None
            } else {
                lookup(entries, k)
            },
    decreases entries.len(),
{
    if entries.len() > 0 {
        lemma_without_private_lookup(entries.drop_first());
        let rest = without_private(entries.drop_first());
        assert forall|k: Seq<char>| #[trigger]
            lookup(without_private(entries), k) == if is_private_key(k) {
                None
            } else {
                lookup(entries, k)
            } by {
            assert(lookup(rest, k) == if is_private_key(k) {
                None
            } else {
                lookup(entries.drop_first(), k)
            });
            if !is_private_key(entries[0].0) {
                assert((seq![entries[0]] + rest).drop_first() =~= rest);
                assert((seq![entries[0]] + rest)[0] == entries[0]);
            }
        }
    }
}

} // verus!
