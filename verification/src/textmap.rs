//! A map from texts to texts that hands its entries out in the order of their keys.
use vstd::prelude::*;

use crate::text::{
    comes_before, is_text, lemma_less_irreflexive, lemma_less_total, lemma_less_transitive,
    same_text, text_less, to_chars,
};

verus! {

/// A key and its value.
pub type Entry = (Seq<char>, Seq<char>);

/// The texts of a list of pairs of strings.
pub open spec fn pair_texts(v: Seq<(String, String)>) -> Seq<Entry> {
    v.map_values(|e: (String, String)| (e.0@, e.1@))
}

/// The keys ascend, so none occurs twice.
pub open spec fn ascending(p: Seq<Entry>) -> bool {
    forall|i: int, j: int|
        0 <= i < j < p.len() ==> text_less((#[trigger] p[i]).0, (#[trigger] p[j]).0)
}

/// The position of a key.
pub open spec fn holds_at(p: Seq<Entry>, key: Seq<char>, i: int) -> bool {
    0 <= i < p.len() && p[i].0 == key
}

/// The map that a list of entries makes up.
pub open spec fn map_of(p: Seq<Entry>) -> Map<Seq<char>, Seq<char>> {
    Map::new(
        |k: Seq<char>| exists|i: int| holds_at(p, k, i),
        |k: Seq<char>| p[choose|i: int| holds_at(p, k, i)].1,
    )
}

/// The entries of a map in the order of their keys.
pub open spec fn listing(m: Map<Seq<char>, Seq<char>>) -> Seq<Entry> {
    choose|p: Seq<Entry>| ascending(p) && #[trigger] map_of(p) == m
}

/// In an ascending list the value under a key is that of the entry that has the key.
proof fn lemma_map_of_at(p: Seq<Entry>, i: int)
    requires
        ascending(p),
        0 <= i < p.len(),
    ensures
        map_of(p).dom().contains(p[i].0),
        map_of(p)[p[i].0] == p[i].1,
        forall|j: int| holds_at(p, p[i].0, j) ==> i == j,
{
    assert(holds_at(p, p[i].0, i));
    assert forall|j: int| holds_at(p, p[i].0, j) implies i == j by {
        lemma_less_irreflexive(p[i].0);
    }
}

/// Leaving the last entry of an ascending list out removes its key from the map.
proof fn lemma_map_of_drop_last(p: Seq<Entry>)
    requires
        ascending(p),
        p.len() > 0,
    ensures
        ascending(p.drop_last()),
        map_of(p.drop_last()) == map_of(p).remove(p.last().0),
{
    let q = p.drop_last();
    assert(ascending(q));
    let a = map_of(q);
    let b = map_of(p).remove(p.last().0);
    assert forall|k: Seq<char>| a.dom().contains(k) <==> b.dom().contains(k) by {
        if a.dom().contains(k) {
            let i = choose|i: int| holds_at(q, k, i);
            lemma_map_of_at(p, i);
            lemma_less_irreflexive(k);
        }
        if b.dom().contains(k) {
            let i = choose|i: int| holds_at(p, k, i);
            assert(holds_at(q, k, i));
        }
    }
    assert forall|k: Seq<char>| a.dom().contains(k) implies a[k] == b[k] by {
        let i = choose|i: int| holds_at(q, k, i);
        lemma_map_of_at(q, i);
        lemma_map_of_at(p, i);
    }
    assert(a =~= b);
}

/// There is only one ascending list of entries for a map.
pub proof fn lemma_listing_unique(p: Seq<Entry>, q: Seq<Entry>)
    requires
        ascending(p),
        ascending(q),
        map_of(p) == map_of(q),
    ensures
        p == q,
    decreases p.len(),
{
    if p.len() == 0 {
        if q.len() > 0 {
            lemma_map_of_at(q, 0);
            let i = choose|i: int| holds_at(p, q[0].0, i);
        }
        assert(p =~= q);
    } else if q.len() == 0 {
        lemma_map_of_at(p, 0);
        let i = choose|i: int| holds_at(q, p[0].0, i);
    } else {
        let a = p.len() - 1;
        let b = q.len() - 1;
        lemma_map_of_at(p, a);
        lemma_map_of_at(q, b);
        let j = choose|j: int| holds_at(q, p[a].0, j);
        let i = choose|i: int| holds_at(p, q[b].0, i);
        assert(holds_at(q, p[a].0, j));
        assert(holds_at(p, q[b].0, i));
        if j != b {
            assert(text_less(q[j].0, q[b].0));
            if i != a {
                assert(text_less(p[i].0, p[a].0));
                lemma_less_transitive(p[a].0, q[b].0, p[a].0);
            }
            lemma_less_irreflexive(p[a].0);
        }
        lemma_map_of_at(q, j);
        assert(p.last() == q.last());
        lemma_map_of_drop_last(p);
        lemma_map_of_drop_last(q);
        lemma_listing_unique(p.drop_last(), q.drop_last());
        assert(p =~= p.drop_last().push(p.last()));
        assert(q =~= q.drop_last().push(q.last()));
    }
}

/// The listing of the map of an ascending list is that list.
pub proof fn lemma_listing(p: Seq<Entry>)
    requires
        ascending(p),
    ensures
        listing(map_of(p)) == p,
{
    lemma_listing_unique(listing(map_of(p)), p);
}

/// A map from texts to texts.
#[derive(Debug)]
pub struct TextMap {
    entries: Vec<(String, String)>,
}

impl View for TextMap {
    type V = Map<Seq<char>, Seq<char>>;

    closed spec fn view(&self) -> Map<Seq<char>, Seq<char>> {
        map_of(pair_texts(self.entries@))
    }
}

impl Default for TextMap {
    fn default() -> (r: Self)
        ensures
            r@ == Map::<Seq<char>, Seq<char>>::empty(),
    {
        TextMap::new()
    }
}

impl TextMap {
    #[verifier::type_invariant]
    spec fn well_formed(self) -> bool {
        ascending(pair_texts(self.entries@))
    }

    /// A map with nothing in it.
    pub fn new() -> (r: TextMap)
        ensures
            r@ == Map::<Seq<char>, Seq<char>>::empty(),
    {
        let r = TextMap { entries: Vec::new() };
        proof {
            assert(r@ =~= Map::<Seq<char>, Seq<char>>::empty());
        }
        r
    }

    /// The first position whose key does not come before the given one.
    fn slot(entries: &Vec<(String, String)>, key: &str) -> (r: usize)
        requires
            ascending(pair_texts(entries@)),
        ensures
            r <= entries@.len(),
            forall|i: int| 0 <= i < r ==> text_less((#[trigger] entries@[i]).0@, key@),
            r < entries@.len() ==> !text_less(entries@[r as int].0@, key@),
    {
        let k = to_chars(key);
        let mut i: usize = 0;
        while i < entries.len()
            invariant
                i <= entries@.len(),
                k@ == key@,
                forall|j: int| 0 <= j < i ==> text_less((#[trigger] entries@[j]).0@, key@),
            decreases entries.len() - i,
        {
            let c = to_chars(entries[i].0.as_str());
            if !comes_before(&c, &k) {
                return i;
            }
            i += 1;
        }
        i
    }

    /// The value under a key.
    pub fn get(&self, key: &str) -> (r: Option<&String>)
        ensures
            match r {
                Some(v) => self@.dom().contains(key@) && v@ == self@[key@],
                None => !self@.dom().contains(key@),
            },
    {
        proof {
            use_type_invariant(self);
        }
        let ghost p = pair_texts(self.entries@);
        let k = to_chars(key);
        let mut i: usize = 0;
        while i < self.entries.len()
            invariant
                i <= self.entries@.len(),
                k@ == key@,
                p == pair_texts(self.entries@),
                ascending(p),
                forall|j: int| 0 <= j < i ==> (#[trigger] p[j]).0 != key@,
            decreases self.entries.len() - i,
        {
            let c = to_chars(self.entries[i].0.as_str());
            if is_text(&c, key) {
                proof {
                    lemma_map_of_at(p, i as int);
                }
                return Some(&self.entries[i].1);
            }
            i += 1;
        }
        None
    }

    /// Puts a value under a key, in the place of the one that was there.
    pub fn insert(&mut self, key: String, value: String)
        ensures
            final(self)@ == old(self)@.insert(key@, value@),
    {
        proof {
            use_type_invariant(&*self);
        }
        let ghost k = key@;
        let ghost val = value@;
        let mut v: Vec<(String, String)> = Vec::new();
        std::mem::swap(&mut v, &mut self.entries);
        let ghost p = pair_texts(v@);
        let at = TextMap::slot(&v, key.as_str());
        let present = at < v.len() && same_text(v[at].0.as_str(), key.as_str());
        if present {
            v.set(at, (key, value));
        } else {
            v.insert(at, (key, value));
        }
        proof {
            let q = pair_texts(v@);
            if present {
                assert(q =~= p.update(at as int, (k, val)));
                assert(p[at as int].0 == k);
                assert forall|i: int, j: int| 0 <= i < j < q.len() implies text_less(
                    (#[trigger] q[i]).0,
                    (#[trigger] q[j]).0,
                ) by {
                    assert(q[i].0 == p[i].0 && q[j].0 == p[j].0);
                }
            } else {
                assert(q =~= p.insert(at as int, (k, val)));
                if at < p.len() {
                    lemma_less_total(p[at as int].0, k);
                }
                assert forall|i: int, j: int| 0 <= i < j < q.len() implies text_less(
                    (#[trigger] q[i]).0,
                    (#[trigger] q[j]).0,
                ) by {
                    if i == at && j > at + 1 {
                        assert(q[j] == p[j - 1]);
                        lemma_less_transitive(k, p[at as int].0, p[j - 1].0);
                    }
                }
            }
            lemma_insert(p, q, at as int, present, k, val);
        }
        self.entries = v;
    }

    /// The entries in the order of their keys.
    pub fn entries(&self) -> (r: Vec<(String, String)>)
        ensures
            pair_texts(r@) == listing(self@),
            ascending(pair_texts(r@)),
            map_of(pair_texts(r@)) == self@,
    {
        proof {
            use_type_invariant(self);
        }
        let mut r: Vec<(String, String)> = Vec::new();
        let mut i: usize = 0;
        while i < self.entries.len()
            invariant
                i <= self.entries@.len(),
                r@ == self.entries@.take(i as int),
            decreases self.entries.len() - i,
        {
            proof {
                assert(self.entries@.take(i + 1) =~= self.entries@.take(i as int).push(
                    self.entries@[i as int],
                ));
            }
            r.push((self.entries[i].0.clone(), self.entries[i].1.clone()));
            i += 1;
        }
        proof {
            assert(r@ =~= self.entries@);
            lemma_listing(pair_texts(self.entries@));
        }
        r
    }
}

/// An ascending list with an entry put in its place, or replaced, makes up the map with
/// that entry inserted.
proof fn lemma_insert(
    p: Seq<Entry>,
    q: Seq<Entry>,
    at: int,
    present: bool,
    k: Seq<char>,
    v: Seq<char>,
)
    requires
        ascending(p),
        ascending(q),
        0 <= at <= p.len(),
        present ==> at < p.len() && p[at].0 == k && q == p.update(at, (k, v)),
        !present ==> q == p.insert(at, (k, v)),
    ensures
        map_of(q) == map_of(p).insert(k, v),
{
    let a = map_of(q);
    let b = map_of(p).insert(k, v);
    assert(q[at] == (k, v));
    lemma_map_of_at(q, at);
    assert forall|x: Seq<char>| a.dom().contains(x) <==> b.dom().contains(x) by {
        if a.dom().contains(x) && x != k {
            let i = choose|i: int| holds_at(q, x, i);
            if present {
                assert(holds_at(p, x, i));
            } else if i < at {
                assert(holds_at(p, x, i));
            } else {
                assert(holds_at(p, x, i - 1));
            }
        }
        if b.dom().contains(x) && x != k {
            let i = choose|i: int| holds_at(p, x, i);
            if present || i < at {
                assert(holds_at(q, x, i));
            } else {
                assert(holds_at(q, x, i + 1));
            }
        }
    }
    assert forall|x: Seq<char>| a.dom().contains(x) implies a[x] == b[x] by {
        if x != k {
            let i = choose|i: int| holds_at(q, x, i);
            lemma_map_of_at(q, i);
            let j = if present || i < at {
                i
            } else {
                i - 1
            };
            assert(holds_at(p, x, j));
            lemma_map_of_at(p, j);
        }
    }
    assert(a =~= b);
}

/// The entries of a map come out in the order of their keys, each key once, with its value.
pub proof fn law_entries_come_in_order(p: Seq<Entry>, m: Map<Seq<char>, Seq<char>>)
    requires
        forall|i: int, j: int|
            0 <= i < j < p.len() ==> text_less((#[trigger] p[i]).0, (#[trigger] p[j]).0),
        forall|i: int|
            0 <= i < p.len() ==> m.dom().contains((#[trigger] p[i]).0) && m[p[i].0] == p[i].1,
        forall|k: Seq<char>| #[trigger]
            m.dom().contains(k) ==> exists|i: int| 0 <= i < p.len() && (#[trigger] p[i]).0 == k,
    ensures
        listing(m) == p,
{
    assert(map_of(p) =~= m) by {
        assert forall|k: Seq<char>| map_of(p).dom().contains(k) == m.dom().contains(k) by {
            if m.dom().contains(k) {
                let i = choose|i: int| 0 <= i < p.len() && (#[trigger] p[i]).0 == k;
                assert(holds_at(p, k, i));
            }
            if map_of(p).dom().contains(k) {
                let i = choose|i: int| holds_at(p, k, i);
                assert(m.dom().contains(p[i].0));
            }
        }
        assert forall|k: Seq<char>| m.dom().contains(k) implies map_of(p)[k] == m[k] by {
            let i = choose|i: int| 0 <= i < p.len() && (#[trigger] p[i]).0 == k;
            lemma_map_of_at(p, i);
        }
    }
    lemma_listing(p);
}

} // verus!
