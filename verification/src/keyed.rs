//! Insertion-ordered sets of string keys and string-to-string maps.
use vstd::prelude::*;
use crate::text::to_owned_string;

verus! {

/// A set of strings that remembers insertion order.
pub struct KeySet {
    items: Vec<String>,
}

pub open spec fn strings_view(v: Seq<String>) -> Seq<Seq<char>> {
    v.map_values(|s: String| s@)
}

impl View for KeySet {
    type V = Seq<Seq<char>>;

    closed spec fn view(&self) -> Seq<Seq<char>> {
        strings_view(self.items@)
    }
}

fn str_eq(a: &str, b: &str) -> (r: bool)
    ensures
        r == (a@ == b@),
{
    let av = crate::text::chars_of(a);
    let bv = crate::text::chars_of(b);
    if av.len() != bv.len() {
        return false;
    }
    let r = crate::text::slice_has_prefix(av.as_slice(), bv.as_slice());
    proof {
        if r {
            assert(av@ =~= bv@);
        }
        if a@ == b@ {
            assert(av@.subrange(0, bv@.len() as int) =~= av@);
        }
    }
    r
}

/// Two strings are equal.
pub fn same_str(a: &str, b: &str) -> (r: bool)
    ensures
        r == (a@ == b@),
{
    str_eq(a, b)
}

impl KeySet {
    /// No key occurs twice.
    pub open spec fn wf(&self) -> bool {
        self@.no_duplicates()
    }

    pub fn new() -> (s: KeySet)
        ensures
            s@ == Seq::<Seq<char>>::empty(),
            s.wf(),
    {
        let s = KeySet { items: Vec::new() };
        assert(s@ =~= Seq::<Seq<char>>::empty());
        s
    }

    pub fn len(&self) -> (n: usize)
        ensures
            n == self@.len(),
    {
        self.items.len()
    }

    pub fn contains(&self, key: &str) -> (r: bool)
        ensures
            r == self@.contains(key@),
    {
        let mut i: usize = 0;
        while i < self.items.len()
            invariant
                i <= self.items.len(),
                forall|j: int| 0 <= j < i ==> self@[j] != key@,
            decreases self.items.len() - i,
        {
            if str_eq(self.items[i].as_str(), key) {
                assert(self@[i as int] == key@);
                return true;
            }
            i = i + 1;
        }
        false
    }

    /// Adds `key` when absent; tells whether it was added.
    pub fn insert(&mut self, key: &str) -> (added: bool)
        requires
            old(self).wf(),
        ensures
            final(self).wf(),
            added == !old(self)@.contains(key@),
            added ==> final(self)@ == old(self)@.push(key@),
            !added ==> final(self)@ == old(self)@,
    {
        if self.contains(key) {
            return false;
        }
        let ghost before = self@;
        self.items.push(to_owned_string(key));
        assert(self@ =~= before.push(key@));
        proof {
            assert forall|i: int, j: int|
                0 <= i < self@.len() && 0 <= j < self@.len() && i != j implies self@[i]
                != self@[j] by {
                if i < before.len() && j < before.len() {
                } else if i == before.len() {
                    assert(self@[j] == before[j]);
                } else {
                    assert(self@[i] == before[i]);
                }
            }
        }
        true
    }

    /// The keys, in insertion order.
    pub fn to_vec(&self) -> (v: Vec<String>)
        ensures
            strings_view(v@) == self@,
    {
        let mut v: Vec<String> = Vec::new();
        let mut i: usize = 0;
        while i < self.items.len()
            invariant
                i <= self.items.len(),
                strings_view(v@) == self@.take(i as int),
            decreases self.items.len() - i,
        {
            let ghost prev = strings_view(v@);
            let s = to_owned_string(self.items[i].as_str());
            v.push(s);
            assert(strings_view(v@) =~= prev.push(s@));
            assert(self@.take(i + 1) =~= self@.take(i as int).push(self@[i as int]));
            i = i + 1;
        }
        assert(self@.take(self@.len() as int) =~= self@);
        v
    }
}

/// A map from string keys to string values; the last insertion of a key
/// wins.
pub struct UrlMap {
    entries: Vec<(String, String)>,
}

pub open spec fn entries_keys(v: Seq<(String, String)>) -> Seq<Seq<char>> {
    v.map_values(|e: (String, String)| e.0@)
}

pub open spec fn entries_map(v: Seq<(String, String)>) -> Map<Seq<char>, Seq<char>>
    decreases v.len(),
{
    if v.len() == 0 {
        Map::empty()
    } else {
        entries_map(v.drop_last()).insert(v.last().0@, v.last().1@)
    }
}

impl View for UrlMap {
    type V = Map<Seq<char>, Seq<char>>;

    closed spec fn view(&self) -> Map<Seq<char>, Seq<char>> {
        entries_map(self.entries@)
    }
}

impl UrlMap {
    pub closed spec fn pairs(&self) -> Seq<(Seq<char>, Seq<char>)> {
        self.entries@.map_values(|e: (String, String)| (e.0@, e.1@))
    }

    pub closed spec fn wf(&self) -> bool {
        entries_keys(self.entries@).no_duplicates()
    }

    pub fn new() -> (m: UrlMap)
        ensures
            m@ == Map::<Seq<char>, Seq<char>>::empty(),
            m.wf(),
    {
        let m = UrlMap { entries: Vec::new() };
        assert(entries_keys(m.entries@) =~= Seq::<Seq<char>>::empty());
        m
    }

    pub fn len(&self) -> (n: usize)
        requires
            self.wf(),
        ensures
            n == self@.dom().len(),
    {
        proof {
            lemma_entries_dom(self.entries@);
        }
        self.entries.len()
    }

    fn find(&self, key: &str) -> (r: Option<usize>)
        ensures
            r is Some ==> r->0 < self.entries@.len() && self.entries@[r->0 as int].0@ == key@,
            r is None ==> !entries_keys(self.entries@).contains(key@),
    {
        let mut i: usize = 0;
        while i < self.entries.len()
            invariant
                i <= self.entries.len(),
                forall|j: int| 0 <= j < i ==> self.entries@[j].0@ != key@,
            decreases self.entries.len() - i,
        {
            if str_eq(self.entries[i].0.as_str(), key) {
                return Some(i);
            }
            i = i + 1;
        }
        proof {
            if entries_keys(self.entries@).contains(key@) {
                let j = choose|j: int|
                    0 <= j < entries_keys(self.entries@).len() && entries_keys(self.entries@)[j]
                        == key@;
                assert(self.entries@[j].0@ == key@);
            }
        }
        None
    }

    /// The value of `key`, if present.
    pub fn get(&self, key: &str) -> (r: Option<String>)
        requires
            self.wf(),
        ensures
            r is Some <==> self@.dom().contains(key@),
            r is Some ==> r->0@ == self@[key@],
    {
        proof {
            lemma_entries_dom(self.entries@);
        }
        match self.find(key) {
            Some(i) => {
                proof {
                    lemma_entries_lookup(self.entries@, i as int);
                }
                Some(to_owned_string(self.entries[i].1.as_str()))
            },
            None => None,
        }
    }

    /// Sets the value of `key`.
    pub fn insert(&mut self, key: &str, value: &str)
        requires
            old(self).wf(),
        ensures
            final(self).wf(),
            final(self)@ == old(self)@.insert(key@, value@),
    {
        proof {
            lemma_entries_dom(self.entries@);
        }
        match self.find(key) {
            Some(i) => {
                let ghost before = self.entries@;
                let e = (to_owned_string(key), to_owned_string(value));
                self.entries.set(i, e);
                proof {
                    lemma_entries_update(before, i as int, key@, value@, self.entries@);
                }
            },
            None => {
                let ghost before = self.entries@;
                self.entries.push((to_owned_string(key), to_owned_string(value)));
                proof {
                    assert(self.entries@.drop_last() =~= before);
                    assert(entries_keys(self.entries@) =~= entries_keys(before).push(key@));
                    assert forall|a: int, b: int|
                        0 <= a < entries_keys(self.entries@).len() && 0 <= b < entries_keys(
                            self.entries@,
                        ).len() && a != b implies entries_keys(self.entries@)[a] != entries_keys(
                        self.entries@,
                    )[b] by {
                        if a == before.len() {
                            assert(entries_keys(before)[b] == entries_keys(self.entries@)[b]);
                        } else if b == before.len() {
                            assert(entries_keys(before)[a] == entries_keys(self.entries@)[a]);
                        }
                    }
                }
            },
        }
    }

    /// The pairs, inserted in order into an empty map, give this map.
    pub proof fn lemma_pairs_map(&self)
        ensures
            crate::crawl::map_from(Map::empty(), self.pairs()) == self@,
    {
        lemma_pairs_map_of(self.entries@);
    }

    /// The entries, in insertion order.
    pub fn to_pairs(&self) -> (v: Vec<(String, String)>)
        ensures
            v@.map_values(|e: (String, String)| (e.0@, e.1@)) == self.pairs(),
    {
        let mut v: Vec<(String, String)> = Vec::new();
        let mut i: usize = 0;
        while i < self.entries.len()
            invariant
                i <= self.entries.len(),
                v@.map_values(|e: (String, String)| (e.0@, e.1@)) == self.pairs().take(i as int),
            decreases self.entries.len() - i,
        {
            let ghost prev = v@.map_values(|e: (String, String)| (e.0@, e.1@));
            let e = (
                to_owned_string(self.entries[i].0.as_str()),
                to_owned_string(self.entries[i].1.as_str()),
            );
            v.push(e);
            assert(v@.map_values(|e: (String, String)| (e.0@, e.1@)) =~= prev.push(
                (e.0@, e.1@),
            ));
            assert(self.pairs().take(i + 1) =~= self.pairs().take(i as int).push(
                self.pairs()[i as int],
            ));
            i = i + 1;
        }
        assert(self.pairs().take(self.pairs().len() as int) =~= self.pairs());
        v
    }
}

proof fn lemma_pairs_map_of(v: Seq<(String, String)>)
    ensures
        crate::crawl::map_from(Map::empty(), v.map_values(|e: (String, String)| (e.0@, e.1@)))
            == entries_map(v),
    decreases v.len(),
{
    if v.len() > 0 {
        lemma_pairs_map_of(v.drop_last());
        assert(v.map_values(|e: (String, String)| (e.0@, e.1@)).drop_last() =~= v.drop_last().map_values(
            |e: (String, String)| (e.0@, e.1@),
        ));
    }
}

proof fn lemma_entries_dom(v: Seq<(String, String)>)
    ensures
        entries_map(v).dom() == entries_keys(v).to_set(),
        entries_keys(v).no_duplicates() ==> entries_map(v).dom().len() == v.len(),
    decreases v.len(),
{
    if v.len() == 0 {
        assert(entries_keys(v) =~= Seq::<Seq<char>>::empty());
        assert(entries_keys(v).to_set() =~= Set::<Seq<char>>::empty());
    } else {
        lemma_entries_dom(v.drop_last());
        assert(entries_keys(v) =~= entries_keys(v.drop_last()).push(v.last().0@));
        entries_keys(v.drop_last()).lemma_push_to_set_commute(v.last().0@);
        if entries_keys(v).no_duplicates() {
            entries_keys(v).unique_seq_to_set();
            assert(entries_keys(v.drop_last()).no_duplicates()) by {
                assert forall|a: int, b: int|
                    0 <= a < entries_keys(v.drop_last()).len() && 0 <= b < entries_keys(
                        v.drop_last(),
                    ).len() && a != b implies entries_keys(v.drop_last())[a] != entries_keys(
                    v.drop_last(),
                )[b] by {
                    assert(entries_keys(v.drop_last())[a] == entries_keys(v)[a]);
                    assert(entries_keys(v.drop_last())[b] == entries_keys(v)[b]);
                }
            }
            assert(!entries_keys(v.drop_last()).contains(v.last().0@)) by {
                if entries_keys(v.drop_last()).contains(v.last().0@) {
                    let j = choose|j: int|
                        0 <= j < entries_keys(v.drop_last()).len() && entries_keys(
                            v.drop_last(),
                        )[j] == v.last().0@;
                    assert(entries_keys(v)[j] == entries_keys(v)[v.len() - 1]);
                }
            }
        }
    }
}

proof fn lemma_entries_lookup(v: Seq<(String, String)>, i: int)
    requires
        0 <= i < v.len(),
        entries_keys(v).no_duplicates(),
    ensures
        entries_map(v).dom().contains(v[i].0@),
        entries_map(v)[v[i].0@] == v[i].1@,
    decreases v.len(),
{
    if i == v.len() - 1 {
    } else {
        assert(entries_keys(v.drop_last()).no_duplicates()) by {
            assert forall|a: int, b: int|
                0 <= a < entries_keys(v.drop_last()).len() && 0 <= b < entries_keys(
                    v.drop_last(),
                ).len() && a != b implies entries_keys(v.drop_last())[a] != entries_keys(
                v.drop_last(),
            )[b] by {
                assert(entries_keys(v.drop_last())[a] == entries_keys(v)[a]);
                assert(entries_keys(v.drop_last())[b] == entries_keys(v)[b]);
            }
        }
        lemma_entries_lookup(v.drop_last(), i);
        assert(entries_keys(v)[i] != entries_keys(v)[v.len() - 1]);
    }
}

proof fn lemma_entries_update(
    before: Seq<(String, String)>,
    i: int,
    k: Seq<char>,
    val: Seq<char>,
    after: Seq<(String, String)>,
)
    requires
        0 <= i < before.len(),
        entries_keys(before).no_duplicates(),
        before[i].0@ == k,
        after.len() == before.len(),
        after[i].0@ == k,
        after[i].1@ == val,
        forall|j: int| 0 <= j < before.len() && j != i ==> after[j] == before[j],
    ensures
        entries_keys(after).no_duplicates(),
        entries_map(after) == entries_map(before).insert(k, val),
    decreases before.len(),
{
    assert(entries_keys(after) =~= entries_keys(before)) by {
        assert forall|j: int| 0 <= j < before.len() implies entries_keys(after)[j] == entries_keys(
            before,
        )[j] by {
            if j != i {
                assert(after[j] == before[j]);
            }
        }
    }
    if i == before.len() - 1 {
        assert(after.drop_last() =~= before.drop_last());
        assert(entries_map(after) =~= entries_map(before).insert(k, val));
    } else {
        let bd = before.drop_last();
        let ad = after.drop_last();
        assert(entries_keys(bd).no_duplicates()) by {
            assert forall|a: int, b: int|
                0 <= a < entries_keys(bd).len() && 0 <= b < entries_keys(bd).len() && a
                    != b implies entries_keys(bd)[a] != entries_keys(bd)[b] by {
                assert(entries_keys(bd)[a] == entries_keys(before)[a]);
                assert(entries_keys(bd)[b] == entries_keys(before)[b]);
            }
        }
        lemma_entries_update(bd, i, k, val, ad);
        assert(after.last() == before.last());
        assert(before.last().0@ != k) by {
            assert(entries_keys(before)[before.len() - 1] != entries_keys(before)[i]);
        }
        assert(entries_map(after) =~= entries_map(before).insert(k, val));
    }
}

} // verus!
