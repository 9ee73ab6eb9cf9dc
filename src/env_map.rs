//! The raw map from configuration keys to their unconverted text.

use vstd::prelude::*;

verus! {

/// The map that a sequence of `(key, value)` entries denotes, a later entry
/// for a key replacing an earlier one.
pub open spec fn map_of_entries(s: Seq<(Seq<char>, Seq<char>)>) -> Map<Seq<char>, Seq<char>>
    decreases s.len(),
{
    if s.len() == 0 {
        Map::empty()
    } else {
        map_of_entries(s.drop_last()).insert(s.last().0, s.last().1)
    }
}

/// No two entries share a key.
pub open spec fn keys_unique(s: Seq<(Seq<char>, Seq<char>)>) -> bool {
    forall|i: int, j: int| 0 <= i < j < s.len() ==> s[i].0 != s[j].0
}

/// The entries' keys are exactly the map's keys, and each maps to its entry's value.
proof fn lemma_map_of_unique_entries(s: Seq<(Seq<char>, Seq<char>)>)
    requires
        keys_unique(s),
    ensures
        map_of_entries(s).dom().finite(),
        map_of_entries(s).len() == s.len(),
        forall|k: Seq<char>|
            map_of_entries(s).contains_key(k) <==> exists|i: int| 0 <= i < s.len() && s[i].0 == k,
        forall|i: int| 0 <= i < s.len() ==> #[trigger] map_of_entries(s)[s[i].0] == s[i].1,
    decreases s.len(),
{
    if s.len() > 0 {
        let p = s.drop_last();
        assert(keys_unique(p));
        lemma_map_of_unique_entries(p);
        assert(!map_of_entries(p).contains_key(s.last().0)) by {
            if map_of_entries(p).contains_key(s.last().0) {
                let i = choose|i: int| 0 <= i < p.len() && p[i].0 == s.last().0;
                assert(s[i].0 == s[s.len() - 1].0);
            }
        }
        assert forall|k: Seq<char>|
            map_of_entries(s).contains_key(k) <==> exists|i: int|
                0 <= i < s.len() && s[i].0 == k by {
            if map_of_entries(s).contains_key(k) && k != s.last().0 {
                let i = choose|i: int| 0 <= i < p.len() && p[i].0 == k;
                assert(s[i].0 == k);
            }
            if exists|i: int| 0 <= i < s.len() && s[i].0 == k {
                let i = choose|i: int| 0 <= i < s.len() && s[i].0 == k;
                if i < s.len() - 1 {
                    assert(p[i].0 == k);
                }
            }
        }
        assert forall|i: int| 0 <= i < s.len() implies #[trigger] map_of_entries(s)[s[i].0]
            == s[i].1 by {
            if i < s.len() - 1 {
                assert(p[i] == s[i]);
            }
        }
    }
}

/// Replacing the value of an entry whose key is unique is inserting that key anew.
proof fn lemma_map_of_update(s: Seq<(Seq<char>, Seq<char>)>, i: int, v: Seq<char>)
    requires
        keys_unique(s),
        0 <= i < s.len(),
    ensures
        map_of_entries(s.update(i, (s[i].0, v))) == map_of_entries(s).insert(s[i].0, v),
    decreases s.len(),
{
    let t = s.update(i, (s[i].0, v));
    if i == s.len() - 1 {
        assert(t.drop_last() == s.drop_last());
    } else {
        let p = s.drop_last();
        assert(keys_unique(p));
        lemma_map_of_update(p, i, v);
        assert(t.drop_last() == p.update(i, (p[i].0, v)));
        assert(s[i].0 != s.last().0);
    }
    assert(map_of_entries(t) =~= map_of_entries(s).insert(s[i].0, v));
}

/// A map from configuration keys to raw text values, each key held once.
#[derive(Debug, Clone)]
pub struct EnvMap {
    entries: Vec<(String, String)>,
}

impl EnvMap {
    /// The entries as character sequences, in the order in which their keys arrived.
    pub closed spec fn entries_view(&self) -> Seq<(Seq<char>, Seq<char>)> {
        self.entries@.map_values(|e: (String, String)| (e.0@, e.1@))
    }

    /// Well-formed: each key is held by one entry only.
    pub closed spec fn wf(&self) -> bool {
        keys_unique(self.entries_view())
    }
}

impl View for EnvMap {
    type V = Map<Seq<char>, Seq<char>>;

    closed spec fn view(&self) -> Map<Seq<char>, Seq<char>> {
        map_of_entries(self.entries_view())
    }
}

impl EnvMap {
    /// An empty map.
    pub fn new() -> (r: EnvMap)
        ensures
            r.wf(),
            r@ == Map::<Seq<char>, Seq<char>>::empty(),
    {
        let r = EnvMap { entries: Vec::new() };
        assert(r.entries_view() =~= Seq::empty());
        r
    }

    /// The position of `key`'s entry, if it has one.
    fn position(&self, key: &str) -> (r: Option<usize>)
        ensures
            match r {
                Some(i) => i < self.entries_view().len() && self.entries_view()[i as int].0
                    == key@,
                None => forall|i: int|
                    0 <= i < self.entries_view().len() ==> self.entries_view()[i].0 != key@,
            },
    {
        let wanted = key.to_owned();
        let mut i: usize = 0;
        while i < self.entries.len()
            invariant
                i <= self.entries.len(),
                wanted@ == key@,
                self.entries_view().len() == self.entries@.len(),
                forall|j: int| 0 <= j < i ==> self.entries_view()[j].0 != key@,
            decreases self.entries.len() - i,
        {
            assert(self.entries_view()[i as int] == (self.entries@[i as int].0@,
                self.entries@[i as int].1@));
            if self.entries[i].0 == wanted {
                return Some(i);
            }
            i = i + 1;
        }
        None
    }

    /// Sets `key` to `value`, replacing any earlier value of `key`.
    pub fn insert(&mut self, key: String, value: String)
        requires
            old(self).wf(),
        ensures
            final(self).wf(),
            final(self)@ == old(self)@.insert(key@, value@),
    {
        let ghost s = self.entries_view();
        match self.position(key.as_str()) {
            Some(i) => {
                proof {
                    lemma_map_of_update(s, i as int, value@);
                }
                self.entries.set(i, (key, value));
                assert(self.entries_view() =~= s.update(i as int, (s[i as int].0, value@)));
            },
            None => {
                let ghost kv = (key@, value@);
                self.entries.push((key, value));
                assert(self.entries_view() =~= s.push(kv));
                assert(self.entries_view().drop_last() =~= s);
                assert forall|i: int, j: int|
                    0 <= i < j < self.entries_view().len() implies self.entries_view()[i].0
                    != self.entries_view()[j].0 by {
                    if j < s.len() {
                        assert(self.entries_view()[i] == s[i]);
                        assert(self.entries_view()[j] == s[j]);
                    }
                }
            },
        }
    }

    /// The value stored under `key`, if any.
    pub fn get(&self, key: &str) -> (r: Option<&String>)
        requires
            self.wf(),
        ensures
            match r {
                Some(v) => self@.contains_key(key@) && self@[key@] == v@,
                None => !self@.contains_key(key@),
            },
    {
        proof {
            lemma_map_of_unique_entries(self.entries_view());
        }
        match self.position(key) {
            Some(i) => Some(&self.entries[i].1),
            None => None,
        }
    }

    /// Whether `key` has an entry.
    pub fn contains_key(&self, key: &str) -> (r: bool)
        requires
            self.wf(),
        ensures
            r == self@.contains_key(key@),
    {
        proof {
            lemma_map_of_unique_entries(self.entries_view());
        }
        self.position(key).is_some()
    }

    /// The number of keys.
    pub fn len(&self) -> (r: usize)
        requires
            self.wf(),
        ensures
            r == self@.len(),
    {
        proof {
            lemma_map_of_unique_entries(self.entries_view());
        }
        self.entries.len()
    }

    /// Whether the map holds no key.
    pub fn is_empty(&self) -> (r: bool)
        requires
            self.wf(),
        ensures
            r == (self@.len() == 0),
    {
        self.len() == 0
    }
}

} // verus!
