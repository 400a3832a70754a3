use vstd::prelude::*;
use crate::text;

verus! {

/// The map the entries of an association list denote, later entries winning.
pub open spec fn entry_map(s: Seq<(String, String)>) -> Map<Seq<char>, Seq<char>>
    decreases s.len(),
{
    if s.len() == 0 {
        Map::empty()
    } else {
        entry_map(s.drop_last()).insert(s.last().0@, s.last().1@)
    }
}

/// The map a sequence of key-value pairs denotes, later entries winning.
pub open spec fn pair_map(s: Seq<(Seq<char>, Seq<char>)>) -> Map<Seq<char>, Seq<char>>
    decreases s.len(),
{
    if s.len() == 0 {
        Map::empty()
    } else {
        pair_map(s.drop_last()).insert(s.last().0, s.last().1)
    }
}

/// The execution context: a string-keyed map of string values, such as slot
/// data, reserved names, and the per-run flags the hook scheduler maintains.
/// Entries keep their insertion order, and keys are unique.
pub struct DataMap {
    entries: Vec<(String, String)>,
}

impl View for DataMap {
    type V = Map<Seq<char>, Seq<char>>;

    closed spec fn view(&self) -> Map<Seq<char>, Seq<char>> {
        entry_map(self.entries@)
    }
}

proof fn lemma_entry_map_contains(s: Seq<(String, String)>, k: Seq<char>)
    ensures
        entry_map(s).contains_key(k) <==> exists|i: int| 0 <= i < s.len() && s[i].0@ == k,
    decreases s.len(),
{
    if s.len() > 0 {
        lemma_entry_map_contains(s.drop_last(), k);
        if entry_map(s).contains_key(k) {
            if s.last().0@ != k {
                let i = choose|i: int| 0 <= i < s.drop_last().len() && s.drop_last()[i].0@ == k;
                assert(s[i].0@ == k);
            }
        }
        if exists|i: int| 0 <= i < s.len() && s[i].0@ == k {
            let i = choose|i: int| 0 <= i < s.len() && s[i].0@ == k;
            if i < s.len() - 1 {
                assert(s.drop_last()[i].0@ == k);
            }
        }
    }
}

proof fn lemma_entry_map_at(s: Seq<(String, String)>, i: int)
    requires
        0 <= i < s.len(),
        forall|a: int, b: int|
            0 <= a < b < s.len() ==> (#[trigger] s[a]).0@ != (#[trigger] s[b]).0@,
    ensures
        entry_map(s).contains_key(s[i].0@),
        entry_map(s)[s[i].0@] == s[i].1@,
    decreases s.len(),
{
    if i == s.len() - 1 {
        lemma_entry_map_contains(s, s[i].0@);
    } else {
        assert(forall|a: int, b: int|
            0 <= a < b < s.drop_last().len()
                ==> (#[trigger] s.drop_last()[a]).0@ != (#[trigger] s.drop_last()[b]).0@);
        lemma_entry_map_at(s.drop_last(), i);
        assert(s.last().0@ != s[i].0@);
    }
}

impl DataMap {
    /// Keys of distinct entries are distinct.
    pub closed spec fn wf(&self) -> bool {
        forall|a: int, b: int|
            0 <= a < b < self.entries@.len()
                ==> (#[trigger] self.entries@[a]).0@ != (#[trigger] self.entries@[b]).0@
    }

    /// The entries in insertion order, as pairs of character sequences.
    pub closed spec fn spec_entries(&self) -> Seq<(Seq<char>, Seq<char>)> {
        self.entries@.map(|i: int, e: (String, String)| (e.0@, e.1@))
    }

    /// The view is the map the entry sequence denotes.
    pub proof fn lemma_view_is_pair_map(&self)
        ensures
            self@ == pair_map(self.spec_entries()),
    {
        lemma_entry_pair_map(self.entries@);
    }

    /// An empty context.
    pub fn new() -> (r: DataMap)
        ensures
            r@ == Map::<Seq<char>, Seq<char>>::empty(),
            r.spec_entries() == Seq::<(Seq<char>, Seq<char>)>::empty(),
            r.wf(),
    {
        let r = DataMap { entries: Vec::new() };
        proof {
            assert(r.spec_entries() =~= Seq::<(Seq<char>, Seq<char>)>::empty());
        }
        r
    }

    pub fn len(&self) -> (r: usize)
        ensures
            r == self.spec_entries().len(),
    {
        self.entries.len()
    }

    pub fn key_at(&self, i: usize) -> (r: &String)
        requires
            i < self.spec_entries().len(),
        ensures
            r@ == self.spec_entries()[i as int].0,
    {
        &self.entries[i].0
    }

    pub fn val_at(&self, i: usize) -> (r: &String)
        requires
            i < self.spec_entries().len(),
        ensures
            r@ == self.spec_entries()[i as int].1,
    {
        &self.entries[i].1
    }

    fn position_of(&self, key: &str) -> (r: Option<usize>)
        ensures
            match r {
                Some(i) => i < self.entries@.len() && self.entries@[i as int].0@ == key@,
                None => forall|i: int|
                    0 <= i < self.entries@.len() ==> (#[trigger] self.entries@[i]).0@ != key@,
            },
    {
        let n = self.entries.len();
        let mut i: usize = 0;
        while i < n
            invariant
                n == self.entries@.len(),
                i <= n,
                forall|j: int| 0 <= j < i ==> (#[trigger] self.entries@[j]).0@ != key@,
            decreases n - i,
        {
            if text::str_eq(self.entries[i].0.as_str(), key) {
                return Some(i);
            }
            i = i + 1;
        }
        None
    }

    /// Whether the context holds the key.
    pub fn contains_key(&self, key: &str) -> (r: bool)
        requires
            self.wf(),
        ensures
            r == self@.contains_key(key@),
    {
        proof {
            lemma_entry_map_contains(self.entries@, key@);
        }
        self.position_of(key).is_some()
    }

    /// The value under the key, if any.
    pub fn get(&self, key: &str) -> (r: Option<&String>)
        requires
            self.wf(),
        ensures
            match r {
                Some(v) => self@.contains_key(key@) && v@ == self@[key@],
                None => !self@.contains_key(key@),
            },
    {
        proof {
            lemma_entry_map_contains(self.entries@, key@);
        }
        match self.position_of(key) {
            Some(i) => {
                proof {
                    lemma_entry_map_at(self.entries@, i as int);
                }
                Some(&self.entries[i].1)
            },
            None => None,
        }
    }

    /// Sets the key to the value, replacing an earlier entry in place or
    /// appending a new one.
    pub fn insert(&mut self, key: String, value: String)
        requires
            old(self).wf(),
        ensures
            final(self)@ == old(self)@.insert(key@, value@),
            final(self).wf(),
            final(self).spec_entries().len() <= old(self).spec_entries().len() + 1,
    {
        let pos = self.position_of(key.as_str());
        match pos {
            Some(i) => {
                proof {
                    assert(forall|a: int, b: int|
                        0 <= a < b < self.entries@.update(i as int, (key, value)).len()
                            ==> (#[trigger] self.entries@.update(i as int, (key, value))[a]).0@
                                != (#[trigger] self.entries@.update(i as int, (key, value))[b]).0@);
                }
                let ghost olds = self.entries@;
                self.entries.set(i, (key, value));
                proof {
                    lemma_update_map(olds, i as int, self.entries@[i as int]);
                }
            },
            None => {
                let ghost olds = self.entries@;
                self.entries.push((key, value));
                proof {
                    assert(self.entries@.drop_last() =~= olds);
                }
            },
        }
    }

    /// A copy with the same entries.
    pub fn duplicate(&self) -> (r: DataMap)
        ensures
            r@ == self@,
            r.spec_entries() == self.spec_entries(),
            r.wf() == self.wf(),
    {
        let n = self.entries.len();
        let mut out: Vec<(String, String)> = Vec::new();
        let mut i: usize = 0;
        while i < n
            invariant
                n == self.entries@.len(),
                i <= n,
                out@.len() == i,
                forall|j: int| 0 <= j < i ==> out@[j] == self.entries@[j],
            decreases n - i,
        {
            let k = self.entries[i].0.clone();
            let v = self.entries[i].1.clone();
            out.push((k, v));
            i = i + 1;
        }
        let r = DataMap { entries: out };
        proof {
            assert(r.entries@ =~= self.entries@);
            assert(r.spec_entries() =~= self.spec_entries());
        }
        r
    }
}

proof fn lemma_entry_pair_map(s: Seq<(String, String)>)
    ensures
        entry_map(s) == pair_map(s.map(|i: int, e: (String, String)| (e.0@, e.1@))),
    decreases s.len(),
{
    let f = |i: int, e: (String, String)| (e.0@, e.1@);
    if s.len() > 0 {
        lemma_entry_pair_map(s.drop_last());
        assert(s.map(f).drop_last() =~= s.drop_last().map(f));
        assert(s.map(f).last() == f(s.len() - 1, s.last()));
    } else {
        assert(s.map(f).len() == 0);
    }
}

proof fn lemma_update_map(s: Seq<(String, String)>, i: int, e: (String, String))
    requires
        0 <= i < s.len(),
        e.0@ == s[i].0@,
        forall|a: int, b: int|
            0 <= a < b < s.len() ==> (#[trigger] s[a]).0@ != (#[trigger] s[b]).0@,
    ensures
        entry_map(s.update(i, e)) == entry_map(s).insert(e.0@, e.1@),
    decreases s.len(),
{
    let t = s.update(i, e);
    if i == s.len() - 1 {
        assert(t.drop_last() =~= s.drop_last());
        assert(entry_map(t) == entry_map(s.drop_last()).insert(e.0@, e.1@));
        assert(entry_map(s).insert(e.0@, e.1@)
            == entry_map(s.drop_last()).insert(s[i].0@, s[i].1@).insert(e.0@, e.1@));
        assert(entry_map(s.drop_last()).insert(s[i].0@, s[i].1@).insert(e.0@, e.1@)
            =~= entry_map(s.drop_last()).insert(e.0@, e.1@));
    } else {
        assert(t.drop_last() =~= s.drop_last().update(i, e));
        assert(forall|a: int, b: int|
            0 <= a < b < s.drop_last().len()
                ==> (#[trigger] s.drop_last()[a]).0@ != (#[trigger] s.drop_last()[b]).0@);
        lemma_update_map(s.drop_last(), i, e);
        assert(t.last() == s.last());
        // the two inserted keys differ, so the inserts commute
        assert(s.drop_last()[i].0@ == e.0@);
        assert(e.0@ != s.last().0@);
        assert(entry_map(t) == entry_map(s.drop_last()).insert(e.0@, e.1@).insert(
            s.last().0@,
            s.last().1@,
        ));
        assert(entry_map(s.drop_last()).insert(e.0@, e.1@).insert(s.last().0@, s.last().1@)
            =~= entry_map(s.drop_last()).insert(s.last().0@, s.last().1@).insert(e.0@, e.1@));
    }
}

} // verus!
