//! A map from text to text.

use vstd::prelude::*;
use vstd::string::*;

use crate::text::same_text;

verus! {

/// A map from text to text that lists its entries in the order in which their
/// keys first came.
#[derive(Clone, Debug)]
pub struct StringMap {
    entries: Vec<(String, String)>,
}

impl View for StringMap {
    type V = Map<Seq<char>, Seq<char>>;

    closed spec fn view(&self) -> Map<Seq<char>, Seq<char>> {
        listed(self.entries@)
    }
}

/// The map that a list of entries spells out, the last entry of a key deciding.
spec fn listed(entries: Seq<(String, String)>) -> Map<Seq<char>, Seq<char>>
    decreases entries.len(),
{
    if entries.len() == 0 {
        Map::empty()
    } else {
        listed(entries.drop_last()).insert(entries.last().0@, entries.last().1@)
    }
}

/// Whether no key stands twice in a list of entries.
spec fn distinct(entries: Seq<(String, String)>) -> bool {
    forall|i: int, j: int|
        0 <= i < j < entries.len() ==> (#[trigger] entries[i]).0@ != (#[trigger] entries[j]).0@
}

/// A listed map has exactly the listed keys, with their values.
proof fn lemma_listed(entries: Seq<(String, String)>)
    requires
        distinct(entries),
    ensures
        forall|k: Seq<char>| #[trigger]
            listed(entries).dom().contains(k) <==> exists|i: int|
                0 <= i < entries.len() && (#[trigger] entries[i]).0@ == k,
        forall|i: int|
            0 <= i < entries.len() ==> listed(entries)[(#[trigger] entries[i]).0@]
                == entries[i].1@,
        listed(entries).dom().finite(),
        listed(entries).dom().len() == entries.len(),
    decreases entries.len(),
{
    if entries.len() == 0 {
        assert(listed(entries).dom() =~= Set::empty());
    } else {
        let init = entries.drop_last();
        assert(distinct(init)) by {
            assert forall|i: int, j: int| 0 <= i < j < init.len() implies (#[trigger] init[i]).0@
                != (#[trigger] init[j]).0@ by {
                assert(entries[i].0@ != entries[j].0@);
            }
        }
        lemma_listed(init);
        let last = entries.last().0@;
        assert(!listed(init).dom().contains(last)) by {
            if listed(init).dom().contains(last) {
                let i = choose|i: int| 0 <= i < init.len() && (#[trigger] init[i]).0@ == last;
                assert(entries[i].0@ != entries[entries.len() - 1].0@);
            }
        }
        assert(listed(entries).dom() =~= listed(init).dom().insert(last));
        assert forall|k: Seq<char>| #[trigger]
            listed(entries).dom().contains(k) <==> exists|i: int|
                0 <= i < entries.len() && (#[trigger] entries[i]).0@ == k by {
            if listed(entries).dom().contains(k) {
                if k == entries.last().0@ {
                    assert(entries[entries.len() - 1].0@ == k);
                } else {
                    assert(listed(init).dom().contains(k));
                    let i = choose|i: int| 0 <= i < init.len() && (#[trigger] init[i]).0@ == k;
                    assert(entries[i].0@ == k);
                }
            }
            if exists|i: int| 0 <= i < entries.len() && (#[trigger] entries[i]).0@ == k {
                let i = choose|i: int| 0 <= i < entries.len() && (#[trigger] entries[i]).0@ == k;
                if i < init.len() {
                    assert(init[i].0@ == k);
                }
            }
        }
        assert forall|i: int| 0 <= i < entries.len() implies listed(entries)[(
        #[trigger] entries[i]).0@] == entries[i].1@ by {
            if i < init.len() {
                assert(init[i].0@ == entries[i].0@);
                assert(entries[i].0@ != entries[entries.len() - 1].0@);
            }
        }
    }
}

impl StringMap {
    /// No key is listed twice.
    pub closed spec fn wf(&self) -> bool {
        distinct(self.entries@)
    }

    /// How many entries are listed.
    pub closed spec fn spec_len(&self) -> nat {
        self.entries@.len()
    }

    /// The key of entry `i`.
    pub closed spec fn key(&self, i: int) -> Seq<char> {
        self.entries@[i].0@
    }

    /// The empty map.
    pub fn new() -> (r: StringMap)
        ensures
            r.wf(),
            r@ == Map::<Seq<char>, Seq<char>>::empty(),
            r.spec_len() == 0,
    {
        StringMap { entries: Vec::new() }
    }

    /// The number of keys.
    pub fn len(&self) -> (r: usize)
        requires
            self.wf(),
        ensures
            r == self.spec_len(),
            self@.dom().finite(),
            r == self@.dom().len(),
    {
        proof {
            lemma_listed(self.entries@);
        }
        self.entries.len()
    }

    /// The entries of the map: each key of the map once, with its value.
    pub fn entry(&self, i: usize) -> (r: (&String, &String))
        requires
            self.wf(),
            i < self.spec_len(),
        ensures
            r.0@ == self.key(i as int),
            self@.dom().contains(r.0@),
            self@[r.0@] == r.1@,
    {
        proof {
            lemma_listed(self.entries@);
        }
        let e = &self.entries[i];
        assert(self.entries@[i as int].0@ == e.0@);
        (&e.0, &e.1)
    }

    /// Every key of the map is the key of an entry.
    pub proof fn lemma_keys_listed(&self)
        requires
            self.wf(),
        ensures
            forall|k: Seq<char>| #[trigger]
                self@.dom().contains(k) <==> exists|i: int|
                    0 <= i < self.spec_len() && #[trigger] self.key(i) == k,
    {
        lemma_listed(self.entries@);
        assert forall|k: Seq<char>| #[trigger]
            self@.dom().contains(k) <==> exists|i: int|
                0 <= i < self.spec_len() && #[trigger] self.key(i) == k by {
            if self@.dom().contains(k) {
                let i = choose|i: int|
                    0 <= i < self.entries@.len() && (#[trigger] self.entries@[i]).0@ == k;
                assert(self.key(i) == k);
            }
            if exists|i: int| 0 <= i < self.spec_len() && #[trigger] self.key(i) == k {
                let i = choose|i: int| 0 <= i < self.spec_len() && #[trigger] self.key(i) == k;
                assert(self.entries@[i].0@ == k);
            }
        }
    }

    /// The position of the entry of `key`, or the number of entries.
    fn position(&self, key: &str) -> (r: usize)
        ensures
            r <= self.entries@.len(),
            r < self.entries@.len() ==> self.entries@[r as int].0@ == key@,
            forall|i: int| 0 <= i < r ==> (#[trigger] self.entries@[i]).0@ != key@,
    {
        let mut i: usize = 0;
        while i < self.entries.len()
            invariant
                i <= self.entries@.len(),
                forall|k: int| 0 <= k < i ==> (#[trigger] self.entries@[k]).0@ != key@,
            decreases self.entries@.len() - i,
        {
            if same_text(self.entries[i].0.as_str(), key) {
                return i;
            }
            i = i + 1;
        }
        i
    }

    /// The value of `key`, if it has one.
    pub fn get(&self, key: &str) -> (r: Option<String>)
        requires
            self.wf(),
        ensures
            match r {
                Some(v) => self@.dom().contains(key@) && v@ == self@[key@],
                None => !self@.dom().contains(key@),
            },
    {
        let i = self.position(key);
        proof {
            lemma_listed(self.entries@);
        }
        if i < self.entries.len() {
            assert(self.entries@[i as int].0@ == key@);
            Some(self.entries[i].1.clone())
        } else {
            None
        }
    }

    /// Gives `key` the value `value`, in place of any that it had.
    pub fn insert(&mut self, key: String, value: String)
        requires
            old(self).wf(),
        ensures
            final(self).wf(),
            final(self)@ == old(self)@.insert(key@, value@),
    {
        let i = self.position(key.as_str());
        let ghost prev = self.entries@;
        let ghost k = key@;
        let ghost v = value@;
        if i < self.entries.len() {
            self.entries.set(i, (key, value));
            proof {
                let next = self.entries@;
                assert(distinct(next)) by {
                    assert forall|a: int, b: int| 0 <= a < b < next.len() implies (
                    #[trigger] next[a]).0@ != (#[trigger] next[b]).0@ by {
                        assert(next[a].0@ == prev[a].0@);
                        assert(next[b].0@ == prev[b].0@);
                    }
                }
                lemma_listed(prev);
                lemma_listed(next);
                let want = listed(prev).insert(k, v);
                assert forall|x: Seq<char>| #[trigger]
                    listed(next).dom().contains(x) == want.dom().contains(x) by {
                    if listed(next).dom().contains(x) {
                        let j = choose|j: int| 0 <= j < next.len() && (#[trigger] next[j]).0@ == x;
                        assert(prev[j].0@ == x);
                    }
                    if want.dom().contains(x) {
                        if x == k {
                            assert(next[i as int].0@ == x);
                        } else {
                            let j = choose|j: int|
                                0 <= j < prev.len() && (#[trigger] prev[j]).0@ == x;
                            assert(next[j].0@ == x);
                        }
                    }
                }
                assert forall|x: Seq<char>| #[trigger] want.dom().contains(x) implies listed(
                    next,
                )[x] == want[x] by {
                    assert(listed(next).dom().contains(x));
                    let j = choose|j: int| 0 <= j < next.len() && (#[trigger] next[j]).0@ == x;
                    if j != i {
                        assert(prev[j].0@ == x);
                        assert(x != k) by {
                            if j < i {
                                assert(prev[j].0@ != prev[i as int].0@);
                            } else {
                                assert(prev[i as int].0@ != prev[j].0@);
                            }
                        }
                    }
                }
                assert(listed(next) =~= want);
            }
        } else {
            self.entries.push((key, value));
            assert(self.entries@.drop_last() =~= prev);
        }
    }
}

} // verus!
