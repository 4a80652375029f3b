//! Values by name.
use crate::text::same_text;
use vstd::prelude::*;
use vstd::string::*;

verus! {

/// A map from names to values, in the order in which the names came.
#[derive(Debug, Clone)]
pub struct NamedMap<T> {
    pub entries: Vec<(String, T)>,
}

/// The names of some entries.
pub open spec fn names<T>(s: Seq<(String, T)>) -> Seq<Seq<char>> {
    Seq::new(s.len(), |i: int| s[i].0@)
}

impl<T> View for NamedMap<T> {
    type V = Map<Seq<char>, T>;

    open spec fn view(&self) -> Map<Seq<char>, T> {
        Map::new(
            |k: Seq<char>| names(self.entries@).contains(k),
            |k: Seq<char>| self.entries@[names(self.entries@).index_of(k)].1,
        )
    }
}

impl<T> NamedMap<T> {
    /// No name stands twice.
    pub open spec fn wf(&self) -> bool {
        forall|i: int, j: int|
            #![trigger self.entries@[i], self.entries@[j]]
            0 <= i < j < self.entries@.len() ==> self.entries@[i].0@ != self.entries@[j].0@
    }

    /// The entry at `i` is what the map has under its name.
    pub proof fn entry_at(&self, i: int)
        requires
            self.wf(),
            0 <= i < self.entries@.len(),
        ensures
            self@.contains_key(self.entries@[i].0@),
            self@[self.entries@[i].0@] == self.entries@[i].1,
    {
        let ns = names(self.entries@);
        let k = self.entries@[i].0@;
        assert(ns[i] == k);
        assert(ns.contains(k));
        let j = ns.index_of(k);
        assert(0 <= j < ns.len() && ns[j] == k);
        if i != j {
            let a = self.entries@[i];
            let b = self.entries@[j];
            assert(a.0@ == b.0@);
        }
    }

    /// Every name of the map stands at some entry.
    pub proof fn has_entry(&self, k: Seq<char>) -> (i: int)
        requires
            self@.contains_key(k),
        ensures
            0 <= i < self.entries@.len(),
            self.entries@[i].0@ == k,
            self@[k] == self.entries@[i].1,
    {
        let ns = names(self.entries@);
        let i = ns.index_of(k);
        assert(0 <= i < ns.len() && ns[i] == k);
        i
    }

    pub fn new() -> (r: NamedMap<T>)
        ensures
            r.wf(),
            r.entries@.len() == 0,
            r@ == Map::<Seq<char>, T>::empty(),
    {
        let r = NamedMap { entries: Vec::new() };
        assert(r@ =~= Map::<Seq<char>, T>::empty());
        r
    }

    pub fn len(&self) -> (r: usize)
        ensures
            r == self.entries@.len(),
    {
        self.entries.len()
    }

    /// Where the name stands.
    pub fn position(&self, key: &str) -> (r: Option<usize>)
        requires
            self.wf(),
        ensures
            match r {
                Some(i) => i < self.entries@.len() && self.entries@[i as int].0@ == key@
                    && self@.contains_key(key@) && self@[key@] == self.entries@[i as int].1,
                None => !self@.contains_key(key@),
            },
    {
        let n: usize = self.entries.len();
        let mut i: usize = 0;
        while i < n
            invariant
                n == self.entries@.len(),
                i <= n,
                self.wf(),
                forall|j: int| 0 <= j < i ==> (#[trigger] self.entries@[j]).0@ != key@,
            decreases n - i,
        {
            if same_text(self.entries[i].0.as_str(), key) {
                proof {
                    self.entry_at(i as int);
                }
                return Some(i);
            }
            i = i + 1;
        }
        proof {
            if self@.contains_key(key@) {
                let j = self.has_entry(key@);
            }
        }
        None
    }

    /// The value under the name.
    pub fn get(&self, key: &str) -> (r: Option<&T>)
        requires
            self.wf(),
        ensures
            match r {
                Some(v) => self@.contains_key(key@) && *v == self@[key@],
                None => !self@.contains_key(key@),
            },
    {
        match self.position(key) {
            Some(i) => Some(&self.entries[i].1),
            None => None,
        }
    }

    pub fn contains_key(&self, key: &str) -> (r: bool)
        requires
            self.wf(),
        ensures
            r == self@.contains_key(key@),
    {
        match self.position(key) {
            Some(_) => true,
            None => false,
        }
    }

    /// Puts the value under the name, in place of the one that was there.
    pub fn insert(&mut self, key: String, value: T)
        requires
            old(self).wf(),
        ensures
            final(self).wf(),
            final(self)@ == old(self)@.insert(key@, value),
    {
        let ghost before = *self;
        let ghost k = key@;
        match self.position(key.as_str()) {
            Some(i) => {
                self.entries[i] = (key, value);
                proof {
                    let after = *self;
                    assert(after.wf()) by {
                        assert forall|a: int, b: int|
                            #![trigger after.entries@[a], after.entries@[b]]
                            0 <= a < b < after.entries@.len() implies after.entries@[a].0@
                            != after.entries@[b].0@ by {
                            let x = before.entries@[a];
                            let y = before.entries@[b];
                            assert(x.0@ != y.0@);
                        }
                    }
                    assert(names(after.entries@) =~= names(before.entries@));
                    assert forall|n: Seq<char>| after@.contains_key(n) implies after@[n]
                        == before@.insert(k, value)[n] by {
                        let j = after.has_entry(n);
                        if j != i {
                            before.entry_at(j);
                        }
                    }
                    assert(after@ =~= before@.insert(k, value));
                }
            },
            None => {
                self.entries.push((key, value));
                proof {
                    before.pushed(*self, k, value);
                }
            },
        }
    }

    proof fn pushed(self, after: NamedMap<T>, k: Seq<char>, value: T)
        requires
            self.wf(),
            !self@.contains_key(k),
            after.entries@.len() == self.entries@.len() + 1,
            after.entries@.drop_last() =~= self.entries@,
            after.entries@.last().0@ == k,
            after.entries@.last().1 == value,
        ensures
            after.wf(),
            after@ == self@.insert(k, value),
    {
        let n = self.entries@.len() as int;
        assert forall|i: int| 0 <= i < n implies #[trigger] after.entries@[i]
            == self.entries@[i] by {
            assert(after.entries@.drop_last()[i] == self.entries@[i]);
        }
        assert forall|a: int, b: int|
            #![trigger after.entries@[a], after.entries@[b]]
            0 <= a < b < after.entries@.len() implies after.entries@[a].0@
            != after.entries@[b].0@ by {
            assert(after.entries@[a] == self.entries@[a]);
            self.entry_at(a);
            if b < n {
                let y = self.entries@[b];
            }
        }
        let want = self@.insert(k, value);
        assert forall|x: Seq<char>|
            #![trigger after@.dom().contains(x)]
            #![trigger want.dom().contains(x)]
            after@.dom().contains(x) == want.dom().contains(x) && (after@.dom().contains(x)
                ==> after@[x] == want[x]) by {
            if after@.contains_key(x) {
                let j = after.has_entry(x);
                if j < n {
                    self.entry_at(j);
                }
            }
            if self@.contains_key(x) {
                let j = self.has_entry(x);
                after.entry_at(j);
            }
            if x == k {
                after.entry_at(n);
            }
        }
        assert(after@.dom() =~= want.dom());
        assert(after@ =~= want);
    }

    /// Takes the name out.
    pub fn remove(&mut self, key: &str) -> (r: Option<T>)
        requires
            old(self).wf(),
        ensures
            final(self).wf(),
            final(self)@ == old(self)@.remove(key@),
            match r {
                Some(v) => old(self)@.contains_key(key@) && v == old(self)@[key@],
                None => !old(self)@.contains_key(key@),
            },
    {
        let ghost before = *self;
        match self.position(key) {
            Some(i) => {
                let (_, value) = self.entries.remove(i);
                proof {
                    let after = *self;
                    assert(after.entries@ =~= before.entries@.remove(i as int));
                    assert forall|a: int, b: int|
                        #![trigger after.entries@[a], after.entries@[b]]
                        0 <= a < b < after.entries@.len() implies after.entries@[a].0@
                        != after.entries@[b].0@ by {
                        let pa = if a < i { a } else { a + 1 };
                        let pb = if b < i { b } else { b + 1 };
                        assert(after.entries@[a] == before.entries@[pa]);
                        assert(after.entries@[b] == before.entries@[pb]);
                    }
                    let want = before@.remove(key@);
                    assert forall|x: Seq<char>|
                        #![trigger after@.dom().contains(x)]
                        #![trigger want.dom().contains(x)]
                        after@.dom().contains(x) == want.dom().contains(x) && (
                        after@.dom().contains(x) ==> after@[x] == want[x]) by {
                        if after@.contains_key(x) {
                            let j = after.has_entry(x);
                            let pj = if j < i { j } else { j + 1 };
                            assert(after.entries@[j] == before.entries@[pj]);
                            before.entry_at(pj);
                            let u = before.entries@[i as int];
                            let w = before.entries@[pj];
                        }
                        if before@.contains_key(x) && x != key@ {
                            let j = before.has_entry(x);
                            let pj = if j < i { j } else { j - 1 };
                            assert(after.entries@[pj] == before.entries@[j]);
                            after.entry_at(pj);
                        }
                    }
                    assert(after@.dom() =~= want.dom());
                    assert(after@ =~= want);
                }
                Some(value)
            },
            None => {
                assert(self@ =~= before@.remove(key@));
                None
            },
        }
    }
}

impl<T> NamedMap<T> {
    /// All names.
    pub fn keys(&self) -> (r: Vec<String>)
        requires
            self.wf(),
        ensures
            texts(r@) == names(self.entries@),
            texts(r@).to_set() == self@.dom(),
            texts(r@).no_duplicates(),
    {
        let n: usize = self.entries.len();
        let mut out: Vec<String> = Vec::new();
        let mut i: usize = 0;
        while i < n
            invariant
                n == self.entries@.len(),
                i <= n,
                out@.len() == i,
                forall|j: int| 0 <= j < i ==> (#[trigger] out@[j])@ == self.entries@[j].0@,
            decreases n - i,
        {
            out.push(self.entries[i].0.clone());
            i = i + 1;
        }
        proof {
            assert(texts(out@) =~= names(self.entries@));
            assert(texts(out@).to_set() =~= self@.dom());
        }
        out
    }

    /// Puts all values of the other map under their names, in place of those that
    /// were there.
    pub fn extend(&mut self, other: NamedMap<T>)
        requires
            old(self).wf(),
            other.wf(),
        ensures
            final(self).wf(),
            final(self)@ == old(self)@.union_prefer_right(other@),
    {
        let ghost start = self@;
        let ghost all = other.entries@;
        let entries = other.entries;
        proof {
            assert(self@ =~= start.union_prefer_right(Map::empty()));
        }
        let ghost mut done: Map<Seq<char>, T> = Map::empty();
        for entry in it: entries
            invariant
                it.seq() == all,
                all == other.entries@,
                other.wf(),
                self.wf(),
                self@ == start.union_prefer_right(done),
                forall|k: Seq<char>|
                    #[trigger]
                    done.dom().contains(k) <==> exists|j: int|
                        0 <= j < it.index() && (#[trigger] all[j]).0@ == k,
                forall|k: Seq<char>| #[trigger] done.dom().contains(k) ==> done[k] == other@[k],
        {
            let ghost i = it.index();
            let ghost before = done;
            proof {
                assert(entry == all[i as int]);
                other.entry_at(i as int);
            }
            let (key, value) = entry;
            let ghost k0 = key@;
            let ghost mid = self@;
            self.insert(key, value);
            proof {
                done = before.insert(k0, value);
                assert(self@ =~= start.union_prefer_right(done));
                assert forall|k: Seq<char>|
                    #[trigger]
                    done.dom().contains(k) <==> exists|j: int|
                        0 <= j < i + 1 && (#[trigger] all[j]).0@ == k by {
                    if done.dom().contains(k) {
                        if before.dom().contains(k) {
                            let j = choose|j: int| 0 <= j < i && (#[trigger] all[j]).0@ == k;
                            assert(all[j].0@ == k);
                        } else {
                            assert(all[i as int].0@ == k);
                        }
                    }
                    if exists|j: int| 0 <= j < i + 1 && (#[trigger] all[j]).0@ == k {
                        let j = choose|j: int| 0 <= j < i + 1 && (#[trigger] all[j]).0@ == k;
                        if j < i {
                            assert(before.dom().contains(k));
                        }
                    }
                }
            }
        }
        proof {
            assert(done.dom() =~= other@.dom()) by {
                assert forall|k: Seq<char>| done.dom().contains(k) == other@.dom().contains(k) by {
                    if other@.contains_key(k) {
                        let j = other.has_entry(k);
                        assert(all[j].0@ == k);
                    }
                    if done.dom().contains(k) {
                        let j = choose|j: int| 0 <= j < all.len() && (#[trigger] all[j]).0@ == k;
                        other.entry_at(j);
                    }
                }
            }
            assert(done =~= other@);
        }
    }
}

/// The texts of some strings.
pub open spec fn texts(s: Seq<String>) -> Seq<Seq<char>> {
    Seq::new(s.len(), |i: int| s[i]@)
}

/// The same strings once more.
pub fn copy_texts(v: &Vec<String>) -> (r: Vec<String>)
    ensures
        texts(r@) == texts(v@),
{
    let n: usize = v.len();
    let mut out: Vec<String> = Vec::new();
    let mut i: usize = 0;
    while i < n
        invariant
            n == v@.len(),
            i <= n,
            texts(out@) == texts(v@).take(i as int),
            out@.len() == i,
        decreases n - i,
    {
        let ghost before = out@;
        out.push(v[i].clone());
        proof {
            assert(texts(out@) =~= texts(before).push(v@[i as int]@));
            assert(texts(v@).take(i + 1) =~= texts(v@).take(i as int).push(v@[i as int]@));
        }
        i = i + 1;
    }
    assert(texts(v@).take(n as int) =~= texts(v@));
    out
}

/// Whether the text is among the strings.
pub fn has_text(v: &Vec<String>, s: &str) -> (r: bool)
    ensures
        r == texts(v@).contains(s@),
{
    let n: usize = v.len();
    let mut i: usize = 0;
    while i < n
        invariant
            n == v@.len(),
            i <= n,
            forall|j: int| 0 <= j < i ==> (#[trigger] v@[j])@ != s@,
        decreases n - i,
    {
        if same_text(v[i].as_str(), s) {
            assert(texts(v@)[i as int] == s@);
            return true;
        }
        i = i + 1;
    }
    proof {
        if texts(v@).contains(s@) {
            let j = choose|j: int| 0 <= j < texts(v@).len() && texts(v@)[j] == s@;
            let x = v@[j];
        }
    }
    false
}

} // verus!
