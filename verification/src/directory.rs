//! A table from names to values.

use vstd::prelude::*;

verus! {

/// An entry of a [`Directory`].
#[derive(Debug)]
pub struct Entry<V> {
    name: String,
    value: V,
}

/// A table from names to values. No name occurs twice.
#[derive(Debug)]
pub struct Directory<V> {
    entries: Vec<Entry<V>>,
}

impl<V> Directory<V> {
    /// No name occurs twice.
    pub closed spec fn wf(&self) -> bool {
        forall|i: int, j: int|
            0 <= i < j < self.entries@.len() ==> (#[trigger] self.entries@[i]).name@ != (
            #[trigger] self.entries@[j]).name@
    }

    closed spec fn has(&self, name: Seq<char>) -> bool {
        exists|i: int| 0 <= i < self.entries@.len() && (#[trigger] self.entries@[i]).name@ == name
    }

    closed spec fn place(&self, name: Seq<char>) -> int {
        choose|i: int| 0 <= i < self.entries@.len() && (#[trigger] self.entries@[i]).name@ == name
    }
}

impl<V> View for Directory<V> {
    type V = Map<Seq<char>, V>;

    closed spec fn view(&self) -> Map<Seq<char>, V> {
        Map::new(
            |name: Seq<char>| self.has(name),
            |name: Seq<char>| self.entries@[self.place(name)].value,
        )
    }
}

impl<V> Directory<V> {
    pub fn new() -> (r: Self)
        ensures
            r.wf(),
            r@ == Map::<Seq<char>, V>::empty(),
    {
        let r = Directory { entries: Vec::new() };
        assert(r@ =~= Map::<Seq<char>, V>::empty());
        r
    }

    fn find(&self, name: &String) -> (r: Option<usize>)
        requires
            self.wf(),
        ensures
            match r {
                Some(i) => i < self.entries@.len() && self.entries@[i as int].name@ == name@
                    && self@.dom().contains(name@) && self@[name@] == self.entries@[i as int].value,
                None => !self@.dom().contains(name@),
            },
    {
        let mut i: usize = 0;
        while i < self.entries.len()
            invariant
                self.wf(),
                i <= self.entries@.len(),
                forall|j: int| 0 <= j < i ==> (#[trigger] self.entries@[j]).name@ != name@,
            decreases self.entries@.len() - i,
        {
            if self.entries[i].name == *name {
                proof {
                    assert(self.entries@[i as int].name@ == name@);
                    assert(self.has(name@));
                    assert(self.place(name@) == i);
                }
                return Some(i);
            }
            i = i + 1;
        }
        None
    }

    pub fn get(&self, name: &String) -> (r: Option<&V>)
        requires
            self.wf(),
        ensures
            match r {
                Some(v) => self@.dom().contains(name@) && *v == self@[name@],
                None => !self@.dom().contains(name@),
            },
    {
        match self.find(name) {
            Some(i) => Some(&self.entries[i].value),
            None => None,
        }
    }

    pub fn get_mut(&mut self, name: &String) -> (r: Option<&mut V>)
        requires
            old(self).wf(),
        ensures
            final(self).wf(),
            match r {
                Some(v) => {
                    &&& old(self)@.dom().contains(name@)
                    &&& *v == old(self)@[name@]
                    &&& final(self)@ == old(self)@.insert(name@, *final(v))
                },
                None => !old(self)@.dom().contains(name@) && final(self)@ == old(self)@,
            },
    {
        match self.find(name) {
            Some(i) => {
                proof {
                    assert forall|b: Self, v: V|
                        #![trigger b@, self@.insert(name@, v)]
                        b.entries@ == self.entries@.update(
                            i as int,
                            Entry { name: self.entries@[i as int].name, value: v },
                        ) implies b.wf() && b@ == self@.insert(name@, v) by {
                        lemma_set(*self, b, i as int, v);
                    }
                }
                Some(&mut self.entries[i].value)
            },
            None => None,
        }
    }

    /// Adds a value under a name that is not in use yet.
    pub fn add(&mut self, name: String, value: V)
        requires
            old(self).wf(),
            !old(self)@.dom().contains(name@),
        ensures
            final(self).wf(),
            final(self)@ == old(self)@.insert(name@, value),
    {
        let ghost o = *self;
        self.entries.push(Entry { name, value });
        proof {
            let n = o.entries@.len() as int;
            assert forall|x: Seq<char>| #[trigger] self.has(x) == (o.has(x) || x == name@) by {
                if o.has(x) {
                    assert(self.entries@[o.place(x)].name@ == x);
                }
                assert(self.entries@[n].name@ == name@);
                if self.has(x) && x != name@ {
                    let i = self.place(x);
                    assert(o.entries@[i].name@ == x);
                }
            }
            assert forall|i: int| 0 <= i < n implies (#[trigger] self.entries@[i]).name@
                != name@ by {
                assert(self.entries@[i] == o.entries@[i]);
                assert(o.has(o.entries@[i].name@));
            }
            assert forall|i: int, j: int| 0 <= i < j < self.entries@.len() implies (
            #[trigger] self.entries@[i]).name@ != (#[trigger] self.entries@[j]).name@ by {
                assert(self.entries@[i] == o.entries@[i]);
                if j < n {
                    assert(self.entries@[j] == o.entries@[j]);
                }
            }
            assert forall|x: Seq<char>| o.has(x) implies #[trigger] self.place(x) == o.place(x) by {
                assert(self.entries@[o.place(x)] == o.entries@[o.place(x)]);
                assert(self.has(x));
            }
            assert(self.has(name@));
            assert(self.place(name@) == n);
            assert(self@ =~= o@.insert(name@, value));
        }
    }
}

proof fn lemma_set<V>(a: Directory<V>, b: Directory<V>, i: int, value: V)
    requires
        a.wf(),
        0 <= i < a.entries@.len(),
        b.entries@ == a.entries@.update(i, Entry { name: a.entries@[i].name, value }),
    ensures
        b.wf(),
        b@ == a@.insert(a.entries@[i].name@, value),
{
    let name = a.entries@[i].name@;
    assert forall|j: int| 0 <= j < a.entries@.len() implies (#[trigger] b.entries@[j]).name
        == a.entries@[j].name by {}
    assert forall|x: Seq<char>| #[trigger] a.has(x) == b.has(x) by {
        if a.has(x) {
            assert(b.entries@[a.place(x)].name@ == x);
        }
        if b.has(x) {
            assert(a.entries@[b.place(x)].name@ == x);
        }
    }
    assert forall|x: Seq<char>| a.has(x) implies #[trigger] a.place(x) == b.place(x) by {
        assert(b.has(x));
        assert(b.entries@[b.place(x)].name@ == x);
        assert(a.entries@[a.place(x)].name@ == x);
        assert(b.entries@[a.place(x)].name@ == x);
    }
    assert(a.has(name));
    assert(a.place(name) == i);
    assert(b@ =~= a@.insert(name, value));
}

} // verus!
