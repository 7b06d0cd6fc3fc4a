use crate::error::names_view;
use vstd::prelude::*;

verus! {

/// Items keyed by unique names, in the order they were added.
pub struct Registry<T> {
    names: Vec<String>,
    items: Vec<T>,
}

impl<T> Registry<T> {
    /// The keys, in order.
    pub closed spec fn keys(&self) -> Seq<Seq<char>> {
        names_view(self.names@)
    }

    /// The items, in the order of their keys.
    pub closed spec fn items(&self) -> Seq<T> {
        self.items@
    }

    /// One item per key, and no key twice.
    pub open spec fn wf(&self) -> bool {
        &&& self.keys().len() == self.items().len()
        &&& self.keys().no_duplicates()
    }

    /// The position of `name` among the keys, if it is one.
    pub open spec fn index_of(&self, name: Seq<char>) -> Option<int> {
        if self.keys().contains(name) {
            Some(choose|i: int| 0 <= i < self.keys().len() && self.keys()[i] == name)
        } else {
            None
        }
    }

    /// The item kept under `name`, if `name` is a key.
    pub open spec fn lookup(&self, name: Seq<char>) -> Option<T> {
        match self.index_of(name) {
            Some(i) => Some(self.items()[i]),
            None => None,
        }
    }

    /// With unique keys, the position of a key is the one it stands at.
    pub proof fn lemma_index_of(&self, i: int)
        requires
            self.wf(),
            0 <= i < self.keys().len(),
        ensures
            self.index_of(self.keys()[i]) == Some(i),
            self.lookup(self.keys()[i]) == Some(self.items()[i]),
    {
        assert(self.keys().contains(self.keys()[i]));
    }

    /// After the item at position `i` alone changed, the lookups of the other keys are as before.
    pub proof fn lemma_update(&self, before: &Self, i: int)
        requires
            before.wf(),
            0 <= i < before.keys().len(),
            self.keys() == before.keys(),
            self.items() == before.items().update(i, self.items()[i]),
        ensures
            self.wf(),
            self.lookup(self.keys()[i]) == Some(self.items()[i]),
            forall|k: Seq<char>| k != self.keys()[i] ==> #[trigger] self.lookup(k) == before.lookup(k),
    {
        self.lemma_index_of(i);
        assert forall|k: Seq<char>| k != self.keys()[i] implies #[trigger] self.lookup(k) == before.lookup(k) by {
            if self.keys().contains(k) {
                let j = self.index_of(k)->Some_0;
                self.lemma_index_of(j);
                before.lemma_index_of(j);
            }
        }
    }

    pub fn new() -> (r: Self)
        ensures
            r.wf(),
            r.keys() == Seq::<Seq<char>>::empty(),
            r.items() == Seq::<T>::empty(),
    {
        let r = Registry { names: Vec::new(), items: Vec::new() };
        assert(r.keys() =~= Seq::<Seq<char>>::empty());
        r
    }

    pub fn len(&self) -> (r: usize)
        requires
            self.wf(),
        ensures
            r == self.keys().len(),
    {
        self.items.len()
    }

    /// Adds `item` under `name`, unless `name` is already a key; says whether it was added.
    pub fn add(&mut self, name: String, item: T) -> (added: bool)
        requires
            old(self).wf(),
        ensures
            final(self).wf(),
            added == !old(self).keys().contains(name@),
            added ==> final(self).keys() == old(self).keys().push(name@),
            added ==> final(self).items() == old(self).items().push(item),
            !added ==> *final(self) == *old(self),
    {
        match self.find(&name) {
            Some(_) => false,
            None => {
                self.names.push(name);
                self.items.push(item);
                assert(self.keys() =~= old(self).keys().push(name@));
                proof {
                    let k = self.keys();
                    assert forall|i: int, j: int| 0 <= i < k.len() && 0 <= j < k.len() && i != j
                        implies k[i] != k[j] by {
                        if i == k.len() - 1 {
                            assert(old(self).keys().contains(k[j]));
                        } else if j == k.len() - 1 {
                            assert(old(self).keys().contains(k[i]));
                        }
                    }
                }
                true
            },
        }
    }

    /// The position of `name` among the keys.
    pub fn find(&self, name: &String) -> (r: Option<usize>)
        requires
            self.wf(),
        ensures
            r matches Some(i) ==> self.index_of(name@) == Some(i as int),
            r matches Some(i) ==> i < self.keys().len() && self.keys()[i as int] == name@,
            r is None <==> !self.keys().contains(name@),
    {
        let mut i: usize = 0;
        while i < self.names.len()
            invariant
                self.wf(),
                i <= self.names@.len(),
                forall|j: int| 0 <= j < i ==> self.keys()[j] != name@,
            decreases self.names@.len() - i,
        {
            if self.names[i] == *name {
                proof {
                    assert(self.keys()[i as int] == name@);
                    let c = choose|k: int| 0 <= k < self.keys().len() && self.keys()[k] == name@;
                    assert(c == i);
                }
                return Some(i);
            }
            i = i + 1;
        }
        None
    }

    /// Copies of the keys, in order.
    pub fn names(&self) -> (r: Vec<String>)
        requires
            self.wf(),
        ensures
            names_view(r@) == self.keys(),
    {
        let mut r: Vec<String> = Vec::new();
        let mut i: usize = 0;
        while i < self.names.len()
            invariant
                i <= self.names@.len(),
                names_view(r@) == self.keys().take(i as int),
            decreases self.names@.len() - i,
        {
            let ghost before = r@;
            let s = self.names[i].clone();
            r.push(s);
            assert(r@ == before.push(s));
            assert(names_view(r@) =~= names_view(before).push(self.names@[i as int]@));
            i = i + 1;
            assert(names_view(r@) =~= self.keys().take(i as int));
        }
        assert(self.keys().take(i as int) =~= self.keys());
        r
    }

    /// The item at position `i`.
    pub fn get(&self, i: usize) -> (r: &T)
        requires
            self.wf(),
            i < self.keys().len(),
        ensures
            *r == self.items()[i as int],
    {
        &self.items[i]
    }

    /// The item at position `i`, to change in place; the keys stay as they are.
    pub fn get_mut(&mut self, i: usize) -> (r: &mut T)
        requires
            old(self).wf(),
            i < old(self).keys().len(),
        ensures
            *r == old(self).items()[i as int],
            final(self).keys() == old(self).keys(),
            final(self).items() == old(self).items().update(i as int, *final(r)),
    {
        &mut self.items[i]
    }

    /// The keys and the items, in order.
    pub fn into_parts(self) -> (r: (Vec<String>, Vec<T>))
        requires
            self.wf(),
        ensures
            names_view(r.0@) == self.keys(),
            r.1@ == self.items(),
    {
        (self.names, self.items)
    }
}

} // verus!
