use crate::registry::Registry;
use vstd::prelude::*;

verus! {

/// An in-memory stand-in for a device's registers.
pub struct MockMemory {
    cells: Registry<u64>,
}

impl MockMemory {
    /// The names of the registers the memory holds.
    pub closed spec fn keys(&self) -> Seq<Seq<char>> {
        self.cells.keys()
    }

    /// The value held for register `name`, if the memory has it.
    pub closed spec fn value_of(&self, name: Seq<char>) -> Option<u64> {
        self.cells.lookup(name)
    }

    pub closed spec fn wf(&self) -> bool {
        &&& self.cells.wf()
        &&& forall|k: Seq<char>| #[trigger] self.value_of(k) is Some <==> self.keys().contains(k)
    }

    /// The memory holds a value for exactly the registers it has.
    pub proof fn lemma_has(&self, name: Seq<char>)
        requires
            self.wf(),
        ensures
            self.value_of(name) is Some <==> self.keys().contains(name),
    {
    }

    /// A memory that holds, for each register of `defaults`, its value there.
    pub fn seeded(defaults: &Registry<u64>) -> (r: MockMemory)
        requires
            defaults.wf(),
        ensures
            r.wf(),
            r.keys() == defaults.keys(),
            forall|k: Seq<char>| #[trigger] r.value_of(k) == defaults.lookup(k),
    {
        let mut cells: Registry<u64> = Registry::new();
        let names = defaults.names();
        let mut i: usize = 0;
        while i < names.len()
            invariant
                defaults.wf(),
                crate::error::names_view(names@) == defaults.keys(),
                i <= names@.len(),
                cells.wf(),
                cells.keys() == defaults.keys().take(i as int),
                cells.items() == defaults.items().take(i as int),
            decreases names@.len() - i,
        {
            let v = *defaults.get(i);
            let n = names[i].clone();
            assert(n@ == defaults.keys()[i as int]);
            proof {
                assert(!defaults.keys().take(i as int).contains(n@)) by {
                    if defaults.keys().take(i as int).contains(n@) {
                        let j = choose|j: int| 0 <= j < i && defaults.keys().take(i as int)[j] == n@;
                        assert(defaults.keys()[j] == defaults.keys()[i as int]);
                    }
                }
            }
            let added = cells.add(n, v);
            i = i + 1;
            assert(cells.keys() =~= defaults.keys().take(i as int));
            assert(cells.items() =~= defaults.items().take(i as int));
        }
        assert(cells.keys() =~= defaults.keys());
        assert(cells.items() =~= defaults.items());
        let r = MockMemory { cells };
        assert forall|k: Seq<char>| #[trigger] r.value_of(k) == defaults.lookup(k) by {}
        assert forall|k: Seq<char>| #[trigger] r.value_of(k) is Some <==> r.keys().contains(k) by {}
        r
    }

    /// The value held for register `name`.
    pub fn read(&self, name: &String) -> (r: Option<u64>)
        requires
            self.wf(),
        ensures
            r == self.value_of(name@),
    {
        match self.cells.find(name) {
            Some(i) => {
                proof { self.cells.lemma_index_of(i as int); }
                Some(*self.cells.get(i))
            },
            None => None,
        }
    }

    /// Stores `value` for register `name`, if the memory has that register; says whether it did.
    pub fn write(&mut self, name: &String, value: u64) -> (r: bool)
        requires
            old(self).wf(),
        ensures
            final(self).wf(),
            r == old(self).keys().contains(name@),
            final(self).keys() == old(self).keys(),
            final(self).value_of(name@) == (if r { Some(value) } else { None::<u64> }),
            forall|k: Seq<char>| k != name@ ==> #[trigger] final(self).value_of(k) == old(self).value_of(k),
    {
        match self.cells.find(name) {
            Some(i) => {
                let cell = self.cells.get_mut(i);
                *cell = value;
                proof {
                    self.cells.lemma_index_of(i as int);
                    assert forall|k: Seq<char>| k != name@ implies #[trigger] self.value_of(k) == old(self).value_of(k) by {
                        if old(self).keys().contains(k) {
                            let j = old(self).cells.index_of(k)->Some_0;
                            old(self).cells.lemma_index_of(j);
                            self.cells.lemma_index_of(j);
                        }
                    }
                    assert forall|k: Seq<char>| #[trigger] self.value_of(k) is Some <==> self.keys().contains(k) by {
                        if k != name@ {
                            assert(old(self).value_of(k) is Some <==> old(self).keys().contains(k));
                        }
                    }
                }
                true
            },
            None => false,
        }
    }
}

} // verus!
