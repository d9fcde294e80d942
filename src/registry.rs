//! The set of running deployments, with atomic insert-if-absent and
//! remove-if-present primitives.
use vstd::prelude::*;

verus! {

/// Identifiers of the deployments that are currently being indexed.
#[derive(Debug)]
pub struct SubgraphRegistry {
    ids: Vec<String>,
}

impl SubgraphRegistry {
    /// The identifiers held, in insertion order.
    pub closed spec fn ids(&self) -> Seq<Seq<char>> {
        self.ids@.map_values(|s: String| s@)
    }

    /// No identifier is held twice.
    pub closed spec fn wf(&self) -> bool {
        self.ids().no_duplicates()
    }

    /// The running set.
    pub closed spec fn running(&self) -> Set<Seq<char>> {
        self.ids().to_set()
    }

    pub fn new() -> (r: Self)
        ensures
            r.wf(),
            r.running() == Set::<Seq<char>>::empty(),
    {
        let r = SubgraphRegistry { ids: Vec::new() };
        proof {
            assert(r.ids() =~= Seq::<Seq<char>>::empty());
            assert(r.running() =~= Set::<Seq<char>>::empty());
        }
        r
    }

    fn find(&self, id: &String) -> (r: Option<usize>)
        ensures
            match r {
                Some(i) => i < self.ids().len() && self.ids()[i as int] == id@,
                None => !self.ids().contains(id@),
            },
    {
        let mut i: usize = 0;
        while i < self.ids.len()
            invariant
                i <= self.ids.len(),
                forall|j: int| 0 <= j < i ==> self.ids()[j] != id@,
            decreases self.ids.len() - i,
        {
            if self.ids[i] == *id {
                return Some(i);
            }
            i = i + 1;
        }
        None
    }

    /// Whether `id` is running.
    pub fn contains(&self, id: &String) -> (r: bool)
        ensures
            r == self.running().contains(id@),
    {
        self.find(id).is_some()
    }

    /// Adds `id` unless it is already present; true when it was added.
    pub fn insert_if_absent(&mut self, id: String) -> (r: bool)
        requires
            old(self).wf(),
        ensures
            final(self).wf(),
            r == !old(self).running().contains(id@),
            final(self).running() == old(self).running().insert(id@),
    {
        if self.find(&id).is_some() {
            proof {
                assert(self.running().insert(id@) =~= self.running());
            }
            return false;
        }
        let ghost before = self.ids();
        self.ids.push(id);
        proof {
            assert(self.ids() =~= before.push(id@));
            before.lemma_push_to_set_commute(id@);
            assert forall|a: int, b: int|
                0 <= a < b < self.ids().len() implies self.ids()[a] != self.ids()[b] by {
                if b == before.len() {
                    assert(before.contains(before[a]));
                }
            }
        }
        true
    }

    /// Removes `id` if it is present; true when it was removed.
    pub fn remove_if_present(&mut self, id: &String) -> (r: bool)
        requires
            old(self).wf(),
        ensures
            final(self).wf(),
            r == old(self).running().contains(id@),
            final(self).running() == old(self).running().remove(id@),
    {
        match self.find(id) {
            None => {
                proof {
                    assert(self.running().remove(id@) =~= self.running());
                }
                false
            },
            Some(i) => {
                let ghost before = self.ids();
                let _ = self.ids.remove(i);
                proof {
                    assert(self.ids() =~= before.remove(i as int));
                    assert forall|x: Seq<char>|
                        self.running().contains(x) == before.to_set().remove(id@).contains(x) by {
                        if self.ids().contains(x) {
                            let k = choose|k: int| 0 <= k < self.ids().len() && self.ids()[k] == x;
                            if k < i {
                                assert(before[k] == x);
                            } else {
                                assert(before[k + 1] == x);
                            }
                        }
                        if before.contains(x) && x != id@ {
                            let k = choose|k: int| 0 <= k < before.len() && before[k] == x;
                            if k < i {
                                assert(self.ids()[k] == x);
                            } else {
                                assert(self.ids()[k - 1] == x);
                            }
                        }
                    }
                    assert(self.running() =~= before.to_set().remove(id@));
                }
                true
            },
        }
    }
}

} // verus!
