//! Per-profile processor state, keyed by profile UID.
//!
//! An association list with distinct keys, abstracted as a `Map` from the
//! key's characters to the view of the stored state.

use vstd::prelude::*;

use crate::setting::ProfileUID;

verus! {

/// Per-profile state for one processor: at most one entry per profile UID.
pub struct StateMap<T> {
    pub entries: Vec<(ProfileUID, T)>,
}

impl<T: View> StateMap<T> {
    /// Keys are distinct.
    pub open spec fn wf(&self) -> bool {
        forall|i: int, j: int|
            0 <= i < j < self.entries@.len() ==> self.entries@[i].0@ != self.entries@[j].0@
    }

    pub open spec fn spec_contains(&self, k: Seq<char>) -> bool {
        exists|i: int| 0 <= i < self.entries@.len() && self.entries@[i].0@ == k
    }

    /// The abstract map: each key to the view of its state.
    pub open spec fn view(&self) -> Map<Seq<char>, T::V> {
        Map::new(
            |k: Seq<char>| self.spec_contains(k),
            |k: Seq<char>|
                {
                    let i = choose|i: int|
                        0 <= i < self.entries@.len() && self.entries@[i].0@ == k;
                    self.entries@[i].1@
                },
        )
    }

    /// With distinct keys, any matching index gives the map's value.
    proof fn lemma_value_at(&self, k: Seq<char>, i: int)
        requires
            self.wf(),
            0 <= i < self.entries@.len(),
            self.entries@[i].0@ == k,
        ensures
            self.view().dom().contains(k),
            self.view()[k] == self.entries@[i].1@,
    {
        let w = choose|w: int| 0 <= w < self.entries@.len() && self.entries@[w].0@ == k;
        assert(w == i);
    }

    pub fn new() -> (r: StateMap<T>)
        ensures
            r.wf(),
            r@ == Map::<Seq<char>, T::V>::empty(),
    {
        let r = StateMap { entries: Vec::new() };
        proof {
            assert(r@ =~= Map::<Seq<char>, T::V>::empty());
        }
        r
    }

    fn index_of(&self, k: &ProfileUID) -> (r: Option<usize>)
        ensures
            r is Some ==> 0 <= r->0 < self.entries@.len() && self.entries@[r->0 as int].0@ == k@,
            r is None ==> !self.spec_contains(k@),
    {
        let n = self.entries.len();
        let mut i: usize = 0;
        while i < n
            invariant
                i <= n,
                n == self.entries@.len(),
                forall|j: int| 0 <= j < i ==> self.entries@[j].0@ != k@,
            decreases n - i,
        {
            if self.entries[i].0 == *k {
                return Some(i);
            }
            i = i + 1;
        }
        None
    }

    /// Whether state is installed for this profile.
    pub fn contains(&self, k: &ProfileUID) -> (r: bool)
        requires
            self.wf(),
        ensures
            r == self@.dom().contains(k@),
    {
        let r = self.index_of(k);
        proof {
            if let Some(i) = r {
                self.lemma_value_at(k@, i as int);
            }
        }
        r.is_some()
    }

    /// Installs or replaces the state of this profile.
    pub fn insert(&mut self, k: &ProfileUID, v: T)
        requires
            old(self).wf(),
        ensures
            final(self).wf(),
            final(self)@ == old(self)@.insert(k@, v@),
    {
        let idx = self.index_of(k);
        match idx {
            Some(i) => {
                let ghost old_entries = self.entries@;
                self.entries.set(i, (k.clone(), v));
                proof {
                    assert(self.entries@.len() == old_entries.len());
                    assert forall|a: int, b: int|
                        0 <= a < b < self.entries@.len() implies self.entries@[a].0@
                        != self.entries@[b].0@ by {
                        if a != i && b != i {
                            assert(old_entries[a].0@ != old_entries[b].0@);
                        }
                    }
                    assert(self@ =~= old(self)@.insert(k@, v@)) by {
                        assert forall|k2: Seq<char>| #[trigger]
                            self@.dom().contains(k2)
                                == old(self)@.insert(k@, v@).dom().contains(k2) by {
                            if k2 == k@ {
                                assert(self.entries@[i as int].0@ == k2);
                            } else {
                                if self.spec_contains(k2) {
                                    let w = choose|w: int|
                                        0 <= w < self.entries@.len() && self.entries@[w].0@ == k2;
                                    assert(old_entries[w].0@ == k2);
                                }
                                if old(self).spec_contains(k2) {
                                    let w = choose|w: int|
                                        0 <= w < old_entries.len() && old_entries[w].0@ == k2;
                                    assert(self.entries@[w].0@ == k2);
                                }
                            }
                        }
                        assert forall|k2: Seq<char>| self@.dom().contains(k2) implies self@[k2] == old(self)@.insert(k@, v@)[k2] by {
                            if k2 == k@ {
                                self.lemma_value_at(k2, i as int);
                            } else {
                                let w = choose|w: int|
                                    0 <= w < self.entries@.len() && self.entries@[w].0@ == k2;
                                self.lemma_value_at(k2, w);
                                old(self).lemma_value_at(k2, w);
                            }
                        }
                    }
                }
            },
            None => {
                let ghost old_entries = self.entries@;
                self.entries.push((k.clone(), v));
                proof {
                    assert forall|a: int, b: int|
                        0 <= a < b < self.entries@.len() implies self.entries@[a].0@
                        != self.entries@[b].0@ by {
                        if b < old_entries.len() {
                            assert(old_entries[a].0@ != old_entries[b].0@);
                        } else {
                            assert(self.entries@[b].0@ == k@);
                            assert(!old(self).spec_contains(k@));
                        }
                    }
                    assert(self@ =~= old(self)@.insert(k@, v@)) by {
                        let n = old_entries.len() as int;
                        assert(self.entries@[n].0@ == k@);
                        assert forall|k2: Seq<char>| #[trigger]
                            self@.dom().contains(k2)
                                == old(self)@.insert(k@, v@).dom().contains(k2) by {
                            if k2 != k@ {
                                if self.spec_contains(k2) {
                                    let w = choose|w: int|
                                        0 <= w < self.entries@.len() && self.entries@[w].0@ == k2;
                                    assert(w < n);
                                    assert(old_entries[w].0@ == k2);
                                }
                                if old(self).spec_contains(k2) {
                                    let w = choose|w: int|
                                        0 <= w < old_entries.len() && old_entries[w].0@ == k2;
                                    assert(self.entries@[w].0@ == k2);
                                }
                            }
                        }
                        assert forall|k2: Seq<char>| self@.dom().contains(k2) implies self@[k2] == old(self)@.insert(k@, v@)[k2] by {
                            if k2 == k@ {
                                self.lemma_value_at(k2, n);
                            } else {
                                let w = choose|w: int|
                                    0 <= w < self.entries@.len() && self.entries@[w].0@ == k2;
                                assert(w < n);
                                self.lemma_value_at(k2, w);
                                old(self).lemma_value_at(k2, w);
                            }
                        }
                    }
                }
            },
        }
    }

    /// Uninstalls the state of this profile, returning it.
    pub fn take(&mut self, k: &ProfileUID) -> (r: Option<T>)
        requires
            old(self).wf(),
        ensures
            final(self).wf(),
            final(self)@ == old(self)@.remove(k@),
            r is Some <==> old(self)@.dom().contains(k@),
            r is Some ==> r->0@ == old(self)@[k@],
    {
        let idx = self.index_of(k);
        match idx {
            Some(i) => {
                let ghost old_entries = self.entries@;
                proof {
                    old(self).lemma_value_at(k@, i as int);
                }
                let entry = self.entries.remove(i);
                proof {
                    let n = old_entries.len() as int;
                    assert forall|a: int, b: int|
                        0 <= a < b < self.entries@.len() implies self.entries@[a].0@
                        != self.entries@[b].0@ by {
                        let oa = if a < i { a } else { a + 1 };
                        let ob = if b < i { b } else { b + 1 };
                        assert(self.entries@[a] == old_entries[oa]);
                        assert(self.entries@[b] == old_entries[ob]);
                    }
                    assert(self@ =~= old(self)@.remove(k@)) by {
                        assert forall|k2: Seq<char>| #[trigger]
                            self@.dom().contains(k2)
                                == old(self)@.remove(k@).dom().contains(k2) by {
                            if k2 == k@ {
                                if self.spec_contains(k2) {
                                    let w = choose|w: int|
                                        0 <= w < self.entries@.len() && self.entries@[w].0@ == k2;
                                    let ow = if w < i { w } else { w + 1 };
                                    assert(old_entries[ow].0@ == k2);
                                    assert(old_entries[i as int].0@ == k2);
                                }
                            } else {
                                if self.spec_contains(k2) {
                                    let w = choose|w: int|
                                        0 <= w < self.entries@.len() && self.entries@[w].0@ == k2;
                                    let ow = if w < i { w } else { w + 1 };
                                    assert(old_entries[ow].0@ == k2);
                                }
                                if old(self).spec_contains(k2) {
                                    let w = choose|w: int|
                                        0 <= w < old_entries.len() && old_entries[w].0@ == k2;
                                    let nw = if w < i { w } else { w - 1 };
                                    assert(self.entries@[nw].0@ == k2);
                                }
                            }
                        }
                        assert forall|k2: Seq<char>| self@.dom().contains(k2) implies self@[k2] == old(self)@.remove(k@)[k2] by {
                            let w = choose|w: int|
                                0 <= w < self.entries@.len() && self.entries@[w].0@
                                    == k2;
                            let ow = if w < i { w } else { w + 1 };
                            self.lemma_value_at(k2, w);
                            old(self).lemma_value_at(k2, ow);
                        }
                    }
                }
                Some(entry.1)
            },
            None => {
                proof {
                    assert(self@ =~= old(self)@.remove(k@));
                }
                None
            },
        }
    }

    /// Uninstalls the state of this profile, if any.
    pub fn remove(&mut self, k: &ProfileUID)
        requires
            old(self).wf(),
        ensures
            final(self).wf(),
            final(self)@ == old(self)@.remove(k@),
    {
        let _ = self.take(k);
    }
}

} // verus!
