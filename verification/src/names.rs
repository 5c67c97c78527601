//! A set of names (paths, tags) that remembers the order in which they came.

use vstd::prelude::*;
use crate::text::strs;

verus! {

/// A set of strings. No string is held twice; the strings are kept in the
/// order in which they were first inserted.
#[derive(Debug, Clone)]
pub struct NameSet {
    items: Vec<String>,
}

impl View for NameSet {
    type V = Set<Seq<char>>;

    /// The strings held, as a set.
    open spec fn view(&self) -> Set<Seq<char>> {
        self.order().to_set()
    }
}

impl NameSet {
    /// No string is held twice.
    pub open spec fn wf(&self) -> bool {
        self.order().no_duplicates()
    }

    /// The strings held, in the order of their first insertion.
    pub closed spec fn order(&self) -> Seq<Seq<char>> {
        strs(self.items@)
    }

    /// The empty set.
    pub fn new() -> (s: Self)
        ensures
            s.wf(),
            s.order() == Seq::<Seq<char>>::empty(),
            s@ == Set::<Seq<char>>::empty(),
    {
        let s = NameSet { items: Vec::new() };
        assert(s.order() == Seq::<Seq<char>>::empty());
        assert(s@ == Set::<Seq<char>>::empty());
        s
    }

    /// How many strings the set holds.
    pub fn len(&self) -> (n: usize)
        ensures
            n == self.order().len(),
            self.wf() ==> n == self@.len(),
    {
        proof {
            if self.wf() {
                self.order().unique_seq_to_set();
            }
        }
        self.items.len()
    }

    /// Whether the set holds nothing.
    pub fn is_empty(&self) -> (b: bool)
        ensures
            b == (self.order().len() == 0),
            b == (self@ == Set::<Seq<char>>::empty()),
    {
        proof {
            if self.order().len() > 0 {
                assert(self@.contains(self.order()[0]));
            } else {
                assert(self@ == Set::<Seq<char>>::empty());
            }
        }
        self.items.len() == 0
    }

    /// The string at place `i` in the order of insertion.
    pub fn get(&self, i: usize) -> (s: &String)
        requires
            i < self.order().len(),
        ensures
            s@ == self.order()[i as int],
    {
        &self.items[i]
    }

    /// Whether the set holds `name`.
    pub fn contains(&self, name: &str) -> (b: bool)
        ensures
            b == self@.contains(name@),
    {
        let wanted = name.to_owned();
        let mut i: usize = 0;
        while i < self.items.len()
            invariant
                i <= self.items.len(),
                wanted@ == name@,
                forall|j: int| 0 <= j < i ==> self.order()[j] != name@,
            decreases self.items.len() - i,
        {
            if self.items[i] == wanted {
                assert(self.order()[i as int] == name@);
                return true;
            }
            i += 1;
        }
        false
    }

    /// Puts `name` into the set; says whether it was new.
    pub fn insert(&mut self, name: String) -> (added: bool)
        ensures
            old(self).wf() ==> final(self).wf(),
            added == !old(self)@.contains(name@),
            final(self)@ == old(self)@.insert(name@),
            final(self).order() == if added {
                old(self).order().push(name@)
            } else {
                old(self).order()
            },
    {
        if self.contains(name.as_str()) {
            assert(self@.insert(name@) == self@);
            false
        } else {
            proof {
                assert(!self.order().contains(name@));
                assert(strs(self.items@.push(name)) == strs(self.items@).push(name@));
                assert(self.order().push(name@).to_set() == self@.insert(name@)) by {
                    let s = self.order();
                    assert forall|x: Seq<char>| s.push(name@).to_set().contains(x)
                        <==> s.to_set().insert(name@).contains(x) by {
                        if s.push(name@).contains(x) {
                            let j = choose|j: int| 0 <= j < s.push(name@).len() && s.push(name@)[j] == x;
                            if j < s.len() {
                                assert(s[j] == x);
                            }
                        }
                        if s.contains(x) {
                            let j = choose|j: int| 0 <= j < s.len() && s[j] == x;
                            assert(s.push(name@)[j] == x);
                        }
                        if x == name@ {
                            assert(s.push(name@)[s.len() as int] == x);
                        }
                    }
                }
            }
            self.items.push(name);
            true
        }
    }
}

impl NameSet {
    /// Puts every string of `other` into the set.
    pub fn extend(&mut self, other: &NameSet)
        ensures
            old(self).wf() ==> final(self).wf(),
            final(self)@ == old(self)@.union(other@),
    {
        let mut j: usize = 0;
        while j < other.len()
            invariant
                j <= other.order().len(),
                old(self).wf() ==> self.wf(),
                self@ == old(self)@.union(other.order().take(j as int).to_set()),
            decreases other.order().len() - j,
        {
            let name = other.get(j).clone();
            proof {
                let done = other.order().take(j as int);
                let next = other.order().take(j + 1);
                assert(next == done.push(name@));
                assert(next.to_set() == done.to_set().insert(name@)) by {
                    assert forall|x: Seq<char>| next.to_set().contains(x) <==> done.to_set().insert(
                        name@,
                    ).contains(x) by {
                        if next.contains(x) {
                            let i = choose|i: int| 0 <= i < next.len() && next[i] == x;
                            if i < done.len() {
                                assert(done[i] == x);
                            }
                        }
                        if done.contains(x) {
                            let i = choose|i: int| 0 <= i < done.len() && done[i] == x;
                            assert(next[i] == x);
                        }
                        if x == name@ {
                            assert(next[done.len() as int] == x);
                        }
                    }
                }
                assert(old(self)@.union(done.to_set()).insert(name@) == old(self)@.union(
                    next.to_set(),
                ));
            }
            self.insert(name);
            j += 1;
        }
        proof {
            assert(other.order().take(other.order().len() as int) == other.order());
        }
    }
}

} // verus!
