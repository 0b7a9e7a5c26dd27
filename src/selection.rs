//! Which programs are checked, by name, independently of the visible view.

use vstd::prelude::*;
use crate::text::same_text;

verus! {

/// The names among `ids`, as a set.
pub open spec fn names_of(ids: Seq<String>) -> Set<Seq<char>> {
    Set::new(|n: Seq<char>| exists|i: int| 0 <= i < ids.len() && (#[trigger] ids[i])@ == n)
}

/// How many of the first `n` names are in `checked`, counting repeats.
pub open spec fn checked_count_prefix(checked: Set<Seq<char>>, ids: Seq<String>, n: int) -> nat
    decreases n,
{
    if n <= 0 {
        0
    } else {
        checked_count_prefix(checked, ids, n - 1) + if checked.contains(ids[n - 1]@) {
            1nat
        } else {
            0nat
        }
    }
}

/// How many of the names are in `checked`, counting repeats.
pub open spec fn checked_count(checked: Set<Seq<char>>, ids: Seq<String>) -> nat {
    checked_count_prefix(checked, ids, ids.len() as int)
}

/// The checked state of programs, keyed by name. A name never set counts as
/// unchecked.
#[derive(Debug)]
pub struct SelectionTracker {
    checked: Vec<String>,
}

impl View for SelectionTracker {
    type V = Set<Seq<char>>;

    /// The names that are checked.
    closed spec fn view(&self) -> Set<Seq<char>> {
        names_of(self.checked@)
    }
}

impl SelectionTracker {
    /// A tracker with nothing checked.
    pub fn new() -> (r: SelectionTracker)
        ensures
            r@ == Set::<Seq<char>>::empty(),
    {
        let r = SelectionTracker { checked: Vec::new() };
        assert(r@ =~= Set::<Seq<char>>::empty());
        r
    }

    /// Whether the program is checked; `false` for names never set.
    pub fn is_checked(&self, id: &str) -> (r: bool)
        ensures
            r == self@.contains(id@),
    {
        let mut i: usize = 0;
        while i < self.checked.len()
            invariant
                i <= self.checked@.len(),
                forall|t: int| 0 <= t < i ==> (#[trigger] self.checked@[t])@ != id@,
            decreases self.checked@.len() - i,
        {
            if same_text(self.checked[i].as_str(), id) {
                return true;
            }
            i = i + 1;
        }
        false
    }

    /// Sets the checked state of one program, whatever it was before.
    pub fn set_checked(&mut self, id: &str, checked: bool)
        ensures
            final(self)@ == if checked {
                old(self)@.insert(id@)
            } else {
                old(self)@.remove(id@)
            },
    {
        if checked {
            if !self.is_checked(id) {
                self.checked.push(id.to_owned());
                proof {
                    let ghost old_names = old(self).checked@;
                    assert forall|n: Seq<char>| #[trigger] self@.contains(n) == old(self)@.insert(
                        id@,
                    ).contains(n) by {
                        if old(self)@.contains(n) {
                            let i = choose|i: int|
                                0 <= i < old_names.len() && (#[trigger] old_names[i])@ == n;
                            assert(self.checked@[i] == old_names[i]);
                        }
                        if n == id@ {
                            assert(self.checked@[old_names.len() as int]@ == n);
                        }
                        if self@.contains(n) && n != id@ {
                            let i = choose|i: int|
                                0 <= i < self.checked@.len() && (#[trigger] self.checked@[i])@ == n;
                            assert(old_names[i] == self.checked@[i]);
                        }
                    }
                    assert(self@ =~= old(self)@.insert(id@));
                }
            } else {
                assert(self@ =~= old(self)@.insert(id@));
            }
        } else {
            let mut kept: Vec<String> = Vec::new();
            let mut i: usize = 0;
            while i < self.checked.len()
                invariant
                    i <= self.checked@.len(),
                    self.checked@ == old(self).checked@,
                    forall|n: Seq<char>|
                        #[trigger] names_of(kept@).contains(n) == (n != id@ && names_of(
                            self.checked@.take(i as int),
                        ).contains(n)),
                decreases self.checked@.len() - i,
            {
                let ghost before = kept@;
                let ghost pre = self.checked@.take(i as int);
                let ghost next = self.checked@.take(i + 1);
                let differs = !same_text(self.checked[i].as_str(), id);
                if differs {
                    kept.push(self.checked[i].clone());
                }
                proof {
                    assert(next == pre.push(self.checked@[i as int]));
                    if differs {
                        assert(kept@ == before.push(self.checked@[i as int]));
                    } else {
                        assert(kept@ == before);
                    }
                    assert forall|n: Seq<char>| #[trigger] names_of(kept@).contains(n) == (n
                        != id@ && names_of(next).contains(n)) by {
                        assert(names_of(before).contains(n) == (n != id@ && names_of(pre).contains(
                            n,
                        )));
                        assert(next[i as int] == self.checked@[i as int]);
                        if names_of(pre).contains(n) {
                            let t = choose|t: int| 0 <= t < pre.len() && (#[trigger] pre[t])@ == n;
                            assert(next[t] == pre[t]);
                        }
                        if names_of(next).contains(n) {
                            let t = choose|t: int| 0 <= t < next.len() && (#[trigger] next[t])@ == n;
                            if t < i {
                                assert(pre[t] == next[t]);
                            }
                        }
                        if names_of(before).contains(n) {
                            let t = choose|t: int|
                                0 <= t < before.len() && (#[trigger] before[t])@ == n;
                            assert(kept@[t] == before[t]);
                        }
                        if names_of(kept@).contains(n) {
                            let t = choose|t: int|
                                0 <= t < kept@.len() && (#[trigger] kept@[t])@ == n;
                            if t < before.len() {
                                assert(before[t] == kept@[t]);
                            }
                        }
                        if n == self.checked@[i as int]@ && n != id@ {
                            assert(kept@[before.len() as int]@ == n);
                        }
                    }
                }
                i = i + 1;
            }
            self.checked = kept;
            proof {
                assert(old(self).checked@.take(old(self).checked@.len() as int)
                    =~= old(self).checked@);
                assert(self@ =~= old(self)@.remove(id@));
            }
        }
    }

    /// Sets the checked state of every program named in `ids`; returns how
    /// many names it was given.
    pub fn select_all(&mut self, ids: &Vec<String>, checked: bool) -> (r: usize)
        ensures
            r == ids@.len(),
            final(self)@ == if checked {
                old(self)@.union(names_of(ids@))
            } else {
                old(self)@.difference(names_of(ids@))
            },
    {
        let mut i: usize = 0;
        while i < ids.len()
            invariant
                i <= ids@.len(),
                self@ == if checked {
                    old(self)@.union(names_of(ids@.take(i as int)))
                } else {
                    old(self)@.difference(names_of(ids@.take(i as int)))
                },
            decreases ids@.len() - i,
        {
            let ghost pre = ids@.take(i as int);
            let ghost next = ids@.take(i + 1);
            self.set_checked(ids[i].as_str(), checked);
            proof {
                assert forall|n: Seq<char>| #[trigger] names_of(next).contains(n) == (names_of(
                    pre,
                ).contains(n) || n == ids@[i as int]@) by {
                    if names_of(pre).contains(n) {
                        let t = choose|t: int| 0 <= t < pre.len() && (#[trigger] pre[t])@ == n;
                        assert(next[t] == pre[t]);
                    }
                    if names_of(next).contains(n) {
                        let t = choose|t: int| 0 <= t < next.len() && (#[trigger] next[t])@ == n;
                        if t < i {
                            assert(pre[t] == next[t]);
                        }
                    }
                    if n == ids@[i as int]@ {
                        assert(next[i as int] == ids@[i as int]);
                    }
                }
                if checked {
                    assert(self@ =~= old(self)@.union(names_of(next)));
                } else {
                    assert(self@ =~= old(self)@.difference(names_of(next)));
                }
            }
            i = i + 1;
        }
        assert(ids@.take(ids@.len() as int) =~= ids@);
        ids.len()
    }

    /// How many of the named programs are checked, counting repeats.
    pub fn count_checked(&self, ids: &Vec<String>) -> (r: usize)
        ensures
            r == checked_count(self@, ids@),
    {
        let mut n: usize = 0;
        let mut i: usize = 0;
        while i < ids.len()
            invariant
                i <= ids@.len(),
                n == checked_count_prefix(self@, ids@, i as int),
                n <= i,
            decreases ids@.len() - i,
        {
            if self.is_checked(ids[i].as_str()) {
                n = n + 1;
            }
            i = i + 1;
        }
        n
    }
}

} // verus!
