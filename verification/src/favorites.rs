//! The favorites store: a persisted, order-insensitive set of entry ids
//! pinned for quick access.

use vstd::prelude::*;

use crate::text::str_eq;

verus! {

/// Whether `id` occurs among the stored ids.
pub open spec fn spec_id_in(s: Seq<String>, id: Seq<char>) -> bool {
    exists|i: int| 0 <= i < s.len() && s[i]@ == id
}

/// The persisted set of favorited entry ids; ids stored at most once.
pub struct Favorites {
    ids: Vec<String>,
}

impl Favorites {
    /// Ids are stored at most once.
    pub closed spec fn wf(&self) -> bool {
        forall|i: int, j: int| 0 <= i < j < self.ids@.len() ==> self.ids@[i]@ != self.ids@[j]@
    }

    /// Whether `id` is favorited.
    pub closed spec fn spec_contains(&self, id: Seq<char>) -> bool {
        spec_id_in(self.ids@, id)
    }

    /// The stored ids, in insertion order.
    pub closed spec fn spec_ids(&self) -> Seq<String> {
        self.ids@
    }

    /// An empty set, as used when no saved file exists or it fails to parse.
    pub fn new() -> (r: Self)
        ensures
            r.wf(),
            forall|id: Seq<char>| !r.spec_contains(id),
    {
        Favorites { ids: Vec::new() }
    }

    /// Restore the set from loaded ids, dropping duplicates.
    pub fn from_ids(loaded: Vec<String>) -> (r: Self)
        ensures
            r.wf(),
            forall|id: Seq<char>| r.spec_contains(id) == spec_id_in(loaded@, id),
    {
        let mut out = Favorites { ids: Vec::new() };
        let mut i: usize = 0;
        while i < loaded.len()
            invariant
                i <= loaded@.len(),
                out.wf(),
                forall|id: Seq<char>|
                    out.spec_contains(id) == spec_id_in(loaded@.take(i as int), id),
            decreases loaded@.len() - i,
        {
            let ghost prefix = loaded@.take(i as int);
            let id = loaded[i].clone();
            out.add(id.as_str());
            assert forall|k: Seq<char>|
                out.spec_contains(k) == spec_id_in(loaded@.take(i + 1), k) by {
                assert(loaded@.take(i + 1) =~= prefix.push(loaded@[i as int]));
                if spec_id_in(prefix.push(loaded@[i as int]), k) {
                    let w = choose|w: int|
                        0 <= w < prefix.push(loaded@[i as int]).len() && prefix.push(
                            loaded@[i as int],
                        )[w]@ == k;
                    if w < prefix.len() {
                        assert(spec_id_in(prefix, k));
                    } else {
                        assert(k == loaded@[i as int]@);
                    }
                }
                if spec_id_in(prefix, k) {
                    let w = choose|w: int| 0 <= w < prefix.len() && prefix[w]@ == k;
                    assert(prefix.push(loaded@[i as int])[w]@ == k);
                }
                if k == loaded@[i as int]@ {
                    assert(prefix.push(loaded@[i as int])[prefix.len() as int]@ == k);
                }
            }
            i += 1;
        }
        assert(loaded@.take(loaded@.len() as int) =~= loaded@);
        out
    }

    /// The stored ids, in insertion order, for persisting.
    pub fn ids(&self) -> (r: &Vec<String>)
        ensures
            r@ == self.spec_ids(),
    {
        &self.ids
    }

    /// Whether `id` is favorited.
    pub fn contains(&self, id: &str) -> (r: bool)
        ensures
            r == self.spec_contains(id@),
    {
        let mut i: usize = 0;
        while i < self.ids.len()
            invariant
                i <= self.ids@.len(),
                forall|j: int| 0 <= j < i ==> self.ids@[j]@ != id@,
            decreases self.ids@.len() - i,
        {
            if str_eq(self.ids[i].as_str(), id) {
                return true;
            }
            i += 1;
        }
        false
    }

    /// Pin `id`: a set insertion, so adding an id already present changes
    /// nothing.
    pub fn add(&mut self, id: &str)
        requires
            old(self).wf(),
        ensures
            final(self).wf(),
            final(self).spec_contains(id@),
            forall|k: Seq<char>|
                final(self).spec_contains(k) == (old(self).spec_contains(k) || k == id@),
    {
        let ghost before = self.ids@;
        if !self.contains(id) {
            let owned: String = id.to_owned();
            self.ids.push(owned);
            assert forall|k: Seq<char>|
                final(self).spec_contains(k) == (spec_id_in(before, k) || k == id@) by {
                if spec_id_in(self.ids@, k) {
                    let w = choose|w: int| 0 <= w < self.ids@.len() && self.ids@[w]@ == k;
                    if w < before.len() {
                        assert(spec_id_in(before, k));
                    }
                }
                if spec_id_in(before, k) {
                    let w = choose|w: int| 0 <= w < before.len() && before[w]@ == k;
                    assert(self.ids@[w]@ == k);
                }
                if k == id@ {
                    assert(self.ids@[before.len() as int]@ == k);
                }
            }
            assert forall|p: int, q: int|
                0 <= p < q < self.ids@.len() implies self.ids@[p]@ != self.ids@[q]@ by {
                if q == before.len() {
                    assert(!spec_id_in(before, id@));
                    assert(before[p]@ != id@);
                }
            }
        }
    }
}

} // verus!
