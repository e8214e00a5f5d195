//! A read-through cache of schema documents keyed by schema id. Ids are
//! never reassigned, so an entry stays valid for good.
use vstd::prelude::*;

verus! {

/// Schema texts already fetched, one entry per id.
pub struct SchemaCache {
    entries: Vec<(i32, Vec<u8>)>,
}

impl SchemaCache {
    /// No id appears twice.
    pub closed spec fn wf(&self) -> bool {
        forall|i: int, j: int|
            0 <= i < j < self.entries@.len() ==> (#[trigger] self.entries@[i]).0 != (
            #[trigger] self.entries@[j]).0
    }

    /// The cached schema texts by id.
    pub closed spec fn view(&self) -> Map<i32, Seq<u8>> {
        Map::new(
            |id: i32| exists|i: int| 0 <= i < self.entries@.len() && self.entries@[i].0 == id,
            |id: i32|
                self.entries@[choose|i: int|
                    0 <= i < self.entries@.len() && self.entries@[i].0 == id].1@,
        )
    }

    pub fn new() -> (r: SchemaCache)
        ensures
            r.wf(),
            r.view() == Map::<i32, Seq<u8>>::empty(),
    {
        let r = SchemaCache { entries: Vec::new() };
        assert(r.view() =~= Map::<i32, Seq<u8>>::empty());
        r
    }

    fn position(&self, id: i32) -> (r: Option<usize>)
        ensures
            match r {
                Some(i) => i < self.entries@.len() && self.entries@[i as int].0 == id,
                None => forall|i: int|
                    0 <= i < self.entries@.len() ==> (#[trigger] self.entries@[i]).0 != id,
            },
    {
        let mut i: usize = 0;
        while i < self.entries.len()
            invariant
                i <= self.entries@.len(),
                forall|k: int| 0 <= k < i ==> (#[trigger] self.entries@[k]).0 != id,
            decreases self.entries.len() - i,
        {
            if self.entries[i].0 == id {
                return Some(i);
            }
            i = i + 1;
        }
        None
    }

    /// The cached schema for `id`, if it was fetched before.
    pub fn get(&self, id: i32) -> (r: Option<&Vec<u8>>)
        requires
            self.wf(),
        ensures
            match r {
                Some(s) => self.view().contains_key(id) && self.view()[id] == s@,
                None => !self.view().contains_key(id),
            },
    {
        match self.position(id) {
            Some(i) => {
                let ghost ch = choose|k: int|
                    0 <= k < self.entries@.len() && self.entries@[k].0 == id;
                assert(self.view().contains_key(id));
                assert(ch == i);
                Some(&self.entries[i].1)
            },
            None => None,
        }
    }

    /// Records the schema fetched for `id`; an entry already there is kept.
    pub fn insert(&mut self, id: i32, schema: Vec<u8>)
        requires
            old(self).wf(),
        ensures
            final(self).wf(),
            old(self).view().contains_key(id) ==> final(self).view() == old(self).view(),
            !old(self).view().contains_key(id) ==> final(self).view() == old(self).view().insert(
                id,
                schema@,
            ),
    {
        match self.position(id) {
            Some(_) => {},
            None => {
                let ghost before = self.entries@;
                self.entries.push((id, schema));
                assert(self.entries@.len() == before.len() + 1);
                assert forall|i: int, j: int|
                    0 <= i < j < self.entries@.len() implies (#[trigger] self.entries@[i]).0 != (
                    #[trigger] self.entries@[j]).0 by {
                    if j < before.len() {
                        assert(before[i] == self.entries@[i] && before[j] == self.entries@[j]);
                    } else {
                        assert(before[i] == self.entries@[i]);
                    }
                }
                assert forall|k: i32| #[trigger] self.view().contains_key(k) implies old(
                    self,
                ).view().insert(id, schema@).contains_key(k) && self.view()[k] == old(
                    self,
                ).view().insert(id, schema@)[k] by {
                    let c = choose|x: int| 0 <= x < self.entries@.len() && self.entries@[x].0 == k;
                    if k == id {
                        assert(c == before.len());
                    } else {
                        assert(self.entries@[c] == before[c]);
                        let c0 = choose|x: int| 0 <= x < before.len() && before[x].0 == k;
                        assert(self.entries@[c0] == before[c0]);
                        assert(c == c0);
                    }
                }
                assert forall|k: i32| #[trigger] old(self).view().insert(
                    id,
                    schema@,
                ).contains_key(k) implies self.view().contains_key(k) by {
                    if k == id {
                        assert(self.entries@[before.len() as int].0 == id);
                    } else {
                        let c0 = choose|x: int| 0 <= x < before.len() && before[x].0 == k;
                        assert(self.entries@[c0] == before[c0]);
                    }
                }
                assert(self.view() =~= old(self).view().insert(id, schema@));
            },
        }
    }
}

} // verus!
