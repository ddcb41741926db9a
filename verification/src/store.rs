//! A document store in memory, keyed by domain name.
//!
//! It merges as the real store is asked to, and stands in for it where a
//! run is to be tried without one.

use crate::db::{domain_names, entities_of, lemma_found_by_name, lemma_merge_overrides, merge, names_distinct};
use crate::whois::{RecordView, WhoIsRecord};
use vstd::prelude::*;

verus! {

/// The entities of a store in memory, at most one for a domain name.
pub struct MemoryStore {
    entities: Vec<WhoIsRecord>,
}

impl View for MemoryStore {
    type V = Map<Seq<char>, RecordView>;

    closed spec fn view(&self) -> Map<Seq<char>, RecordView> {
        entities_of(self.entities.deep_view())
    }
}

/// Putting a record in the place of the entity with its name puts it under
/// that name and leaves the other names alone.
proof fn lemma_replace_in_place(all: Seq<RecordView>, i: int, record: RecordView)
    requires
        names_distinct(all),
        0 <= i < all.len(),
        all[i].domain_name == record.domain_name,
    ensures
        names_distinct(all.update(i, record)),
        entities_of(all.update(i, record)) == entities_of(all).insert(record.domain_name, record),
{
    let changed = all.update(i, record);
    let old_map = entities_of(all);
    let new_map = entities_of(changed);
    let target = old_map.insert(record.domain_name, record);
    assert(names_distinct(changed));
    lemma_merge_overrides(Map::empty(), all);
    lemma_merge_overrides(Map::empty(), changed);
    assert forall|name: Seq<char>|
        #![trigger new_map.dom().contains(name)]
        #![trigger target.dom().contains(name)]
        new_map.dom().contains(name) == target.dom().contains(name) && (new_map.dom().contains(name)
            ==> new_map[name] == target[name]) by {
        if domain_names(changed).contains(name) {
            let j = choose|j: int| 0 <= j < changed.len() && domain_names(changed)[j] == name;
            assert(domain_names(all)[j] == all[j].domain_name);
            lemma_found_by_name(changed, j);
            if j != i {
                lemma_found_by_name(all, j);
            }
        }
        if domain_names(all).contains(name) {
            let j = choose|j: int| 0 <= j < all.len() && domain_names(all)[j] == name;
            assert(domain_names(changed)[j] == changed[j].domain_name);
        }
        assert(domain_names(changed)[i] == record.domain_name);
        assert(domain_names(all)[i] == record.domain_name);
    }
    assert(new_map =~= target);
}

/// Entities with distinct names are as many as their names.
proof fn lemma_count_by_name(all: Seq<RecordView>)
    requires
        names_distinct(all),
    ensures
        entities_of(all).dom().finite(),
        entities_of(all).dom().len() == all.len(),
    decreases all.len(),
{
    if all.len() > 0 {
        let init = all.drop_last();
        assert(forall|i: int| 0 <= i < init.len() ==> init[i] == all[i]);
        lemma_count_by_name(init);
        lemma_merge_overrides(Map::empty(), init);
        if domain_names(init).contains(all.last().domain_name) {
            let j = choose|j: int| 0 <= j < init.len() && domain_names(init)[j] == all.last().domain_name;
            assert(all[j].domain_name == all[all.len() - 1].domain_name);
        }
    }
}

impl MemoryStore {
    /// What holds of every store between two calls: no two entities share a
    /// domain name.
    pub closed spec fn wf(&self) -> bool {
        names_distinct(self.entities.deep_view())
    }

    /// A store without entities.
    pub fn new() -> (store: MemoryStore)
        ensures
            store.wf(),
            store@ == Map::<Seq<char>, RecordView>::empty(),
    {
        let store = MemoryStore { entities: Vec::new() };
        assert(store.entities.deep_view() =~= Seq::<RecordView>::empty());
        store
    }

    /// The number of entities: one for each domain name.
    pub fn len(&self) -> (count: usize)
        requires
            self.wf(),
        ensures
            self@.dom().finite(),
            count == self@.dom().len(),
    {
        proof {
            lemma_count_by_name(self.entities.deep_view());
        }
        self.entities.len()
    }

    /// Where the entity with the domain name stands.
    fn position(&self, name: &String) -> (found: Option<usize>)
        requires
            self.wf(),
        ensures
            match found {
                Some(i) => i < self.entities.len() && self.entities[i as int]@.domain_name == name@,
                None => forall|j: int|
                    0 <= j < self.entities.len() ==> (#[trigger] self.entities[j])@.domain_name != name@,
            },
    {
        let mut i: usize = 0;
        while i < self.entities.len()
            invariant
                i <= self.entities.len(),
                forall|j: int| 0 <= j < i ==> (#[trigger] self.entities[j])@.domain_name != name@,
            decreases self.entities.len() - i,
        {
            if self.entities[i].domain_name.eq(name) {
                return Some(i);
            }
            i += 1;
        }
        None
    }

    /// The entity with the domain name, if the store holds one.
    pub fn get(&self, name: &str) -> (found: Option<&WhoIsRecord>)
        requires
            self.wf(),
        ensures
            match found {
                Some(entity) => self@.dom().contains(name@) && entity@ == self@[name@],
                None => !self@.dom().contains(name@),
            },
    {
        let wanted = name.to_owned();
        let ghost all = self.entities.deep_view();
        proof {
            lemma_merge_overrides(Map::empty(), all);
        }
        match self.position(&wanted) {
            Some(i) => {
                proof {
                    lemma_found_by_name(all, i as int);
                }
                Some(&self.entities[i])
            },
            None => {
                proof {
                    if domain_names(all).contains(name@) {
                        let j = choose|j: int| 0 <= j < all.len() && domain_names(all)[j] == name@;
                        assert(self.entities[j]@.domain_name == name@);
                    }
                }
                None
            },
        }
    }

    /// Merges one record into the store: it takes the place of the entity
    /// with its domain name, or is new.
    pub fn upsert(&mut self, record: WhoIsRecord)
        requires
            old(self).wf(),
        ensures
            final(self).wf(),
            final(self)@ == old(self)@.insert(record@.domain_name, record@),
    {
        let ghost all = self.entities.deep_view();
        proof {
            lemma_merge_overrides(Map::empty(), all);
        }
        match self.position(&record.domain_name) {
            Some(i) => {
                proof {
                    lemma_replace_in_place(all, i as int, record@);
                    lemma_found_by_name(all, i as int);
                }
                self.entities.set(i, record);
                assert(self.entities.deep_view() =~= all.update(i as int, record@));
            },
            None => {
                proof {
                    if domain_names(all).contains(record@.domain_name) {
                        let j = choose|j: int|
                            0 <= j < all.len() && domain_names(all)[j] == record@.domain_name;
                        assert(self.entities[j]@.domain_name == record@.domain_name);
                    }
                }
                self.entities.push(record);
                assert(self.entities.deep_view() =~= all.push(record@));
                assert(all.push(record@).drop_last() =~= all);
                assert(names_distinct(all.push(record@))) by {
                    assert forall|i: int, j: int| 0 <= i < j < all.len() + 1 implies (#[trigger] all.push(
                        record@,
                    )[i]).domain_name != (#[trigger] all.push(record@)[j]).domain_name by {
                        if j == all.len() {
                            assert(self.entities[i]@.domain_name != record@.domain_name) by {
                                assert(old(self).entities[i]@ == all[i]);
                            }
                        } else {
                            assert(all[i].domain_name != all[j].domain_name);
                        }
                    }
                }
            },
        }
    }

    /// Merges a batch into the store, record by record in the order of the
    /// batch: where the batch holds a domain name twice, the later record
    /// stands.
    pub fn apply(&mut self, batch: &Vec<WhoIsRecord>)
        requires
            old(self).wf(),
        ensures
            final(self).wf(),
            final(self)@ == merge(old(self)@, batch.deep_view()),
    {
        let ghost all = batch.deep_view();
        let mut i: usize = 0;
        assert(all.take(0) =~= Seq::<RecordView>::empty());
        while i < batch.len()
            invariant
                i <= batch.len(),
                all == batch.deep_view(),
                self.wf(),
                self@ == merge(old(self)@, all.take(i as int)),
            decreases batch.len() - i,
        {
            proof {
                assert(all.take(i + 1).drop_last() =~= all.take(i as int));
                assert(all.take(i + 1).last() == batch[i as int]@);
            }
            self.upsert(batch[i].duplicate());
            i += 1;
        }
        assert(all.take(i as int) =~= all);
    }

    /// The domain names of the entities, each once.
    pub fn names(&self) -> (names: Vec<String>)
        requires
            self.wf(),
        ensures
            names.deep_view().no_duplicates(),
            forall|name: Seq<char>| names.deep_view().contains(name) <==> self@.dom().contains(name),
    {
        let ghost all = self.entities.deep_view();
        let mut names: Vec<String> = Vec::new();
        let mut i: usize = 0;
        while i < self.entities.len()
            invariant
                i <= self.entities.len(),
                all == self.entities.deep_view(),
                names.len() == i,
                forall|k: int| 0 <= k < i ==> (#[trigger] names[k])@ == all[k].domain_name,
            decreases self.entities.len() - i,
        {
            names.push(self.entities[i].domain_name.clone());
            i += 1;
        }
        proof {
            lemma_merge_overrides(Map::empty(), all);
            assert(names.deep_view() =~= domain_names(all));
            assert forall|i: int, j: int|
                0 <= i < names.len() && 0 <= j < names.len() && i != j implies names.deep_view()[i]
                != names.deep_view()[j] by {
                if i < j {
                    assert(all[i].domain_name != all[j].domain_name);
                } else {
                    assert(all[j].domain_name != all[i].domain_name);
                }
            }
        }
        names
    }
}

} // verus!
