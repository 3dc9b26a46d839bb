use vstd::prelude::*;
use std::collections::HashMap;
use crate::page::Page;
use crate::schema::KnownObject;

verus! {

broadcast use vstd::std_specs::hash::group_hash_axioms;

/// Object types recorded per page, in the order they were recorded.
pub struct ClassifierResultMap(pub HashMap<u32, Vec<KnownObject>>);

impl ClassifierResultMap {
    /// The records: for each page number that has any, the object types in recording order.
    pub open spec fn view(&self) -> Map<u32, Seq<KnownObject>> {
        Map::new(|k: u32| self.0@.contains_key(k), |k: u32| self.0@[k]@)
    }

    /// The records of one page: empty when the page has none.
    pub open spec fn records_of(&self, page: u32) -> Seq<KnownObject> {
        if self.0@.contains_key(page) {
            self.0@[page]@
        } else {
            Seq::empty()
        }
    }

    /// Appends `class` to the records of `page`.
    pub fn insert_in_page(&mut self, page: Page, class: KnownObject)
        ensures
            final(self).view() == old(self).view().insert(
                page.0,
                old(self).records_of(page.0).push(class),
            ),
    {
        let removed = self.0.remove(&page.0);
        match removed {
            Some(mut list) => {
                list.push(class);
                self.0.insert(page.0, list);
            },
            None => {
                let mut list: Vec<KnownObject> = Vec::new();
                list.push(class);
                self.0.insert(page.0, list);
            },
        }
        assert(self.view() =~= old(self).view().insert(
            page.0,
            old(self).records_of(page.0).push(class),
        ));
    }

    /// A map without records; `capacity` only sizes the allocation.
    pub fn with_capacity(capacity: usize) -> (r: Self)
        ensures
            r.view() == Map::<u32, Seq<KnownObject>>::empty(),
    {
        let r = ClassifierResultMap(HashMap::with_capacity(capacity));
        assert(r.view() =~= Map::<u32, Seq<KnownObject>>::empty());
        r
    }

    /// The records of `page`, if it has any.
    pub fn get(&self, page: Page) -> (r: Option<&Vec<KnownObject>>)
        ensures
            r is Some <==> self.view().contains_key(page.0),
            r is Some ==> r.unwrap()@ == self.view()[page.0],
    {
        self.0.get(&page.0)
    }
}

} // verus!
