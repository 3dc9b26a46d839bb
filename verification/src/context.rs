use vstd::prelude::*;
use std::collections::HashMap;
use crate::page::Page;
use crate::result_map::ClassifierResultMap;
use crate::schema::{
    KnownObject, ObjectCastError, OBJECT_COUNT, root_object, is_independent, spec_root,
    spec_is_independent,
};

verus! {

broadcast use vstd::std_specs::hash::group_hash_axioms;

/// What the classifier knows of the document so far.
pub struct Context {
    /// The object type decided for each page, keyed by page number.
    pub pages: HashMap<u32, KnownObject>,
    pub page_count: usize,
    pub start_page: Page,
    pub end_page: Page,
    /// The independent object type that the pages being classified currently sit under.
    pub current_parent: KnownObject,
    /// For each page that opened a new parent, the parents it replaced.
    pub prev_parents: ClassifierResultMap,
    /// For each page, the object types that it is known not to be.
    pub guarantee_failures: ClassifierResultMap,
}

/// One change that a decision made to the context.
#[derive(Debug, Clone, Copy, PartialEq, Eq, Structural)]
pub enum ContextUpdate {
    Decision(Page, KnownObject),
    NewParent(KnownObject),
}

/// A failure to record a decision.
#[derive(Debug, Clone, Copy, PartialEq, Eq, Structural)]
pub enum ContextError {
    ClassOutOfBounds(ObjectCastError),
}

/// The changes a sequence of decisions made, oldest first.
pub type ContextUpdateHistory = Vec<ContextUpdate>;

/// `after` is `before` once `page` has been decided as `class`: the decision is recorded,
/// and when it opens a new parent, `class` becomes the current parent and the parent it
/// replaces is remembered at `page`; nothing else changes.
pub open spec fn spec_decided(before: &Context, after: &Context, page: Page, class: KnownObject) -> bool {
    &&& after.pages@ == before.pages@.insert(page.0, class)
    &&& after.start_page == before.start_page
    &&& after.end_page == before.end_page
    &&& after.page_count == before.page_count
    &&& after.guarantee_failures.view() == before.guarantee_failures.view()
    &&& if before.opens_new_parent(page, class) {
        &&& after.current_parent == class
        &&& after.prev_parents.view() == before.prev_parents.view().insert(
            page.0,
            before.prev_parents.records_of(page.0).push(before.current_parent),
        )
    } else {
        &&& after.current_parent == before.current_parent
        &&& after.prev_parents.view() == before.prev_parents.view()
    }
}

impl Context {
    /// The decisions made so far, keyed by page number.
    pub open spec fn decisions(&self) -> Map<u32, KnownObject> {
        self.pages@
    }

    /// Whether `page` is the page classification started on.
    pub open spec fn spec_is_first_page(&self, page: Page) -> bool {
        self.start_page == page
    }

    /// Whether the page before `page` can be looked up: `page` is not the first page, lies
    /// within the page range, and the page before it has been decided.
    pub open spec fn can_look_back(&self, page: Page) -> bool {
        &&& !self.spec_is_first_page(page)
        &&& page.0 <= self.end_page.0
        &&& page.0 >= 1
        &&& self.pages@.contains_key((page.0 - 1) as u32)
    }

    /// The decision made for the page before `page`.
    pub open spec fn spec_previous(&self, page: Page) -> KnownObject {
        self.pages@[(page.0 - 1) as u32]
    }

    /// A context for classifying the pages `start_page..end_page`, with nothing decided yet
    /// and the schema's root as the current parent.
    pub fn new(start_page: Page, end_page: Page) -> (r: Self)
        requires
            start_page.0 <= end_page.0,
        ensures
            r.pages@ == Map::<u32, KnownObject>::empty(),
            r.page_count == end_page.0 - start_page.0,
            r.start_page == start_page,
            r.end_page == end_page,
            r.current_parent == spec_root(),
            r.prev_parents.view() == Map::<u32, Seq<KnownObject>>::empty(),
            r.guarantee_failures.view() == Map::<u32, Seq<KnownObject>>::empty(),
    {
        let page_count = (end_page.0 - start_page.0) as usize;
        Context {
            pages: HashMap::new(),
            page_count,
            start_page,
            end_page,
            current_parent: root_object(),
            prev_parents: ClassifierResultMap::with_capacity(OBJECT_COUNT as usize),
            guarantee_failures: ClassifierResultMap::with_capacity(page_count),
        }
    }

    /// The decision made for the page before `page`.
    pub fn previous_page_inference(&self, current_page: Page) -> (r: &KnownObject)
        requires
            self.can_look_back(current_page),
        ensures
            *r == self.spec_previous(current_page),
    {
        let prev = current_page.previous();
        let r = self.pages.get(&prev.0);
        r.unwrap()
    }

    /// Whether `page` is the page classification started on.
    pub fn is_first_page(&self, page: Page) -> (r: bool)
        ensures
            r == self.spec_is_first_page(page),
    {
        self.start_page == page
    }

    /// Records that `page` is known not to be `class`.
    pub fn guarantee_failure_of(&mut self, class: KnownObject, page: Page)
        ensures
            final(self).guarantee_failures.view() == old(self).guarantee_failures.view().insert(
                page.0,
                old(self).guarantee_failures.records_of(page.0).push(class),
            ),
            final(self).pages == old(self).pages,
            final(self).start_page == old(self).start_page,
            final(self).end_page == old(self).end_page,
            final(self).current_parent == old(self).current_parent,
            final(self).prev_parents.view() == old(self).prev_parents.view(),
            final(self).page_count == old(self).page_count,
    {
        self.guarantee_failures.insert_in_page(page, class);
    }

    /// The decision made for `page`, if any.
    pub fn get_decision(&self, page: Page) -> (r: Option<&KnownObject>)
        ensures
            r is Some <==> self.pages@.contains_key(page.0),
            r is Some ==> *r.unwrap() == self.pages@[page.0],
    {
        self.pages.get(&page.0)
    }

    /// Makes `class` the current parent, remembering the one it replaces at `page`.
    fn update_current_parent(
        &mut self,
        page: Page,
        class: KnownObject,
        difference_history: &mut ContextUpdateHistory,
    )
        ensures
            final(self).current_parent == class,
            final(self).prev_parents.view() == old(self).prev_parents.view().insert(
                page.0,
                old(self).prev_parents.records_of(page.0).push(old(self).current_parent),
            ),
            final(difference_history)@ == old(difference_history)@.push(
                ContextUpdate::NewParent(class),
            ),
            final(self).pages == old(self).pages,
            final(self).start_page == old(self).start_page,
            final(self).end_page == old(self).end_page,
            final(self).guarantee_failures.view() == old(self).guarantee_failures.view(),
            final(self).page_count == old(self).page_count,
    {
        let parent = self.current_parent;
        self.prev_parents.insert_in_page(page, parent);
        self.current_parent = class;
        difference_history.push(ContextUpdate::NewParent(class));
    }

    /// Whether deciding `class` on `page` opens a new parent: every page but the first
    /// whose class is independent and differs from the current parent does.
    pub open spec fn opens_new_parent(&self, page: Page, class: KnownObject) -> bool {
        !self.spec_is_first_page(page) && spec_is_independent(class) && class
            != self.current_parent
    }

    /// Decides that `page` is `class`, records the decision in `difference_history`, and,
    /// when the decision opens a new parent, makes `class` the current parent.
    pub fn decide(
        &mut self,
        page: Page,
        class: KnownObject,
        difference_history: &mut ContextUpdateHistory,
    ) -> (r: Result<(), ContextError>)
        ensures
            r is Ok,
            spec_decided(old(self), final(self), page, class),
            old(self).opens_new_parent(page, class) ==> final(difference_history)@ == old(
                difference_history,
            )@.push(ContextUpdate::Decision(page, class)).push(ContextUpdate::NewParent(class)),
            !old(self).opens_new_parent(page, class) ==> final(difference_history)@ == old(
                difference_history,
            )@.push(ContextUpdate::Decision(page, class)),
    {
        self.pages.insert(page.0, class);
        difference_history.push(ContextUpdate::Decision(page, class));
        if self.is_first_page(page) {
            return Ok(());
        }
        if !is_independent(class) {
            return Ok(());
        }
        let current_discrim: u8 = class.discriminant();
        let parent_discrim: u8 = self.current_parent.discriminant();
        if current_discrim != parent_discrim {
            self.update_current_parent(page, class, difference_history);
        }
        Ok(())
    }
}

/// A decision, once made, is what a look back from the following page reads.
pub proof fn lemma_decision_read_back(ctx: Context, page: Page, class: KnownObject)
    requires
        ctx.pages@.contains_key(page.0),
        ctx.pages@[page.0] == class,
        page.0 < ctx.end_page.0,
        ctx.start_page.0 != page.0 + 1,
    ensures
        ctx.can_look_back(Page((page.0 + 1) as u32)),
        ctx.spec_previous(Page((page.0 + 1) as u32)) == class,
{
}

/// Deciding a page changes the decision of that page alone.
pub proof fn lemma_decide_changes_one_page(
    before: Map<u32, KnownObject>,
    page: Page,
    class: KnownObject,
    other: u32,
)
    requires
        other != page.0,
    ensures
        before.insert(page.0, class)[page.0] == class,
        before.insert(page.0, class).contains_key(other) == before.contains_key(other),
        before.contains_key(other) ==> before.insert(page.0, class)[other] == before[other],
{
}

/// A run of decisions: `cs[i + 1]` is `cs[i]` once page `ds[i].0` was decided as `ds[i].1`.
pub open spec fn spec_decision_run(cs: Seq<Context>, ds: Seq<(Page, KnownObject)>) -> bool {
    &&& cs.len() == ds.len() + 1
    &&& forall|i: int|
        0 <= i < ds.len() ==> #[trigger] spec_decided(&cs[i], &cs[i + 1], ds[i].0, ds[i].1)
}

/// The last decision a run of decisions made for page number `q`, if any.
pub open spec fn spec_last_decision(ds: Seq<(Page, KnownObject)>, q: u32) -> Option<KnownObject>
    decreases ds.len(),
{
    if ds.len() == 0 {
        None
    } else if ds.last().0.0 == q {
        Some(ds.last().1)
    } else {
        spec_last_decision(ds.drop_last(), q)
    }
}

/// After a run of decisions, a page reads the last decision made for it, however many
/// decisions of other pages followed; a page the run never decided reads what it read
/// before the run.
pub proof fn lemma_decisions_read_back(cs: Seq<Context>, ds: Seq<(Page, KnownObject)>, q: u32)
    requires
        spec_decision_run(cs, ds),
    ensures
        spec_last_decision(ds, q) matches Some(c) ==> cs.last().pages@.contains_key(q)
            && cs.last().pages@[q] == c,
        spec_last_decision(ds, q) is None ==> {
            &&& cs.last().pages@.contains_key(q) == cs[0].pages@.contains_key(q)
            &&& cs[0].pages@.contains_key(q) ==> cs.last().pages@[q] == cs[0].pages@[q]
        },
    decreases ds.len(),
{
    if ds.len() > 0 {
        let cs0 = cs.drop_last();
        let ds0 = ds.drop_last();
        assert forall|i: int| 0 <= i < ds0.len() implies #[trigger] spec_decided(
            &cs0[i],
            &cs0[i + 1],
            ds0[i].0,
            ds0[i].1,
        ) by {
            assert(spec_decided(&cs[i], &cs[i + 1], ds[i].0, ds[i].1));
        }
        lemma_decisions_read_back(cs0, ds0, q);
        let n = ds.len() - 1;
        assert(spec_decided(&cs[n], &cs[n + 1], ds[n].0, ds[n].1));
        assert(cs0.last() == cs[n]);
    }
}

/// Deciding a page records it, and moves the current parent exactly when the page is not
/// the first and its class is an independent type other than the current parent, at any
/// depth of the hierarchy: the new class becomes the current parent and the page remembers
/// the parent it replaced. Otherwise the current parent and the parent history stay.
pub proof fn lemma_decide_moves_parent(
    before: &Context,
    after: &Context,
    page: Page,
    class: KnownObject,
)
    requires
        spec_decided(before, after, page, class),
    ensures
        after.pages@.contains_key(page.0),
        after.pages@[page.0] == class,
        (page != before.start_page && spec_is_independent(class) && class != before.current_parent)
            ==> {
            &&& after.current_parent == class
            &&& after.prev_parents.view().contains_key(page.0)
            &&& after.prev_parents.view()[page.0] == before.prev_parents.records_of(page.0).push(
                before.current_parent,
            )
            &&& forall|q: u32|
                q != page.0 ==> after.prev_parents.view().contains_key(q)
                    == before.prev_parents.view().contains_key(q)
        },
        !(page != before.start_page && spec_is_independent(class) && class
            != before.current_parent) ==> {
            &&& after.current_parent == before.current_parent
            &&& after.prev_parents.view() == before.prev_parents.view()
        },
{
}

} // verus!
